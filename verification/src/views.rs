//! Stored queries.

use vstd::prelude::*;
use crate::replica::Replica;

verus! {

/// A stored query.
#[derive(Debug, PartialEq, Eq)]
pub struct View {
    pub sql: String,
    pub materialized: bool,
}

/// [`View`] in specifications.
pub struct ViewModel {
    pub sql: Seq<char>,
    pub materialized: bool,
}

impl DeepView for View {
    type V = ViewModel;

    open spec fn deep_view(&self) -> ViewModel {
        ViewModel { sql: self.sql.deep_view(), materialized: self.materialized }
    }
}

impl Replica for View {
    fn replica(&self) -> (result: Self) {
        View { sql: self.sql.replica(), materialized: self.materialized }
    }
}

impl Clone for View {
    fn clone(&self) -> (result: Self)
        ensures
            result.deep_view() == self.deep_view(),
    {
        self.replica()
    }
}

} // verus!
