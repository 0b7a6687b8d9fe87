//! Copies that keep what a value stands for, and small helpers on lists.

use vstd::prelude::*;

verus! {

/// Types whose values can be copied with the same deep view.
pub trait Replica: DeepView + Sized {
    /// A copy that stands for the same value.
    fn replica(&self) -> (result: Self)
        ensures
            result.deep_view() == self.deep_view(),
    ;
}

impl Replica for String {
    fn replica(&self) -> (result: Self) {
        self.clone()
    }
}

impl Replica for bool {
    fn replica(&self) -> (result: Self) {
        *self
    }
}

impl Replica for u64 {
    fn replica(&self) -> (result: Self) {
        *self
    }
}

impl Replica for usize {
    fn replica(&self) -> (result: Self) {
        *self
    }
}

impl Replica for () {
    fn replica(&self) -> (result: Self) {
    }
}

impl<T: Replica> Replica for Option<T> {
    fn replica(&self) -> (result: Self) {
        match self {
            Some(value) => Some(value.replica()),
            None => None,
        }
    }
}

impl<A: Replica, B: Replica> Replica for (A, B) {
    fn replica(&self) -> (result: Self) {
        (self.0.replica(), self.1.replica())
    }
}

impl<T: Replica> Replica for Vec<T> {
    fn replica(&self) -> (result: Self) {
        let mut result: Vec<T> = Vec::new();
        let mut i: usize = 0;
        while i < self.len()
            invariant
                i <= self.len(),
                result.len() == i,
                forall|j: int| 0 <= j < i ==> result[j].deep_view() == self[j].deep_view(),
            decreases self.len() - i,
        {
            result.push(self[i].replica());
            i += 1;
        }
        assert(result.deep_view() =~= self.deep_view());
        result
    }
}

/// Appends an item.
pub fn add_last<T: DeepView>(items: &mut Vec<T>, item: T)
    ensures
        final(items).deep_view() == old(items).deep_view().push(item.deep_view()),
        final(items)@ == old(items)@.push(item),
{
    items.push(item);
    assert(items.deep_view() =~= old(items).deep_view().push(item.deep_view()));
}

/// A list without items.
pub fn no_items<T: DeepView>() -> (result: Vec<T>)
    ensures
        result.deep_view() == Seq::<T::V>::empty(),
        result@ == Seq::<T>::empty(),
{
    let result: Vec<T> = Vec::new();
    assert(result.deep_view() =~= Seq::<T::V>::empty());
    result
}

/// A list of one item.
pub fn one_item<T: DeepView>(item: T) -> (result: Vec<T>)
    ensures
        result.deep_view() == seq![item.deep_view()],
{
    let mut result: Vec<T> = Vec::new();
    result.push(item);
    assert(result.deep_view() =~= seq![item.deep_view()]);
    result
}

} // verus!
