//! A map kept in the order of its keys.

use vstd::prelude::*;
use crate::replica::Replica;
use crate::text::{is_text_before, same, same_names, text_before};
use crate::text::{text_order_irreflexive, text_order_total, text_order_transitive};

verus! {

/// Values with a strict total order.
pub trait Ranked: Sized {
    /// Whether `self` comes strictly before `other`.
    spec fn before(self, other: Self) -> bool;

    proof fn irreflexive(a: Self)
        ensures
            !a.before(a),
    ;

    proof fn transitive(a: Self, b: Self, c: Self)
        requires
            a.before(b),
            b.before(c),
        ensures
            a.before(c),
    ;

    proof fn total(a: Self, b: Self)
        ensures
            a.before(b) || b.before(a) || a == b,
    ;
}

impl Ranked for u64 {
    open spec fn before(self, other: Self) -> bool {
        self < other
    }

    proof fn irreflexive(a: Self) {
    }

    proof fn transitive(a: Self, b: Self, c: Self) {
    }

    proof fn total(a: Self, b: Self) {
    }
}

impl Ranked for Seq<char> {
    open spec fn before(self, other: Self) -> bool {
        text_before(self, other)
    }

    proof fn irreflexive(a: Self) {
        text_order_irreflexive(a);
    }

    proof fn transitive(a: Self, b: Self, c: Self) {
        text_order_transitive(a, b, c);
    }

    proof fn total(a: Self, b: Self) {
        text_order_total(a, b);
    }
}

/// Lexicographic order of two lists of texts.
pub open spec fn names_before(a: Seq<Seq<char>>, b: Seq<Seq<char>>) -> bool
    decreases a.len(),
{
    if b.len() == 0 {
        false
    } else if a.len() == 0 {
        true
    } else if a[0] != b[0] {
        text_before(a[0], b[0])
    } else {
        names_before(a.skip(1), b.skip(1))
    }
}

proof fn names_order_irreflexive(a: Seq<Seq<char>>)
    ensures
        !names_before(a, a),
    decreases a.len(),
{
    if a.len() > 0 {
        names_order_irreflexive(a.skip(1));
    }
}

proof fn names_order_transitive(a: Seq<Seq<char>>, b: Seq<Seq<char>>, c: Seq<Seq<char>>)
    requires
        names_before(a, b),
        names_before(b, c),
    ensures
        names_before(a, c),
    decreases a.len(),
{
    if a.len() > 0 && b.len() > 0 && c.len() > 0 {
        if a[0] == b[0] && b[0] == c[0] {
            names_order_transitive(a.skip(1), b.skip(1), c.skip(1));
        } else if a[0] != b[0] && b[0] != c[0] {
            text_order_transitive(a[0], b[0], c[0]);
            text_order_irreflexive(a[0]);
        }
    }
}

proof fn names_order_total(a: Seq<Seq<char>>, b: Seq<Seq<char>>)
    ensures
        names_before(a, b) || names_before(b, a) || a == b,
    decreases a.len(),
{
    if a.len() > 0 && b.len() > 0 {
        text_order_total(a[0], b[0]);
        if a[0] == b[0] {
            names_order_total(a.skip(1), b.skip(1));
            if a.skip(1) == b.skip(1) {
                assert(a =~= seq![a[0]] + a.skip(1));
                assert(b =~= seq![b[0]] + b.skip(1));
            }
        }
    } else if a.len() == 0 && b.len() == 0 {
        assert(a =~= b);
    }
}

impl Ranked for Seq<Seq<char>> {
    open spec fn before(self, other: Self) -> bool {
        names_before(self, other)
    }

    proof fn irreflexive(a: Self) {
        names_order_irreflexive(a);
    }

    proof fn transitive(a: Self, b: Self, c: Self) {
        names_order_transitive(a, b, c);
    }

    proof fn total(a: Self, b: Self) {
        names_order_total(a, b);
    }
}

impl Ranked for (u64, u64) {
    open spec fn before(self, other: Self) -> bool {
        self.0 < other.0 || self.0 == other.0 && self.1 < other.1
    }

    proof fn irreflexive(a: Self) {
    }

    proof fn transitive(a: Self, b: Self, c: Self) {
    }

    proof fn total(a: Self, b: Self) {
    }
}

/// Lexicographic order of two lists of bytes.
pub open spec fn bytes_before(a: Seq<u8>, b: Seq<u8>) -> bool
    decreases a.len(),
{
    if b.len() == 0 {
        false
    } else if a.len() == 0 {
        true
    } else if a[0] != b[0] {
        a[0] < b[0]
    } else {
        bytes_before(a.skip(1), b.skip(1))
    }
}

proof fn bytes_order_irreflexive(a: Seq<u8>)
    ensures
        !bytes_before(a, a),
    decreases a.len(),
{
    if a.len() > 0 {
        bytes_order_irreflexive(a.skip(1));
    }
}

proof fn bytes_order_transitive(a: Seq<u8>, b: Seq<u8>, c: Seq<u8>)
    requires
        bytes_before(a, b),
        bytes_before(b, c),
    ensures
        bytes_before(a, c),
    decreases a.len(),
{
    if a.len() > 0 && b.len() > 0 && c.len() > 0 && a[0] == b[0] && b[0] == c[0] {
        bytes_order_transitive(a.skip(1), b.skip(1), c.skip(1));
    }
}

proof fn bytes_order_total(a: Seq<u8>, b: Seq<u8>)
    ensures
        bytes_before(a, b) || bytes_before(b, a) || a == b,
    decreases a.len(),
{
    if a.len() > 0 && b.len() > 0 {
        if a[0] == b[0] {
            bytes_order_total(a.skip(1), b.skip(1));
            if a.skip(1) == b.skip(1) {
                assert(a =~= seq![a[0]] + a.skip(1));
                assert(b =~= seq![b[0]] + b.skip(1));
            }
        }
    } else if a.len() == 0 && b.len() == 0 {
        assert(a =~= b);
    }
}

impl Ranked for Seq<u8> {
    open spec fn before(self, other: Self) -> bool {
        bytes_before(self, other)
    }

    proof fn irreflexive(a: Self) {
        bytes_order_irreflexive(a);
    }

    proof fn transitive(a: Self, b: Self, c: Self) {
        bytes_order_transitive(a, b, c);
    }

    proof fn total(a: Self, b: Self) {
        bytes_order_total(a, b);
    }
}

/// Keys of an ordered map.
pub trait Key: Sized {
    /// What a key stands for.
    type M: Ranked;

    spec fn model(&self) -> Self::M;

    /// Whether this key comes strictly before `other`.
    fn is_before(&self, other: &Self) -> (result: bool)
        ensures
            result == self.model().before(other.model()),
    ;

    /// Whether two keys stand for the same value.
    fn is_same(&self, other: &Self) -> (result: bool)
        ensures
            result == (self.model() == other.model()),
    ;

    /// A copy of the key.
    fn copied(&self) -> (result: Self)
        ensures
            result.model() == self.model(),
    ;
}

impl Key for u64 {
    type M = u64;

    open spec fn model(&self) -> u64 {
        *self
    }

    fn is_before(&self, other: &Self) -> (result: bool) {
        assert(self.model().before(other.model()) == (*self < *other));
        *self < *other
    }

    fn is_same(&self, other: &Self) -> (result: bool) {
        *self == *other
    }

    fn copied(&self) -> (result: Self) {
        *self
    }
}

impl Key for String {
    type M = Seq<char>;

    open spec fn model(&self) -> Seq<char> {
        self@
    }

    fn is_before(&self, other: &Self) -> (result: bool) {
        assert(self.model().before(other.model()) == text_before(self@, other@));
        is_text_before(self.as_str(), other.as_str())
    }

    fn is_same(&self, other: &Self) -> (result: bool) {
        same(self.as_str(), other.as_str())
    }

    fn copied(&self) -> (result: Self) {
        self.clone()
    }
}

impl Key for Vec<String> {
    type M = Seq<Seq<char>>;

    open spec fn model(&self) -> Seq<Seq<char>> {
        self.deep_view()
    }

    fn is_before(&self, other: &Self) -> (result: bool) {
        let mut i: usize = 0;
        let ghost a = self.deep_view();
        let ghost b = other.deep_view();
        assert(a.skip(0) =~= a);
        assert(b.skip(0) =~= b);
        assert(self.model().before(other.model()) == names_before(a, b));
        loop
            invariant
                self.model().before(other.model()) == names_before(a, b),
                a == self.deep_view(),
                b == other.deep_view(),
                i <= self.len(),
                i <= other.len(),
                names_before(a, b) == names_before(a.skip(i as int), b.skip(i as int)),
            decreases self.len() - i,
        {
            if i >= other.len() {
                return false;
            }
            if i >= self.len() {
                return true;
            }
            assert(a.skip(i as int)[0] == self[i as int]@);
            assert(b.skip(i as int)[0] == other[i as int]@);
            if !same(self[i].as_str(), other[i].as_str()) {
                return is_text_before(self[i].as_str(), other[i].as_str());
            }
            assert(a.skip(i as int).skip(1) =~= a.skip(i + 1));
            assert(b.skip(i as int).skip(1) =~= b.skip(i + 1));
            i += 1;
        }
    }

    fn is_same(&self, other: &Self) -> (result: bool) {
        same_names(self, other)
    }

    fn copied(&self) -> (result: Self) {
        self.replica()
    }
}

impl Key for (u64, u64) {
    type M = (u64, u64);

    open spec fn model(&self) -> (u64, u64) {
        *self
    }

    fn is_before(&self, other: &Self) -> (result: bool) {
        assert(self.model().before(other.model()) == (self.0 < other.0 || self.0 == other.0 && self.1
            < other.1));
        self.0 < other.0 || self.0 == other.0 && self.1 < other.1
    }

    fn is_same(&self, other: &Self) -> (result: bool) {
        self.0 == other.0 && self.1 == other.1
    }

    fn copied(&self) -> (result: Self) {
        (self.0, self.1)
    }
}

impl Key for Vec<u8> {
    type M = Seq<u8>;

    open spec fn model(&self) -> Seq<u8> {
        self@
    }

    fn is_before(&self, other: &Self) -> (result: bool) {
        let mut i: usize = 0;
        let ghost a = self@;
        let ghost b = other@;
        assert(a.skip(0) =~= a);
        assert(b.skip(0) =~= b);
        assert(self.model().before(other.model()) == bytes_before(a, b));
        loop
            invariant
                self.model().before(other.model()) == bytes_before(a, b),
                a == self@,
                b == other@,
                i <= self.len(),
                i <= other.len(),
                bytes_before(a, b) == bytes_before(a.skip(i as int), b.skip(i as int)),
            decreases self.len() - i,
        {
            if i >= other.len() {
                return false;
            }
            if i >= self.len() {
                return true;
            }
            assert(a.skip(i as int)[0] == self[i as int]);
            assert(b.skip(i as int)[0] == other[i as int]);
            if self[i] != other[i] {
                return self[i] < other[i];
            }
            assert(a.skip(i as int).skip(1) =~= a.skip(i + 1));
            assert(b.skip(i as int).skip(1) =~= b.skip(i + 1));
            i += 1;
        }
    }

    fn is_same(&self, other: &Self) -> (result: bool) {
        if self.len() != other.len() {
            return false;
        }
        let mut i: usize = 0;
        while i < self.len()
            invariant
                i <= self.len() == other.len(),
                forall|j: int| 0 <= j < i ==> self[j] == other[j],
            decreases self.len() - i,
        {
            if self[i] != other[i] {
                return false;
            }
            i += 1;
        }
        assert(self@ =~= other@);
        true
    }

    fn copied(&self) -> (result: Self) {
        let mut result: Vec<u8> = Vec::new();
        let mut i: usize = 0;
        while i < self.len()
            invariant
                i <= self.len(),
                result@ == self@.take(i as int),
            decreases self.len() - i,
        {
            result.push(self[i]);
            assert(self@.take(i + 1) =~= self@.take(i as int).push(self@[i as int]));
            i += 1;
        }
        assert(self@.take(self@.len() as int) =~= self@);
        result
    }
}

// ---------------------------------------------------------------------------------------------
// Entries in specifications
// ---------------------------------------------------------------------------------------------

/// The value of the first entry for `key` at or after position `from`.
pub open spec fn get_from<K, V>(entries: Seq<(K, V)>, key: K, from: int) -> Option<V>
    decreases entries.len() - from,
{
    if from >= entries.len() {
        None
    } else if entries[from].0 == key {
        Some(entries[from].1)
    } else {
        get_from(entries, key, from + 1)
    }
}

/// The value under `key`.
pub open spec fn get<K, V>(entries: Seq<(K, V)>, key: K) -> Option<V> {
    get_from(entries, key, 0)
}

/// Whether there is an entry for `key`.
pub open spec fn has_key<K, V>(entries: Seq<(K, V)>, key: K) -> bool {
    get(entries, key) is Some
}

/// The first position at or after `from` whose key does not come before `key`.
pub open spec fn place_from<K: Ranked, V>(entries: Seq<(K, V)>, key: K, from: int) -> int
    decreases entries.len() - from,
{
    if from >= entries.len() {
        entries.len() as int
    } else if entries[from].0.before(key) {
        place_from(entries, key, from + 1)
    } else {
        from
    }
}

/// The entries with `value` under `key`: replaced where the key is, else inserted in order.
pub open spec fn put<K: Ranked, V>(entries: Seq<(K, V)>, key: K, value: V) -> Seq<(K, V)> {
    let place = place_from(entries, key, 0);
    if place < entries.len() && entries[place].0 == key {
        entries.update(place, (key, value))
    } else {
        entries.insert(place, (key, value))
    }
}

/// The first position at or after `from` with this key, or the length.
pub open spec fn spot_from<K, V>(entries: Seq<(K, V)>, key: K, from: int) -> int
    decreases entries.len() - from,
{
    if from >= entries.len() {
        entries.len() as int
    } else if entries[from].0 == key {
        from
    } else {
        spot_from(entries, key, from + 1)
    }
}

/// The entries without the one for `key`.
pub open spec fn del<K, V>(entries: Seq<(K, V)>, key: K) -> Seq<(K, V)> {
    let spot = spot_from(entries, key, 0);
    if spot < entries.len() {
        entries.remove(spot)
    } else {
        entries
    }
}

/// The entries of `more` from position `from` on put into `entries` one after another.
pub open spec fn put_all_from<K: Ranked, V>(entries: Seq<(K, V)>, more: Seq<(K, V)>, from: int) -> Seq<(K, V)>
    decreases more.len() - from,
{
    if from >= more.len() {
        entries
    } else {
        put_all_from(put(entries, more[from].0, more[from].1), more, from + 1)
    }
}

/// The entries of `more` put into `entries` one after another.
pub open spec fn put_all<K: Ranked, V>(entries: Seq<(K, V)>, more: Seq<(K, V)>) -> Seq<(K, V)> {
    put_all_from(entries, more, 0)
}

/// Whether the keys strictly increase.
pub open spec fn sorted<K: Ranked, V>(entries: Seq<(K, V)>) -> bool {
    forall|i: int, j: int|
        #![trigger entries[i], entries[j]]
        0 <= i < j < entries.len() ==> entries[i].0.before(entries[j].0)
}

pub proof fn place_from_range<K: Ranked, V>(entries: Seq<(K, V)>, key: K, from: int)
    requires
        0 <= from <= entries.len(),
    ensures
        from <= place_from(entries, key, from) <= entries.len(),
        forall|i: int| from <= i < place_from(entries, key, from) ==> (#[trigger] entries[i]).0.before(key),
        place_from(entries, key, from) < entries.len() ==> !entries[place_from(
            entries,
            key,
            from,
        )].0.before(key),
    decreases entries.len() - from,
{
    if from < entries.len() && entries[from].0.before(key) {
        place_from_range(entries, key, from + 1);
    }
}

pub proof fn spot_from_range<K, V>(entries: Seq<(K, V)>, key: K, from: int)
    requires
        0 <= from <= entries.len(),
    ensures
        from <= spot_from(entries, key, from) <= entries.len(),
        forall|i: int| from <= i < spot_from(entries, key, from) ==> (#[trigger] entries[i]).0 != key,
        spot_from(entries, key, from) < entries.len() ==> entries[spot_from(entries, key, from)].0 == key,
        get_from(entries, key, from) == (if spot_from(entries, key, from) < entries.len() {
            Some(entries[spot_from(entries, key, from)].1)
        } else {
            None
        }),
    decreases entries.len() - from,
{
    if from < entries.len() && entries[from].0 != key {
        spot_from_range(entries, key, from + 1);
    }
}

/// The entry at the only position with a key is the one that a lookup finds.
pub proof fn get_at<K: Ranked, V>(entries: Seq<(K, V)>, i: int)
    requires
        sorted(entries),
        0 <= i < entries.len(),
    ensures
        get(entries, entries[i].0) == Some(entries[i].1),
{
    let key = entries[i].0;
    spot_from_range(entries, key, 0);
    let spot = spot_from(entries, key, 0);
    if spot < i {
        assert(entries[spot].0.before(entries[i].0));
        K::irreflexive(key);
    } else if i < spot {
        assert(entries[i].0 != key);
    }
}

/// A key that no position holds has no value.
pub proof fn get_absent<K, V>(entries: Seq<(K, V)>, key: K)
    requires
        forall|i: int| 0 <= i < entries.len() ==> (#[trigger] entries[i]).0 != key,
    ensures
        get(entries, key) is None,
{
    spot_from_range(entries, key, 0);
}

proof fn put_position<K: Ranked, V>(entries: Seq<(K, V)>, key: K, value: V) -> (place: int)
    requires
        sorted(entries),
    ensures
        place == place_from(entries, key, 0),
        0 <= place <= entries.len(),
        forall|i: int| 0 <= i < place ==> (#[trigger] entries[i]).0.before(key),
        forall|i: int| place <= i < entries.len() && (#[trigger] entries[i]).0 != key ==> key.before(entries[i].0),
        place < entries.len() && entries[place].0 != key ==> forall|i: int|
            place <= i < entries.len() ==> key.before((#[trigger] entries[i]).0),
        place < entries.len() && entries[place].0 == key ==> forall|i: int|
            place < i < entries.len() ==> key.before((#[trigger] entries[i]).0),
{
    place_from_range(entries, key, 0);
    let place = place_from(entries, key, 0);
    if place < entries.len() {
        K::total(entries[place].0, key);
        assert forall|i: int| place < i < entries.len() implies key.before((#[trigger] entries[i]).0) by {
            assert(entries[place].0.before(entries[i].0));
            if entries[place].0 != key {
                K::transitive(key, entries[place].0, entries[i].0);
            }
        }
    }
    place
}

/// Putting an entry keeps the keys in order.
pub proof fn put_keeps_order<K: Ranked, V>(entries: Seq<(K, V)>, key: K, value: V)
    requires
        sorted(entries),
    ensures
        sorted(put(entries, key, value)),
{
    let place = put_position(entries, key, value);
    let result = put(entries, key, value);
    assert forall|i: int, j: int|
        #![trigger result[i], result[j]]
        0 <= i < j < result.len() implies result[i].0.before(result[j].0) by {
        if place < entries.len() && entries[place].0 == key {
            assert(result[i].0 == entries[i].0 && result[j].0 == entries[j].0);
            assert(entries[i].0.before(entries[j].0));
        } else {
            if j < place {
                assert(entries[i].0.before(entries[j].0));
            } else if j == place {
                assert(result[i] == entries[i]);
            } else if i < place {
                assert(result[i] == entries[i] && result[j] == entries[j - 1]);
                assert(entries[i].0.before(entries[j - 1].0));
            } else if i == place {
                assert(result[j] == entries[j - 1]);
            } else {
                assert(result[i] == entries[i - 1] && result[j] == entries[j - 1]);
                assert(entries[i - 1].0.before(entries[j - 1].0));
            }
        }
    }
}

/// What a lookup gives back of a put: the new value under its key, the old ones elsewhere.
pub proof fn get_after_put<K: Ranked, V>(entries: Seq<(K, V)>, key: K, value: V, other: K)
    requires
        sorted(entries),
    ensures
        get(put(entries, key, value), other) == (if other == key {
            Some(value)
        } else {
            get(entries, other)
        }),
{
    let place = put_position(entries, key, value);
    let result = put(entries, key, value);
    put_keeps_order(entries, key, value);
    assert(result[place] == (key, value));
    if other == key {
        get_at(result, place);
    } else {
        spot_from_range(entries, other, 0);
        let spot = spot_from(entries, other, 0);
        let replaced = place < entries.len() && entries[place].0 == key;
        if spot < entries.len() {
            let moved = if replaced || spot < place {
                spot
            } else {
                spot + 1
            };
            assert(result[moved] == entries[spot]);
            get_at(result, moved);
            get_at(entries, spot);
        } else {
            assert forall|i: int| 0 <= i < result.len() implies (#[trigger] result[i]).0 != other by {
                if i != place {
                    let source = if replaced || i < place {
                        i
                    } else {
                        i - 1
                    };
                    assert(result[i] == entries[source]);
                }
            }
            get_absent(result, other);
        }
    }
}

/// Deleting an entry keeps the keys in order.
pub proof fn del_keeps_order<K: Ranked, V>(entries: Seq<(K, V)>, key: K)
    requires
        sorted(entries),
    ensures
        sorted(del(entries, key)),
{
    spot_from_range(entries, key, 0);
    let spot = spot_from(entries, key, 0);
    let result = del(entries, key);
    assert forall|i: int, j: int|
        #![trigger result[i], result[j]]
        0 <= i < j < result.len() implies result[i].0.before(result[j].0) by {
        let a = if spot < entries.len() && i >= spot {
            i + 1
        } else {
            i
        };
        let b = if spot < entries.len() && j >= spot {
            j + 1
        } else {
            j
        };
        assert(result[i] == entries[a] && result[j] == entries[b]);
        assert(entries[a].0.before(entries[b].0));
    }
}

/// What a lookup gives back of a deletion: nothing under the key, the old values elsewhere.
pub proof fn get_after_del<K: Ranked, V>(entries: Seq<(K, V)>, key: K, other: K)
    requires
        sorted(entries),
    ensures
        get(del(entries, key), other) == (if other == key {
            None
        } else {
            get(entries, other)
        }),
{
    spot_from_range(entries, key, 0);
    let spot = spot_from(entries, key, 0);
    let result = del(entries, key);
    del_keeps_order(entries, key);
    spot_from_range(entries, other, 0);
    let found = spot_from(entries, other, 0);
    if other != key && found < entries.len() {
        let moved = if spot < entries.len() && found > spot {
            found - 1
        } else {
            found
        };
        assert(result[moved] == entries[found]);
        get_at(result, moved);
        get_at(entries, found);
    } else {
        assert forall|i: int| 0 <= i < result.len() implies (#[trigger] result[i]).0 != other by {
            let source = if spot < entries.len() && i >= spot {
                i + 1
            } else {
                i
            };
            assert(result[i] == entries[source]);
            if other == key && spot < entries.len() && source > spot {
                assert(entries[spot].0.before(entries[source].0));
                K::irreflexive(key);
            }
        }
        get_absent(result, other);
    }
}

// ---------------------------------------------------------------------------------------------
// The map
// ---------------------------------------------------------------------------------------------

/// A map as a list of entries in the order of their keys.
#[derive(Debug, PartialEq, Eq)]
pub struct OrdMap<K, V> {
    pub entries: Vec<(K, V)>,
}

impl<K: Key, V: DeepView> View for OrdMap<K, V> {
    type V = Seq<(K::M, V::V)>;

    open spec fn view(&self) -> Seq<(K::M, V::V)> {
        Seq::new(
            self.entries@.len(),
            |i: int| (self.entries@[i].0.model(), self.entries@[i].1.deep_view()),
        )
    }
}

impl<K: Key, V: DeepView> DeepView for OrdMap<K, V> {
    type V = Seq<(K::M, V::V)>;

    open spec fn deep_view(&self) -> Seq<(K::M, V::V)> {
        self@
    }
}

impl<K: Key, V: DeepView> OrdMap<K, V> {
    /// Whether the keys are in order, none of them twice. A new map is in order, and every operation
    /// keeps it so.
    pub open spec fn ordered(&self) -> bool {
        sorted(self@)
    }

    /// A map without entries.
    pub fn new() -> (result: Self)
        ensures
            result@ == Seq::<(K::M, V::V)>::empty(),
            result.ordered(),
    {
        let result = OrdMap { entries: Vec::new() };
        assert(result@ =~= Seq::<(K::M, V::V)>::empty());
        result
    }

    /// How many entries there are.
    pub fn len(&self) -> (result: usize)
        ensures
            result == self@.len(),
    {
        self.entries.len()
    }

    /// The value at a position.
    pub fn value_at(&self, i: usize) -> (result: &V)
        requires
            i < self@.len(),
        ensures
            result.deep_view() == self@[i as int].1,
    {
        &self.entries[i].1
    }

    /// The key at a position.
    pub fn key_at(&self, i: usize) -> (result: &K)
        requires
            i < self@.len(),
        ensures
            result.model() == self@[i as int].0,
    {
        &self.entries[i].0
    }

    /// Replaces the value at a position.
    pub fn set_at(&mut self, i: usize, value: V)
        requires
            i < old(self)@.len(),
        ensures
            final(self)@ == old(self)@.update(i as int, (old(self)@[i as int].0, value.deep_view())),
            old(self).ordered() ==> final(self).ordered(),
    {
        let ghost before = self@;
        let key = self.entries[i].0.copied();
        self.entries.set(i, (key, value));
        assert(self@ =~= before.update(i as int, (before[i as int].0, value.deep_view())));
    }

    /// The value under `key`.
    pub fn get(&self, key: &K) -> (result: Option<&V>)
        ensures
            result.deep_view() == get(self@, key.model()),
    {
        let mut i: usize = 0;
        while i < self.entries.len()
            invariant
                i <= self@.len(),
                get(self@, key.model()) == get_from(self@, key.model(), i as int),
            decreases self.entries.len() - i,
        {
            if self.entries[i].0.is_same(key) {
                return Some(&self.entries[i].1);
            }
            i += 1;
        }
        None
    }

    /// Whether there is an entry for `key`.
    pub fn contains(&self, key: &K) -> (result: bool)
        ensures
            result == has_key(self@, key.model()),
    {
        match self.get(key) {
            Some(_) => true,
            None => false,
        }
    }

    /// Puts `value` under `key`.
    pub fn insert(&mut self, key: K, value: V)
        ensures
            final(self)@ == put(old(self)@, key.model(), value.deep_view()),
            old(self).ordered() ==> final(self).ordered(),
    {
        proof {
            if self.ordered() {
                put_keeps_order(self@, key.model(), value.deep_view());
            }
        }
        let mut i: usize = 0;
        while i < self.entries.len() && self.entries[i].0.is_before(&key)
            invariant
                i <= self@.len(),
                self@ == old(self)@,
                place_from(self@, key.model(), 0) == place_from(self@, key.model(), i as int),
            decreases self.entries.len() - i,
        {
            i += 1;
        }
        let ghost before = self@;
        if i < self.entries.len() && self.entries[i].0.is_same(&key) {
            self.entries.set(i, (key, value));
            assert(self@ =~= before.update(i as int, (key.model(), value.deep_view())));
        } else {
            self.entries.insert(i, (key, value));
            assert(self@ =~= before.insert(i as int, (key.model(), value.deep_view())));
        }
    }

    /// Removes the entry for `key` and returns its value.
    pub fn remove(&mut self, key: &K) -> (result: Option<V>)
        ensures
            final(self)@ == del(old(self)@, key.model()),
            result.deep_view() == get(old(self)@, key.model()),
            old(self).ordered() ==> final(self).ordered(),
    {
        proof {
            if self.ordered() {
                del_keeps_order(self@, key.model());
            }
        }
        let mut i: usize = 0;
        while i < self.entries.len()
            invariant
                i <= self@.len(),
                self@ == old(self)@,
                spot_from(self@, key.model(), 0) == spot_from(self@, key.model(), i as int),
                get(self@, key.model()) == get_from(self@, key.model(), i as int),
            decreases self.entries.len() - i,
        {
            if self.entries[i].0.is_same(key) {
                let ghost before = self@;
                let (_, value) = self.entries.remove(i);
                assert(self@ =~= before.remove(i as int));
                return Some(value);
            }
            i += 1;
        }
        None
    }
}

impl<V: DeepView> OrdMap<String, V> {
    /// The value under the key `name`.
    pub fn find(&self, name: &str) -> (result: Option<&V>)
        ensures
            result.deep_view() == get(self@, name@),
    {
        let mut i: usize = 0;
        while i < self.entries.len()
            invariant
                i <= self@.len(),
                get(self@, name@) == get_from(self@, name@, i as int),
            decreases self.entries.len() - i,
        {
            if same(self.entries[i].0.as_str(), name) {
                return Some(&self.entries[i].1);
            }
            i += 1;
        }
        None
    }

    /// Whether there is an entry for `name`.
    pub fn holds(&self, name: &str) -> (result: bool)
        ensures
            result == has_key(self@, name@),
    {
        match self.find(name) {
            Some(_) => true,
            None => false,
        }
    }
}

impl<K: Key, V: Replica> OrdMap<K, V> {
    /// Puts copies of the entries of `more`, one after another.
    pub fn extend(&mut self, more: &OrdMap<K, V>)
        ensures
            final(self)@ == put_all(old(self)@, more@),
            old(self).ordered() ==> final(self).ordered(),
    {
        let mut i: usize = 0;
        while i < more.entries.len()
            invariant
                i <= more@.len(),
                old(self).ordered() ==> self.ordered(),
                put_all(old(self)@, more@) == put_all_from(self@, more@, i as int),
            decreases more.entries.len() - i,
        {
            self.insert(more.entries[i].0.copied(), more.entries[i].1.replica());
            i += 1;
        }
    }
}

impl<K: Key, V: Replica> Replica for OrdMap<K, V> {
    fn replica(&self) -> (result: Self) {
        let mut entries: Vec<(K, V)> = Vec::new();
        let mut i: usize = 0;
        while i < self.entries.len()
            invariant
                i <= self.entries.len(),
                entries.len() == i,
                forall|j: int|
                    0 <= j < i ==> (#[trigger] entries[j]).0.model() == self.entries[j].0.model()
                        && entries[j].1.deep_view() == self.entries[j].1.deep_view(),
            decreases self.entries.len() - i,
        {
            entries.push((self.entries[i].0.copied(), self.entries[i].1.replica()));
            i += 1;
        }
        let result = OrdMap { entries };
        assert(result@ =~= self@);
        result
    }
}

impl<K: Key, V: Replica> Clone for OrdMap<K, V> {
    fn clone(&self) -> (result: Self)
        ensures
            result@ == self@,
    {
        self.replica()
    }
}

} // verus!
