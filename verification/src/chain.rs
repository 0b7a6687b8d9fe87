//! Words, operations and changes of the chain.

use vstd::prelude::*;
use vstd::utf8::encode_utf8;
use crate::outside::{keccak, keccak_of};
use crate::replica::Replica;

verus! {

/// A word of the chain: 32 bytes, the most significant first.
pub type Word = Vec<u8>;

/// How many bytes a word has.
pub const WORD: usize = 32;

impl Replica for u8 {
    fn replica(&self) -> (result: Self) {
        *self
    }
}

/// One write that is sent to the chain.
#[derive(Debug, PartialEq, Eq)]
pub struct Operation {
    pub kind: u8,
    pub table_id: Word,
    pub row_id: Word,
    pub column_id: Word,
    pub data: Vec<u8>,
}

/// [`Operation`] in specifications.
pub struct OperationModel {
    pub kind: u8,
    pub table_id: Seq<u8>,
    pub row_id: Seq<u8>,
    pub column_id: Seq<u8>,
    pub data: Seq<u8>,
}

impl DeepView for Operation {
    type V = OperationModel;

    open spec fn deep_view(&self) -> OperationModel {
        OperationModel {
            kind: self.kind,
            table_id: self.table_id@,
            row_id: self.row_id@,
            column_id: self.column_id@,
            data: self.data@,
        }
    }
}

/// One write that the chain has applied.
#[derive(Debug, PartialEq, Eq)]
pub struct Change {
    pub revision: u64,
    pub kind: u8,
    pub table: Word,
    pub row: Word,
    pub column: Word,
    pub data: Vec<u8>,
}

/// [`Change`] in specifications.
pub struct ChangeModel {
    pub revision: u64,
    pub kind: u8,
    pub table: Seq<u8>,
    pub row: Seq<u8>,
    pub column: Seq<u8>,
    pub data: Seq<u8>,
}

impl DeepView for Change {
    type V = ChangeModel;

    open spec fn deep_view(&self) -> ChangeModel {
        ChangeModel {
            revision: self.revision,
            kind: self.kind,
            table: self.table@,
            row: self.row@,
            column: self.column@,
            data: self.data@,
        }
    }
}

/// The changes up to one block.
#[derive(Debug, PartialEq, Eq)]
pub struct ChainSnapshot {
    pub block_number: u64,
    pub block_hash: Word,
    pub revision: u64,
    pub changes: Vec<Change>,
}

// ---------------------------------------------------------------------------------------------
// Words
// ---------------------------------------------------------------------------------------------

/// The number written in `width` bytes, the most significant first.
pub open spec fn big_endian(value: nat, width: nat) -> Seq<u8>
    decreases width,
{
    if width == 0 {
        Seq::empty()
    } else {
        big_endian(value / 256, (width - 1) as nat).push((value % 256) as u8)
    }
}

/// The number that bytes write, the most significant first.
pub open spec fn bytes_value(bytes: Seq<u8>) -> nat
    decreases bytes.len(),
{
    if bytes.len() == 0 {
        0
    } else {
        bytes_value(bytes.drop_last()) * 256 + bytes.last() as nat
    }
}

/// The word of a number.
pub open spec fn id_of(value: u64) -> Seq<u8> {
    big_endian(value as nat, 32)
}

/// The number of a word, where it fits 64 bits.
pub open spec fn number_of(word: Seq<u8>) -> Option<u64> {
    if bytes_value(word) <= u64::MAX {
        Some(bytes_value(word) as u64)
    } else {
        None
    }
}

proof fn big_endian_length(value: nat, width: nat)
    ensures
        big_endian(value, width).len() == width,
    decreases width,
{
    if width > 0 {
        big_endian_length(value / 256, (width - 1) as nat);
    }
}

/// The bytes that write a number write it, where there are enough of them.
proof fn big_endian_value(value: nat, width: nat)
    ensures
        bytes_value(big_endian(value, width)) == value % pow256(width),
        pow256(width) > 0,
    decreases width,
{
    if width == 0 {
        assert(value % 1 == 0);
    } else {
        let less = (width - 1) as nat;
        big_endian_value(value / 256, less);
        let p = pow256(less);
        let bytes = big_endian(value, width);
        assert(bytes.drop_last() =~= big_endian(value / 256, less));
        assert(bytes.last() as nat == value % 256);
        assert(((value / 256) % p) * 256 + value % 256 == value % (256 * p)) by (nonlinear_arith)
            requires
                p > 0,
        {
            let q = value / 256;
            let r = value % 256;
            let s = q / p;
            let t = q % p;
            assert(value == 256 * q + r);
            assert(q == p * s + t && 0 <= t < p);
            assert(value == (256 * p) * s + (256 * t + r));
            assert(0 <= 256 * t + r < 256 * p);
            vstd::arithmetic::div_mod::lemma_fundamental_div_mod_converse(
                value as int,
                (256 * p) as int,
                s as int,
                (256 * t + r) as int,
            );
        }
    }
}

/// 256 to the power of `width`.
pub open spec fn pow256(width: nat) -> nat
    decreases width,
{
    if width == 0 {
        1
    } else {
        256 * pow256((width - 1) as nat)
    }
}

/// A word has 32 bytes, and reading the number of a word gives back the number.
pub proof fn number_of_id(value: u64)
    ensures
        id_of(value).len() == 32,
        number_of(id_of(value)) == Some(value),
{
    big_endian_length(value as nat, 32);
    big_endian_value(value as nat, 32);
    assert(pow256(32) > u64::MAX) by {
        reveal_with_fuel(pow256, 33);
    }
    vstd::arithmetic::div_mod::lemma_small_mod(value as nat, pow256(32));
}

/// Two numbers with the same word are the same.
pub proof fn ids_differ(a: u64, b: u64)
    ensures
        id_of(a) == id_of(b) ==> a == b,
{
    number_of_id(a);
    number_of_id(b);
}

/// The word of a number.
pub fn id(value: u64) -> (result: Word)
    ensures
        result@ == id_of(value),
        result@.len() == 32,
{
    let mut bytes: Vec<u8> = Vec::new();
    let mut i: usize = 0;
    while i < WORD
        invariant
            i <= 32,
            bytes.len() == i,
        decreases 32 - i,
    {
        bytes.push(0);
        i += 1;
    }
    let mut rest: u64 = value;
    assert(bytes@.skip(32) =~= Seq::<u8>::empty());
    proof {
        big_endian_length(value as nat, 32);
    }
    assert(big_endian(value as nat, 32) + Seq::<u8>::empty() =~= big_endian(value as nat, 32));
    while i > 0
        invariant
            i <= 32,
            bytes.len() == 32,
            id_of(value) == big_endian(rest as nat, i as nat) + bytes@.skip(i as int),
        decreases i,
    {
        let ghost tail = bytes@.skip(i as int);
        let low: u8 = (rest % 256) as u8;
        i -= 1;
        bytes.set(i, low);
        proof {
            assert(bytes@.skip(i as int) =~= seq![low] + tail);
            assert(big_endian(rest as nat, (i + 1) as nat) == big_endian((rest / 256) as nat, i as nat).push(
                low,
            ));
            assert(big_endian((rest / 256) as nat, i as nat).push(low) + tail =~= big_endian(
                (rest / 256) as nat,
                i as nat,
            ) + (seq![low] + tail));
        }
        rest = rest / 256;
    }
    assert(bytes@.skip(0) =~= bytes@);
    assert(Seq::<u8>::empty() + bytes@ =~= bytes@);
    bytes
}

proof fn bytes_value_grows(bytes: Seq<u8>, k: int)
    requires
        0 <= k <= bytes.len(),
    ensures
        bytes_value(bytes.take(k)) <= bytes_value(bytes),
    decreases bytes.len(),
{
    if k == bytes.len() {
        assert(bytes.take(k) =~= bytes);
    } else {
        bytes_value_grows(bytes.drop_last(), k);
        assert(bytes.drop_last().take(k) =~= bytes.take(k));
    }
}

/// The number of a word, where it fits 64 bits.
pub fn number(word: &Word) -> (result: Option<u64>)
    ensures
        result == number_of(word@),
{
    let mut value: u64 = 0;
    let mut i: usize = 0;
    assert(word@.take(0) =~= Seq::<u8>::empty());
    while i < word.len()
        invariant
            i <= word.len(),
            value == bytes_value(word@.take(i as int)),
        decreases word.len() - i,
    {
        proof {
            let next = word@.take(i + 1);
            assert(next.drop_last() =~= word@.take(i as int));
            assert(next.last() == word@[i as int]);
            bytes_value_grows(word@, i + 1);
        }
        if value > 72057594037927935 {
            return None;
        }
        value = value * 256 + word[i] as u64;
        i += 1;
    }
    assert(word@.take(word@.len() as int) =~= word@);
    Some(value)
}

/// The word of zero.
pub open spec fn zero_word() -> Seq<u8> {
    id_of(0)
}

/// The word under which a name is stored: the Keccak-256 hash of its UTF-8 bytes.
pub open spec fn key_of(name: Seq<char>) -> Seq<u8> {
    keccak_of(encode_utf8(name))
}

/// The UTF-8 bytes of a text.
pub fn bytes_of(text: &str) -> (result: Vec<u8>)
    ensures
        result@ == encode_utf8(text@),
{
    let source = text.as_bytes();
    let mut bytes: Vec<u8> = Vec::new();
    let mut i: usize = 0;
    while i < source.len()
        invariant
            i <= source@.len(),
            bytes@ == source@.take(i as int),
        decreases source@.len() - i,
    {
        bytes.push(source[i]);
        assert(source@.take(i + 1) =~= source@.take(i as int).push(source@[i as int]));
        i += 1;
    }
    assert(source@.take(source@.len() as int) =~= source@);
    bytes
}

/// The word under which a name is stored: the Keccak-256 hash of its UTF-8 bytes.
pub fn key(name: &str) -> (result: Word)
    ensures
        result@ == key_of(name@),
        result@.len() == 32,
{
    keccak(&bytes_of(name))
}

/// The operation with these parts.
pub fn operation(kind: u8, table: Word, row: Word, column: Word, data: Vec<u8>) -> (result: Operation)
    ensures
        result.deep_view() == (OperationModel {
            kind,
            table_id: table@,
            row_id: row@,
            column_id: column@,
            data: data@,
        }),
{
    Operation { kind, table_id: table, row_id: row, column_id: column, data }
}

/// Whether two words are the same.
pub fn same_word(a: &Vec<u8>, b: &Vec<u8>) -> (result: bool)
    ensures
        result == (a@ == b@),
{
    if a.len() != b.len() {
        return false;
    }
    let mut i: usize = 0;
    while i < a.len()
        invariant
            i <= a.len() == b.len(),
            forall|j: int| 0 <= j < i ==> a[j] == b[j],
        decreases a.len() - i,
    {
        if a[i] != b[i] {
            return false;
        }
        i += 1;
    }
    assert(a@ =~= b@);
    true
}

/// Whether a gateway may act with full authority: the owner and developers may, and a gateway whose
/// privileged grant is in force.
pub fn is_privileged(owner: bool, developer: bool, granted: bool, authorized: bool) -> (result: bool)
    ensures
        result == (owner || developer || granted && authorized),
{
    owner || developer || granted && authorized
}

} // verus!
