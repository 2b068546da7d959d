//! Sets of column indices as 128 bits, in the order that the execution layer expects: the lowest
//! index in the lowest bit of the first byte.

use crate::column_selection::contains_index;
use crate::primitives::ColumnIndex;
use vstd::prelude::*;
use vstd::seq_lib::{lemma_seq_contains_after_push, seq_to_set_is_finite};
use vstd::set_lib::lemma_len_subset;

verus! {

/// How many bits a bitarray has.
pub const BITARRAY_BITS: usize = 128;

/// Whether bit `i` of a byte is set.
pub open spec fn byte_bit(byte: u8, i: u8) -> bool {
    (byte >> i) & 1 == 1
}

/// Whether bit `i` of a bitarray is set; no bit is set out of range.
pub open spec fn bit_at(bitarray: Seq<u8>, i: int) -> bool {
    0 <= i < BITARRAY_BITS && byte_bit(bitarray[i / 8], (i % 8) as u8)
}

/// Whether the bits of a bitarray are those of the given columns; a column out of range has none.
pub open spec fn holds_columns(bitarray: Seq<u8>, columns: Seq<ColumnIndex>) -> bool {
    forall|i: int|
        0 <= i < BITARRAY_BITS ==> #[trigger] bit_at(bitarray, i) == columns.contains(i as u64)
}

/// Gets bit `i` of a bitarray.
pub fn bitarray_get(bitarray: &[u8; 16], i: usize) -> (result: bool)
    ensures
        result == bit_at(bitarray@, i as int),
        i < 128 ==> result == ((bitarray@[i as int / 8] >> ((i % 8) as u8)) & 1 == 1),
        i >= 128 ==> !result,
{
    if i >= BITARRAY_BITS {
        return false;
    }
    let place: u8 = (i % 8) as u8;
    (bitarray[i / 8] >> place) & 1 == 1
}

/// The bitarray of the columns that a node has custody of.
pub fn custody_columns_to_bitarray(custody_columns: &Vec<ColumnIndex>) -> (result: [u8; 16])
    ensures
        holds_columns(result@, custody_columns@),
        // Column i has bit i, counted from the lowest bit of each byte; all other bits are clear.
        forall|i: int|
            0 <= i < 128 ==> ((#[trigger] result@[i / 8] >> ((i % 8) as u8)) & 1 == 1)
                == custody_columns@.contains(i as u64),
{
    let mut bitarray: [u8; 16] = [0, 0, 0, 0, 0, 0, 0, 0, 0, 0, 0, 0, 0, 0, 0, 0];
    assert forall|i: int| 0 <= i < BITARRAY_BITS implies !#[trigger] bit_at(bitarray@, i) by {
        let place = (i % 8) as u8;
        assert((0u8 >> place) & 1 == 0) by (bit_vector);
    }
    let mut k: usize = 0;
    while k < custody_columns.len()
        invariant
            k <= custody_columns@.len(),
            holds_columns(bitarray@, custody_columns@.take(k as int)),
        decreases custody_columns@.len() - k,
    {
        let column: u64 = custody_columns[k];
        let ghost before = bitarray@;
        let ghost earlier = custody_columns@.take(k as int);
        assert(custody_columns@.take(k + 1) =~= earlier.push(column));
        if column < 128 {
            let byte: usize = (column / 8) as usize;
            let place: u8 = (column % 8) as u8;
            bitarray[byte] = bitarray[byte] | (1u8 << place);
            assert forall|i: int| 0 <= i < BITARRAY_BITS implies #[trigger] bit_at(bitarray@, i)
                == custody_columns@.take(k + 1).contains(i as u64) by {
                lemma_bit_set(before, bitarray@, column as int, i);
                assert(bit_at(before, i) == earlier.contains(i as u64));
                lemma_seq_contains_after_push(earlier, column, i as u64);
            }
        } else {
            assert forall|i: int| 0 <= i < BITARRAY_BITS implies #[trigger] bit_at(bitarray@, i)
                == custody_columns@.take(k + 1).contains(i as u64) by {
                lemma_seq_contains_after_push(earlier, column, i as u64);
            }
        }
        k += 1;
    }
    assert(custody_columns@.take(k as int) =~= custody_columns@);
    assert forall|i: int| 0 <= i < 128 implies ((#[trigger] bitarray@[i / 8] >> ((i % 8) as u8)) & 1
        == 1) == custody_columns@.contains(i as u64) by {
        assert(bit_at(bitarray@, i) == custody_columns@.contains(i as u64));
    }
    bitarray
}

/// Setting one bit of a bitarray leaves the others as they are.
proof fn lemma_bit_set(before: Seq<u8>, after: Seq<u8>, column: int, i: int)
    requires
        before.len() == 16,
        0 <= column < BITARRAY_BITS,
        0 <= i < BITARRAY_BITS,
        after == before.update(column / 8, before[column / 8] | (1u8 << (column % 8) as u8)),
    ensures
        bit_at(after, i) == (bit_at(before, i) || i == column),
{
    let place = (column % 8) as u8;
    let at = (i % 8) as u8;
    if i / 8 == column / 8 {
        let byte = before[column / 8];
        assert(((byte | (1u8 << place)) >> at) & 1 == 1 <==> ((byte >> at) & 1 == 1 || at == place))
            by (bit_vector)
            requires
                place < 8,
                at < 8,
        ;
        assert(i == column <==> at == place);
    }
}

/// The columns in range below `bound` that are among the given ones.
pub open spec fn columns_below(columns: Seq<ColumnIndex>, bound: nat) -> Set<ColumnIndex> {
    columns.to_set().filter(|c: ColumnIndex| c < BITARRAY_BITS && c < bound)
}

/// The position of a column among the set bits of the bitarray of columns: how many distinct
/// columns in range are less than it.
pub open spec fn place_of(columns: Seq<ColumnIndex>, column: ColumnIndex) -> nat {
    columns_below(columns, column as nat).len()
}

/// The position of a column among the set bits of the bitarray of columns.
pub fn find_place(columns: &Vec<ColumnIndex>, column: ColumnIndex) -> (result: usize)
    ensures
        result == place_of(columns@, column),
        result <= BITARRAY_BITS,
{
    let bound: u64 = if column < 128 {
        column
    } else {
        128
    };
    let mut place: usize = 0;
    let mut c: u64 = 0;
    assert(columns_below(columns@, 0) =~= Set::empty());
    while c < bound
        invariant
            c <= bound <= 128,
            place <= c,
            place == columns_below(columns@, c as nat).len(),
        decreases bound - c,
    {
        proof {
            lemma_columns_below(columns@, c);
        }
        if contains_index(columns, c) {
            place += 1;
        }
        c += 1;
    }
    assert(columns_below(columns@, bound as nat) =~= columns_below(columns@, column as nat));
    place
}

/// Raising the bound by one lets at most one column in.
proof fn lemma_columns_below(columns: Seq<ColumnIndex>, c: ColumnIndex)
    requires
        c < BITARRAY_BITS,
    ensures
        columns_below(columns, c as nat).finite(),
        columns_below(columns, c as nat + 1).len() == columns_below(columns, c as nat).len() + (
        if columns.contains(c) {
            1nat
        } else {
            0
        }),
{
    seq_to_set_is_finite(columns);
    let below = columns_below(columns, c as nat);
    let next = columns_below(columns, c as nat + 1);
    columns.to_set().lemma_len_filter(|x: ColumnIndex| x < BITARRAY_BITS && x < c as nat);
    if columns.contains(c) {
        assert(next =~= below.insert(c));
    } else {
        assert(next =~= below);
    }
}

/// Different columns in range have different places, in the order of the columns.
pub proof fn law_places_are_ordered(
    columns: Seq<ColumnIndex>,
    first: ColumnIndex,
    second: ColumnIndex,
)
    requires
        columns.contains(first),
        first < second,
        first < BITARRAY_BITS,
    ensures
        place_of(columns, first) < place_of(columns, second),
{
    seq_to_set_is_finite(columns);
    let below = columns_below(columns, first as nat);
    let more = columns_below(columns, second as nat);
    columns.to_set().lemma_len_filter(|x: ColumnIndex| x < BITARRAY_BITS && x < first as nat);
    columns.to_set().lemma_len_filter(|x: ColumnIndex| x < BITARRAY_BITS && x < second as nat);
    assert(below.insert(first).subset_of(more));
    lemma_len_subset(below.insert(first), more);
}

/// In a list of columns in range, in ascending order, the place of a column is its place in the
/// list.
pub proof fn law_places_in_ascending_order(columns: Seq<ColumnIndex>, k: int)
    requires
        0 <= k < columns.len(),
        forall|i: int, j: int| 0 <= i < j < columns.len() ==> columns[i] < columns[j],
        forall|i: int| 0 <= i < columns.len() ==> #[trigger] columns[i] < BITARRAY_BITS,
    ensures
        place_of(columns, columns[k]) == k,
{
    let earlier = columns.take(k);
    assert forall|c: ColumnIndex| #[trigger] earlier.to_set().contains(c) <==> columns_below(
        columns,
        columns[k] as nat,
    ).contains(c) by {
        if earlier.contains(c) {
            let i = earlier.index_of(c);
            assert(columns[i] == c);
            assert(columns.contains(c));
        }
        if columns.contains(c) && c < columns[k] {
            let i = columns.index_of(c);
            assert(earlier[i] == c);
        }
    }
    assert(earlier.to_set() =~= columns_below(columns, columns[k] as nat));
    assert(earlier.no_duplicates());
    earlier.unique_seq_to_set();
}

/// Getting a bit of the bitarray of custody columns says whether the column is one of them.
pub proof fn law_bitarray_holds_the_custody_columns(
    custody_columns: Seq<ColumnIndex>,
    bitarray: Seq<u8>,
    column: ColumnIndex,
)
    requires
        holds_columns(bitarray, custody_columns),
    ensures
        bit_at(bitarray, column as int) <==> column < BITARRAY_BITS && custody_columns.contains(
            column,
        ),
{
}

/// The place of the column behind one is one higher where that one is asked for, and the same where
/// it is not. The first column has place zero, and no column out of range is asked for.
pub proof fn law_places_count_the_columns_before(
    columns: Seq<ColumnIndex>,
    column: ColumnIndex,
)
    requires
        column < u64::MAX,
    ensures
        place_of(columns, 0) == 0,
        place_of(columns, (column + 1) as u64) == place_of(columns, column) + (if column < 128
            && columns.contains(column) {
            1nat
        } else {
            0
        }),
{
    assert(columns_below(columns, 0) =~= Set::empty());
    if column < 128 {
        lemma_columns_below(columns, column);
    } else {
        assert(columns_below(columns, column as nat + 1) =~= columns_below(
            columns,
            column as nat,
        ));
    }
}

} // verus!
