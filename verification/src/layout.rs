//! The layout of a packed value, as a function from values to bytes.
//!
//! A record is laid out as a 2-byte size prefix, then its fixed region (one
//! slot per field, in declaration order), then its heap (the records among its
//! fields, in declaration order, each laid out in the same way). The slot of a
//! scalar holds the scalar; the slot of a record holds the distance from the
//! slot to the place where that record begins.

use crate::bytes::{le_bytes, lemma_le_bytes_len, window};
use crate::value::{fields_fixed_size, Tree};
use vstd::prelude::*;

verus! {

/// The width of the size prefix that every record begins with.
pub const PREFIX_SIZE: u32 = 2;

/// The width of an offset slot.
pub const SLOT_SIZE: u32 = 4;

/// What a value adds to the heap of its parent: nothing for a scalar, the whole
/// layout of a record.
pub open spec fn variable_bytes(tree: Tree) -> Seq<u8>
    decreases tree, 0nat, 0nat,
{
    match tree {
        Tree::Struct(fields) => record_bytes(fields),
        _ => Seq::empty(),
    }
}

/// The layout of a record with the given fields: prefix, fixed region, heap.
pub open spec fn record_bytes(fields: Seq<Tree>) -> Seq<u8>
    decreases fields, fields.len() + 1, 0nat,
{
    le_bytes(2 + fields_fixed_size(fields, fields.len()), 2) + fixed_bytes(fields, fields.len())
        + heap_bytes(fields, fields.len())
}

/// The heap that the first `n` fields of a record fill.
pub open spec fn heap_bytes(fields: Seq<Tree>, n: nat) -> Seq<u8>
    decreases fields, n, 0nat,
{
    if n == 0 || n > fields.len() {
        Seq::empty()
    } else {
        heap_bytes(fields, (n - 1) as nat) + variable_bytes(fields[n - 1])
    }
}

/// Where the slot of field `j` stands, counted from the start of its record.
pub open spec fn slot_position(fields: Seq<Tree>, j: nat) -> nat {
    2 + fields_fixed_size(fields, j)
}

/// Where the heap entry of field `j` begins, counted from the start of its record.
pub open spec fn heap_position(fields: Seq<Tree>, j: nat) -> nat
    decreases fields, j, 1nat,
{
    if j > fields.len() {
        0
    } else {
        2 + fields_fixed_size(fields, fields.len()) + heap_bytes(fields, j).len()
    }
}

/// The distance from the slot of field `j` to its heap entry.
pub open spec fn slot_offset(fields: Seq<Tree>, j: nat) -> nat
    decreases fields, j, 2nat,
{
    (heap_position(fields, j) - slot_position(fields, j)) as nat
}

/// The slot of field `j`: the scalar itself, or the offset of a record.
pub open spec fn slot_bytes(fields: Seq<Tree>, j: nat) -> Seq<u8>
    decreases fields, j, 3nat,
{
    if j >= fields.len() {
        Seq::empty()
    } else if fields[j as int].is_struct() {
        le_bytes(slot_offset(fields, j), 4)
    } else {
        le_bytes(fields[j as int].raw(), fields[j as int].fixed_size())
    }
}

/// The slots of the first `n` fields of a record.
pub open spec fn fixed_bytes(fields: Seq<Tree>, n: nat) -> Seq<u8>
    decreases fields, n, 4nat,
{
    if n == 0 || n > fields.len() {
        Seq::empty()
    } else {
        fixed_bytes(fields, (n - 1) as nat) + slot_bytes(fields, (n - 1) as nat)
    }
}

/// What packing a value on its own yields: the bytes of a scalar, the layout of
/// a record.
pub open spec fn packed_bytes(tree: Tree) -> Seq<u8> {
    match tree {
        Tree::Struct(fields) => record_bytes(fields),
        _ => le_bytes(tree.raw(), tree.fixed_size()),
    }
}

/// Whether a value can be packed: in it every record's fixed region, with its
/// prefix, is small enough for the 2-byte prefix to state, and every record's
/// layout is short enough for 4-byte offsets to reach across it.
pub open spec fn encodable(tree: Tree) -> bool
    decreases tree,
{
    match tree {
        Tree::Struct(fields) => {
            &&& 2 + fields_fixed_size(fields, fields.len()) <= u16::MAX
            &&& record_bytes(fields).len() <= u32::MAX
            &&& forall|i: int| 0 <= i < fields.len() ==> encodable(#[trigger] fields[i])
        },
        _ => true,
    }
}

/// The fixed size of a record's first fields grows with their number.
pub proof fn lemma_fields_fixed_size_monotonic(fields: Seq<Tree>, a: nat, b: nat)
    requires
        a <= b <= fields.len(),
    ensures
        fields_fixed_size(fields, a) <= fields_fixed_size(fields, b),
    decreases b,
{
    if a < b {
        lemma_fields_fixed_size_monotonic(fields, a, (b - 1) as nat);
    }
}

/// A slot is as wide as the fixed size of its field.
pub proof fn lemma_slot_bytes_len(fields: Seq<Tree>, j: nat)
    requires
        j < fields.len(),
    ensures
        slot_bytes(fields, j).len() == fields[j as int].fixed_size(),
{
    if fields[j as int].is_struct() {
        lemma_le_bytes_len(slot_offset(fields, j), 4);
    } else {
        lemma_le_bytes_len(fields[j as int].raw(), fields[j as int].fixed_size());
    }
}

/// The slots of the first `n` fields are as long as their fixed sizes together.
pub proof fn lemma_fixed_bytes_len(fields: Seq<Tree>, n: nat)
    requires
        n <= fields.len(),
    ensures
        fixed_bytes(fields, n).len() == fields_fixed_size(fields, n),
    decreases n,
{
    if n > 0 {
        lemma_fixed_bytes_len(fields, (n - 1) as nat);
        lemma_slot_bytes_len(fields, (n - 1) as nat);
    }
}

/// The heap grows with the number of fields that fill it.
pub proof fn lemma_heap_bytes_monotonic(fields: Seq<Tree>, a: nat, b: nat)
    requires
        a <= b <= fields.len(),
    ensures
        heap_bytes(fields, a).len() <= heap_bytes(fields, b).len(),
        heap_bytes(fields, a) == heap_bytes(fields, b).subrange(0, heap_bytes(fields, a).len() as int),
    decreases b,
{
    if a < b {
        lemma_heap_bytes_monotonic(fields, a, (b - 1) as nat);
        assert(heap_bytes(fields, a) =~= heap_bytes(fields, b).subrange(
            0,
            heap_bytes(fields, a).len() as int,
        ));
    } else {
        assert(heap_bytes(fields, a) =~= heap_bytes(fields, b).subrange(
            0,
            heap_bytes(fields, a).len() as int,
        ));
    }
}

/// The length of a record's layout: prefix, fixed region and heap.
pub proof fn lemma_record_bytes_len(fields: Seq<Tree>)
    ensures
        record_bytes(fields).len() == 2 + fields_fixed_size(fields, fields.len()) + heap_bytes(
            fields,
            fields.len(),
        ).len(),
        record_bytes(fields).len() == heap_position(fields, fields.len()),
{
    lemma_le_bytes_len(2 + fields_fixed_size(fields, fields.len()), 2);
    lemma_fixed_bytes_len(fields, fields.len());
}

/// Where the slot of field `j` lies in the fixed region of the first `n` fields.
pub proof fn lemma_fixed_bytes_slot(fields: Seq<Tree>, n: nat, j: nat)
    requires
        j < n <= fields.len(),
    ensures
        fields_fixed_size(fields, j) + fields[j as int].fixed_size() <= fields_fixed_size(fields, n),
        window(fixed_bytes(fields, n), fields_fixed_size(fields, j), fields[j as int].fixed_size())
            == slot_bytes(fields, j),
    decreases n,
{
    let m = (n - 1) as nat;
    lemma_fixed_bytes_len(fields, m);
    lemma_fixed_bytes_len(fields, n);
    lemma_slot_bytes_len(fields, m);
    if j < m {
        lemma_fixed_bytes_slot(fields, m, j);
    }
    assert(window(
        fixed_bytes(fields, n),
        fields_fixed_size(fields, j),
        fields[j as int].fixed_size(),
    ) =~= slot_bytes(fields, j));
}

/// Where the parts of a record lie in its layout: the prefix at its start, the
/// slot of field `j` in the fixed region, and the heap entry of field `j` in
/// the heap, each within the layout and in this order.
pub proof fn lemma_record_parts(fields: Seq<Tree>, j: nat)
    requires
        j < fields.len(),
    ensures
        window(record_bytes(fields), 0, 2) == le_bytes(
            2 + fields_fixed_size(fields, fields.len()),
            2,
        ),
        window(record_bytes(fields), slot_position(fields, j), fields[j as int].fixed_size())
            == slot_bytes(fields, j),
        window(
            record_bytes(fields),
            heap_position(fields, j),
            variable_bytes(fields[j as int]).len(),
        ) == variable_bytes(fields[j as int]),
        slot_position(fields, j) + fields[j as int].fixed_size() == slot_position(fields, j + 1),
        slot_position(fields, j + 1) <= 2 + fields_fixed_size(fields, fields.len()),
        2 + fields_fixed_size(fields, fields.len()) <= heap_position(fields, j),
        heap_position(fields, j) + variable_bytes(fields[j as int]).len() == heap_position(
            fields,
            j + 1,
        ),
        heap_position(fields, j + 1) <= record_bytes(fields).len(),
{
    let count = fields.len();
    let prefix = le_bytes(2 + fields_fixed_size(fields, count), 2);
    let fixed = fixed_bytes(fields, count);
    let heap = heap_bytes(fields, count);
    lemma_le_bytes_len(2 + fields_fixed_size(fields, count), 2);
    lemma_fixed_bytes_len(fields, count);
    lemma_fixed_bytes_slot(fields, count, j);
    lemma_fields_fixed_size_monotonic(fields, j + 1, count);
    lemma_heap_bytes_monotonic(fields, j + 1, count);
    lemma_record_bytes_len(fields);
    assert(window(record_bytes(fields), 0, 2) =~= prefix);
    assert(window(record_bytes(fields), slot_position(fields, j), fields[j as int].fixed_size())
        =~= window(fixed, fields_fixed_size(fields, j), fields[j as int].fixed_size()));
    let entry = variable_bytes(fields[j as int]);
    let earlier = heap_bytes(fields, j);
    assert(heap_bytes(fields, j + 1) == earlier + entry);
    assert(window(heap, earlier.len(), entry.len()) =~= window(
        heap_bytes(fields, j + 1),
        earlier.len(),
        entry.len(),
    ));
    assert(window(earlier + entry, earlier.len(), entry.len()) =~= entry);
    assert(window(record_bytes(fields), heap_position(fields, j), entry.len()) =~= window(
        heap,
        earlier.len(),
        entry.len(),
    ));
}

/// A record's layout is at least its prefix, and a record's offset reaches at
/// least past its own slot.
pub proof fn lemma_slot_offset_bounds(fields: Seq<Tree>, j: nat)
    requires
        j < fields.len(),
        fields[j as int].is_struct(),
    ensures
        4 <= slot_offset(fields, j),
        slot_position(fields, j) + slot_offset(fields, j) == heap_position(fields, j),
        slot_offset(fields, j) <= record_bytes(fields).len(),
        2 <= variable_bytes(fields[j as int]).len(),
{
    lemma_record_parts(fields, j);
    lemma_record_bytes_len(fields[j as int].fields());
}

} // verus!
