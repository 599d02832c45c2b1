//! What holds of the encoder and the decoder together.

use crate::bytes::{
    le_bytes, le_value, lemma_le_bytes_len, lemma_le_value_of_bytes, lemma_pow256_values, pow256,
    window,
};
use crate::layout::{
    encodable, heap_position, lemma_record_bytes_len, lemma_record_parts,
    lemma_slot_offset_bounds, packed_bytes, record_bytes, slot_bytes, slot_offset, slot_position,
    variable_bytes,
};
use crate::schema::{members_fixed_size, Member, Shape};
use crate::unpack::{parse_field, parse_fields, parse_record, scalar_tree, unpacked, Error};
use crate::value::{fields_fixed_size, lemma_fields_fixed_size_of_shape, Tree, Value};
use vstd::prelude::*;

verus! {

/// Whether `data` holds `bytes` from `start` on, but perhaps for those at the
/// places from `lo` up to `hi` of `bytes`.
pub open spec fn holds_except(data: Seq<u8>, start: nat, bytes: Seq<u8>, lo: nat, hi: nat) -> bool {
    &&& start + bytes.len() <= data.len()
    &&& forall|k: int|
        0 <= k < bytes.len() && !(lo <= k < hi) ==> data[start + k] == #[trigger] bytes[k]
}

/// Whether `data` holds `bytes` from `start` on.
pub open spec fn holds(data: Seq<u8>, start: nat, bytes: Seq<u8>) -> bool {
    holds_except(data, start, bytes, 0, 0)
}

/// Whether the places from `lo` up to `hi` of a record's layout lie clear of
/// the slots and the heap entries of its first `n` fields.
pub open spec fn clear_of(fields: Seq<Tree>, n: nat, lo: nat, hi: nat) -> bool {
    ||| hi <= lo
    ||| {
        &&& slot_position(fields, n) <= lo
        &&& (hi <= 2 + fields_fixed_size(fields, fields.len()) || heap_position(fields, n) <= lo)
    }
}

/// A part of what `data` holds, away from the places left open, is held too.
pub proof fn lemma_holds_part(
    data: Seq<u8>,
    start: nat,
    bytes: Seq<u8>,
    lo: nat,
    hi: nat,
    at: nat,
    len: nat,
)
    requires
        holds_except(data, start, bytes, lo, hi),
        at + len <= bytes.len(),
        hi <= lo || at + len <= lo || hi <= at,
    ensures
        window(data, start + at, len) == window(bytes, at, len),
        holds(data, start + at, window(bytes, at, len)),
{
    let part = window(bytes, at, len);
    assert forall|k: int| 0 <= k < len implies data[start + at + k] == #[trigger] part[k] by {
        assert(part[k] == bytes[at + k]);
    }
    assert(window(data, start + at, len) =~= part);
}

/// The number that a scalar is packed as fits its width, and stands for it.
proof fn lemma_scalar_of_raw(tree: Tree, shape: Shape)
    requires
        tree.has_shape(shape),
        !tree.is_struct(),
    ensures
        tree.raw() < pow256(tree.fixed_size()),
        scalar_tree(shape, tree.raw()) == tree,
        le_value(le_bytes(tree.raw(), tree.fixed_size())) == tree.raw(),
        le_bytes(tree.raw(), tree.fixed_size()).len() == shape.fixed_size(),
{
    lemma_pow256_values();
    lemma_le_value_of_bytes(tree.raw(), tree.fixed_size());
    lemma_le_bytes_len(tree.raw(), tree.fixed_size());
    match tree {
        Tree::I8(x) => {
            assert(((x as u8) as i8) == x) by (bit_vector);
        },
        Tree::I16(x) => {
            assert(((x as u16) as i16) == x) by (bit_vector);
        },
        Tree::I32(x) => {
            assert(((x as u32) as i32) == x) by (bit_vector);
        },
        Tree::I64(x) => {
            assert(((x as u64) as i64) == x) by (bit_vector);
        },
        _ => {},
    }
}

/// Where `data` holds the layout of a record from `start` on, reading a record
/// of its shape there gives the record.
pub proof fn lemma_parse_record_held(
    fields: Seq<Tree>,
    members: Seq<Member>,
    data: Seq<u8>,
    start: nat,
)
    requires
        Tree::Struct(fields).has_shape(Shape::Struct(members)),
        encodable(Tree::Struct(fields)),
        holds(data, start, record_bytes(fields)),
    ensures
        parse_record(members, data, start) == Ok::<Tree, Error>(Tree::Struct(fields)),
    decreases fields, fields.len() + 1,
{
    let count = fields.len();
    lemma_parse_fields_held(fields, members, data, start, count, 0, 0);
    lemma_prefix_held(fields, members, data, start, 0, 0);
    assert(fields.subrange(0, count as int) =~= fields);
}

/// Where `data` holds the layout of a record but for places after its prefix,
/// the prefix read there is the one that the record's shape asks for.
pub proof fn lemma_prefix_held(
    fields: Seq<Tree>,
    members: Seq<Member>,
    data: Seq<u8>,
    start: nat,
    lo: nat,
    hi: nat,
)
    requires
        Tree::Struct(fields).has_shape(Shape::Struct(members)),
        encodable(Tree::Struct(fields)),
        holds_except(data, start, record_bytes(fields), lo, hi),
        hi <= lo || 2 <= lo,
    ensures
        start + 2 <= data.len(),
        le_value(window(data, start, 2)) == 2 + members_fixed_size(members, members.len()),
{
    let count = fields.len();
    lemma_record_bytes_len(fields);
    lemma_fields_fixed_size_of_shape(fields, members, count);
    lemma_holds_part(data, start, record_bytes(fields), lo, hi, 0, 2);
    lemma_pow256_values();
    lemma_le_value_of_bytes(2 + fields_fixed_size(fields, count), 2);
    lemma_le_bytes_len(2 + fields_fixed_size(fields, count), 2);
    let prefix = le_bytes(2 + fields_fixed_size(fields, count), 2);
    assert(window(record_bytes(fields), 0, 2) =~= prefix);
}

/// Where `data` holds the layout of a record from `start` on, but perhaps for
/// places that lie clear of its first `n` fields, reading these fields gives
/// them.
pub proof fn lemma_parse_fields_held(
    fields: Seq<Tree>,
    members: Seq<Member>,
    data: Seq<u8>,
    start: nat,
    n: nat,
    lo: nat,
    hi: nat,
)
    requires
        Tree::Struct(fields).has_shape(Shape::Struct(members)),
        encodable(Tree::Struct(fields)),
        holds_except(data, start, record_bytes(fields), lo, hi),
        n <= fields.len(),
        clear_of(fields, n, lo, hi),
    ensures
        parse_fields(members, data, start + 2, n) == Ok::<Seq<Tree>, Error>(
            fields.subrange(0, n as int),
        ),
    decreases fields, n,
{
    if n == 0 {
        assert(fields.subrange(0, 0) =~= Seq::<Tree>::empty());
    } else {
        let m = (n - 1) as nat;
        let field = fields[m as int];
        let shape = members[m as int].shape;
        let pos = start + slot_position(fields, m);
        lemma_record_parts(fields, m);
        lemma_record_bytes_len(fields);
        lemma_fields_fixed_size_of_shape(fields, members, m);
        assert(clear_of(fields, m, lo, hi));
        lemma_parse_fields_held(fields, members, data, start, m, lo, hi);
        assert(field.has_shape(shape));
        lemma_holds_part(
            data,
            start,
            record_bytes(fields),
            lo,
            hi,
            slot_position(fields, m),
            field.fixed_size(),
        );
        assert(window(data, pos, shape.fixed_size()) == slot_bytes(fields, m));
        assert(pos == start + 2 + members_fixed_size(members, m));
        if field.is_struct() {
            let inner = field.fields();
            let inner_members = shape.members();
            lemma_slot_offset_bounds(fields, m);
            lemma_pow256_values();
            lemma_le_value_of_bytes(slot_offset(fields, m), 4);
            lemma_holds_part(
                data,
                start,
                record_bytes(fields),
                lo,
                hi,
                heap_position(fields, m),
                variable_bytes(field).len(),
            );
            assert(encodable(field));
            lemma_parse_record_held(inner, inner_members, data, start + heap_position(fields, m));
            assert(parse_field(shape, data, pos) == Ok::<Tree, Error>(field));
        } else {
            lemma_scalar_of_raw(field, shape);
            assert(parse_field(shape, data, pos) == Ok::<Tree, Error>(field));
        }
        assert(fields.subrange(0, n as int) =~= fields.subrange(0, m as int).push(field));
    }
}

/// Unpacking what was packed gives the value back: for every value of a shape
/// that can be packed, reading its packed bytes as that shape yields the value.
pub proof fn lemma_round_trip(tree: Tree, shape: Shape)
    requires
        tree.has_shape(shape),
        encodable(tree),
    ensures
        unpacked(shape, packed_bytes(tree)) == Ok::<Tree, Error>(tree),
{
    let data = packed_bytes(tree);
    match tree {
        Tree::Struct(fields) => {
            lemma_parse_record_held(fields, shape.members(), data, 0);
        },
        _ => {
            lemma_scalar_of_raw(tree, shape);
            assert(window(data, 0, shape.fixed_size()) =~= data);
        },
    }
}

/// Packing is a function of the value alone: two values with the same fields
/// in the same order pack to the same bytes, so that packing one value twice
/// yields the same buffer twice.
pub proof fn lemma_packing_is_stable(first: Value, second: Value)
    requires
        first@ == second@,
    ensures
        packed_bytes(first@) == packed_bytes(second@),
        variable_bytes(first@) == variable_bytes(second@),
{
}

/// A field that was read is of the shape that it was read as.
pub proof fn lemma_parse_field_has_shape(shape: Shape, data: Seq<u8>, pos: nat)
    requires
        parse_field(shape, data, pos) is Ok,
    ensures
        parse_field(shape, data, pos)->Ok_0.has_shape(shape),
    decreases shape, 0nat,
{
    match shape {
        Shape::Struct(members) => {
            let raw = le_value(window(data, pos, 4));
            lemma_parse_record_has_shape(members, data, pos + raw);
        },
        _ => {},
    }
}

/// A record that was read is of the shape that it was read as.
pub proof fn lemma_parse_record_has_shape(members: Seq<Member>, data: Seq<u8>, start: nat)
    requires
        parse_record(members, data, start) is Ok,
    ensures
        parse_record(members, data, start)->Ok_0.has_shape(Shape::Struct(members)),
    decreases members, members.len() + 1,
{
    lemma_parse_fields_have_shapes(members, data, start + 2, members.len());
}

/// The fields that were read are of the shapes that they were read as.
pub proof fn lemma_parse_fields_have_shapes(
    members: Seq<Member>,
    data: Seq<u8>,
    first: nat,
    n: nat,
)
    requires
        n <= members.len(),
        parse_fields(members, data, first, n) is Ok,
    ensures
        parse_fields(members, data, first, n)->Ok_0.len() == n,
        forall|k: int|
            0 <= k < n ==> (#[trigger] parse_fields(members, data, first, n)->Ok_0[k]).has_shape(
                members[k].shape,
            ),
    decreases members, n,
{
    if n > 0 {
        let m = (n - 1) as nat;
        lemma_parse_fields_have_shapes(members, data, first, m);
        lemma_parse_field_has_shape(
            members[m as int].shape,
            data,
            first + members_fixed_size(members, m),
        );
    }
}

/// Whatever a buffer is successfully read as is of the shape asked for.
pub proof fn lemma_unpacked_has_shape(shape: Shape, data: Seq<u8>)
    requires
        unpacked(shape, data) is Ok,
    ensures
        unpacked(shape, data)->Ok_0.has_shape(shape),
{
    match shape {
        Shape::Struct(members) => lemma_parse_record_has_shape(members, data, 0),
        _ => lemma_parse_field_has_shape(shape, data, 0),
    }
}

} // verus!
