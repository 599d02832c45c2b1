//! What the decoder makes of a buffer in which an offset slot was overwritten
//! with a number below 4.

use crate::bytes::{
    le_bytes, le_value, lemma_le_bytes_len, lemma_le_value_of_bytes, lemma_pow256_values, pow256,
    splice, window,
};
use crate::laws::{
    clear_of, holds_except, lemma_holds_part, lemma_parse_fields_held, lemma_prefix_held,
};
use crate::layout::{
    encodable, heap_position, lemma_record_bytes_len, lemma_record_parts,
    lemma_slot_offset_bounds, record_bytes, slot_offset, slot_position, variable_bytes,
};
use crate::nested::{lemma_record_at_held, path_leads, position_at, record_at};
use crate::schema::{members_fixed_size, Member, Shape};
use crate::unpack::{
    lemma_parse_fields_error, parse_field, parse_fields, parse_record, unpacked, Error,
};
use crate::value::{lemma_fields_fixed_size_of_shape, Tree};
use vstd::prelude::*;

verus! {

/// Where the offset slot of field `j` of the record that `path` leads to
/// stands, counted from the start of the outermost record.
pub open spec fn slot_at(fields: Seq<Tree>, path: Seq<int>, j: nat) -> nat {
    position_at(fields, path) + slot_position(record_at(fields, path), j)
}

/// A part of what `data` holds but for some places is held but for those places.
proof fn lemma_holds_except_part(
    data: Seq<u8>,
    start: nat,
    bytes: Seq<u8>,
    lo: nat,
    hi: nat,
    at: nat,
    len: nat,
)
    requires
        holds_except(data, start, bytes, lo, hi),
        at + len <= bytes.len(),
        at <= lo <= hi,
    ensures
        holds_except(
            data,
            start + at,
            window(bytes, at, len),
            (lo - at) as nat,
            (hi - at) as nat,
        ),
{
    let part = window(bytes, at, len);
    assert forall|k: int| 0 <= k < part.len() && !(lo - at <= k < hi - at) implies data[start + at
        + k] == #[trigger] part[k] by {
        assert(part[k] == bytes[at + k]);
    }
}

/// A record whose prefix is in order and whose field `i` is the first that
/// cannot be read fails with the error of that field.
proof fn lemma_record_fails_at(
    members: Seq<Member>,
    data: Seq<u8>,
    start: nat,
    i: nat,
    e: Error,
)
    requires
        i < members.len(),
        start + 2 <= data.len(),
        le_value(window(data, start, 2)) >= 2 + members_fixed_size(members, members.len()),
        parse_fields(members, data, start + 2, i) is Ok,
        parse_field(members[i as int].shape, data, start + 2 + members_fixed_size(members, i))
            == Err::<Tree, Error>(e),
    ensures
        parse_record(members, data, start) == Err::<Tree, Error>(e),
{
    assert(parse_fields(members, data, start + 2, i + 1) == Err::<Seq<Tree>, Error>(e));
    lemma_parse_fields_error(members, data, start + 2, i + 1, members.len());
}

/// Where `data` holds the layout of a record but for places that lie clear of
/// its first `i` fields and of its prefix, the record is read in order up to
/// field `i`.
proof fn lemma_read_up_to(
    fields: Seq<Tree>,
    members: Seq<Member>,
    data: Seq<u8>,
    start: nat,
    i: nat,
    lo: nat,
    hi: nat,
)
    requires
        Tree::Struct(fields).has_shape(Shape::Struct(members)),
        encodable(Tree::Struct(fields)),
        holds_except(data, start, record_bytes(fields), lo, hi),
        i < fields.len(),
        clear_of(fields, i, lo, hi),
        2 <= lo,
    ensures
        start + 2 <= data.len(),
        le_value(window(data, start, 2)) >= 2 + members_fixed_size(members, members.len()),
        parse_fields(members, data, start + 2, i) is Ok,
        start + 2 + members_fixed_size(members, i) == start + slot_position(fields, i),
        start + slot_position(fields, i) + 4 <= data.len() || !fields[i as int].is_struct(),
        fields[i as int].has_shape(members[i as int].shape),
{
    lemma_prefix_held(fields, members, data, start, lo, hi);
    lemma_parse_fields_held(fields, members, data, start, i, lo, hi);
    lemma_fields_fixed_size_of_shape(fields, members, i);
    lemma_record_parts(fields, i);
    lemma_record_bytes_len(fields);
}

/// Where `data` holds the layout of a record but for the offset slot of its
/// field `j`, and that slot holds less than 4, reading the record fails with
/// `InvalidOffset`.
proof fn lemma_parse_small_offset_here(
    fields: Seq<Tree>,
    members: Seq<Member>,
    data: Seq<u8>,
    start: nat,
    j: nat,
)
    requires
        Tree::Struct(fields).has_shape(Shape::Struct(members)),
        encodable(Tree::Struct(fields)),
        j < fields.len(),
        fields[j as int].is_struct(),
        holds_except(
            data,
            start,
            record_bytes(fields),
            slot_position(fields, j),
            slot_position(fields, j) + 4,
        ),
        le_value(window(data, start + slot_position(fields, j), 4)) < 4,
    ensures
        parse_record(members, data, start) == Err::<Tree, Error>(Error::InvalidOffset),
{
    let lo = slot_position(fields, j);
    lemma_record_parts(fields, j);
    lemma_read_up_to(fields, members, data, start, j, lo, lo + 4);
    lemma_record_fails_at(members, data, start, j, Error::InvalidOffset);
}

/// Where `data` holds the layout of a record but for one offset slot in it,
/// and that slot holds less than 4, reading the record fails with
/// `InvalidOffset`.
proof fn lemma_parse_small_offset(
    fields: Seq<Tree>,
    members: Seq<Member>,
    data: Seq<u8>,
    start: nat,
    path: Seq<int>,
    j: nat,
)
    requires
        Tree::Struct(fields).has_shape(Shape::Struct(members)),
        encodable(Tree::Struct(fields)),
        path_leads(fields, path),
        j < record_at(fields, path).len(),
        record_at(fields, path)[j as int].is_struct(),
        holds_except(
            data,
            start,
            record_bytes(fields),
            slot_at(fields, path, j),
            slot_at(fields, path, j) + 4,
        ),
        le_value(window(data, start + slot_at(fields, path, j), 4)) < 4,
    ensures
        parse_record(members, data, start) == Err::<Tree, Error>(Error::InvalidOffset),
    decreases path.len(),
{
    if path.len() == 0 {
        lemma_parse_small_offset_here(fields, members, data, start, j);
    } else {
        let lo = slot_at(fields, path, j);
        let hi = lo + 4;
        let whole = record_bytes(fields);
        let inner = record_at(fields, path);
        let i = path[0] as nat;
        let field = fields[i as int];
        let shape = members[i as int].shape;
        let sub = field.fields();
        let rest = path.drop_first();
        let entry = heap_position(fields, i);
        lemma_record_parts(fields, i);
        lemma_record_parts(inner, j);
        lemma_record_at_held(sub, rest);
        lemma_slot_offset_bounds(fields, i);
        assert(lo == entry + slot_at(sub, rest, j));
        assert(hi <= entry + record_bytes(sub).len());
        lemma_read_up_to(fields, members, data, start, i, lo, hi);
        lemma_holds_part(data, start, whole, lo, hi, slot_position(fields, i), 4);
        lemma_pow256_values();
        lemma_le_value_of_bytes(slot_offset(fields, i), 4);
        lemma_holds_except_part(data, start, whole, lo, hi, entry, variable_bytes(field).len());
        assert(encodable(field));
        lemma_parse_small_offset(sub, shape.members(), data, start + entry, rest, j);
        lemma_field_fails_inside(fields, members, data, start, i);
        lemma_record_fails_at(members, data, start, i, Error::InvalidOffset);
    }
}

/// A field whose slot is in place, and whose record cannot be read for an
/// offset below 4 in it, cannot be read for that reason.
proof fn lemma_field_fails_inside(
    fields: Seq<Tree>,
    members: Seq<Member>,
    data: Seq<u8>,
    start: nat,
    i: nat,
)
    requires
        i < fields.len() == members.len(),
        fields[i as int].is_struct(),
        members[i as int].shape.is_struct(),
        start + record_bytes(fields).len() <= data.len(),
        window(data, start + slot_position(fields, i), 4) == le_bytes(slot_offset(fields, i), 4),
        slot_offset(fields, i) < pow256(4),
        parse_record(
            members[i as int].shape.members(),
            data,
            start + heap_position(fields, i),
        ) == Err::<Tree, Error>(Error::InvalidOffset),
    ensures
        parse_field(members[i as int].shape, data, start + slot_position(fields, i)) == Err::<
            Tree,
            Error,
        >(Error::InvalidOffset),
{
    lemma_record_parts(fields, i);
    lemma_slot_offset_bounds(fields, i);
    lemma_le_value_of_bytes(slot_offset(fields, i), 4);
}

/// An offset below 4 is rejected: a packed record in which the offset slot of
/// any record, at any depth, was overwritten with 0, 1, 2 or 3, read as a
/// record of its shape, fails with `InvalidOffset`.
pub proof fn lemma_small_offset_rejected(
    fields: Seq<Tree>,
    members: Seq<Member>,
    path: Seq<int>,
    j: nat,
    small: nat,
)
    requires
        Tree::Struct(fields).has_shape(Shape::Struct(members)),
        encodable(Tree::Struct(fields)),
        path_leads(fields, path),
        j < record_at(fields, path).len(),
        record_at(fields, path)[j as int].is_struct(),
        small < 4,
    ensures
        unpacked(
            Shape::Struct(members),
            splice(record_bytes(fields), slot_at(fields, path, j) as int, le_bytes(small, 4)),
        ) == Err::<Tree, Error>(Error::InvalidOffset),
{
    let whole = record_bytes(fields);
    let at = slot_at(fields, path, j);
    let data = splice(whole, at as int, le_bytes(small, 4));
    let inner = record_at(fields, path);
    lemma_record_at_held(fields, path);
    lemma_record_parts(inner, j);
    lemma_record_bytes_len(inner);
    lemma_le_bytes_len(small, 4);
    lemma_pow256_values();
    lemma_le_value_of_bytes(small, 4);
    assert(window(data, at, 4) =~= le_bytes(small, 4));
    assert(data.len() == whole.len());
    assert(holds_except(data, 0, whole, at, at + 4));
    lemma_parse_small_offset(fields, members, data, 0, path, j);
}

} // verus!
