//! What the decoder makes of a buffer that was cut short.

use crate::bytes::{le_value, lemma_le_value_of_bytes, lemma_pow256_values, window};
use crate::laws::{holds, lemma_holds_part, lemma_parse_record_held};
use crate::layout::{
    encodable, heap_bytes, heap_position, lemma_record_bytes_len, lemma_record_parts,
    lemma_slot_offset_bounds, record_bytes, slot_bytes, slot_offset, slot_position,
    variable_bytes,
};
use crate::schema::{members_fixed_size, Member, Shape};
use crate::unpack::{parse_field, parse_fields, parse_record, unpacked, Error};
use crate::value::{lemma_fields_fixed_size_of_shape, Tree};
use vstd::prelude::*;

verus! {

/// Whether reading a buffer cut short gave what reading the whole buffer gives,
/// or else failed for want of bytes.
pub open spec fn same_or_truncated<T>(cut: Result<T, Error>, whole: Result<T, Error>) -> bool {
    cut == whole || cut == Err::<T, Error>(Error::TruncatedInput)
}

/// A field read from a buffer cut short is the field read from the whole
/// buffer, or the reading fails for want of bytes.
pub proof fn lemma_cut_parse_field(shape: Shape, data: Seq<u8>, n: nat, pos: nat)
    requires
        n <= data.len(),
    ensures
        same_or_truncated(
            parse_field(shape, data.subrange(0, n as int), pos),
            parse_field(shape, data, pos),
        ),
    decreases shape, 0nat,
{
    let cut = data.subrange(0, n as int);
    let width = shape.fixed_size();
    if pos + width <= n {
        assert(window(cut, pos, width) =~= window(data, pos, width));
        let raw = le_value(window(data, pos, width));
        match shape {
            Shape::Struct(members) => {
                if raw >= 4 && pos + raw <= n {
                    lemma_cut_parse_record(members, data, n, pos + raw);
                }
            },
            _ => {},
        }
    }
}

/// A record read from a buffer cut short is the record read from the whole
/// buffer, or the reading fails for want of bytes.
pub proof fn lemma_cut_parse_record(members: Seq<Member>, data: Seq<u8>, n: nat, start: nat)
    requires
        n <= data.len(),
    ensures
        same_or_truncated(
            parse_record(members, data.subrange(0, n as int), start),
            parse_record(members, data, start),
        ),
    decreases members, members.len() + 1,
{
    let cut = data.subrange(0, n as int);
    if start + 2 <= n {
        assert(window(cut, start, 2) =~= window(data, start, 2));
        lemma_cut_parse_fields(members, data, n, start + 2, members.len());
    }
}

/// The fields read from a buffer cut short are those read from the whole
/// buffer, or the reading fails for want of bytes.
pub proof fn lemma_cut_parse_fields(
    members: Seq<Member>,
    data: Seq<u8>,
    n: nat,
    first: nat,
    count: nat,
)
    requires
        n <= data.len(),
        count <= members.len(),
    ensures
        same_or_truncated(
            parse_fields(members, data.subrange(0, n as int), first, count),
            parse_fields(members, data, first, count),
        ),
    decreases members, count,
{
    if count > 0 {
        let m = (count - 1) as nat;
        lemma_cut_parse_fields(members, data, n, first, m);
        lemma_cut_parse_field(
            members[m as int].shape,
            data,
            n,
            first + members_fixed_size(members, m),
        );
    }
}

/// A record can be read from a cut buffer only if the cut left its whole
/// layout in place.
pub proof fn lemma_parse_record_reads_all(
    fields: Seq<Tree>,
    members: Seq<Member>,
    data: Seq<u8>,
    start: nat,
    n: nat,
)
    requires
        Tree::Struct(fields).has_shape(Shape::Struct(members)),
        encodable(Tree::Struct(fields)),
        holds(data, start, record_bytes(fields)),
        n <= data.len(),
        parse_record(members, data.subrange(0, n as int), start) is Ok,
    ensures
        start + record_bytes(fields).len() <= n,
    decreases fields, fields.len() + 1,
{
    lemma_record_bytes_len(fields);
    lemma_parse_fields_read_all(fields, members, data, start, n, fields.len());
}

/// The first `count` fields of a record can be read from a cut buffer only if
/// the cut left their slots and their heap entries in place.
pub proof fn lemma_parse_fields_read_all(
    fields: Seq<Tree>,
    members: Seq<Member>,
    data: Seq<u8>,
    start: nat,
    n: nat,
    count: nat,
)
    requires
        Tree::Struct(fields).has_shape(Shape::Struct(members)),
        encodable(Tree::Struct(fields)),
        holds(data, start, record_bytes(fields)),
        start + 2 <= n <= data.len(),
        count <= fields.len(),
        parse_fields(members, data.subrange(0, n as int), start + 2, count) is Ok,
    ensures
        start + slot_position(fields, count) <= n,
        heap_bytes(fields, count).len() > 0 ==> start + heap_position(fields, count) <= n,
    decreases fields, count,
{
    if count > 0 {
        let cut = data.subrange(0, n as int);
        let m = (count - 1) as nat;
        let field = fields[m as int];
        let shape = members[m as int].shape;
        let pos = start + slot_position(fields, m);
        lemma_parse_fields_read_all(fields, members, data, start, n, m);
        lemma_record_parts(fields, m);
        lemma_record_bytes_len(fields);
        lemma_fields_fixed_size_of_shape(fields, members, m);
        assert(field.has_shape(shape));
        assert(pos == start + 2 + members_fixed_size(members, m));
        assert(parse_field(shape, cut, pos) is Ok);
        assert(pos + shape.fixed_size() <= n);
        if field.is_struct() {
            let inner = field.fields();
            lemma_slot_offset_bounds(fields, m);
            lemma_holds_part(
                data,
                start,
                record_bytes(fields),
                0,
                0,
                slot_position(fields, m),
                4,
            );
            lemma_holds_part(
                data,
                start,
                record_bytes(fields),
                0,
                0,
                heap_position(fields, m),
                variable_bytes(field).len(),
            );
            lemma_pow256_values();
            lemma_le_value_of_bytes(slot_offset(fields, m), 4);
            assert(window(cut, pos, 4) =~= window(data, pos, 4));
            assert(window(data, pos, 4) == slot_bytes(fields, m));
            assert(le_value(window(cut, pos, 4)) == slot_offset(fields, m));
            assert(parse_record(shape.members(), cut, start + heap_position(fields, m)) is Ok);
            assert(encodable(field));
            lemma_parse_record_reads_all(
                inner,
                shape.members(),
                data,
                start + heap_position(fields, m),
                n,
            );
        }
    }
}

/// Truncation is rejected: a packed record cut short anywhere, read as a
/// record of its shape, fails with `TruncatedInput`.
pub proof fn lemma_truncation_rejected(fields: Seq<Tree>, members: Seq<Member>, n: nat)
    requires
        Tree::Struct(fields).has_shape(Shape::Struct(members)),
        encodable(Tree::Struct(fields)),
        n < record_bytes(fields).len(),
    ensures
        unpacked(Shape::Struct(members), record_bytes(fields).subrange(0, n as int)) == Err::<
            Tree,
            Error,
        >(Error::TruncatedInput),
{
    let data = record_bytes(fields);
    let cut = data.subrange(0, n as int);
    lemma_parse_record_held(fields, members, data, 0);
    lemma_cut_parse_record(members, data, n, 0);
    if parse_record(members, cut, 0) is Ok {
        lemma_parse_record_reads_all(fields, members, data, 0, n);
    }
}

} // verus!
