//! Records inside records: where each one lies in the layout of the outermost,
//! and what its prefix and its offset slots hold there.

use crate::bytes::{
    le_bytes, le_value, lemma_le_bytes_len, lemma_le_value_of_bytes, lemma_pow256_values, window,
};
use crate::layout::{
    encodable, heap_position, lemma_record_bytes_len, lemma_record_parts,
    lemma_slot_offset_bounds, record_bytes, slot_bytes, slot_offset, slot_position,
    variable_bytes,
};
use crate::value::{fields_fixed_size, Tree};
use vstd::prelude::*;

verus! {

/// Whether `path` leads from a record with the given fields to a record inside
/// it: each step names a field of the record reached so far that is a record.
pub open spec fn path_leads(fields: Seq<Tree>, path: Seq<int>) -> bool
    decreases path.len(),
{
    if path.len() == 0 {
        true
    } else {
        &&& 0 <= path[0] < fields.len()
        &&& fields[path[0]].is_struct()
        &&& path_leads(fields[path[0]].fields(), path.drop_first())
    }
}

/// The fields of the record that `path` leads to.
pub open spec fn record_at(fields: Seq<Tree>, path: Seq<int>) -> Seq<Tree>
    decreases path.len(),
{
    if path.len() == 0 {
        fields
    } else {
        record_at(fields[path[0]].fields(), path.drop_first())
    }
}

/// Where the record that `path` leads to begins, counted from the start of the
/// outermost record.
pub open spec fn position_at(fields: Seq<Tree>, path: Seq<int>) -> nat
    decreases path.len(),
{
    if path.len() == 0 {
        0
    } else {
        heap_position(fields, path[0] as nat) + position_at(
            fields[path[0]].fields(),
            path.drop_first(),
        )
    }
}

/// The layout of a record inside a record stands whole in the layout of the
/// outer one, at its position, and can be packed if the outer one can.
pub proof fn lemma_record_at_held(fields: Seq<Tree>, path: Seq<int>)
    requires
        path_leads(fields, path),
    ensures
        position_at(fields, path) + record_bytes(record_at(fields, path)).len() <= record_bytes(
            fields,
        ).len(),
        window(
            record_bytes(fields),
            position_at(fields, path),
            record_bytes(record_at(fields, path)).len(),
        ) == record_bytes(record_at(fields, path)),
        encodable(Tree::Struct(fields)) ==> encodable(Tree::Struct(record_at(fields, path))),
        path.len() > 0 ==> 2 + fields_fixed_size(fields, fields.len()) <= position_at(fields, path),
    decreases path.len(),
{
    let whole = record_bytes(fields);
    if path.len() == 0 {
        assert(window(whole, 0, whole.len()) =~= whole);
    } else {
        let i = path[0] as nat;
        let inner = fields[path[0]].fields();
        let rest = path.drop_first();
        let target = record_bytes(record_at(inner, rest));
        lemma_record_parts(fields, i);
        lemma_record_at_held(inner, rest);
        assert(variable_bytes(fields[path[0]]) == record_bytes(inner));
        assert(window(whole, position_at(fields, path), target.len()) =~= window(
            window(whole, heap_position(fields, i), record_bytes(inner).len()),
            position_at(inner, rest),
            target.len(),
        ));
        if encodable(Tree::Struct(fields)) {
            assert(encodable(fields[path[0]]));
        }
    }
}

/// Every record in a packed value begins with a prefix that states 2 plus the
/// fixed sizes of its own fields.
pub proof fn lemma_prefix_states_fixed_size(fields: Seq<Tree>, path: Seq<int>)
    requires
        encodable(Tree::Struct(fields)),
        path_leads(fields, path),
    ensures
        position_at(fields, path) + 2 <= record_bytes(fields).len(),
        le_value(window(record_bytes(fields), position_at(fields, path), 2)) == 2
            + fields_fixed_size(record_at(fields, path), record_at(fields, path).len()),
{
    let inner = record_at(fields, path);
    let stated = 2 + fields_fixed_size(inner, inner.len());
    lemma_record_at_held(fields, path);
    lemma_record_bytes_len(inner);
    lemma_le_bytes_len(stated, 2);
    lemma_pow256_values();
    lemma_le_value_of_bytes(stated, 2);
    assert(window(record_bytes(inner), 0, 2) =~= le_bytes(stated, 2));
    assert(window(record_bytes(fields), position_at(fields, path), 2) =~= window(
        window(record_bytes(fields), position_at(fields, path), record_bytes(inner).len()),
        0,
        2,
    ));
}

/// Every offset slot in a packed value lies within the buffer, holds at least
/// 4 and at most the buffer's length, and leads to a place within the buffer:
/// the place where the record of that slot begins.
pub proof fn lemma_offset_valid(fields: Seq<Tree>, path: Seq<int>, j: nat)
    requires
        encodable(Tree::Struct(fields)),
        path_leads(fields, path),
        j < record_at(fields, path).len(),
        record_at(fields, path)[j as int].is_struct(),
    ensures
        ({
            let buffer = record_bytes(fields);
            let slot = position_at(fields, path) + slot_position(record_at(fields, path), j);
            let offset = le_value(window(buffer, slot, 4));
            &&& slot + 4 <= buffer.len()
            &&& 4 <= offset <= buffer.len()
            &&& slot + offset <= buffer.len()
            &&& slot + offset == position_at(fields, path) + heap_position(
                record_at(fields, path),
                j,
            )
            &&& offset == slot_offset(record_at(fields, path), j)
        }),
{
    let inner = record_at(fields, path);
    let buffer = record_bytes(fields);
    let at = position_at(fields, path);
    lemma_record_at_held(fields, path);
    lemma_record_parts(inner, j);
    lemma_slot_offset_bounds(inner, j);
    lemma_record_bytes_len(inner);
    lemma_pow256_values();
    lemma_le_value_of_bytes(slot_offset(inner, j), 4);
    assert(slot_bytes(inner, j) == le_bytes(slot_offset(inner, j), 4));
    assert(window(buffer, at + slot_position(inner, j), 4) =~= window(
        window(buffer, at, record_bytes(inner).len()),
        slot_position(inner, j),
        4,
    ));
}

} // verus!
