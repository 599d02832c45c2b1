//! The decoder: what a buffer holds when read as a value of a given type, and
//! the function that reads it.

use crate::bytes::{le_value, lemma_le_value_bound, lemma_pow256_values, read_le};
use crate::schema::{lemma_view_of_struct_type, members_fixed_size, Member, Shape, Type};
use crate::value::{lemma_trees_of, Tree, Value};
use vstd::prelude::*;

verus! {

/// Why a buffer could not be read as a value of the type asked for.
#[derive(Clone, Copy, Debug, PartialEq, Eq, Structural)]
pub enum Error {
    /// The buffer ends before the bytes that were to be read, or an offset
    /// leads past its end.
    TruncatedInput,
    /// An offset slot holds less than 4.
    InvalidOffset,
    /// A record states a fixed region smaller than its type needs.
    SchemaMismatch,
}

/// The scalar of the given shape that the number `raw` stands for: an unsigned
/// integer or a bit pattern as it is, a signed integer read as two's complement.
pub open spec fn scalar_tree(shape: Shape, raw: nat) -> Tree {
    match shape {
        Shape::U8 => Tree::U8(raw as u8),
        Shape::U16 => Tree::U16(raw as u16),
        Shape::U32 => Tree::U32(raw as u32),
        Shape::U64 => Tree::U64(raw as u64),
        Shape::I8 => Tree::I8((raw as u8) as i8),
        Shape::I16 => Tree::I16((raw as u16) as i16),
        Shape::I32 => Tree::I32((raw as u32) as i32),
        Shape::I64 => Tree::I64((raw as u64) as i64),
        Shape::F32 => Tree::F32(raw as u32),
        Shape::F64 => Tree::F64(raw as u64),
        Shape::Struct(_) => Tree::Struct(Seq::empty()),
    }
}

/// What the slot at `pos` of `data` holds, read as a field of the given shape.
///
/// A scalar is read from the slot. For a record the slot holds the distance
/// from `pos` to the place where the record begins.
pub open spec fn parse_field(shape: Shape, data: Seq<u8>, pos: nat) -> Result<Tree, Error>
    decreases shape, 0nat,
{
    if data.len() < pos + shape.fixed_size() {
        Err(Error::TruncatedInput)
    } else {
        let raw = le_value(data.subrange(pos as int, (pos + shape.fixed_size()) as int));
        match shape {
            Shape::Struct(members) => {
                if raw < 4 {
                    Err(Error::InvalidOffset)
                } else if pos + raw > data.len() {
                    Err(Error::TruncatedInput)
                } else {
                    parse_record(members, data, pos + raw)
                }
            },
            _ => Ok(scalar_tree(shape, raw)),
        }
    }
}

/// What `data` holds from `start` on, read as a record with the given members:
/// the size prefix, then one slot per member.
pub open spec fn parse_record(members: Seq<Member>, data: Seq<u8>, start: nat) -> Result<
    Tree,
    Error,
>
    decreases members, members.len() + 1,
{
    if data.len() < start + 2 {
        Err(Error::TruncatedInput)
    } else if le_value(data.subrange(start as int, (start + 2) as int)) < 2 + members_fixed_size(
        members,
        members.len(),
    ) {
        Err(Error::SchemaMismatch)
    } else {
        match parse_fields(members, data, start + 2, members.len()) {
            Ok(fields) => Ok(Tree::Struct(fields)),
            Err(e) => Err(e),
        }
    }
}

/// The first `n` fields of a record whose fixed region begins at `first`, or
/// the error of the first field among them that cannot be read.
pub open spec fn parse_fields(members: Seq<Member>, data: Seq<u8>, first: nat, n: nat) -> Result<
    Seq<Tree>,
    Error,
>
    decreases members, n,
{
    if n == 0 || n > members.len() {
        Ok(Seq::empty())
    } else {
        match parse_fields(members, data, first, (n - 1) as nat) {
            Err(e) => Err(e),
            Ok(fields) => match parse_field(
                members[n - 1].shape,
                data,
                first + members_fixed_size(members, (n - 1) as nat),
            ) {
                Err(e) => Err(e),
                Ok(field) => Ok(fields.push(field)),
            },
        }
    }
}

/// What `data` holds, read as a value of the given shape packed on its own: a
/// record laid out from the first byte on, or a scalar in the first bytes.
pub open spec fn unpacked(shape: Shape, data: Seq<u8>) -> Result<Tree, Error> {
    match shape {
        Shape::Struct(members) => parse_record(members, data, 0),
        _ => parse_field(shape, data, 0),
    }
}

/// Whether the outcome of a decoder is the one that the layout asks for.
pub open spec fn agrees(outcome: Result<Value, Error>, expected: Result<Tree, Error>) -> bool {
    match outcome {
        Ok(value) => expected == Ok::<Tree, Error>(value@),
        Err(e) => expected == Err::<Tree, Error>(e),
    }
}

/// Once a field cannot be read, no longer run of fields can.
pub proof fn lemma_parse_fields_error(
    members: Seq<Member>,
    data: Seq<u8>,
    first: nat,
    failed: nat,
    n: nat,
)
    requires
        failed <= n <= members.len(),
        parse_fields(members, data, first, failed) is Err,
    ensures
        parse_fields(members, data, first, n) == parse_fields(members, data, first, failed),
    decreases n,
{
    if failed < n {
        lemma_parse_fields_error(members, data, first, failed, (n - 1) as nat);
    }
}

/// The fixed sizes of a record type's members add up member by member.
pub proof fn lemma_members_fixed_size_monotonic(members: Seq<Member>, a: nat, b: nat)
    requires
        a <= b <= members.len(),
    ensures
        members_fixed_size(members, a) <= members_fixed_size(members, b),
    decreases b,
{
    if a < b {
        lemma_members_fixed_size_monotonic(members, a, (b - 1) as nat);
    }
}

impl Type {
    /// The scalar of this type that `raw` stands for.
    fn scalar(&self, raw: u64) -> (value: Value)
        requires
            !self@.is_struct(),
            raw < crate::bytes::pow256(self@.fixed_size()),
        ensures
            value@ == scalar_tree(self@, raw as nat),
    {
        proof {
            lemma_pow256_values();
        }
        match self {
            Type::U8 => Value::U8(raw as u8),
            Type::U16 => Value::U16(raw as u16),
            Type::U32 => Value::U32(raw as u32),
            Type::U64 => Value::U64(raw),
            Type::I8 => Value::I8(
                #[verifier::truncate]
                ((raw as u8) as i8),
            ),
            Type::I16 => Value::I16(
                #[verifier::truncate]
                ((raw as u16) as i16),
            ),
            Type::I32 => Value::I32(
                #[verifier::truncate]
                ((raw as u32) as i32),
            ),
            Type::I64 => Value::I64(
                #[verifier::truncate]
                (raw as i64),
            ),
            Type::F32 => Value::F32(raw as u32),
            Type::F64 => Value::F64(raw),
            Type::Struct(_) => Value::U8(0),
        }
    }

    /// Reads the field of this type whose slot stands at `pos` of `data`: a
    /// scalar from the slot itself, a record from the place that the slot's
    /// offset leads to.
    pub fn unpack_inplace(&self, data: &[u8], pos: usize) -> (outcome: Result<Value, Error>)
        ensures
            agrees(outcome, parse_field(self@, data@, pos as nat)),
        decreases self, 1nat,
    {
        let total: usize = data.len();
        let width: usize = self.fixed_size() as usize;
        if pos > total || total - pos < width {
            return Err(Error::TruncatedInput);
        }
        let raw: u64 = read_le(data, pos, width);
        proof {
            lemma_le_value_bound(data@.subrange(pos as int, pos + width));
        }
        match self {
            Type::Struct(fields) => {
                proof {
                    lemma_pow256_values();
                }
                if raw < 4 {
                    return Err(Error::InvalidOffset);
                }
                if raw > (total - pos) as u64 {
                    return Err(Error::TruncatedInput);
                }
                self.unpack_record(data, pos + raw as usize)
            },
            _ => Ok(self.scalar(raw)),
        }
    }

    /// Reads the record of this record type that `data` holds from `start` on:
    /// its prefix, then its fields in order.
    fn unpack_record(&self, data: &[u8], start: usize) -> (outcome: Result<Value, Error>)
        requires
            self@.is_struct(),
            start <= data@.len(),
        ensures
            agrees(outcome, parse_record(self@.members(), data@, start as nat)),
        decreases self, 0nat,
    {
        let total: usize = data.len();
        match self {
            Type::Struct(fields) => {
                let ghost members = self@.members();
                let count: usize = fields.len();
                proof {
                    lemma_view_of_struct_type(*self, *fields);
                }
                if total - start < 2 {
                    return Err(Error::TruncatedInput);
                }
                let stated: u64 = read_le(data, start, 2);
                // The fixed region that the type needs, as far as it can matter.
                let mut needed: u64 = 2;
                let mut i: usize = 0;
                proof {
                    lemma_le_value_bound(data@.subrange(start as int, start + 2));
                    lemma_pow256_values();
                }
                while i < count && needed <= stated
                    invariant
                        i <= count == fields@.len() == members.len(),
                        forall|k: int| 0 <= k < count ==> members[k] == (#[trigger] fields@[k])@,
                        needed == 2 + members_fixed_size(members, i as nat),
                        stated < 0x1_0000,
                    decreases count - i,
                {
                    needed = needed + fields[i].ty.fixed_size() as u64;
                    i = i + 1;
                }
                if needed > stated {
                    proof {
                        lemma_members_fixed_size_monotonic(members, i as nat, count as nat);
                    }
                    return Err(Error::SchemaMismatch);
                }
                let first: usize = start + 2;
                let mut cursor: usize = first;
                let mut values: Vec<Value> = Vec::new();
                i = 0;
                while i < count
                    invariant
                        i <= count == fields@.len() == members.len(),
                        forall|k: int| 0 <= k < count ==> members[k] == (#[trigger] fields@[k])@,
                        forall|k: int|
                            0 <= k < count ==> decreases_to!(self => (#[trigger] fields@[k]).ty),
                        members == self@.members(),
                        total == data@.len(),
                        first == start + 2,
                        le_value(data@.subrange(start as int, start + 2)) >= 2
                            + members_fixed_size(members, count as nat),
                        cursor == first + members_fixed_size(members, i as nat),
                        cursor <= total,
                        values@.len() == i,
                        parse_fields(members, data@, first as nat, i as nat) == Ok::<
                            Seq<Tree>,
                            Error,
                        >(crate::value::trees_of(values@, i as nat)),
                    decreases count - i,
                {
                    let field = fields[i].ty.unpack_inplace(data, cursor);
                    match field {
                        Err(e) => {
                            proof {
                                assert(members[i as int].shape == fields@[i as int].ty@);
                                assert(parse_fields(members, data@, first as nat, (i + 1) as nat)
                                    == Err::<Seq<Tree>, Error>(e));
                                lemma_parse_fields_error(
                                    members,
                                    data@,
                                    first as nat,
                                    (i + 1) as nat,
                                    count as nat,
                                );
                            }
                            return Err(e);
                        },
                        Ok(value) => {
                            let ghost before = values@;
                            values.push(value);
                            proof {
                                assert(members[i as int].shape == fields@[i as int].ty@);
                                lemma_trees_of(before, i as nat);
                                lemma_trees_of(values@, (i + 1) as nat);
                                assert(crate::value::trees_of(values@, (i + 1) as nat)
                                    =~= crate::value::trees_of(before, i as nat).push(value@));
                            }
                            cursor = cursor + fields[i].ty.fixed_size() as usize;
                            i = i + 1;
                        },
                    }
                }
                Ok(Value::Struct(values))
            },
            _ => Err(Error::SchemaMismatch),
        }
    }

    /// Reads `data` as a value of this type packed on its own.
    pub fn unpack(&self, data: &[u8]) -> (outcome: Result<Value, Error>)
        ensures
            agrees(outcome, unpacked(self@, data@)),
    {
        match self {
            Type::Struct(_) => self.unpack_record(data, 0),
            _ => self.unpack_inplace(data, 0),
        }
    }
}

} // verus!
