//! Two record types with their layouts written out: a record of two scalars,
//! and a record that holds it between two scalars.

use crate::bytes::{le_bytes, lemma_le_bytes_len};
use crate::laws::{lemma_round_trip, lemma_unpacked_has_shape};
use crate::layout::{
    encodable, fixed_bytes, heap_bytes, heap_position, lemma_record_bytes_len, packed_bytes,
    record_bytes, slot_bytes, slot_offset, slot_position, variable_bytes,
};
use crate::schema::{lemma_members_of, members_of, Field, Member, Shape, Type};
use crate::unpack::{unpacked, Error};
use crate::value::{fields_fixed_size, lemma_trees_of, trees_of, Tree, Value};
use vstd::prelude::*;

verus! {

/// A record of an integer and a float. The float is held as its IEEE-754 bit
/// pattern.
#[derive(Clone, Copy, Debug, PartialEq, Eq, Structural)]
pub struct EmbeddedStruct {
    pub embeded_field_a: u64,
    pub embeded_field_c: u64,
}

/// A record of an integer, an embedded record and a float. The float is held
/// as its IEEE-754 bit pattern.
#[derive(Clone, Copy, Debug, PartialEq, Eq, Structural)]
pub struct OuterStruct {
    pub field_a: u64,
    pub field_b: EmbeddedStruct,
    pub field_c: u64,
}

impl Default for EmbeddedStruct {
    fn default() -> (record: EmbeddedStruct)
        ensures
            record == (EmbeddedStruct { embeded_field_a: 0, embeded_field_c: 0 }),
    {
        EmbeddedStruct { embeded_field_a: 0, embeded_field_c: 0 }
    }
}

impl Default for OuterStruct {
    fn default() -> (record: OuterStruct)
        ensures
            record == (OuterStruct {
                field_a: 0,
                field_b: EmbeddedStruct { embeded_field_a: 0, embeded_field_c: 0 },
                field_c: 0,
            }),
    {
        OuterStruct { field_a: 0, field_b: EmbeddedStruct::default(), field_c: 0 }
    }
}

impl EmbeddedStruct {
    /// The fields of this record as values, in declaration order.
    pub open spec fn fields(self) -> Seq<Tree> {
        seq![Tree::U64(self.embeded_field_a), Tree::F64(self.embeded_field_c)]
    }

    /// This record as a value.
    pub open spec fn tree(self) -> Tree {
        Tree::Struct(self.fields())
    }

    /// The members of this record type, in declaration order.
    pub open spec fn members() -> Seq<Member> {
        seq![
            Member { name: "embeded_field_a"@, shape: Shape::U64 },
            Member { name: "embeded_field_c"@, shape: Shape::F64 },
        ]
    }

    /// The shape of this record type.
    pub open spec fn shape() -> Shape {
        Shape::Struct(Self::members())
    }

    /// The layout of this record: the prefix 18, then the integer and the
    /// float, each in 8 bytes.
    pub open spec fn layout(self) -> Seq<u8> {
        le_bytes(18, 2) + le_bytes(self.embeded_field_a as nat, 8) + le_bytes(
            self.embeded_field_c as nat,
            8,
        )
    }

    /// This record is of its type's shape, can be packed, and packs to its
    /// layout, which is 18 bytes long.
    pub proof fn lemma_layout(self)
        ensures
            self.tree().has_shape(Self::shape()),
            encodable(self.tree()),
            packed_bytes(self.tree()) == self.layout(),
            self.layout().len() == 18,
    {
        let fields = self.fields();
        reveal_with_fuel(fields_fixed_size, 3);
        reveal_with_fuel(heap_bytes, 3);
        reveal_with_fuel(fixed_bytes, 3);
        lemma_record_bytes_len(fields);
        lemma_le_bytes_len(18, 2);
        lemma_le_bytes_len(self.embeded_field_a as nat, 8);
        lemma_le_bytes_len(self.embeded_field_c as nat, 8);
        assert(fields_fixed_size(fields, 2) == 16);
        assert(heap_bytes(fields, 2) =~= Seq::<u8>::empty());
        assert(slot_bytes(fields, 0) == le_bytes(self.embeded_field_a as nat, 8));
        assert(slot_bytes(fields, 1) == le_bytes(self.embeded_field_c as nat, 8));
        assert(fixed_bytes(fields, 2) =~= le_bytes(self.embeded_field_a as nat, 8) + le_bytes(
            self.embeded_field_c as nat,
            8,
        ));
        assert(record_bytes(fields) =~= self.layout());
        assert forall|i: int| 0 <= i < fields.len() implies encodable(#[trigger] fields[i]) by {}
        assert forall|i: int| 0 <= i < fields.len() implies (#[trigger] fields[i]).has_shape(
            Self::members()[i].shape,
        ) by {}
    }

    /// The type of this record.
    pub fn ty() -> (ty: Type)
        ensures
            ty@ == Self::shape(),
    {
        let mut fields: Vec<Field> = Vec::new();
        fields.push(Field { name: "embeded_field_a".to_owned(), ty: Type::U64 });
        fields.push(Field { name: "embeded_field_c".to_owned(), ty: Type::F64 });
        proof {
            lemma_members_of(fields@, 2);
            assert(members_of(fields@, 2) =~= Self::members());
        }
        Type::Struct(fields)
    }

    /// This record as a value.
    pub fn to_value(&self) -> (value: Value)
        ensures
            value@ == self.tree(),
    {
        let mut fields: Vec<Value> = Vec::new();
        fields.push(Value::U64(self.embeded_field_a));
        fields.push(Value::F64(self.embeded_field_c));
        proof {
            lemma_trees_of(fields@, 2);
            assert(trees_of(fields@, 2) =~= self.fields());
        }
        Value::Struct(fields)
    }

    /// The record that `value` is, if it is of this type's shape.
    pub fn from_value(value: &Value) -> (record: Option<EmbeddedStruct>)
        ensures
            record is Some <==> value@.has_shape(Self::shape()),
            record is Some ==> record->Some_0.tree() == value@,
    {
        match value {
            Value::Struct(fields) => {
                proof {
                    lemma_trees_of(fields@, fields@.len());
                }
                if fields.len() != 2 {
                    return None;
                }
                proof {
                    assert(value@.fields()[0] == fields@[0]@);
                    assert(value@.fields()[1] == fields@[1]@);
                    assert(value@.has_shape(Self::shape()) ==> value@.fields()[0].has_shape(
                        Self::members()[0].shape,
                    ) && value@.fields()[1].has_shape(Self::members()[1].shape));
                }
                match (&fields[0], &fields[1]) {
                    (Value::U64(a), Value::F64(c)) => {
                        let record = EmbeddedStruct { embeded_field_a: *a, embeded_field_c: *c };
                        proof {
                            assert(value@.fields() =~= record.fields());
                            record.lemma_layout();
                        }
                        Some(record)
                    },
                    _ => None,
                }
            },
            _ => None,
        }
    }

    /// This record, packed.
    pub fn packed(&self) -> (bytes: Vec<u8>)
        ensures
            bytes@ == self.layout(),
    {
        proof {
            self.lemma_layout();
        }
        self.to_value().packed()
    }

    /// Reads `data` as a record of this type.
    pub fn unpack(data: &[u8]) -> (outcome: Result<EmbeddedStruct, Error>)
        ensures
            match outcome {
                Ok(record) => unpacked(Self::shape(), data@) == Ok::<Tree, Error>(record.tree()),
                Err(e) => unpacked(Self::shape(), data@) == Err::<Tree, Error>(e),
            },
    {
        match Self::ty().unpack(data) {
            Ok(value) => {
                proof {
                    lemma_unpacked_has_shape(Self::shape(), data@);
                }
                match Self::from_value(&value) {
                    Some(record) => Ok(record),
                    None => Err(Error::SchemaMismatch),
                }
            },
            Err(e) => Err(e),
        }
    }
}

impl OuterStruct {
    /// The fields of this record as values, in declaration order.
    pub open spec fn fields(self) -> Seq<Tree> {
        seq![Tree::U64(self.field_a), self.field_b.tree(), Tree::F64(self.field_c)]
    }

    /// This record as a value.
    pub open spec fn tree(self) -> Tree {
        Tree::Struct(self.fields())
    }

    /// The members of this record type, in declaration order.
    pub open spec fn members() -> Seq<Member> {
        seq![
            Member { name: "field_a"@, shape: Shape::U64 },
            Member { name: "field_b"@, shape: EmbeddedStruct::shape() },
            Member { name: "field_c"@, shape: Shape::F64 },
        ]
    }

    /// The shape of this record type.
    pub open spec fn shape() -> Shape {
        Shape::Struct(Self::members())
    }

    /// The layout of this record: the prefix 22; the integer in 8 bytes; the
    /// offset 12, which leads from its slot at byte 10 to byte 22; the float in
    /// 8 bytes; and from byte 22 on the layout of the embedded record.
    pub open spec fn layout(self) -> Seq<u8> {
        le_bytes(22, 2) + le_bytes(self.field_a as nat, 8) + le_bytes(12, 4) + le_bytes(
            self.field_c as nat,
            8,
        ) + self.field_b.layout()
    }

    /// This record is of its type's shape, can be packed, and packs to its
    /// layout, which is 40 bytes long.
    pub proof fn lemma_layout(self)
        ensures
            self.tree().has_shape(Self::shape()),
            encodable(self.tree()),
            packed_bytes(self.tree()) == self.layout(),
            self.layout().len() == 40,
    {
        let fields = self.fields();
        let inner = self.field_b.layout();
        self.field_b.lemma_layout();
        reveal_with_fuel(fields_fixed_size, 4);
        reveal_with_fuel(heap_bytes, 4);
        reveal_with_fuel(fixed_bytes, 4);
        lemma_record_bytes_len(fields);
        lemma_le_bytes_len(22, 2);
        lemma_le_bytes_len(12, 4);
        lemma_le_bytes_len(self.field_a as nat, 8);
        lemma_le_bytes_len(self.field_c as nat, 8);
        assert(fields_fixed_size(fields, 1) == 8);
        assert(fields_fixed_size(fields, 3) == 20);
        assert(variable_bytes(fields[1]) == inner);
        assert(heap_bytes(fields, 1) =~= Seq::<u8>::empty());
        assert(heap_bytes(fields, 3) =~= inner);
        assert(heap_position(fields, 1) == 22);
        assert(slot_position(fields, 1) == 10);
        assert(slot_offset(fields, 1) == 12);
        assert(slot_bytes(fields, 0) == le_bytes(self.field_a as nat, 8));
        assert(slot_bytes(fields, 1) == le_bytes(12, 4));
        assert(slot_bytes(fields, 2) == le_bytes(self.field_c as nat, 8));
        assert(fixed_bytes(fields, 3) =~= le_bytes(self.field_a as nat, 8) + le_bytes(12, 4)
            + le_bytes(self.field_c as nat, 8));
        assert(record_bytes(fields) =~= self.layout());
        assert forall|i: int| 0 <= i < fields.len() implies encodable(#[trigger] fields[i]) by {
            if i == 1 {
                assert(fields[1] == self.field_b.tree());
            }
        }
        assert forall|i: int| 0 <= i < fields.len() implies (#[trigger] fields[i]).has_shape(
            Self::members()[i].shape,
        ) by {
            if i == 1 {
                assert(fields[1] == self.field_b.tree());
            }
        }
    }

    /// Unpacking a packed record of this type gives the record back.
    pub proof fn lemma_round_trip(self)
        ensures
            unpacked(Self::shape(), self.layout()) == Ok::<Tree, Error>(self.tree()),
    {
        self.lemma_layout();
        lemma_round_trip(self.tree(), Self::shape());
    }

    /// The type of this record.
    pub fn ty() -> (ty: Type)
        ensures
            ty@ == Self::shape(),
    {
        let mut fields: Vec<Field> = Vec::new();
        fields.push(Field { name: "field_a".to_owned(), ty: Type::U64 });
        fields.push(Field { name: "field_b".to_owned(), ty: EmbeddedStruct::ty() });
        fields.push(Field { name: "field_c".to_owned(), ty: Type::F64 });
        proof {
            lemma_members_of(fields@, 3);
            assert(members_of(fields@, 3) =~= Self::members());
        }
        Type::Struct(fields)
    }

    /// This record as a value.
    pub fn to_value(&self) -> (value: Value)
        ensures
            value@ == self.tree(),
    {
        let mut fields: Vec<Value> = Vec::new();
        fields.push(Value::U64(self.field_a));
        fields.push(self.field_b.to_value());
        fields.push(Value::F64(self.field_c));
        proof {
            lemma_trees_of(fields@, 3);
            assert(trees_of(fields@, 3) =~= self.fields());
        }
        Value::Struct(fields)
    }

    /// The record that `value` is, if it is of this type's shape.
    pub fn from_value(value: &Value) -> (record: Option<OuterStruct>)
        ensures
            record is Some <==> value@.has_shape(Self::shape()),
            record is Some ==> record->Some_0.tree() == value@,
    {
        match value {
            Value::Struct(fields) => {
                proof {
                    lemma_trees_of(fields@, fields@.len());
                }
                if fields.len() != 3 {
                    return None;
                }
                proof {
                    assert(value@.fields()[0] == fields@[0]@);
                    assert(value@.fields()[1] == fields@[1]@);
                    assert(value@.fields()[2] == fields@[2]@);
                    assert(value@.has_shape(Self::shape()) ==> value@.fields()[0].has_shape(
                        Self::members()[0].shape,
                    ) && value@.fields()[1].has_shape(Self::members()[1].shape)
                        && value@.fields()[2].has_shape(Self::members()[2].shape));
                }
                match (&fields[0], EmbeddedStruct::from_value(&fields[1]), &fields[2]) {
                    (Value::U64(a), Some(b), Value::F64(c)) => {
                        let record = OuterStruct { field_a: *a, field_b: b, field_c: *c };
                        proof {
                            assert(value@.fields() =~= record.fields());
                            record.lemma_layout();
                        }
                        Some(record)
                    },
                    _ => None,
                }
            },
            _ => None,
        }
    }

    /// This record, packed.
    pub fn packed(&self) -> (bytes: Vec<u8>)
        ensures
            bytes@ == self.layout(),
    {
        proof {
            self.lemma_layout();
        }
        self.to_value().packed()
    }

    /// Reads `data` as a record of this type.
    pub fn unpack(data: &[u8]) -> (outcome: Result<OuterStruct, Error>)
        ensures
            match outcome {
                Ok(record) => unpacked(Self::shape(), data@) == Ok::<Tree, Error>(record.tree()),
                Err(e) => unpacked(Self::shape(), data@) == Err::<Tree, Error>(e),
            },
    {
        match Self::ty().unpack(data) {
            Ok(value) => {
                proof {
                    lemma_unpacked_has_shape(Self::shape(), data@);
                }
                match Self::from_value(&value) {
                    Some(record) => Ok(record),
                    None => Err(Error::SchemaMismatch),
                }
            },
            Err(e) => Err(e),
        }
    }
}

} // verus!
