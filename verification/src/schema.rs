//! Type descriptions: which fields a record has, in which order, and how wide
//! each one is in the fixed region of its parent.

use vstd::prelude::*;

verus! {

/// The type of a value: a scalar of known width, or a record of named fields.
///
/// Floating-point types are described by their width alone; their values are
/// carried as IEEE-754 bit patterns.
pub enum Type {
    U8,
    U16,
    U32,
    U64,
    I8,
    I16,
    I32,
    I64,
    F32,
    F64,
    Struct(Vec<Field>),
}

/// One field of a record type.
pub struct Field {
    pub name: String,
    pub ty: Type,
}

/// The mathematical model of a [`Type`].
pub enum Shape {
    U8,
    U16,
    U32,
    U64,
    I8,
    I16,
    I32,
    I64,
    F32,
    F64,
    Struct(Seq<Member>),
}

/// The mathematical model of a [`Field`].
pub struct Member {
    pub name: Seq<char>,
    pub shape: Shape,
}

/// The models of the first `n` of `fields`.
pub open spec fn members_of(fields: Seq<Field>, n: nat) -> Seq<Member>
    decreases fields, n,
{
    if n == 0 || n > fields.len() {
        Seq::empty()
    } else {
        members_of(fields, (n - 1) as nat).push(
            Member { name: fields[n - 1].name@, shape: shape_of(fields[n - 1].ty) },
        )
    }
}

/// The model of `ty`.
pub open spec fn shape_of(ty: Type) -> Shape
    decreases ty, 0nat,
{
    match ty {
        Type::U8 => Shape::U8,
        Type::U16 => Shape::U16,
        Type::U32 => Shape::U32,
        Type::U64 => Shape::U64,
        Type::I8 => Shape::I8,
        Type::I16 => Shape::I16,
        Type::I32 => Shape::I32,
        Type::I64 => Shape::I64,
        Type::F32 => Shape::F32,
        Type::F64 => Shape::F64,
        Type::Struct(fields) => Shape::Struct(members_of(fields@, fields@.len())),
    }
}

impl View for Type {
    type V = Shape;

    open spec fn view(&self) -> Shape {
        shape_of(*self)
    }
}

impl View for Field {
    type V = Member;

    open spec fn view(&self) -> Member {
        Member { name: self.name@, shape: self.ty@ }
    }
}

/// The models of the first `n` fields, one by one.
pub proof fn lemma_members_of(fields: Seq<Field>, n: nat)
    requires
        n <= fields.len(),
    ensures
        members_of(fields, n).len() == n,
        forall|k: int|
            #![trigger members_of(fields, n)[k]]
            #![trigger fields[k]]
            0 <= k < n ==> members_of(fields, n)[k] == fields[k]@,
    decreases n,
{
    if n > 0 {
        lemma_members_of(fields, (n - 1) as nat);
    }
}

/// The model of a record type is the record of its fields' models, and each
/// field's type is smaller than the record type.
pub proof fn lemma_view_of_struct_type(ty: Type, fields: Vec<Field>)
    requires
        ty == Type::Struct(fields),
    ensures
        ty@ is Struct,
        ty@.members().len() == fields@.len(),
        forall|k: int| 0 <= k < fields@.len() ==> ty@.members()[k] == (#[trigger] fields@[k])@,
        forall|k: int| 0 <= k < fields@.len() ==> decreases_to!(ty => (#[trigger] fields@[k]).ty),
{
    broadcast use vstd::std_specs::vec::group_vec_axioms;

    lemma_members_of(fields@, fields@.len());
}

impl Shape {
    /// Whether this is a record.
    pub open spec fn is_struct(self) -> bool {
        self is Struct
    }

    /// The members of a record, in declaration order; none for a scalar.
    pub open spec fn members(self) -> Seq<Member> {
        match self {
            Shape::Struct(members) => members,
            _ => Seq::empty(),
        }
    }

    /// The bytes that a field of this shape takes in the fixed region of its
    /// parent: the scalar's width, or 4 for the offset slot of a record.
    pub open spec fn fixed_size(self) -> nat {
        match self {
            Shape::U8 => 1,
            Shape::U16 => 2,
            Shape::U32 => 4,
            Shape::U64 => 8,
            Shape::I8 => 1,
            Shape::I16 => 2,
            Shape::I32 => 4,
            Shape::I64 => 8,
            Shape::F32 => 4,
            Shape::F64 => 8,
            Shape::Struct(_) => 4,
        }
    }
}

/// The bytes that the first `n` members take in the fixed region.
pub open spec fn members_fixed_size(members: Seq<Member>, n: nat) -> nat
    decreases n,
{
    if n == 0 || n > members.len() {
        0
    } else {
        members_fixed_size(members, (n - 1) as nat) + members[n - 1].shape.fixed_size()
    }
}

impl Type {
    /// The bytes that a field of this type takes in the fixed region of its parent.
    pub fn fixed_size(&self) -> (size: u32)
        ensures
            size == self@.fixed_size(),
    {
        match self {
            Type::U8 => 1,
            Type::U16 => 2,
            Type::U32 => 4,
            Type::U64 => 8,
            Type::I8 => 1,
            Type::I16 => 2,
            Type::I32 => 4,
            Type::I64 => 8,
            Type::F32 => 4,
            Type::F64 => 8,
            Type::Struct(_) => 4,
        }
    }
}

} // verus!
