//! Values: scalars and records of values, in declaration order.

use crate::schema::{lemma_view_of_struct_type, members_fixed_size, Member, Shape, Type};
use vstd::prelude::*;

verus! {

/// A value that can be packed.
///
/// A floating-point value is held as its IEEE-754 bit pattern (`F32` as the
/// result of `f32::to_bits`, `F64` as that of `f64::to_bits`), so that packing
/// and unpacking keep every bit of it. A signed integer is packed in two's
/// complement.
pub enum Value {
    U8(u8),
    U16(u16),
    U32(u32),
    U64(u64),
    I8(i8),
    I16(i16),
    I32(i32),
    I64(i64),
    F32(u32),
    F64(u64),
    Struct(Vec<Value>),
}

/// The mathematical model of a [`Value`].
pub enum Tree {
    U8(u8),
    U16(u16),
    U32(u32),
    U64(u64),
    I8(i8),
    I16(i16),
    I32(i32),
    I64(i64),
    F32(u32),
    F64(u64),
    Struct(Seq<Tree>),
}

/// The models of the first `n` of `values`.
pub open spec fn trees_of(values: Seq<Value>, n: nat) -> Seq<Tree>
    decreases values, n,
{
    if n == 0 || n > values.len() {
        Seq::empty()
    } else {
        trees_of(values, (n - 1) as nat).push(tree_of(values[n - 1]))
    }
}

/// The model of `value`.
pub open spec fn tree_of(value: Value) -> Tree
    decreases value, 0nat,
{
    match value {
        Value::U8(x) => Tree::U8(x),
        Value::U16(x) => Tree::U16(x),
        Value::U32(x) => Tree::U32(x),
        Value::U64(x) => Tree::U64(x),
        Value::I8(x) => Tree::I8(x),
        Value::I16(x) => Tree::I16(x),
        Value::I32(x) => Tree::I32(x),
        Value::I64(x) => Tree::I64(x),
        Value::F32(x) => Tree::F32(x),
        Value::F64(x) => Tree::F64(x),
        Value::Struct(fields) => Tree::Struct(trees_of(fields@, fields@.len())),
    }
}

impl View for Value {
    type V = Tree;

    open spec fn view(&self) -> Tree {
        tree_of(*self)
    }
}

impl Tree {
    /// Whether this is a record.
    pub open spec fn is_struct(self) -> bool {
        self is Struct
    }

    /// The fields of a record, in declaration order; none for a scalar.
    pub open spec fn fields(self) -> Seq<Tree> {
        match self {
            Tree::Struct(fields) => fields,
            _ => Seq::empty(),
        }
    }

    /// The bytes that this value takes in the fixed region of its parent: a
    /// scalar's width, or 4 for the offset slot of a record.
    pub open spec fn fixed_size(self) -> nat {
        match self {
            Tree::U8(_) => 1,
            Tree::U16(_) => 2,
            Tree::U32(_) => 4,
            Tree::U64(_) => 8,
            Tree::I8(_) => 1,
            Tree::I16(_) => 2,
            Tree::I32(_) => 4,
            Tree::I64(_) => 8,
            Tree::F32(_) => 4,
            Tree::F64(_) => 8,
            Tree::Struct(_) => 4,
        }
    }

    /// A scalar as a number: an unsigned integer itself, a signed integer in
    /// two's complement, or the bit pattern of a float. A record has no such
    /// number; for it this is 0.
    pub open spec fn raw(self) -> nat {
        match self {
            Tree::U8(x) => x as nat,
            Tree::U16(x) => x as nat,
            Tree::U32(x) => x as nat,
            Tree::U64(x) => x as nat,
            Tree::I8(x) => (x as u8) as nat,
            Tree::I16(x) => (x as u16) as nat,
            Tree::I32(x) => (x as u32) as nat,
            Tree::I64(x) => (x as u64) as nat,
            Tree::F32(x) => x as nat,
            Tree::F64(x) => x as nat,
            Tree::Struct(_) => 0,
        }
    }

    /// Whether this value is of the given shape: the same scalar type, or a
    /// record with as many fields as the shape has members, each of its
    /// member's shape.
    pub open spec fn has_shape(self, shape: Shape) -> bool
        decreases self,
    {
        match (self, shape) {
            (Tree::U8(_), Shape::U8) => true,
            (Tree::U16(_), Shape::U16) => true,
            (Tree::U32(_), Shape::U32) => true,
            (Tree::U64(_), Shape::U64) => true,
            (Tree::I8(_), Shape::I8) => true,
            (Tree::I16(_), Shape::I16) => true,
            (Tree::I32(_), Shape::I32) => true,
            (Tree::I64(_), Shape::I64) => true,
            (Tree::F32(_), Shape::F32) => true,
            (Tree::F64(_), Shape::F64) => true,
            (Tree::Struct(fields), Shape::Struct(members)) => {
                &&& fields.len() == members.len()
                &&& forall|i: int|
                    0 <= i < fields.len() ==> (#[trigger] fields[i]).has_shape(members[i].shape)
            },
            _ => false,
        }
    }
}

/// The models of the first `n` values, one by one.
pub proof fn lemma_trees_of(values: Seq<Value>, n: nat)
    requires
        n <= values.len(),
    ensures
        trees_of(values, n).len() == n,
        forall|k: int|
            #![trigger trees_of(values, n)[k]]
            #![trigger values[k]]
            0 <= k < n ==> trees_of(values, n)[k] == values[k]@,
    decreases n,
{
    if n > 0 {
        lemma_trees_of(values, (n - 1) as nat);
    }
}

/// The model of a record is the record of its fields' models, and each field is
/// smaller than the record.
pub proof fn lemma_view_of_struct(value: Value, fields: Vec<Value>)
    requires
        value == Value::Struct(fields),
    ensures
        value@ is Struct,
        value@.fields().len() == fields@.len(),
        forall|k: int| 0 <= k < fields@.len() ==> value@.fields()[k] == (#[trigger] fields@[k])@,
        forall|k: int| 0 <= k < fields@.len() ==> decreases_to!(value => #[trigger] fields@[k]),
{
    broadcast use vstd::std_specs::vec::group_vec_axioms;

    lemma_trees_of(fields@, fields@.len());
}

/// The bytes that the first `n` of `fields` take in the fixed region.
pub open spec fn fields_fixed_size(fields: Seq<Tree>, n: nat) -> nat
    decreases n,
{
    if n == 0 || n > fields.len() {
        0
    } else {
        fields_fixed_size(fields, (n - 1) as nat) + fields[n - 1].fixed_size()
    }
}

/// A value takes as many fixed bytes as its shape says.
pub proof fn lemma_fixed_size_of_shape(tree: Tree, shape: Shape)
    requires
        tree.has_shape(shape),
    ensures
        tree.fixed_size() == shape.fixed_size(),
{
}

/// The fields of a record take as many fixed bytes as the members of its shape.
pub proof fn lemma_fields_fixed_size_of_shape(fields: Seq<Tree>, members: Seq<Member>, n: nat)
    requires
        Tree::Struct(fields).has_shape(Shape::Struct(members)),
    ensures
        fields_fixed_size(fields, n) == members_fixed_size(members, n),
    decreases n,
{
    if n > 0 && n <= fields.len() {
        lemma_fields_fixed_size_of_shape(fields, members, (n - 1) as nat);
        lemma_fixed_size_of_shape(fields[n - 1], members[n - 1].shape);
    }
}

impl Value {
    /// A scalar as a number: an unsigned integer itself, a signed integer in
    /// two's complement, or the bit pattern of a float; 0 for a record.
    pub fn raw(&self) -> (raw: u64)
        ensures
            raw == self@.raw(),
    {
        match self {
            Value::U8(x) => *x as u64,
            Value::U16(x) => *x as u64,
            Value::U32(x) => *x as u64,
            Value::U64(x) => *x,
            Value::I8(x) => (#[verifier::truncate]
            (*x as u8)) as u64,
            Value::I16(x) => (#[verifier::truncate]
            (*x as u16)) as u64,
            Value::I32(x) => (#[verifier::truncate]
            (*x as u32)) as u64,
            Value::I64(x) => #[verifier::truncate]
            (*x as u64),
            Value::F32(x) => *x as u64,
            Value::F64(x) => *x,
            Value::Struct(_) => 0,
        }
    }

    /// The bytes that this value takes in the fixed region of its parent.
    pub fn fixed_size(&self) -> (size: u32)
        ensures
            size == self@.fixed_size(),
    {
        match self {
            Value::U8(_) => 1,
            Value::U16(_) => 2,
            Value::U32(_) => 4,
            Value::U64(_) => 8,
            Value::I8(_) => 1,
            Value::I16(_) => 2,
            Value::I32(_) => 4,
            Value::I64(_) => 8,
            Value::F32(_) => 4,
            Value::F64(_) => 8,
            Value::Struct(_) => 4,
        }
    }
}

impl Value {
    /// Whether this value is of the given type.
    pub fn has_type(&self, ty: &Type) -> (yes: bool)
        ensures
            yes == self@.has_shape(ty@),
        decreases self,
    {
        match (self, ty) {
            (Value::U8(_), Type::U8) => true,
            (Value::U16(_), Type::U16) => true,
            (Value::U32(_), Type::U32) => true,
            (Value::U64(_), Type::U64) => true,
            (Value::I8(_), Type::I8) => true,
            (Value::I16(_), Type::I16) => true,
            (Value::I32(_), Type::I32) => true,
            (Value::I64(_), Type::I64) => true,
            (Value::F32(_), Type::F32) => true,
            (Value::F64(_), Type::F64) => true,
            (Value::Struct(values), Type::Struct(fields)) => {
                let ghost trees = self@.fields();
                let ghost members = ty@.members();
                proof {
                    lemma_view_of_struct(*self, *values);
                    lemma_view_of_struct_type(*ty, *fields);
                }
                if values.len() != fields.len() {
                    return false;
                }
                let count: usize = values.len();
                let mut i: usize = 0;
                while i < count
                    invariant
                        i <= count == values@.len() == fields@.len(),
                        trees.len() == count == members.len(),
                        self@ == Tree::Struct(trees),
                        ty@ == Shape::Struct(members),
                        forall|k: int| 0 <= k < count ==> trees[k] == (#[trigger] values@[k])@,
                        forall|k: int| 0 <= k < count ==> members[k] == (#[trigger] fields@[k])@,
                        forall|k: int|
                            0 <= k < count ==> decreases_to!(self => #[trigger] values@[k]),
                        forall|k: int| 0 <= k < i ==> (#[trigger] trees[k]).has_shape(members[k].shape),
                    decreases count - i,
                {
                    if !values[i].has_type(&fields[i].ty) {
                        proof {
                            assert(!trees[i as int].has_shape(members[i as int].shape));
                        }
                        return false;
                    }
                    i = i + 1;
                }
                true
            },
            _ => false,
        }
    }
}

} // verus!
