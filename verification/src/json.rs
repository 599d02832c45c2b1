//! Values from JSON documents: the fields of a record are looked up by name.

use crate::schema::{lemma_view_of_struct_type, Member, Shape, Type};
use crate::text::same_text;
use crate::value::{lemma_trees_of, trees_of, Tree, Value};
use vstd::prelude::*;

verus! {

/// A JSON number, as far as values are made from it.
#[derive(Clone, Copy, Debug)]
pub struct Number {
    /// The number itself, where it is a whole number from 0 to `u64::MAX`.
    pub unsigned: Option<u64>,
    /// The number itself, where it is a whole number from `i64::MIN` to
    /// `i64::MAX`.
    pub signed: Option<i64>,
    /// The bit pattern of the 64-bit float nearest to the number.
    pub bits64: u64,
    /// The bit pattern of the 32-bit float nearest to that 64-bit float.
    pub bits32: u32,
}

/// One member of a JSON object.
pub struct Entry {
    pub key: String,
    pub value: Json,
}

/// A JSON document, as far as values are made from it: numbers and objects.
pub enum Json {
    Number(Number),
    Object(Vec<Entry>),
    /// Null, a boolean, a string or an array.
    Other,
}

/// The mathematical model of an [`Entry`].
pub struct Pair {
    pub key: Seq<char>,
    pub value: Document,
}

/// The mathematical model of a [`Json`].
pub enum Document {
    Number(Number),
    Object(Seq<Pair>),
    Other,
}

/// The models of the first `n` of `entries`.
pub open spec fn pairs_of(entries: Seq<Entry>, n: nat) -> Seq<Pair>
    decreases entries, n,
{
    if n == 0 || n > entries.len() {
        Seq::empty()
    } else {
        pairs_of(entries, (n - 1) as nat).push(
            Pair { key: entries[n - 1].key@, value: document_of(entries[n - 1].value) },
        )
    }
}

/// The model of `json`.
pub open spec fn document_of(json: Json) -> Document
    decreases json, 0nat,
{
    match json {
        Json::Number(number) => Document::Number(number),
        Json::Object(entries) => Document::Object(pairs_of(entries@, entries@.len())),
        Json::Other => Document::Other,
    }
}

impl View for Json {
    type V = Document;

    open spec fn view(&self) -> Document {
        document_of(*self)
    }
}

impl View for Entry {
    type V = Pair;

    open spec fn view(&self) -> Pair {
        Pair { key: self.key@, value: self.value@ }
    }
}

/// The models of the first `n` entries, one by one.
pub proof fn lemma_pairs_of(entries: Seq<Entry>, n: nat)
    requires
        n <= entries.len(),
    ensures
        pairs_of(entries, n).len() == n,
        forall|k: int|
            #![trigger pairs_of(entries, n)[k]]
            #![trigger entries[k]]
            0 <= k < n ==> pairs_of(entries, n)[k] == entries[k]@,
    decreases n,
{
    if n > 0 {
        lemma_pairs_of(entries, (n - 1) as nat);
    }
}

/// The first place from `from` on at which `pairs` has the given key.
pub open spec fn lookup(pairs: Seq<Pair>, key: Seq<char>, from: nat) -> Option<int>
    decreases pairs.len() - from,
{
    if from >= pairs.len() {
        None
    } else if pairs[from as int].key == key {
        Some(from as int)
    } else {
        lookup(pairs, key, from + 1)
    }
}

/// The scalar of the given shape that a JSON number stands for: a whole number
/// within the range of an integer type, the nearest float for a float type.
pub open spec fn scalar_from(shape: Shape, number: Number) -> Option<Tree> {
    match shape {
        Shape::U8 => match number.unsigned {
            Some(n) if n <= u8::MAX => Some(Tree::U8(n as u8)),
            _ => None,
        },
        Shape::U16 => match number.unsigned {
            Some(n) if n <= u16::MAX => Some(Tree::U16(n as u16)),
            _ => None,
        },
        Shape::U32 => match number.unsigned {
            Some(n) if n <= u32::MAX => Some(Tree::U32(n as u32)),
            _ => None,
        },
        Shape::U64 => match number.unsigned {
            Some(n) => Some(Tree::U64(n)),
            None => None,
        },
        Shape::I8 => match number.signed {
            Some(n) if i8::MIN <= n <= i8::MAX => Some(Tree::I8(n as i8)),
            _ => None,
        },
        Shape::I16 => match number.signed {
            Some(n) if i16::MIN <= n <= i16::MAX => Some(Tree::I16(n as i16)),
            _ => None,
        },
        Shape::I32 => match number.signed {
            Some(n) if i32::MIN <= n <= i32::MAX => Some(Tree::I32(n as i32)),
            _ => None,
        },
        Shape::I64 => match number.signed {
            Some(n) => Some(Tree::I64(n)),
            None => None,
        },
        Shape::F32 => Some(Tree::F32(number.bits32)),
        Shape::F64 => Some(Tree::F64(number.bits64)),
        Shape::Struct(_) => None,
    }
}

/// The value of the given shape that a document stands for, if it stands for
/// one: a scalar for a number that fits it; a record for an object that has,
/// for each member of the shape, an entry of the member's name that stands for
/// a value of the member's shape. Where an object has a key more than once, its
/// first entry counts. Entries under other keys are passed over.
pub open spec fn tree_from(shape: Shape, document: Document) -> Option<Tree>
    decreases shape, 0nat,
{
    match shape {
        Shape::Struct(members) => match document {
            Document::Object(pairs) => match trees_from(members, pairs, members.len()) {
                Some(fields) => Some(Tree::Struct(fields)),
                None => None,
            },
            _ => None,
        },
        _ => match document {
            Document::Number(number) => scalar_from(shape, number),
            _ => None,
        },
    }
}

/// The values that the entries of an object stand for, for the first `n`
/// members of a record shape.
pub open spec fn trees_from(members: Seq<Member>, pairs: Seq<Pair>, n: nat) -> Option<Seq<Tree>>
    decreases members, n,
{
    if n == 0 || n > members.len() {
        Some(Seq::empty())
    } else {
        match trees_from(members, pairs, (n - 1) as nat) {
            None => None,
            Some(fields) => match lookup(pairs, members[n - 1].name, 0) {
                None => None,
                Some(at) => match tree_from(members[n - 1].shape, pairs[at].value) {
                    None => None,
                    Some(field) => Some(fields.push(field)),
                },
            },
        }
    }
}

/// A failure among the first members is a failure among more of them.
pub proof fn lemma_trees_from_none(members: Seq<Member>, pairs: Seq<Pair>, failed: nat, n: nat)
    requires
        failed <= n <= members.len(),
        trees_from(members, pairs, failed) is None,
    ensures
        trees_from(members, pairs, n) is None,
    decreases n,
{
    if failed < n {
        lemma_trees_from_none(members, pairs, failed, (n - 1) as nat);
    }
}

/// A value made from a document is of the shape that it was made for.
pub proof fn lemma_tree_from_has_shape(shape: Shape, document: Document)
    requires
        tree_from(shape, document) is Some,
    ensures
        tree_from(shape, document)->Some_0.has_shape(shape),
    decreases shape, 0nat,
{
    match shape {
        Shape::Struct(members) => {
            let pairs = document->Object_0;
            lemma_trees_from_have_shapes(members, pairs, members.len());
        },
        _ => {},
    }
}

/// The values made from an object are of the shapes of the members that they
/// were made for.
pub proof fn lemma_trees_from_have_shapes(members: Seq<Member>, pairs: Seq<Pair>, n: nat)
    requires
        n <= members.len(),
        trees_from(members, pairs, n) is Some,
    ensures
        trees_from(members, pairs, n)->Some_0.len() == n,
        forall|k: int|
            0 <= k < n ==> (#[trigger] trees_from(members, pairs, n)->Some_0[k]).has_shape(
                members[k].shape,
            ),
    decreases members, n,
{
    if n > 0 {
        let m = (n - 1) as nat;
        lemma_trees_from_have_shapes(members, pairs, m);
        let at = lookup(pairs, members[m as int].name, 0)->Some_0;
        lemma_tree_from_has_shape(members[m as int].shape, pairs[at].value);
    }
}

/// The first entry of `entries` from `from` on that has the given key.
fn find_entry(entries: &Vec<Entry>, key: &str) -> (found: Option<usize>)
    ensures
        match found {
            Some(at) => lookup(pairs_of(entries@, entries@.len()), key@, 0) == Some(at as int)
                && at < entries@.len(),
            None => lookup(pairs_of(entries@, entries@.len()), key@, 0) is None,
        },
{
    let ghost pairs = pairs_of(entries@, entries@.len());
    proof {
        lemma_pairs_of(entries@, entries@.len());
    }
    let mut i: usize = entries.len();
    // Walks from the last entry to the first, so that the first match is the
    // one that stays.
    let mut found: Option<usize> = None;
    while i > 0
        invariant
            i <= entries@.len() == pairs.len(),
            forall|k: int| 0 <= k < pairs.len() ==> pairs[k] == (#[trigger] entries@[k])@,
            match found {
                Some(at) => lookup(pairs, key@, i as nat) == Some(at as int) && at < entries@.len(),
                None => lookup(pairs, key@, i as nat) is None,
            },
        decreases i,
    {
        i = i - 1;
        if same_text(entries[i].key.as_str(), key) {
            found = Some(i);
        }
    }
    found
}

impl Type {
    /// The scalar of this type that a JSON number stands for.
    fn scalar_from_number(&self, number: Number) -> (value: Option<Value>)
        ensures
            match value {
                Some(v) => scalar_from(self@, number) == Some(v@),
                None => scalar_from(self@, number) is None,
            },
    {
        match self {
            Type::U8 => match number.unsigned {
                Some(n) => if n <= 0xFF {
                    Some(Value::U8(n as u8))
                } else {
                    None
                },
                None => None,
            },
            Type::U16 => match number.unsigned {
                Some(n) => if n <= 0xFFFF {
                    Some(Value::U16(n as u16))
                } else {
                    None
                },
                None => None,
            },
            Type::U32 => match number.unsigned {
                Some(n) => if n <= 0xFFFF_FFFF {
                    Some(Value::U32(n as u32))
                } else {
                    None
                },
                None => None,
            },
            Type::U64 => match number.unsigned {
                Some(n) => Some(Value::U64(n)),
                None => None,
            },
            Type::I8 => match number.signed {
                Some(n) => if -0x80 <= n && n <= 0x7F {
                    Some(Value::I8(n as i8))
                } else {
                    None
                },
                None => None,
            },
            Type::I16 => match number.signed {
                Some(n) => if -0x8000 <= n && n <= 0x7FFF {
                    Some(Value::I16(n as i16))
                } else {
                    None
                },
                None => None,
            },
            Type::I32 => match number.signed {
                Some(n) => if -0x8000_0000 <= n && n <= 0x7FFF_FFFF {
                    Some(Value::I32(n as i32))
                } else {
                    None
                },
                None => None,
            },
            Type::I64 => match number.signed {
                Some(n) => Some(Value::I64(n)),
                None => None,
            },
            Type::F32 => Some(Value::F32(number.bits32)),
            Type::F64 => Some(Value::F64(number.bits64)),
            Type::Struct(_) => None,
        }
    }

    /// The value of this type that `json` stands for, if it stands for one.
    pub fn from_json(&self, json: &Json) -> (value: Option<Value>)
        ensures
            match value {
                Some(v) => tree_from(self@, json@) == Some(v@),
                None => tree_from(self@, json@) is None,
            },
        decreases self,
    {
        match self {
            Type::Struct(fields) => {
                let ghost members = self@.members();
                proof {
                    lemma_view_of_struct_type(*self, *fields);
                }
                match json {
                    Json::Object(entries) => {
                        let ghost pairs = pairs_of(entries@, entries@.len());
                        proof {
                            lemma_pairs_of(entries@, entries@.len());
                        }
                        let count: usize = fields.len();
                        let mut values: Vec<Value> = Vec::new();
                        let mut i: usize = 0;
                        while i < count
                            invariant
                                i <= count == fields@.len() == members.len(),
                                forall|k: int|
                                    0 <= k < count ==> members[k] == (#[trigger] fields@[k])@,
                                forall|k: int|
                                    0 <= k < count ==> decreases_to!(self => (#[trigger] fields@[k]).ty),
                                self@ == Shape::Struct(members),
                                json@ == Document::Object(pairs),
                                pairs == pairs_of(entries@, entries@.len()),
                                pairs.len() == entries@.len(),
                                forall|k: int|
                                    0 <= k < pairs.len() ==> pairs[k] == (#[trigger] entries@[k])@,
                                values@.len() == i,
                                trees_from(members, pairs, i as nat) == Some(
                                    trees_of(values@, i as nat),
                                ),
                            decreases count - i,
                        {
                            let ghost before = values@;
                            let found = find_entry(entries, fields[i].name.as_str());
                            let field = match found {
                                Some(at) => fields[i].ty.from_json(&entries[at].value),
                                None => None,
                            };
                            match field {
                                Some(value) => {
                                    values.push(value);
                                    proof {
                                        lemma_trees_of(before, i as nat);
                                        lemma_trees_of(values@, (i + 1) as nat);
                                        assert(trees_of(values@, (i + 1) as nat) =~= trees_of(
                                            before,
                                            i as nat,
                                        ).push(value@));
                                    }
                                },
                                None => {
                                    proof {
                                        assert(trees_from(members, pairs, (i + 1) as nat) is None);
                                        lemma_trees_from_none(
                                            members,
                                            pairs,
                                            (i + 1) as nat,
                                            count as nat,
                                        );
                                    }
                                    return None;
                                },
                            }
                            i = i + 1;
                        }
                        Some(Value::Struct(values))
                    },
                    _ => None,
                }
            },
            _ => match json {
                Json::Number(number) => self.scalar_from_number(*number),
                _ => None,
            },
        }
    }
}

} // verus!
