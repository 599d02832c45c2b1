//! The encoder: fixed slots first, then the heap, with each record's slot
//! patched once its place in the heap is known.

use crate::bytes::{le_bytes, lemma_le_bytes_len, push_le, splice, write_le};
use crate::layout::{
    encodable, fixed_bytes, heap_bytes, lemma_fields_fixed_size_monotonic,
    lemma_heap_bytes_monotonic, lemma_record_bytes_len, packed_bytes, record_bytes, slot_bytes,
    slot_offset, variable_bytes,
};
use crate::value::{fields_fixed_size, lemma_view_of_struct, Tree, Value};
use vstd::prelude::*;

verus! {

/// What a value writes into its slot before the heap is laid out: a scalar
/// its bytes, a record four zero bytes.
pub open spec fn placeholder_bytes(tree: Tree) -> Seq<u8> {
    if tree.is_struct() {
        le_bytes(0, 4)
    } else {
        le_bytes(tree.raw(), tree.fixed_size())
    }
}

/// The slot of field `j` while the first `patched` fields have their final slots.
spec fn staged_slot(fields: Seq<Tree>, j: nat, patched: nat) -> Seq<u8> {
    if j >= fields.len() {
        Seq::empty()
    } else if j < patched {
        slot_bytes(fields, j)
    } else {
        placeholder_bytes(fields[j as int])
    }
}

/// The first `n` slots while the first `patched` fields have their final slots.
spec fn staged_fixed_bytes(fields: Seq<Tree>, n: nat, patched: nat) -> Seq<u8>
    decreases n,
{
    if n == 0 || n > fields.len() {
        Seq::empty()
    } else {
        staged_fixed_bytes(fields, (n - 1) as nat, patched) + staged_slot(
            fields,
            (n - 1) as nat,
            patched,
        )
    }
}

proof fn lemma_staged_slot_len(fields: Seq<Tree>, j: nat, patched: nat)
    requires
        j < fields.len(),
    ensures
        staged_slot(fields, j, patched).len() == fields[j as int].fixed_size(),
        slot_bytes(fields, j).len() == fields[j as int].fixed_size(),
        placeholder_bytes(fields[j as int]).len() == fields[j as int].fixed_size(),
        !fields[j as int].is_struct() ==> placeholder_bytes(fields[j as int]) == slot_bytes(
            fields,
            j,
        ),
{
    lemma_le_bytes_len(0, 4);
    lemma_le_bytes_len(slot_offset(fields, j), 4);
    lemma_le_bytes_len(fields[j as int].raw(), fields[j as int].fixed_size());
}

proof fn lemma_staged_fixed_bytes_len(fields: Seq<Tree>, n: nat, patched: nat)
    requires
        n <= fields.len(),
    ensures
        staged_fixed_bytes(fields, n, patched).len() == fields_fixed_size(fields, n),
    decreases n,
{
    if n > 0 {
        lemma_staged_fixed_bytes_len(fields, (n - 1) as nat, patched);
        lemma_staged_slot_len(fields, (n - 1) as nat, patched);
    }
}

/// Once every slot is final, the staged fixed region is the fixed region.
proof fn lemma_staged_all_patched(fields: Seq<Tree>, n: nat, patched: nat)
    requires
        n <= patched,
        n <= fields.len(),
    ensures
        staged_fixed_bytes(fields, n, patched) == fixed_bytes(fields, n),
    decreases n,
{
    if n > 0 {
        lemma_staged_all_patched(fields, (n - 1) as nat, patched);
    }
}

/// Making the slot of field `i` final overwrites that slot and nothing else.
proof fn lemma_patch_slot(fields: Seq<Tree>, n: nat, i: nat)
    requires
        i < fields.len(),
        n <= fields.len(),
    ensures
        n <= i || !fields[i as int].is_struct() ==> staged_fixed_bytes(fields, n, i + 1)
            == staged_fixed_bytes(fields, n, i),
        n > i && fields[i as int].is_struct() ==> staged_fixed_bytes(fields, n, i + 1) == splice(
            staged_fixed_bytes(fields, n, i),
            fields_fixed_size(fields, i) as int,
            slot_bytes(fields, i),
        ),
    decreases n,
{
    if n > 0 {
        let m = (n - 1) as nat;
        lemma_patch_slot(fields, m, i);
        lemma_staged_slot_len(fields, m, i);
        lemma_staged_slot_len(fields, m, i + 1);
        lemma_staged_slot_len(fields, i, i);
        lemma_staged_fixed_bytes_len(fields, m, i);
        lemma_staged_fixed_bytes_len(fields, m, i + 1);
        if fields[i as int].is_struct() {
            let before = staged_fixed_bytes(fields, m, i);
            let at = fields_fixed_size(fields, i) as int;
            let slot = slot_bytes(fields, i);
            if m == i {
                assert(staged_fixed_bytes(fields, n, i + 1) =~= splice(
                    staged_fixed_bytes(fields, n, i),
                    at,
                    slot,
                ));
            } else if m > i {
                lemma_fields_fixed_size_monotonic(fields, i + 1, m);
                assert(staged_slot(fields, m, i + 1) == staged_slot(fields, m, i));
                assert(splice(before, at, slot) + staged_slot(fields, m, i) =~= splice(
                    before + staged_slot(fields, m, i),
                    at,
                    slot,
                ));
            }
        }
    }
}

/// Overwriting inside the middle part of a buffer leaves the parts around it.
proof fn lemma_splice_inside(
    head: Seq<u8>,
    middle: Seq<u8>,
    tail: Seq<u8>,
    pos: int,
    bytes: Seq<u8>,
)
    requires
        0 <= pos,
        pos + bytes.len() <= middle.len(),
    ensures
        splice(head + middle + tail, head.len() + pos, bytes) == head + splice(middle, pos, bytes)
            + tail,
{
    assert(splice(head + middle + tail, head.len() + pos, bytes) =~= head + splice(
        middle,
        pos,
        bytes,
    ) + tail);
}

impl Value {
    /// Appends this value's slot to `dest`: a scalar's bytes, or four zero bytes
    /// that stand in for a record's offset until `repack_fixed` fills them in.
    pub fn pack_fixed(&self, dest: &mut Vec<u8>)
        ensures
            final(dest)@ == old(dest)@ + placeholder_bytes(self@),
    {
        match self {
            Value::Struct(_) => push_le(dest, 0, 4),
            _ => push_le(dest, self.raw(), self.fixed_size() as usize),
        }
    }

    /// Fills in the slot of a record: the four bytes at `fixed_pos` become the
    /// distance from there to `heap_pos`. For a scalar nothing changes.
    pub fn repack_fixed(&self, fixed_pos: u32, heap_pos: u32, dest: &mut Vec<u8>)
        requires
            self@.is_struct() ==> fixed_pos <= heap_pos && fixed_pos + 4 <= old(dest)@.len(),
        ensures
            self@.is_struct() ==> final(dest)@ == splice(
                old(dest)@,
                fixed_pos as int,
                le_bytes((heap_pos - fixed_pos) as nat, 4),
            ),
            !self@.is_struct() ==> final(dest)@ == old(dest)@,
    {
        match self {
            Value::Struct(_) => {
                write_le(dest, fixed_pos as usize, (heap_pos - fixed_pos) as u64, 4);
            },
            _ => {},
        }
    }

    /// Appends to `dest` what this value adds to a heap: nothing for a scalar;
    /// for a record its size prefix, its fixed region and its own heap.
    pub fn pack_variable(&self, dest: &mut Vec<u8>)
        requires
            encodable(self@),
            old(dest)@.len() + variable_bytes(self@).len() <= u32::MAX,
        ensures
            final(dest)@ == old(dest)@ + variable_bytes(self@),
        decreases self,
    {
        match self {
            Value::Struct(fields) => {
                let ghost trees = self@.fields();
                let ghost start = old(dest)@;
                let count: usize = fields.len();
                let base: usize = dest.len();
                proof {
                    lemma_view_of_struct(*self, *fields);
                    lemma_record_bytes_len(trees);
                }
                let mut heap: u32 = 2;
                let mut i: usize = 0;
                while i < count
                    invariant
                        i <= count == fields@.len() == trees.len(),
                        forall|k: int| 0 <= k < count ==> trees[k] == fields@[k]@,
                        heap == 2 + fields_fixed_size(trees, i as nat),
                        2 + fields_fixed_size(trees, count as nat) <= u16::MAX,
                    decreases count - i,
                {
                    proof {
                        lemma_fields_fixed_size_monotonic(trees, (i + 1) as nat, count as nat);
                    }
                    heap = heap + fields[i].fixed_size();
                    i = i + 1;
                }
                push_le(dest, heap as u64, 2);
                let ghost prefix = le_bytes(heap as nat, 2);
                proof {
                    lemma_le_bytes_len(heap as nat, 2);
                }
                i = 0;
                while i < count
                    invariant
                        i <= count == fields@.len() == trees.len(),
                        forall|k: int| 0 <= k < count ==> trees[k] == fields@[k]@,
                        dest@ == start + prefix + staged_fixed_bytes(trees, i as nat, 0),
                    decreases count - i,
                {
                    let ghost before = dest@;
                    fields[i].pack_fixed(dest);
                    proof {
                        assert(dest@ =~= start + prefix + staged_fixed_bytes(
                            trees,
                            (i + 1) as nat,
                            0,
                        ));
                    }
                    i = i + 1;
                }
                let mut pos: u32 = base as u32 + 2;
                i = 0;
                proof {
                    assert(dest@ =~= start + prefix + staged_fixed_bytes(trees, count as nat, 0)
                        + heap_bytes(trees, 0));
                }
                while i < count
                    invariant
                        i <= count == fields@.len() == trees.len(),
                        forall|k: int| 0 <= k < count ==> trees[k] == fields@[k]@,
                        trees == self@.fields(),
                        self@ is Struct,
                        forall|k: int|
                            0 <= k < count ==> decreases_to!(self => #[trigger] fields@[k]),
                        encodable(self@),
                        base == start.len(),
                        prefix.len() == 2,
                        start.len() + record_bytes(trees).len() <= u32::MAX,
                        pos == base + 2 + fields_fixed_size(trees, i as nat),
                        dest@ == start + prefix + staged_fixed_bytes(trees, count as nat, i as nat)
                            + heap_bytes(trees, i as nat),
                    decreases count - i,
                {
                    let ghost staged = staged_fixed_bytes(trees, count as nat, i as nat);
                    let ghost heap_so_far = heap_bytes(trees, i as nat);
                    proof {
                        lemma_record_bytes_len(trees);
                        lemma_staged_fixed_bytes_len(trees, count as nat, i as nat);
                        lemma_fields_fixed_size_monotonic(trees, (i + 1) as nat, count as nat);
                        lemma_heap_bytes_monotonic(trees, i as nat, count as nat);
                        lemma_heap_bytes_monotonic(trees, (i + 1) as nat, count as nat);
                        lemma_patch_slot(trees, count as nat, i as nat);
                        lemma_staged_slot_len(trees, i as nat, i as nat);
                    }
                    let heap_pos: u32 = dest.len() as u32;
                    fields[i].repack_fixed(pos, heap_pos, dest);
                    proof {
                        if trees[i as int].is_struct() {
                            assert(heap_pos - pos == slot_offset(trees, i as nat));
                            lemma_splice_inside(
                                start + prefix,
                                staged,
                                heap_so_far,
                                fields_fixed_size(trees, i as nat) as int,
                                slot_bytes(trees, i as nat),
                            );
                        }
                        assert(dest@ == start + prefix + staged_fixed_bytes(
                            trees,
                            count as nat,
                            (i + 1) as nat,
                        ) + heap_so_far);
                        assert(encodable(trees[i as int]));
                    }
                    let ghost patched = dest@;
                    fields[i].pack_variable(dest);
                    proof {
                        assert(dest@ =~= start + prefix + staged_fixed_bytes(
                            trees,
                            count as nat,
                            (i + 1) as nat,
                        ) + heap_bytes(trees, (i + 1) as nat));
                    }
                    pos = pos + fields[i].fixed_size();
                    i = i + 1;
                }
                proof {
                    lemma_staged_all_patched(trees, count as nat, count as nat);
                    assert(dest@ =~= start + record_bytes(trees));
                }
            },
            _ => {
                proof {
                    assert(dest@ =~= old(dest)@ + variable_bytes(self@));
                }
            },
        }
    }

    /// Appends this value, packed on its own, to `dest`: a scalar's bytes, or a
    /// record's layout.
    pub fn pack(&self, dest: &mut Vec<u8>)
        requires
            encodable(self@),
            old(dest)@.len() + packed_bytes(self@).len() <= u32::MAX,
        ensures
            final(dest)@ == old(dest)@ + packed_bytes(self@),
    {
        match self {
            Value::Struct(_) => self.pack_variable(dest),
            _ => push_le(dest, self.raw(), self.fixed_size() as usize),
        }
    }

    /// This value, packed on its own.
    pub fn packed(&self) -> (bytes: Vec<u8>)
        requires
            encodable(self@),
        ensures
            bytes@ == packed_bytes(self@),
    {
        let mut bytes: Vec<u8> = Vec::new();
        proof {
            lemma_le_bytes_len(self@.raw(), self@.fixed_size());
        }
        self.pack(&mut bytes);
        proof {
            assert(bytes@ =~= packed_bytes(self@));
        }
        bytes
    }
}

impl Value {
    /// The length of what this value adds to a heap, if the value can be
    /// packed; `None` if it cannot.
    pub fn variable_len(&self) -> (len: Option<u32>)
        ensures
            len is Some <==> encodable(self@),
            len is Some ==> len->Some_0 == variable_bytes(self@).len(),
        decreases self,
    {
        match self {
            Value::Struct(fields) => {
                let ghost trees = self@.fields();
                let count: usize = fields.len();
                proof {
                    lemma_view_of_struct(*self, *fields);
                    lemma_record_bytes_len(trees);
                }
                let mut fixed: u64 = 2;
                let mut i: usize = 0;
                while i < count
                    invariant
                        i <= count == fields@.len() == trees.len(),
                        forall|k: int| 0 <= k < count ==> trees[k] == fields@[k]@,
                        trees == self@.fields(),
                        self@ is Struct,
                        fixed == 2 + fields_fixed_size(trees, i as nat),
                        fixed <= u16::MAX,
                    decreases count - i,
                {
                    fixed = fixed + fields[i].fixed_size() as u64;
                    i = i + 1;
                    if fixed > 0xFFFF {
                        proof {
                            assert(fixed == 2 + fields_fixed_size(trees, i as nat));
                            lemma_fields_fixed_size_monotonic(trees, i as nat, count as nat);
                            assert(!encodable(Tree::Struct(trees)));
                        }
                        return None;
                    }
                }
                let mut total: u64 = fixed;
                i = 0;
                while i < count
                    invariant
                        i <= count == fields@.len() == trees.len(),
                        forall|k: int| 0 <= k < count ==> trees[k] == fields@[k]@,
                        forall|k: int|
                            0 <= k < count ==> decreases_to!(self => #[trigger] fields@[k]),
                        trees == self@.fields(),
                        self@ is Struct,
                        fixed == 2 + fields_fixed_size(trees, count as nat),
                        fixed <= u16::MAX,
                        total == fixed + heap_bytes(trees, i as nat).len(),
                        total <= u32::MAX,
                        forall|k: int| 0 <= k < i ==> encodable(#[trigger] trees[k]),
                    decreases count - i,
                {
                    proof {
                        lemma_heap_bytes_monotonic(trees, (i + 1) as nat, count as nat);
                        lemma_record_bytes_len(trees);
                    }
                    match fields[i].variable_len() {
                        None => {
                            proof {
                                assert(!encodable(trees[i as int]));
                            }
                            return None;
                        },
                        Some(entry) => {
                            total = total + entry as u64;
                            if total > 0xFFFF_FFFF {
                                return None;
                            }
                        },
                    }
                    i = i + 1;
                }
                proof {
                    lemma_record_bytes_len(trees);
                }
                Some(total as u32)
            },
            _ => Some(0),
        }
    }

    /// Whether this value can be packed.
    pub fn is_encodable(&self) -> (yes: bool)
        ensures
            yes == encodable(self@),
    {
        self.variable_len().is_some()
    }

    /// This value, packed on its own, if it can be packed; `None` if it cannot.
    pub fn try_packed(&self) -> (bytes: Option<Vec<u8>>)
        ensures
            bytes is Some <==> encodable(self@),
            bytes is Some ==> bytes->Some_0@ == packed_bytes(self@),
    {
        if self.is_encodable() {
            Some(self.packed())
        } else {
            None
        }
    }
}

} // verus!
