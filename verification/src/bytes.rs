//! Little-endian integers as byte sequences.

use vstd::prelude::*;

verus! {

/// 256 to the power `n`: the number of values that `n` bytes can hold.
pub open spec fn pow256(n: nat) -> nat
    decreases n,
{
    if n == 0 {
        1
    } else {
        256 * pow256((n - 1) as nat)
    }
}

/// The `width` low-order bytes of `value`, least significant first.
pub open spec fn le_bytes(value: nat, width: nat) -> Seq<u8>
    decreases width,
{
    if width == 0 {
        Seq::empty()
    } else {
        seq![(value % 256) as u8] + le_bytes(value / 256, (width - 1) as nat)
    }
}

/// The number whose little-endian digits are `bytes`.
pub open spec fn le_value(bytes: Seq<u8>) -> nat
    decreases bytes.len(),
{
    if bytes.len() == 0 {
        0
    } else {
        bytes[0] as nat + 256 * le_value(bytes.drop_first())
    }
}

/// The `len` bytes of `buffer` from `pos` on.
pub open spec fn window(buffer: Seq<u8>, pos: nat, len: nat) -> Seq<u8> {
    buffer.subrange(pos as int, (pos + len) as int)
}

/// `buffer` with the bytes from `pos` on overwritten by `bytes`.
pub open spec fn splice(buffer: Seq<u8>, pos: int, bytes: Seq<u8>) -> Seq<u8> {
    buffer.subrange(0, pos) + bytes + buffer.subrange(pos + bytes.len(), buffer.len() as int)
}

/// `le_bytes` yields exactly `width` bytes.
pub proof fn lemma_le_bytes_len(value: nat, width: nat)
    ensures
        le_bytes(value, width).len() == width,
    decreases width,
{
    if width > 0 {
        lemma_le_bytes_len(value / 256, (width - 1) as nat);
    }
}

/// A number read from `n` bytes is below `256^n`.
pub proof fn lemma_le_value_bound(bytes: Seq<u8>)
    ensures
        le_value(bytes) < pow256(bytes.len()),
    decreases bytes.len(),
{
    if bytes.len() > 0 {
        lemma_le_value_bound(bytes.drop_first());
    }
}

/// Reading back the bytes of a number that fits in `width` bytes gives the number.
pub proof fn lemma_le_value_of_bytes(value: nat, width: nat)
    requires
        value < pow256(width),
    ensures
        le_value(le_bytes(value, width)) == value,
    decreases width,
{
    lemma_le_bytes_len(value, width);
    if width > 0 {
        let rest = le_bytes(value / 256, (width - 1) as nat);
        let all = le_bytes(value, width);
        assert(all.drop_first() =~= rest);
        lemma_le_value_of_bytes(value / 256, (width - 1) as nat);
    }
}

/// The values of `pow256` at the widths in use.
pub proof fn lemma_pow256_values()
    ensures
        pow256(0) == 1,
        pow256(1) == 0x100,
        pow256(2) == 0x1_0000,
        pow256(3) == 0x100_0000,
        pow256(4) == 0x1_0000_0000,
        pow256(5) == 0x100_0000_0000,
        pow256(6) == 0x1_0000_0000_0000,
        pow256(7) == 0x100_0000_0000_0000,
        pow256(8) == 0x1_0000_0000_0000_0000,
{
    reveal_with_fuel(pow256, 10);
}

/// Appends the `width` low-order bytes of `value` to `dest`, least significant first.
pub fn push_le(dest: &mut Vec<u8>, value: u64, width: usize)
    requires
        width <= 8,
    ensures
        final(dest)@ == old(dest)@ + le_bytes(value as nat, width as nat),
{
    let mut rest: u64 = value;
    let mut done: usize = 0;
    proof {
        assert(dest@ + le_bytes(rest as nat, width as nat) =~= old(dest)@ + le_bytes(
            value as nat,
            width as nat,
        ));
    }
    while done < width
        invariant
            done <= width,
            dest@ + le_bytes(rest as nat, (width - done) as nat) == old(dest)@ + le_bytes(
                value as nat,
                width as nat,
            ),
        decreases width - done,
    {
        let ghost before = dest@;
        let low: u8 = (rest % 256) as u8;
        dest.push(low);
        proof {
            let tail = le_bytes((rest / 256) as nat, (width - done - 1) as nat);
            assert(le_bytes(rest as nat, (width - done) as nat) == seq![low] + tail);
            assert(dest@ + tail =~= before + (seq![low] + tail));
        }
        rest = rest / 256;
        done = done + 1;
    }
    proof {
        assert(dest@ + le_bytes(rest as nat, 0) =~= dest@);
    }
}

/// Overwrites `width` bytes of `dest` at `pos` with the low-order bytes of
/// `value`, least significant first. The length of `dest` stays.
pub fn write_le(dest: &mut Vec<u8>, pos: usize, value: u64, width: usize)
    requires
        width <= 8,
        pos + width <= old(dest)@.len(),
    ensures
        final(dest)@ == splice(old(dest)@, pos as int, le_bytes(value as nat, width as nat)),
{
    let mut digits: Vec<u8> = Vec::new();
    push_le(&mut digits, value, width);
    proof {
        lemma_le_bytes_len(value as nat, width as nat);
        assert(digits@ =~= le_bytes(value as nat, width as nat));
    }
    let total: usize = dest.len();
    let mut done: usize = 0;
    while done < width
        invariant
            done <= width,
            digits@ == le_bytes(value as nat, width as nat),
            digits@.len() == width,
            pos + width <= total == old(dest)@.len(),
            dest@.len() == old(dest)@.len(),
            forall|i: int| 0 <= i < pos || pos + done <= i < dest@.len() ==> dest@[i] == old(dest)@[i],
            forall|i: int| 0 <= i < done ==> dest@[pos + i] == digits@[i],
        decreases width - done,
    {
        let digit: u8 = digits[done];
        dest.set(pos + done, digit);
        done = done + 1;
    }
    proof {
        assert(dest@ =~= splice(old(dest)@, pos as int, digits@));
    }
}

/// Reads `width` bytes of `data` at `pos` as a little-endian number.
pub fn read_le(data: &[u8], pos: usize, width: usize) -> (value: u64)
    requires
        width <= 8,
        pos + width <= data@.len(),
    ensures
        value as nat == le_value(data@.subrange(pos as int, pos + width)),
{
    let total: usize = data.len();
    let mut value: u64 = 0;
    let mut left: usize = width;
    proof {
        assert(data@.subrange(pos + width, pos + width).len() == 0);
    }
    while left > 0
        invariant
            left <= width <= 8,
            pos + width <= total == data@.len(),
            value as nat == le_value(data@.subrange(pos + left, pos + width)),
        decreases left,
    {
        let ghost high = data@.subrange(pos + left, pos + width);
        let ghost more = data@.subrange(pos + left - 1, pos + width);
        proof {
            lemma_le_value_bound(high);
            lemma_pow256_values();
            assert(pow256(high.len()) <= pow256(7)) by {
                reveal_with_fuel(pow256, 10);
            }
            assert(more.drop_first() =~= high);
            assert(more[0] == data@[pos + left - 1]);
        }
        left = left - 1;
        value = value * 256 + data[pos + left] as u64;
    }
    value
}

} // verus!
