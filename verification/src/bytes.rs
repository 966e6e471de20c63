//! Little-endian integers in byte buffers, as firmware and CPU lay them out.

use vstd::prelude::*;

verus! {

/// The number that `len` bytes from `at` on hold, least significant byte first.
pub open spec fn le_value(bytes: Seq<u8>, at: int, len: nat) -> nat
    decreases len,
{
    if len == 0 {
        0
    } else {
        bytes[at] as nat + 256 * le_value(bytes, at + 1, (len - 1) as nat)
    }
}

/// Reads the 32-bit little-endian number at `at`.
pub fn read_u32(bytes: &[u8], at: usize) -> (value: u32)
    requires
        at + 4 <= bytes@.len(),
    ensures
        value == le_value(bytes@, at as int, 4),
{
    proof {
        reveal_with_fuel(le_value, 5);
    }
    let b0: u32 = bytes[at] as u32;
    let b1: u32 = bytes[at + 1] as u32;
    let b2: u32 = bytes[at + 2] as u32;
    let b3: u32 = bytes[at + 3] as u32;
    b0 + 256 * (b1 + 256 * (b2 + 256 * b3))
}

/// Reads the 64-bit little-endian number at `at`.
pub fn read_u64(bytes: &[u8], at: usize) -> (value: u64)
    requires
        at + 8 <= bytes@.len(),
    ensures
        value == le_value(bytes@, at as int, 8),
{
    proof {
        reveal_with_fuel(le_value, 9);
    }
    let b0: u64 = bytes[at] as u64;
    let b1: u64 = bytes[at + 1] as u64;
    let b2: u64 = bytes[at + 2] as u64;
    let b3: u64 = bytes[at + 3] as u64;
    let b4: u64 = bytes[at + 4] as u64;
    let b5: u64 = bytes[at + 5] as u64;
    let b6: u64 = bytes[at + 6] as u64;
    let b7: u64 = bytes[at + 7] as u64;
    b0 + 256 * (b1 + 256 * (b2 + 256 * (b3 + 256 * (b4 + 256 * (b5 + 256 * (b6 + 256 * b7))))))
}


/// The `len` bytes that hold `value`, least significant byte first. A value
/// that does not fit loses what is beyond the last byte.
pub open spec fn le_bytes(value: nat, len: nat) -> Seq<u8>
    decreases len,
{
    if len == 0 {
        Seq::empty()
    } else {
        seq![(value % 256) as u8] + le_bytes(value / 256, (len - 1) as nat)
    }
}

/// The number of values that `len` bytes can hold.
pub open spec fn le_limit(len: nat) -> nat
    decreases len,
{
    if len == 0 {
        1
    } else {
        256 * le_limit((len - 1) as nat)
    }
}

/// The bytes of a number are as many as asked for, and reading them gives the number back if it fits.
pub proof fn lemma_le_round_trip(value: nat, len: nat)
    ensures
        le_bytes(value, len).len() == len,
        value < le_limit(len) ==> le_value(le_bytes(value, len), 0, len) == value,
    decreases len,
{
    if len > 0 {
        let rest = le_bytes(value / 256, (len - 1) as nat);
        let all = le_bytes(value, len);
        lemma_le_round_trip(value / 256, (len - 1) as nat);
        lemma_le_value_shift(all, rest, 1, 0, (len - 1) as nat);
    }
}

/// A number reads the same from a sequence and from one that holds the same bytes `shift` places on.
pub proof fn lemma_le_value_shift(long: Seq<u8>, short: Seq<u8>, shift: int, at: int, len: nat)
    requires
        0 <= at,
        0 <= shift,
        at + len <= short.len(),
        long.len() == short.len() + shift,
        forall|i: int| 0 <= i < short.len() ==> long[i + shift] == short[i],
    ensures
        le_value(long, at + shift, len) == le_value(short, at, len),
    decreases len,
{
    if len > 0 {
        lemma_le_value_shift(long, short, shift, at + 1, (len - 1) as nat);
    }
}

/// Appends a byte.
pub fn push_u8(out: &mut Vec<u8>, value: u8)
    ensures
        final(out)@ == old(out)@ + le_bytes(value as nat, 1),
{
    out.push(value);
    proof {
        reveal_with_fuel(le_bytes, 2);
        assert(out@ =~= old(out)@ + le_bytes(value as nat, 1));
    }
}

/// Appends a 16-bit number, least significant byte first.
pub fn push_u16(out: &mut Vec<u8>, value: u16)
    ensures
        final(out)@ == old(out)@ + le_bytes(value as nat, 2),
{
    out.push((value % 256) as u8);
    out.push((value / 256) as u8);
    proof {
        reveal_with_fuel(le_bytes, 3);
        assert(out@ =~= old(out)@ + le_bytes(value as nat, 2));
    }
}

/// Appends a 32-bit number, least significant byte first.
pub fn push_u32(out: &mut Vec<u8>, value: u32)
    ensures
        final(out)@ == old(out)@ + le_bytes(value as nat, 4),
{
    out.push((value % 256) as u8);
    out.push((value / 256 % 256) as u8);
    out.push((value / 256 / 256 % 256) as u8);
    out.push((value / 256 / 256 / 256) as u8);
    proof {
        reveal_with_fuel(le_bytes, 5);
        assert(out@ =~= old(out)@ + le_bytes(value as nat, 4));
    }
}

/// Appends a 64-bit number, least significant byte first.
pub fn push_u64(out: &mut Vec<u8>, value: u64)
    ensures
        final(out)@ == old(out)@ + le_bytes(value as nat, 8),
{
    let mut rest: u64 = value;
    let mut i: usize = 0;
    while i < 8
        invariant
            i <= 8,
            old(out)@ + le_bytes(value as nat, 8) == out@ + le_bytes(rest as nat, (8 - i) as nat),
        decreases 8 - i,
    {
        let ghost before = out@;
        out.push((rest % 256) as u8);
        proof {
            assert(le_bytes(rest as nat, (8 - i) as nat) =~= seq![(rest % 256) as u8] + le_bytes(
                (rest / 256) as nat,
                (8 - i - 1) as nat,
            ));
            assert(out@ + le_bytes((rest / 256) as nat, (8 - i - 1) as nat) =~= before + le_bytes(
                rest as nat,
                (8 - i) as nat,
            ));
        }
        rest = rest / 256;
        i = i + 1;
    }
    assert(out@ + le_bytes(rest as nat, 0) =~= out@);
}

} // verus!
