//! Big-endian numbers as they stand on the wire.
//!
//! A number travels as the bytes of a line, most significant byte first. A
//! line of fewer than eight bytes counts as if zero bytes stood before it, so
//! the number of a line is the big-endian value of just the bytes it has.
use vstd::prelude::*;

verus! {

/// How many bytes a number takes on the wire when it is written.
pub const NUMBER_WIDTH: usize = 8;

/// 256 to the power `n`.
pub open spec fn radix_pow(n: nat) -> nat
    decreases n,
{
    if n == 0 {
        1
    } else {
        256 * radix_pow((n - 1) as nat)
    }
}

/// The number that `bytes` spell, most significant byte first.
pub open spec fn be_value(bytes: Seq<u8>) -> nat
    decreases bytes.len(),
{
    if bytes.len() == 0 {
        0
    } else {
        256 * be_value(bytes.drop_last()) + bytes.last() as nat
    }
}

/// The `width` least significant base-256 digits of `value`, most significant first.
pub open spec fn be_bytes(value: nat, width: nat) -> Seq<u8>
    decreases width,
{
    if width == 0 {
        Seq::empty()
    } else {
        be_bytes(value / 256, (width - 1) as nat).push((value % 256) as u8)
    }
}

/// `count` zero bytes.
pub open spec fn zeros(count: nat) -> Seq<u8> {
    Seq::new(count, |i: int| 0u8)
}

/// The powers of 256 up to the eighth.
pub proof fn lemma_radix_pow_values()
    ensures
        radix_pow(0) == 1,
        radix_pow(1) == 0x100,
        radix_pow(2) == 0x1_0000,
        radix_pow(3) == 0x100_0000,
        radix_pow(4) == 0x1_0000_0000,
        radix_pow(5) == 0x100_0000_0000,
        radix_pow(6) == 0x1_0000_0000_0000,
        radix_pow(7) == 0x100_0000_0000_0000,
        radix_pow(8) == 0x1_0000_0000_0000_0000,
{
    reveal_with_fuel(radix_pow, 10);
}

proof fn lemma_radix_pow_monotonic(a: nat, b: nat)
    requires
        a <= b,
    ensures
        radix_pow(a) <= radix_pow(b),
        radix_pow(a) >= 1,
    decreases b,
{
    if a < b {
        lemma_radix_pow_monotonic(a, (b - 1) as nat);
    } else if a > 0 {
        lemma_radix_pow_monotonic((a - 1) as nat, (b - 1) as nat);
    }
}

/// A number of `n` bytes is below 256 to the power `n`.
pub proof fn lemma_be_value_bound(bytes: Seq<u8>)
    ensures
        be_value(bytes) < radix_pow(bytes.len()),
    decreases bytes.len(),
{
    if bytes.len() > 0 {
        lemma_be_value_bound(bytes.drop_last());
    }
}

/// A line of at most eight bytes spells a number that fits in 64 bits.
pub proof fn lemma_be_value_fits(bytes: Seq<u8>)
    requires
        bytes.len() <= NUMBER_WIDTH,
    ensures
        be_value(bytes) <= u64::MAX,
{
    lemma_be_value_bound(bytes);
    lemma_radix_pow_monotonic(bytes.len(), 8);
    lemma_radix_pow_values();
}

/// A number written in `width` bytes takes `width` bytes.
pub proof fn lemma_be_bytes_len(value: nat, width: nat)
    ensures
        be_bytes(value, width).len() == width,
    decreases width,
{
    if width > 0 {
        lemma_be_bytes_len(value / 256, (width - 1) as nat);
    }
}

/// Writing a number that fits in `width` bytes and reading the bytes back gives the number.
pub proof fn lemma_be_round_trip(value: nat, width: nat)
    requires
        value < radix_pow(width),
    ensures
        be_value(be_bytes(value, width)) == value,
    decreases width,
{
    if width > 0 {
        let rest = be_bytes(value / 256, (width - 1) as nat);
        lemma_be_round_trip(value / 256, (width - 1) as nat);
        assert(be_bytes(value, width).drop_last() =~= rest);
    }
}

/// A short line counts as if it were padded on the left: zero bytes in front
/// of a line do not change the number it spells.
pub proof fn padding_keeps_value(count: nat, bytes: Seq<u8>)
    ensures
        be_value(zeros(count) + bytes) == be_value(bytes),
    decreases bytes.len(),
{
    let padded = zeros(count) + bytes;
    if bytes.len() == 0 {
        assert(padded =~= zeros(count));
        lemma_zeros_value(count);
    } else {
        assert(padded.drop_last() =~= zeros(count) + bytes.drop_last());
        padding_keeps_value(count, bytes.drop_last());
    }
}

proof fn lemma_zeros_value(count: nat)
    ensures
        be_value(zeros(count)) == 0,
    decreases count,
{
    if count > 0 {
        assert(zeros(count).drop_last() =~= zeros((count - 1) as nat));
        lemma_zeros_value((count - 1) as nat);
    }
}

/// Reads a line of at most eight bytes as a big-endian number.
pub fn decode_be(bytes: &[u8]) -> (value: u64)
    requires
        bytes@.len() <= NUMBER_WIDTH,
    ensures
        value == be_value(bytes@),
{
    let mut value: u64 = 0;
    let mut i: usize = 0;
    while i < bytes.len()
        invariant
            i <= bytes@.len() <= NUMBER_WIDTH,
            value == be_value(bytes@.take(i as int)),
        decreases bytes@.len() - i,
    {
        proof {
            let head = bytes@.take(i as int);
            lemma_be_value_bound(head);
            lemma_radix_pow_monotonic(i as nat, 7);
            lemma_radix_pow_values();
            assert(bytes@.take(i + 1).drop_last() =~= head);
        }
        value = value * 256 + bytes[i] as u64;
        i += 1;
    }
    assert(bytes@.take(i as int) =~= bytes@);
    value
}

/// Appends the last `width` base-256 digits of `value` to `out`, most significant first.
pub fn push_be(out: &mut Vec<u8>, value: u64, width: usize)
    ensures
        final(out)@ == old(out)@ + be_bytes(value as nat, width as nat),
    decreases width,
{
    if width > 0 {
        push_be(out, value / 256, width - 1);
        out.push((value % 256) as u8);
        assert(final(out)@ =~= old(out)@ + be_bytes(value as nat, width as nat));
    } else {
        assert(out@ =~= old(out)@ + be_bytes(value as nat, width as nat));
    }
}

} // verus!
