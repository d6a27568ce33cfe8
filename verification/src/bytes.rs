//! Little endian words inside byte buffers.
//!
//! Everything the loader passes to a program is encoded little endian. This
//! module gives the encoding its mathematical meaning and reads and writes the
//! words that the entrypoints need.

use vstd::arithmetic::power::pow;
use vstd::prelude::*;

verus! {

/// The number that `bytes` encodes, least significant byte first.
pub open spec fn le_value(bytes: Seq<u8>) -> nat
    decreases bytes.len(),
{
    if bytes.len() == 0 {
        0
    } else {
        bytes[0] as nat + 256 * le_value(bytes.drop_first())
    }
}

/// The `width` low bytes of `value`, least significant byte first.
pub open spec fn le_bytes(value: nat, width: nat) -> Seq<u8>
    decreases width,
{
    if width == 0 {
        Seq::empty()
    } else {
        seq![(value % 256) as u8] + le_bytes(value / 256, (width - 1) as nat)
    }
}

/// The number of values that `width` bytes can encode.
pub open spec fn byte_range(width: nat) -> nat
    decreases width,
{
    if width == 0 {
        1
    } else {
        256 * byte_range((width - 1) as nat)
    }
}

/// The `len` bytes of `bytes` that start at `at`.
pub open spec fn window(bytes: Seq<u8>, at: int, len: int) -> Seq<u8> {
    bytes.subrange(at, at + len)
}

/// `bytes` with the bytes from `at` on replaced by `patch`.
pub open spec fn overwrite(bytes: Seq<u8>, at: int, patch: Seq<u8>) -> Seq<u8> {
    Seq::new(
        bytes.len(),
        |i: int|
            if at <= i < at + patch.len() {
                patch[i - at]
            } else {
                bytes[i]
            },
    )
}

/// An encoding of `width` bytes has `width` bytes.
pub proof fn lemma_le_bytes_len(value: nat, width: nat)
    ensures
        le_bytes(value, width).len() == width,
    decreases width,
{
    if width > 0 {
        lemma_le_bytes_len(value / 256, (width - 1) as nat);
    }
}

/// Decoding an encoded number gives the number back, as long as it fits.
pub proof fn law_le_round_trip(value: nat, width: nat)
    requires
        value < byte_range(width),
    ensures
        le_bytes(value, width).len() == width,
        le_value(le_bytes(value, width)) == value,
    decreases width,
{
    lemma_le_bytes_len(value, width);
    if width > 0 {
        law_le_round_trip(value / 256, (width - 1) as nat);
        assert(le_bytes(value, width).drop_first() =~= le_bytes(
            value / 256,
            (width - 1) as nat,
        ));
    }
}

/// A number that was decoded from `bytes` encodes to `bytes` again.
pub proof fn law_le_value_determines_bytes(bytes: Seq<u8>)
    ensures
        le_value(bytes) < byte_range(bytes.len()),
        le_bytes(le_value(bytes), bytes.len()) == bytes,
    decreases bytes.len(),
{
    if bytes.len() > 0 {
        law_le_value_determines_bytes(bytes.drop_first());
        let rest = le_value(bytes.drop_first());
        assert((bytes[0] as nat + 256 * rest) % 256 == bytes[0] as nat);
        assert((bytes[0] as nat + 256 * rest) / 256 == rest);
        assert(seq![bytes[0]] + bytes.drop_first() =~= bytes);
    } else {
        assert(bytes =~= Seq::empty());
    }
}

/// Digit `i` of a number in base 256 comes from its second digit on as from the
/// number without its first digit.
proof fn lemma_next_digit(value: int, i: int)
    requires
        0 <= value,
        0 < i,
    ensures
        value / pow(256, i as nat) == value / 256 / pow(256, (i - 1) as nat),
{
    reveal(pow);
    vstd::arithmetic::power::lemma_pow_positive(256, (i - 1) as nat);
    vstd::arithmetic::div_mod::lemma_div_denominator(value, 256, pow(256, (i - 1) as nat));
}

/// Bytes are the digits of the number that they encode, in base 256 and with the
/// lowest one first: byte `i` is the digit that stands for `256` to the `i`, and
/// there is no digit beyond the last byte.
pub proof fn law_bytes_are_digits(bytes: Seq<u8>)
    ensures
        le_value(bytes) < pow(256, bytes.len()),
        forall|i: int|
            0 <= i < bytes.len() ==> le_value(bytes) as int / #[trigger] pow(256, i as nat) % 256
                == bytes[i],
    decreases bytes.len(),
{
    reveal(pow);
    if bytes.len() > 0 {
        let rest = bytes.drop_first();
        let value = le_value(bytes) as int;
        law_bytes_are_digits(rest);
        assert(value / 256 == le_value(rest));
        assert forall|i: int| 0 <= i < bytes.len() implies value / #[trigger] pow(256, i as nat)
            % 256 == bytes[i] by {
            if i > 0 {
                lemma_next_digit(value, i);
                assert(rest[i - 1] == bytes[i]);
            }
        }
    }
}

/// The bytes of an encoding are the digits of the number, in base 256 and with
/// the lowest one first.
pub proof fn law_encoding_is_digits(value: nat, width: nat)
    ensures
        le_bytes(value, width).len() == width,
        forall|i: int|
            0 <= i < width ==> value as int / #[trigger] pow(256, i as nat) % 256 == le_bytes(
                value,
                width,
            )[i],
    decreases width,
{
    reveal(pow);
    lemma_le_bytes_len(value, width);
    if width > 0 {
        let rest = le_bytes(value / 256, (width - 1) as nat);
        law_encoding_is_digits(value / 256, (width - 1) as nat);
        assert forall|i: int| 0 <= i < width implies value as int / #[trigger] pow(256, i as nat)
            % 256 == le_bytes(value, width)[i] by {
            if i > 0 {
                lemma_next_digit(value as int, i);
                assert(rest[i - 1] == le_bytes(value, width)[i]);
            }
        }
    }
}

/// The number that bytes encode is the sum of the bytes, each multiplied by the
/// power of 256 to its place.
pub proof fn law_value_is_sum(bytes: Seq<u8>)
    ensures
        le_value(bytes) == Seq::new(
            bytes.len(),
            |i: int| bytes[i] * pow(256, i as nat),
        ).fold_left(0int, |sum: int, part: int| sum + part),
    decreases bytes.len(),
{
    let parts = Seq::new(bytes.len(), |i: int| bytes[i] * pow(256, i as nat));
    if bytes.len() > 0 {
        let front = bytes.drop_last();
        law_value_is_sum(front);
        lemma_value_from_the_last(bytes);
        assert(parts.drop_last() =~= Seq::new(
            front.len(),
            |i: int| front[i] * pow(256, i as nat),
        ));
    }
}

/// The last byte counts for the highest power.
proof fn lemma_value_from_the_last(bytes: Seq<u8>)
    requires
        bytes.len() > 0,
    ensures
        le_value(bytes) == le_value(bytes.drop_last()) + bytes.last() * pow(
            256,
            (bytes.len() - 1) as nat,
        ),
    decreases bytes.len(),
{
    reveal(pow);
    if bytes.len() > 1 {
        let rest = bytes.drop_first();
        lemma_value_from_the_last(rest);
        assert(rest.drop_last() =~= bytes.drop_last().drop_first());
        let last = bytes.last() as int;
        let power = pow(256, (bytes.len() - 2) as nat);
        assert(256 * (last * power) == last * (256 * power)) by (nonlinear_arith);
    } else {
        assert(bytes.drop_first() =~= Seq::empty());
        assert(bytes.drop_last() =~= Seq::empty());
    }
}

/// Eight bytes encode the number of which they are the digits.
pub proof fn lemma_digits_make_word(bytes: Seq<u8>, value: int)
    requires
        bytes.len() == 8,
        0 <= value <= u64::MAX,
        forall|i: int| 0 <= i < 8 ==> value / #[trigger] pow(256, i as nat) % 256 == bytes[i],
    ensures
        le_value(bytes) == value,
{
    law_encoding_is_digits(value as nat, 8);
    assert forall|i: int| 0 <= i < 8 implies le_bytes(value as nat, 8)[i] == bytes[i] by {
        assert(value / pow(256, i as nat) % 256 == bytes[i]);
    }
    assert(le_bytes(value as nat, 8) =~= bytes);
    lemma_word_ranges();
    law_le_round_trip(value as nat, 8);
}

/// The first four of eight bytes encode the lower half of the number.
pub proof fn lemma_lower_half(word: Seq<u8>)
    requires
        word.len() == 8,
    ensures
        le_value(word) % 0x1_0000_0000 == le_value(word.take(4)),
        le_bytes(le_value(word) % 0x1_0000_0000, 4) == word.take(4),
{
    let low = word.take(4);
    let (word1, low1) = (word.drop_first(), low.drop_first());
    let (word2, low2) = (word1.drop_first(), low1.drop_first());
    let (word3, low3) = (word2.drop_first(), low2.drop_first());
    let (word4, low4) = (word3.drop_first(), low3.drop_first());
    assert(le_value(low4) == 0);
    assert(low[0] == word[0] && low1[0] == word1[0] && low2[0] == word2[0] && low3[0] == word3[0]);
    assert(le_value(word3) == word3[0] + 256 * le_value(word4) && le_value(low3) == low3[0]);
    assert(le_value(word2) == word2[0] + 256 * le_value(word3) && le_value(low2) == low2[0] + 256
        * le_value(low3));
    assert(le_value(word1) == word1[0] + 256 * le_value(word2) && le_value(low1) == low1[0] + 256
        * le_value(low2));
    assert(le_value(word) == le_value(low) + 0x1_0000_0000 * le_value(word4));
    lemma_word_ranges();
    law_le_value_determines_bytes(low);
}

/// The bytes of a window are those of the buffer, in order, from where the
/// window starts.
pub proof fn law_window_shows_the_buffer(bytes: Seq<u8>, at: int, len: int)
    requires
        0 <= at,
        0 <= len,
        at + len <= bytes.len(),
    ensures
        window(bytes, at, len).len() == len,
        forall|i: int| 0 <= i < len ==> #[trigger] window(bytes, at, len)[i] == bytes[at + i],
{
}

/// A patched buffer has the patch where it was put, and its own bytes
/// everywhere else.
pub proof fn law_patch_replaces_its_place(bytes: Seq<u8>, at: int, patch: Seq<u8>)
    requires
        0 <= at,
        at + patch.len() <= bytes.len(),
    ensures
        overwrite(bytes, at, patch) == bytes.subrange(0, at) + patch + bytes.subrange(
            at + patch.len(),
            bytes.len() as int,
        ),
{
    assert(overwrite(bytes, at, patch) =~= bytes.subrange(0, at) + patch + bytes.subrange(
        at + patch.len(),
        bytes.len() as int,
    ));
}

/// The ranges of the word widths in use.
pub proof fn lemma_word_ranges()
    ensures
        byte_range(4) == 0x1_0000_0000,
        byte_range(8) == 0x1_0000_0000_0000_0000,
{
    reveal_with_fuel(byte_range, 9);
}

/// A window of a patched buffer that stays clear of the patch is unchanged.
pub proof fn lemma_overwrite_elsewhere(
    bytes: Seq<u8>,
    at: int,
    patch: Seq<u8>,
    other: int,
    len: int,
)
    requires
        0 <= other,
        0 <= len,
        other + len <= bytes.len(),
        other + len <= at || at + patch.len() <= other,
    ensures
        window(overwrite(bytes, at, patch), other, len) == window(bytes, other, len),
{
    assert(window(overwrite(bytes, at, patch), other, len) =~= window(bytes, other, len));
}

/// The window under a patch is the patch.
pub proof fn lemma_overwrite_here(bytes: Seq<u8>, at: int, patch: Seq<u8>)
    requires
        0 <= at,
        at + patch.len() <= bytes.len(),
    ensures
        window(overwrite(bytes, at, patch), at, patch.len() as int) == patch,
{
    assert(window(overwrite(bytes, at, patch), at, patch.len() as int) =~= patch);
}

/// Reads the eight byte word at `at`.
pub fn read_u64(bytes: &[u8], at: usize) -> (value: u64)
    requires
        at + 8 <= bytes@.len(),
    ensures
        value == le_value(window(bytes@, at as int, 8)),
        forall|i: int|
            0 <= i < 8 ==> value as int / #[trigger] pow(256, i as nat) % 256 == bytes@[at + i],
{
    proof {
        let word = window(bytes@, at as int, 8);
        reveal_with_fuel(le_value, 9);
        assert(word.drop_first()[0] == word[1]);
        assert(le_value(word) == word[0] + 256 * (word[1] + 256 * (word[2] + 256 * (word[3] + 256
            * (word[4] + 256 * (word[5] + 256 * (word[6] + 256 * word[7])))))));
        law_bytes_are_digits(word);
    }
    let low: u64 = bytes[at] as u64 + 0x100 * (bytes[at + 1] as u64) + 0x1_0000 * (bytes[at
        + 2] as u64) + 0x100_0000 * (bytes[at + 3] as u64);
    let high: u64 = bytes[at + 4] as u64 + 0x100 * (bytes[at + 5] as u64) + 0x1_0000 * (bytes[at
        + 6] as u64) + 0x100_0000 * (bytes[at + 7] as u64);
    low + 0x1_0000_0000 * high
}

/// Writes `value` as the four byte word at `at`.
pub fn write_u32(bytes: &mut [u8], at: usize, value: u32)
    requires
        at + 4 <= old(bytes)@.len(),
    ensures
        final(bytes)@ == overwrite(old(bytes)@, at as int, le_bytes(value as nat, 4)),
        forall|i: int|
            0 <= i < 4 ==> value as int / #[trigger] pow(256, i as nat) % 256 == final(bytes)@[at + i],
        forall|k: int|
            0 <= k < old(bytes)@.len() && !(at <= k < at + 4) ==> #[trigger] final(bytes)@[k]
                == old(bytes)@[k],
        final(bytes)@.len() == old(bytes)@.len(),
{
    let ghost before = bytes@;
    assert(bytes@.len() == bytes.len());
    bytes[at] = (value % 256) as u8;
    bytes[at + 1] = (value / 256 % 256) as u8;
    bytes[at + 2] = (value / 256 / 256 % 256) as u8;
    bytes[at + 3] = (value / 256 / 256 / 256 % 256) as u8;
    proof {
        reveal_with_fuel(le_bytes, 5);
        let word = le_bytes(value as nat, 4);
        lemma_le_bytes_len(value as nat, 4);
        assert(bytes@ =~= overwrite(before, at as int, word));
        law_encoding_is_digits(value as nat, 4);
        assert forall|i: int| 0 <= i < 4 implies value as int / #[trigger] pow(256, i as nat) % 256
            == bytes@[at + i] by {
            assert(word[i] == bytes@[at + i]);
        }
    }
}

/// Writes `value` as the eight byte word at `at`.
pub fn write_u64(bytes: &mut [u8], at: usize, value: u64)
    requires
        at + 8 <= old(bytes)@.len(),
    ensures
        final(bytes)@ == overwrite(old(bytes)@, at as int, le_bytes(value as nat, 8)),
        forall|i: int|
            0 <= i < 8 ==> value as int / #[trigger] pow(256, i as nat) % 256 == final(bytes)@[at + i],
        forall|k: int|
            0 <= k < old(bytes)@.len() && !(at <= k < at + 8) ==> #[trigger] final(bytes)@[k]
                == old(bytes)@[k],
        final(bytes)@.len() == old(bytes)@.len(),
{
    let ghost before = bytes@;
    assert(bytes@.len() == bytes.len());
    let mut i: usize = 0;
    let mut rest: u64 = value;
    let ghost word = le_bytes(value as nat, 8);
    proof {
        lemma_le_bytes_len(value as nat, 8);
        assert(word.skip(0) =~= word);
    }
    while i < 8
        invariant
            i <= 8,
            at + 8 <= before.len() <= usize::MAX,
            bytes@.len() == before.len(),
            word.len() == 8,
            word.skip(i as int) == le_bytes(rest as nat, (8 - i) as nat),
            bytes@ == overwrite(before, at as int, word.take(i as int)),
        decreases 8 - i,
    {
        proof {
            let left = word.skip(i as int);
            assert(left[0] == (rest % 256) as u8);
            assert(left.drop_first() =~= le_bytes((rest / 256) as nat, (8 - i - 1) as nat));
            assert(left.drop_first() =~= word.skip(i + 1));
        }
        bytes[at + i] = (rest % 256) as u8;
        assert(bytes@ =~= overwrite(before, at as int, word.take(i + 1)));
        rest = rest / 256;
        i += 1;
    }
    assert(word.take(8) =~= word);
    proof {
        law_encoding_is_digits(value as nat, 8);
        assert forall|i: int| 0 <= i < 8 implies value as int / #[trigger] pow(256, i as nat) % 256
            == bytes@[at + i] by {
            assert(word[i] == bytes@[at + i]);
        }
    }
}

} // verus!
