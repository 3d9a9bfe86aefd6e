//! Bit fields of machine words: what a field of bits is as a number, the two
//! calls into the `bit_field` crate that read and write them, and the
//! arithmetic that ties the crate's shifts and masks to that number.

use bit_field::BitField;
use vstd::arithmetic::div_mod::{
    lemma_basic_div, lemma_breakdown, lemma_div_nonincreasing, lemma_div_pos_is_pos,
    lemma_fundamental_div_mod, lemma_fundamental_div_mod_converse, lemma_mod_bound,
    lemma_mod_decreases, lemma_small_mod,
};
use vstd::arithmetic::mul::lemma_mul_is_commutative;
use vstd::arithmetic::power2::{
    lemma2_to64, lemma2_to64_rest, lemma_pow2_adds, lemma_pow2_pos, lemma_pow2_strictly_increases,
    lemma_pow2_unfold, pow2,
};
use vstd::bits::{
    lemma_usize_low_bits_mask_is_mod, lemma_usize_pow2_no_overflow, lemma_usize_shl_is_mul,
    lemma_usize_shr_is_div, low_bits_mask,
};
use vstd::prelude::*;

verus! {

/// The field of `count` bits of `value` that starts `offset` bits above the
/// least significant one, read as a number: drop the `offset` low bits, keep
/// the next `count`.
pub open spec fn spec_extract_bits(value: usize, offset: nat, count: nat) -> usize {
    ((value as nat / pow2(offset)) % pow2(count)) as usize
}

/// What is left of `value` after the bits at `end` and above have been shifted
/// out at the top and the bits below `start` at the bottom.
pub open spec fn shifted_range(value: usize, start: usize, end: usize) -> usize {
    ((value << ((usize::BITS - end) as usize)) >> ((usize::BITS - end) as usize)) >> start
}

/// `value` with the bit at position `bit` set to `on`.
pub open spec fn with_bit(value: usize, bit: usize, on: bool) -> usize {
    if on {
        value | (1usize << bit)
    } else {
        value & !(1usize << bit)
    }
}

/// A history register of `width` bits after one more outcome: every recorded
/// outcome moves one position down, the oldest falls off, and the new one
/// enters at the top position, `width - 1`. A register of no bits stays 0.
pub open spec fn spec_shift_in(history: nat, width: nat, taken: bool) -> nat {
    if width == 0 {
        0
    } else if taken {
        history / 2 + pow2((width - 1) as nat)
    } else {
        history / 2
    }
}

/// `BitField::get_bits` of the `bit_field` crate on a `usize`. For a range
/// that is not empty and lies inside the word it returns the word shifted
/// left until bit `end` falls off, back right by as much, and right again by
/// `start`.
#[verifier::external_body]
fn get_bits(value: usize, start: usize, end: usize) -> (r: usize)
    requires
        start < end,
        end <= usize::BITS,
    ensures
        r == shifted_range(value, start, end),
{
    value.get_bits(start..end)
}

/// `BitField::set_bit` of the `bit_field` crate on a `usize`. For a position
/// inside the word it ors the bit in when `on` holds and masks it out
/// otherwise.
#[verifier::external_body]
fn set_bit(value: usize, bit: usize, on: bool) -> (r: usize)
    requires
        bit < usize::BITS,
    ensures
        r == with_bit(value, bit, on),
{
    let mut word = value;
    word.set_bit(bit, on);
    word
}

/// The largest machine word is one less than two to the word's width.
pub proof fn lemma_word_max()
    ensures
        usize::MAX == pow2(usize::BITS as nat) - 1,
{
    lemma2_to64();
    lemma2_to64_rest();
}

/// A one shifted left by `n` positions inside the word is two to the `n`.
pub proof fn lemma_one_shl(n: usize)
    requires
        n < usize::BITS,
    ensures
        (1usize << n) == pow2(n as nat),
{
    lemma_usize_pow2_no_overflow(n as nat);
    lemma_usize_shl_is_mul(1usize, n);
}

/// Dividing the remainder modulo `2^(low + high)` by `2^low` gives the
/// quotient by `2^low` modulo `2^high`.
proof fn lemma_mod_then_div(x: nat, low: nat, high: nat)
    ensures
        (x % pow2(low + high)) / pow2(low) == (x / pow2(low)) % pow2(high),
{
    let y = pow2(low) as int;
    let z = pow2(high) as int;
    lemma_pow2_pos(low);
    lemma_pow2_pos(high);
    lemma_pow2_adds(low, high);
    lemma_breakdown(x as int, y, z);
    let q = (x as int / y) % z;
    let r = x as int % y;
    lemma_mul_is_commutative(y, q);
    lemma_fundamental_div_mod_converse(x as int % (y * z), y, q, r);
}

/// The all-ones word shifted right by `k` is the mask of the `BITS - k` low bits.
proof fn lemma_ones_shr(k: usize)
    requires
        k < usize::BITS,
    ensures
        (!0usize) >> k == low_bits_mask((usize::BITS - k) as nat),
{
    let ones = !0usize;
    assert(usize::BITS == 64 ==> ones as u64 == 0xffff_ffff_ffff_ffffu64) by (bit_vector)
        requires
            ones == !0usize,
    ;
    assert(usize::BITS == 32 ==> ones as u64 == 0xffff_ffffu64) by (bit_vector)
        requires
            ones == !0usize,
    ;
    assert(ones == usize::MAX);
    lemma_word_max();
    lemma_usize_shr_is_div(ones, k);
    let kept = (usize::BITS - k) as nat;
    lemma_pow2_adds(kept, k as nat);
    lemma_pow2_pos(kept);
    lemma_pow2_pos(k as nat);
    let a = pow2(kept) as int;
    let b = pow2(k as nat) as int;
    assert(ones as int == (a - 1) * b + (b - 1)) by (nonlinear_arith)
        requires
            ones as int == a * b - 1,
    ;
    lemma_fundamental_div_mod_converse(ones as int, b, a - 1, b - 1);
}

/// Shifting the bits at `end` and above out at the top and back leaves the
/// word modulo `2^end`.
proof fn lemma_clear_high(value: usize, end: usize)
    requires
        0 < end <= usize::BITS,
    ensures
        (value << ((usize::BITS - end) as usize)) >> ((usize::BITS - end) as usize) == value as nat
            % pow2(end as nat),
{
    let k = (usize::BITS - end) as usize;
    if end == usize::BITS {
        assert((value << k) >> k == value) by (bit_vector)
            requires
                k == 0,
        ;
        lemma_word_max();
        lemma_small_mod(value as nat, pow2(end as nat));
    } else {
        assert((value << k) >> k == value & ((!0usize) >> k)) by (bit_vector)
            requires
                k < usize::BITS,
        ;
        lemma_ones_shr(k);
        lemma_usize_pow2_no_overflow(end as nat);
        lemma_usize_low_bits_mask_is_mod(value, end as nat);
    }
}

/// The shifts that `shifted_range` makes compute the bit field as a number.
pub proof fn lemma_shifted_range(value: usize, start: usize, end: usize)
    requires
        start < end <= usize::BITS,
    ensures
        shifted_range(value, start, end) == spec_extract_bits(
            value,
            start as nat,
            (end - start) as nat,
        ),
{
    let k = (usize::BITS - end) as usize;
    let low = (value << k) >> k;
    lemma_clear_high(value, end);
    lemma_usize_shr_is_div(low, start);
    lemma_mod_then_div(value as nat, start as nat, (end - start) as nat);
}

/// A bit field is smaller than two to its width.
pub proof fn lemma_extract_bits_bound(value: usize, offset: nat, count: nat)
    ensures
        spec_extract_bits(value, offset, count) < pow2(count),
        spec_extract_bits(value, offset, count) <= value,
{
    lemma_pow2_pos(offset);
    lemma_pow2_pos(count);
    let shifted = value as nat / pow2(offset);
    assert(shifted <= value) by {
        lemma_div_nonincreasing(value as int, pow2(offset) as int);
    }
    assert(shifted % pow2(count) <= shifted) by {
        lemma_mod_decreases(shifted, pow2(count));
    }
    assert(shifted % pow2(count) < pow2(count)) by {
        lemma_mod_bound(shifted as int, pow2(count) as int);
    }
}

/// A field of no bits is 0.
pub proof fn lemma_extract_no_bits(value: usize, offset: nat)
    ensures
        spec_extract_bits(value, offset, 0) == 0,
{
    lemma2_to64();
}

/// A value that fits in `count` bits is its own low field of `count` bits.
pub proof fn lemma_extract_low_of_small(value: usize, count: nat)
    requires
        value < pow2(count),
    ensures
        spec_extract_bits(value, 0, count) == value,
{
    lemma2_to64();
    lemma_small_mod(value as nat, pow2(count));
}

/// The top field of a value that fits in `low + high` bits is the value
/// without its `low` low bits.
pub proof fn lemma_extract_top_of_small(value: usize, low: nat, high: nat)
    requires
        value < pow2(low + high),
    ensures
        spec_extract_bits(value, low, high) == value as nat / pow2(low),
{
    lemma_pow2_pos(low);
    lemma_pow2_pos(high);
    lemma_pow2_adds(low, high);
    let y = pow2(low) as int;
    let z = pow2(high) as int;
    let q = value as int / y;
    assert(q < z) by {
        lemma_fundamental_div_mod(value as int, y);
        lemma_mod_bound(value as int, y);
        assert(q < z) by (nonlinear_arith)
            requires
                value as int == y * q + value as int % y,
                0 <= value as int % y,
                value < y * z,
                0 < y,
        ;
    }
    lemma_div_pos_is_pos(value as int, y);
    lemma_small_mod(q as nat, z as nat);
}

/// Reads the field of `count` bits of `value` that starts at bit `offset`.
/// Bits beyond the word's width read as 0, and a field of no bits is 0.
pub fn extract_bits(value: usize, offset: usize, count: usize) -> (r: usize)
    ensures
        r == spec_extract_bits(value, offset as nat, count as nat),
        r < pow2(count as nat),
{
    let width: usize = usize::BITS as usize;
    proof {
        lemma_extract_bits_bound(value, offset as nat, count as nat);
    }
    if count == 0 {
        proof {
            lemma_extract_no_bits(value, offset as nat);
        }
        0
    } else if offset >= width {
        proof {
            lemma_word_max();
            lemma_pow2_pos(offset as nat);
            if offset > width {
                lemma_pow2_strictly_increases(width as nat, offset as nat);
            }
            lemma_basic_div(value as int, pow2(offset as nat) as int);
            lemma_pow2_pos(count as nat);
            lemma_small_mod(0, pow2(count as nat));
        }
        0
    } else {
        let room: usize = width - offset;
        let end: usize = if count > room {
            width
        } else {
            offset + count
        };
        let r = get_bits(value, offset, end);
        proof {
            lemma_shifted_range(value, offset, end);
            if count > room {
                // The field reaches past the top of the word, where every bit is 0.
                lemma_extract_bits_bound(value, offset as nat, room as nat);
                lemma_pow2_strictly_increases(room as nat, count as nat);
                lemma_word_max();
                lemma_pow2_adds(offset as nat, room as nat);
                lemma_extract_top_of_small(value, offset as nat, room as nat);
                lemma_small_mod(value as nat / pow2(offset as nat), pow2(count as nat));
            }
        }
        r
    }
}

/// A register of `width` bits still fits in `width` bits after one more
/// outcome.
pub proof fn lemma_shift_in_bound(history: nat, width: nat, taken: bool)
    requires
        history < pow2(width),
    ensures
        spec_shift_in(history, width, taken) < pow2(width),
{
    lemma_pow2_pos(width);
    if width > 0 {
        lemma_pow2_unfold(width);
    }
}

/// The arithmetic of shifting one outcome into a history register that holds
/// `width` bits: halving makes room at the top position, which the new
/// outcome then fills.
pub proof fn lemma_shift_in(history: usize, width: usize, taken: bool)
    requires
        0 < width < usize::BITS,
        history < pow2(width as nat),
    ensures
        with_bit(history >> 1, (width - 1) as usize, taken) == spec_shift_in(
            history as nat,
            width as nat,
            taken,
        ),
{
    let top = (width - 1) as usize;
    lemma_one_shl(width);
    lemma_one_shl(top);
    lemma_pow2_unfold(width as nat);
    assert(history >> 1 == history / 2) by (bit_vector);
    assert(with_bit(history >> 1, top, true) == (history >> 1) + (1usize << top)) by (bit_vector)
        requires
            0 < width < usize::BITS,
            top == width - 1,
            history < (1usize << width),
    ;
    assert(with_bit(history >> 1, top, false) == history >> 1) by (bit_vector)
        requires
            0 < width < usize::BITS,
            top == width - 1,
            history < (1usize << width),
    ;
}

/// A single bit of a word as a field: the word shifted down to it, all other
/// bits masked out.
proof fn lemma_extract_one_bit(value: usize, bit: usize)
    requires
        bit < usize::BITS,
    ensures
        spec_extract_bits(value, bit as nat, 1) == (value >> bit) & 1,
{
    let shifted = value >> bit;
    lemma2_to64();
    lemma_usize_shr_is_div(value, bit);
    lemma_usize_low_bits_mask_is_mod(shifted, 1);
    assert(low_bits_mask(1) == 1);
}

/// What the history register holds after one more outcome: its top bit is
/// the new outcome, a taken branch as 1, and every bit below holds what stood
/// one position above it before. So the register keeps the latest `width`
/// outcomes, the latest on top.
pub proof fn lemma_shift_in_moves_bits(history: usize, width: usize, taken: bool, bit: usize)
    requires
        bit < width < usize::BITS,
        history < pow2(width as nat),
    ensures
        spec_extract_bits(
            spec_shift_in(history as nat, width as nat, taken) as usize,
            bit as nat,
            1,
        ) == if bit == width - 1 {
            if taken {
                1usize
            } else {
                0usize
            }
        } else {
            spec_extract_bits(history, (bit + 1) as nat, 1)
        },
{
    let top = (width - 1) as usize;
    let after = with_bit(history >> 1, top, taken);
    lemma_shift_in(history, width, taken);
    lemma_one_shl(width);
    lemma_extract_one_bit(after, bit);
    if bit < top {
        lemma_extract_one_bit(history, (bit + 1) as usize);
        assert((with_bit(history >> 1, top, taken) >> bit) & 1 == (history >> ((bit + 1) as usize))
            & 1) by (bit_vector)
            requires
                bit < top < usize::BITS,
        ;
    } else {
        assert((with_bit(history >> 1, top, taken) >> bit) & 1 == if taken {
            1usize
        } else {
            0usize
        }) by (bit_vector)
            requires
                bit == top,
                top + 1 < usize::BITS,
                history < (1usize << ((top + 1) as usize)),
        ;
    }
}

/// Records one outcome in a history register of `width` bits: shifts the
/// register right by one and sets its top bit, at `width - 1`, to the outcome.
pub fn shift_in(history: usize, width: usize, taken: bool) -> (r: usize)
    requires
        width < usize::BITS,
        history < pow2(width as nat),
    ensures
        r == spec_shift_in(history as nat, width as nat, taken),
        r < pow2(width as nat),
{
    let shifted = history >> 1;
    proof {
        lemma_shift_in_bound(history as nat, width as nat, taken);
    }
    if width == 0 {
        proof {
            lemma2_to64();
            assert(history >> 1 == history / 2) by (bit_vector);
        }
        shifted
    } else {
        proof {
            lemma_shift_in(history, width, taken);
        }
        set_bit(shifted, width - 1, taken)
    }
}

} // verus!
