//! Binary digits, least significant first.
//!
//! Every packed form in this crate (a pixel code in six bits, a byte in
//! eight) writes a number as its binary digits starting with the lowest one.
//! This module defines that correspondence once and proves that writing and
//! reading are inverse to each other.

use vstd::prelude::*;

verus! {

/// The number whose binary digits, lowest first, are `bits`.
pub open spec fn bits_value(bits: Seq<bool>) -> nat
    decreases bits.len(),
{
    if bits.len() == 0 {
        0
    } else {
        (if bits[0] { 1nat } else { 0nat }) + 2 * bits_value(bits.drop_first())
    }
}

/// The `count` lowest binary digits of `value`, lowest first.
pub open spec fn value_bits(value: nat, count: nat) -> Seq<bool>
    decreases count,
{
    if count == 0 {
        Seq::empty()
    } else {
        seq![value % 2 == 1] + value_bits(value / 2, (count - 1) as nat)
    }
}

/// Two to the power `count`.
pub open spec fn two_pow(count: nat) -> nat
    decreases count,
{
    if count == 0 {
        1
    } else {
        2 * two_pow((count - 1) as nat)
    }
}

/// `value_bits` yields exactly `count` digits.
pub proof fn lemma_value_bits_len(value: nat, count: nat)
    ensures
        value_bits(value, count).len() == count,
    decreases count,
{
    if count > 0 {
        lemma_value_bits_len(value / 2, (count - 1) as nat);
    }
}

/// A number of `n` digits is below two to the `n`.
pub proof fn lemma_bits_value_bound(bits: Seq<bool>)
    ensures
        bits_value(bits) < two_pow(bits.len()),
    decreases bits.len(),
{
    if bits.len() > 0 {
        lemma_bits_value_bound(bits.drop_first());
    }
}

/// Reading back the digits that were written gives the number, reduced to
/// the digits that were kept.
pub proof fn lemma_value_of_bits(value: nat, count: nat)
    ensures
        bits_value(value_bits(value, count)) == value % two_pow(count),
    decreases count,
{
    if count > 0 {
        let rest = value_bits(value / 2, (count - 1) as nat);
        let all = value_bits(value, count);
        lemma_value_of_bits(value / 2, (count - 1) as nat);
        assert(all.drop_first() =~= rest);
        let p = two_pow((count - 1) as nat) as int;
        lemma_two_pow_positive((count - 1) as nat);
        let half = (value / 2) as int;
        let low = half % p;
        let high = half / p;
        assert(half == high * p + low) by {
            vstd::arithmetic::div_mod::lemma_fundamental_div_mod(half, p);
            assert(p * high == high * p) by (nonlinear_arith);
        }
        assert(value as int == high * (2 * p) + (2 * low + value % 2)) by (nonlinear_arith)
            requires
                half == high * p + low,
                value as int == 2 * half + value % 2,
        ;
        vstd::arithmetic::div_mod::lemma_fundamental_div_mod_converse(
            value as int,
            2 * p,
            high,
            2 * low + (value % 2) as int,
        );
    }
}

/// Writing the digits of the number that was read gives the digits back.
pub proof fn lemma_bits_of_value(bits: Seq<bool>)
    ensures
        value_bits(bits_value(bits), bits.len()) == bits,
    decreases bits.len(),
{
    if bits.len() > 0 {
        let rest = bits.drop_first();
        lemma_bits_of_value(rest);
        let v = bits_value(bits);
        assert(v / 2 == bits_value(rest));
        assert((v % 2 == 1) == bits[0]);
        assert(value_bits(v, bits.len()) =~= bits);
    } else {
        assert(value_bits(bits_value(bits), bits.len()) =~= bits);
    }
}

/// Two to any power is positive.
pub proof fn lemma_two_pow_positive(count: nat)
    ensures
        two_pow(count) > 0,
    decreases count,
{
    if count > 0 {
        lemma_two_pow_positive((count - 1) as nat);
    }
}

/// Two to the power grows with the exponent.
pub proof fn lemma_two_pow_monotone(low: nat, high: nat)
    requires
        low <= high,
    ensures
        two_pow(low) <= two_pow(high),
    decreases high,
{
    if low < high {
        lemma_two_pow_monotone(low, (high - 1) as nat);
    }
}

/// The powers of two up to the width of a byte.
pub proof fn lemma_two_pow_small()
    ensures
        two_pow(0) == 1,
        two_pow(1) == 2,
        two_pow(2) == 4,
        two_pow(3) == 8,
        two_pow(4) == 16,
        two_pow(5) == 32,
        two_pow(6) == 64,
        two_pow(7) == 128,
        two_pow(8) == 256,
{
    reveal_with_fuel(two_pow, 10);
}

/// The bit sequence that holds each of `values` in `width` digits, one value
/// after the other.
pub open spec fn spread(values: Seq<u8>, width: int) -> Seq<bool> {
    Seq::new(
        (values.len() * width) as nat,
        |i: int| value_bits(values[i / width] as nat, width as nat)[i % width],
    )
}

/// The values read from `bits`, `width` digits each; digits left over at the
/// end are not read.
pub open spec fn gather(bits: Seq<bool>, width: int) -> Seq<u8> {
    Seq::new(
        (bits.len() / width as nat) as nat,
        |k: int| bits_value(bits.subrange(width * k, width * k + width)) as u8,
    )
}

/// Position `width * index + offset` lies in group `index` at `offset`.
pub proof fn lemma_group_position(width: int, index: int, offset: int)
    requires
        0 < width,
        0 <= offset < width,
    ensures
        (width * index + offset) / width == index,
        (width * index + offset) % width == offset,
{
    assert(width * index == index * width) by (nonlinear_arith);
    vstd::arithmetic::div_mod::lemma_fundamental_div_mod_converse(
        width * index + offset,
        width,
        index,
        offset,
    );
}

/// Group `index` of what `spread` wrote holds the digits of value `index`.
pub proof fn lemma_spread_group(values: Seq<u8>, width: int, index: int)
    requires
        0 < width,
        0 <= index < values.len(),
    ensures
        width * index + width <= spread(values, width).len(),
        0 <= width * index,
        spread(values, width).subrange(width * index, width * index + width) == value_bits(
            values[index] as nat,
            width as nat,
        ),
{
    let all = spread(values, width);
    assert(0 <= width * index && width * index + width <= values.len() * width)
        by (nonlinear_arith)
        requires
            0 < width,
            0 <= index < values.len(),
    ;
    lemma_value_bits_len(values[index] as nat, width as nat);
    let part = all.subrange(width * index, width * index + width);
    let digits = value_bits(values[index] as nat, width as nat);
    assert forall|j: int| 0 <= j < width implies part[j] == digits[j] by {
        lemma_group_position(width, index, j);
    }
    assert(part =~= digits);
}

/// Reading what `spread` wrote gives each value reduced to `width` digits.
pub proof fn lemma_gather_spread(values: Seq<u8>, width: int)
    requires
        0 < width <= 8,
    ensures
        gather(spread(values, width), width).len() == values.len(),
        forall|k: int|
            0 <= k < values.len() ==> #[trigger] gather(spread(values, width), width)[k] as nat
                == values[k] as nat % two_pow(width as nat),
{
    let all = spread(values, width);
    let back = gather(all, width);
    assert(all.len() / width as nat == values.len()) by {
        assert(values.len() * width == width * values.len()) by (nonlinear_arith);
        lemma_group_position(width, values.len() as int, 0);
    }
    assert forall|k: int| 0 <= k < values.len() implies #[trigger] back[k] as nat == values[k] as nat
        % two_pow(width as nat) by {
        lemma_spread_group(values, width, k);
        lemma_value_of_bits(values[k] as nat, width as nat);
        lemma_two_pow_positive(width as nat);
        lemma_two_pow_monotone(width as nat, 8);
        lemma_two_pow_small();
        let reduced = values[k] as nat % two_pow(width as nat);
        assert(reduced < two_pow(width as nat)) by {
            vstd::arithmetic::div_mod::lemma_mod_bound(
                values[k] as int,
                two_pow(width as nat) as int,
            );
        }
        assert(reduced < 256);
    }
}

/// Writing what `gather` read gives the bits back, when they divide evenly
/// into groups.
pub proof fn lemma_spread_gather(bits: Seq<bool>, width: int)
    requires
        0 < width <= 8,
        bits.len() % width as nat == 0,
    ensures
        spread(gather(bits, width), width) == bits,
{
    let values = gather(bits, width);
    let all = spread(values, width);
    let groups = (bits.len() / width as nat) as int;
    assert(bits.len() == groups * width) by {
        vstd::arithmetic::div_mod::lemma_fundamental_div_mod(bits.len() as int, width);
        assert(width * groups == groups * width) by (nonlinear_arith);
    }
    assert(all.len() == bits.len());
    assert forall|i: int| 0 <= i < bits.len() implies all[i] == bits[i] by {
        let k = i / width;
        let j = i % width;
        vstd::arithmetic::div_mod::lemma_fundamental_div_mod(i, width);
        vstd::arithmetic::div_mod::lemma_mod_bound(i, width);
        assert(0 <= k < groups) by (nonlinear_arith)
            requires
                i == width * k + j,
                0 <= j < width,
                0 <= i < groups * width,
        ;
        assert(width * k + width <= bits.len()) by (nonlinear_arith)
            requires
                k < groups,
                bits.len() == groups * width,
                0 < width,
        ;
        let part = bits.subrange(width * k, width * k + width);
        lemma_bits_of_value(part);
        lemma_bits_value_bound(part);
        lemma_two_pow_monotone(width as nat, 8);
        lemma_two_pow_small();
        assert(values[k] as nat == bits_value(part));
        assert(part[j] == bits[i]);
    }
    assert(all =~= bits);
}

/// Appends the `count` lowest digits of `value` to `bits`, lowest first.
pub fn push_digits(bits: &mut Vec<bool>, value: u8, count: usize)
    requires
        count <= 8,
    ensures
        final(bits)@ == old(bits)@ + value_bits(value as nat, count as nat),
{
    let ghost before = bits@;
    let mut rest: u8 = value;
    let mut done: usize = 0;
    while done < count
        invariant
            done <= count <= 8,
            bits@ + value_bits(rest as nat, (count - done) as nat) == before + value_bits(
                value as nat,
                count as nat,
            ),
        decreases count - done,
    {
        let ghost earlier = bits@;
        let ghost tail = value_bits((rest / 2) as nat, (count - done - 1) as nat);
        bits.push(rest % 2 == 1);
        proof {
            assert(bits@ + tail =~= earlier + value_bits(rest as nat, (count - done) as nat));
        }
        rest = rest / 2;
        done += 1;
    }
    proof {
        assert(bits@ + Seq::<bool>::empty() =~= bits@);
    }
}

/// Reads the number whose digits, lowest first, are the `count` bits of
/// `bits` from position `start` on.
pub fn read_digits(bits: &Vec<bool>, start: usize, count: usize) -> (value: u8)
    requires
        count <= 8,
        start + count <= bits.len(),
    ensures
        value as nat == bits_value(bits@.subrange(start as int, start + count)),
{
    let mut value: u8 = 0;
    let mut left: usize = count;
    while left > 0
        invariant
            left <= count <= 8,
            start + count <= bits.len(),
            value as nat == bits_value(bits@.subrange(start + left, start + count)),
        decreases left,
    {
        let ghost seen = bits@.subrange(start + left, start + count);
        left -= 1;
        let ghost next = bits@.subrange(start + left, start + count);
        proof {
            lemma_bits_value_bound(seen);
            lemma_two_pow_monotone(seen.len(), 7);
            lemma_two_pow_small();
            assert(next.drop_first() =~= seen);
        }
        value = value * 2 + if bits[start + left] { 1 } else { 0 };
    }
    value
}

/// Writes each of `values` in `width` digits, one value after the other.
pub fn spread_values(values: &Vec<u8>, width: usize) -> (bits: Vec<bool>)
    requires
        0 < width <= 8,
        values.len() * width <= usize::MAX,
    ensures
        bits@ == spread(values@, width as int),
{
    let mut bits: Vec<bool> = Vec::new();
    let mut index: usize = 0;
    while index < values.len()
        invariant
            0 < width <= 8,
            index <= values.len(),
            bits@.len() == index * width,
            forall|i: int| 0 <= i < bits@.len() ==> bits@[i] == spread(values@, width as int)[i],
        decreases values.len() - index,
    {
        let ghost earlier = bits@;
        push_digits(&mut bits, values[index], width);
        proof {
            let all = spread(values@, width as int);
            lemma_spread_group(values@, width as int, index as int);
            lemma_value_bits_len(values[index as int] as nat, width as nat);
            assert((index + 1) * width == index * width + width) by (nonlinear_arith);
            assert(index * width == width * index) by (nonlinear_arith);
            let part = all.subrange(width * index, width * index + width);
            assert forall|i: int| 0 <= i < bits@.len() implies bits@[i] == all[i] by {
                if i >= earlier.len() {
                    assert(bits@[i] == part[i - earlier.len()]);
                }
            }
        }
        index += 1;
    }
    proof {
        assert(bits@ =~= spread(values@, width as int));
    }
    bits
}

/// Reads the values that `bits` holds, `width` digits each.
pub fn gather_values(bits: &Vec<bool>, width: usize) -> (values: Vec<u8>)
    requires
        0 < width <= 8,
    ensures
        values@ == gather(bits@, width as int),
{
    let groups: usize = bits.len() / width;
    let mut values: Vec<u8> = Vec::new();
    let mut index: usize = 0;
    proof {
        vstd::arithmetic::div_mod::lemma_fundamental_div_mod(bits.len() as int, width as int);
        vstd::arithmetic::div_mod::lemma_mod_bound(bits.len() as int, width as int);
    }
    while index < groups
        invariant
            0 < width <= 8,
            index <= groups,
            groups == bits.len() / width,
            width * groups <= bits.len(),
            values@.len() == index,
            forall|k: int| 0 <= k < index ==> values@[k] == gather(bits@, width as int)[k],
        decreases groups - index,
    {
        proof {
            assert(width * index + width <= width * groups) by (nonlinear_arith)
                requires
                    index < groups,
                    0 < width,
            ;
        }
        let value = read_digits(bits, width * index, width);
        values.push(value);
        index += 1;
    }
    proof {
        assert(values@ =~= gather(bits@, width as int));
    }
    values
}

} // verus!
