//! The dictionary of a store's offers, read far enough to tell whether its
//! cells can be handed to the cell library.
//!
//! The dictionary is a binary tree of cells over keys of 32 bits. Each cell
//! begins with a label, a run of key bits: a short label gives its length in
//! unary and then its bits; a long label gives its length in a field as wide
//! as the bits that are left need, and then its bits; a label of one
//! repeated bit gives that bit and then its length in such a field. A cell at
//! which all 32 bits of a key are known holds a value; every other cell
//! refers to two cells, for the next key bit 0 and 1.
//!
//! A dictionary is sound where no label is longer than the key bits that
//! are left, no long label is empty, every label lies within its cell, and
//! every cell that holds no value refers to two sound cells.

use vstd::prelude::*;
use std::sync::Arc;
use tonlib_core::cell::Cell;
use crate::cell::{
    cell_bit_len, cell_data, cell_refs, cell_stream, read_cell_bit_len, read_cell_data,
    read_cell_ref_count, read_cell_reference, unpack_stream,
};

verus! {

/// Bits of a key.
pub const KEY_BITS: usize = 32;

/// Bits of the field that gives the length of a label where `left` key
/// bits are left: as many as the numbers from 0 to `left` need.
pub open spec fn length_bits(left: nat) -> nat {
    if left < 2 {
        1
    } else if left < 4 {
        2
    } else if left < 8 {
        3
    } else if left < 16 {
        4
    } else if left < 32 {
        5
    } else {
        6
    }
}

/// The number that the `count` bits of `bits` from `start` on spell,
/// highest first.
pub open spec fn stream_number(bits: Seq<bool>, start: int, count: nat) -> nat
    decreases count,
{
    if count == 0 {
        0
    } else {
        2 * stream_number(bits, start, (count - 1) as nat) + if bits[start + count - 1] {
            1nat
        } else {
            0nat
        }
    }
}

/// The number of one-bits in `bits` from `start` up to the next zero bit,
/// if there is a zero bit.
pub open spec fn unary_length(bits: Seq<bool>, start: int) -> Option<nat>
    decreases bits.len() - start,
{
    if start < 0 || start >= bits.len() {
        None
    } else if !bits[start] {
        Some(0)
    } else {
        match unary_length(bits, start + 1) {
            Some(count) => Some(count + 1),
            None => None,
        }
    }
}

/// The length of the label at the head of `bits` where `left` key bits are
/// left, if the label lies within `bits`, is not longer than `left` and, if
/// it is a long label, is not empty.
pub open spec fn label_length(bits: Seq<bool>, left: nat) -> Option<nat> {
    if bits.len() < 1 {
        None
    } else if !bits[0] {
        match unary_length(bits, 1) {
            Some(count) => if count <= left && 2 + 2 * count <= bits.len() {
                Some(count)
            } else {
                None
            },
            None => None,
        }
    } else if bits.len() < 2 || left == 0 {
        None
    } else {
        let at: int = if bits[1] {
            3
        } else {
            2
        };
        let width = length_bits(left);
        if at + width > bits.len() {
            None
        } else {
            let count = stream_number(bits, at, width);
            if count > left || (!bits[1] && (count == 0 || at + width + count > bits.len())) {
                None
            } else {
                Some(count)
            }
        }
    }
}

/// `cell` and the cells below it are a sound dictionary where `used` bits
/// of the key are known on the way to `cell`.
pub open spec fn is_sound_dict(cell: Cell, used: nat) -> bool
    decreases 33 - used,
{
    &&& used <= KEY_BITS
    &&& cell_bit_len(cell) <= 8 * cell_data(cell).len()
    &&& match label_length(cell_stream(cell), (KEY_BITS - used) as nat) {
        None => false,
        Some(count) => used + count < KEY_BITS ==> {
            &&& cell_refs(cell).len() >= 2
            &&& is_sound_dict(cell_refs(cell)[0], used + count + 1)
            &&& is_sound_dict(cell_refs(cell)[1], used + count + 1)
        },
    }
}

/// Reads the number that `count` bits from `start` on spell.
fn read_stream_number(bits: &Vec<bool>, start: usize, count: usize) -> (number: usize)
    requires
        count <= 6,
        start + count <= bits@.len(),
    ensures
        number == stream_number(bits@, start as int, count as nat),
        number < 64,
{
    let mut number: usize = 0;
    let mut done: usize = 0;
    let ghost limits = seq![1nat, 2, 4, 8, 16, 32, 64];
    while done < count
        invariant
            done <= count <= 6,
            start + count <= bits@.len(),
            number == stream_number(bits@, start as int, done as nat),
            limits == seq![1nat, 2, 4, 8, 16, 32, 64],
            number < limits[done as int],
        decreases count - done,
    {
        assert(start + done < bits.len());
        let digit: usize = if bits[start + done] { 1 } else { 0 };
        number = 2 * number + digit;
        done += 1;
    }
    number
}

/// Counts the one-bits from `start` up to the next zero bit.
fn read_unary_length(bits: &Vec<bool>, start: usize) -> (count: Option<usize>)
    requires
        start <= bits@.len(),
    ensures
        match count {
            Some(count) => unary_length(bits@, start as int) == Some(count as nat) && start + count
                < bits@.len(),
            None => unary_length(bits@, start as int).is_none(),
        },
{
    let mut at: usize = start;
    while at < bits.len()
        invariant
            start <= at <= bits@.len(),
            forall|k: int| start <= k < at ==> bits@[k],
        decreases bits.len() - at,
    {
        if !bits[at] {
            proof {
                lemma_unary_run(bits@, start as int, at as int);
            }
            return Some(at - start);
        }
        at += 1;
    }
    proof {
        lemma_unary_none(bits@, start as int);
    }
    None
}

/// A run of one-bits that ends in a zero bit has the length of the run.
pub proof fn lemma_unary_run(bits: Seq<bool>, start: int, end: int)
    requires
        0 <= start <= end < bits.len(),
        !bits[end],
        forall|k: int| start <= k < end ==> bits[k],
    ensures
        unary_length(bits, start) == Some((end - start) as nat),
    decreases end - start,
{
    if start < end {
        lemma_unary_run(bits, start + 1, end);
    }
}

/// A run of one-bits to the end has no length.
pub proof fn lemma_unary_none(bits: Seq<bool>, start: int)
    requires
        0 <= start <= bits.len(),
        forall|k: int| start <= k < bits.len() ==> bits[k],
    ensures
        unary_length(bits, start).is_none(),
    decreases bits.len() - start,
{
    if start < bits.len() {
        lemma_unary_none(bits, start + 1);
    }
}

/// Reads the length of the label at the head of `bits`.
fn read_label_length(bits: &Vec<bool>, left: usize) -> (count: Option<usize>)
    requires
        left <= KEY_BITS,
    ensures
        match count {
            Some(count) => label_length(bits@, left as nat) == Some(count as nat) && count <= left,
            None => label_length(bits@, left as nat).is_none(),
        },
{
    let len = bits.len();
    if len < 1 {
        return None;
    }
    if !bits[0] {
        return match read_unary_length(bits, 1) {
            Some(count) => {
                if count <= left && count <= (len - 2) / 2 && len >= 2 {
                    Some(count)
                } else {
                    None
                }
            },
            None => None,
        };
    }
    if len < 2 || left == 0 {
        return None;
    }
    let at: usize = if bits[1] { 3 } else { 2 };
    let width: usize = if left < 2 {
        1
    } else if left < 4 {
        2
    } else if left < 8 {
        3
    } else if left < 16 {
        4
    } else if left < 32 {
        5
    } else {
        6
    };
    if width > len - 2 || at + width > len {
        return None;
    }
    let count = read_stream_number(bits, at, width);
    if count > left || (!bits[1] && (count == 0 || count > len - at - width)) {
        return None;
    }
    Some(count)
}

/// Tests whether `cell` and the cells below it are a sound dictionary
/// where `used` bits of the key are known on the way to `cell`.
pub fn check_dict(cell: &Cell, used: usize) -> (ok: bool)
    ensures
        ok == is_sound_dict(*cell, used as nat),
    decreases 33 - used,
{
    if used > KEY_BITS {
        return false;
    }
    let data = read_cell_data(cell);
    let len = read_cell_bit_len(cell);
    if data.len() < len / 8 || (data.len() == len / 8 && len % 8 != 0) {
        return false;
    }
    let stream = unpack_stream(&data, len);
    let count = match read_label_length(&stream, KEY_BITS - used) {
        Some(count) => count,
        None => {
            return false;
        },
    };
    if used + count == KEY_BITS {
        return true;
    }
    if read_cell_ref_count(cell) < 2 {
        return false;
    }
    let next = used + count + 1;
    let left = match read_cell_reference(cell, 0) {
        Some(left) => left,
        None => {
            return false;
        },
    };
    if !check_dict(&*left, next) {
        return false;
    }
    let right = match read_cell_reference(cell, 1) {
        Some(right) => right,
        None => {
            return false;
        },
    };
    check_dict(&*right, next)
}

} // verus!
