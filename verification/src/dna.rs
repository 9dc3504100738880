//! The pixel grid as a bit sequence, and its flat encoding.
//!
//! A [`Dna`] is 64 rows of 64 pixels, six bits to a pixel, 24,576 bits in
//! all. Pixels follow each other row by row; within a pixel, and within a
//! byte of the flat encoding, the lowest binary digit comes first.

use vstd::prelude::*;
use vstd::string::*;
use crate::bits::{
    gather, gather_values, lemma_gather_spread, lemma_spread_gather, lemma_two_pow_small, spread,
    spread_values, two_pow,
};
use crate::encoding::{base64_bytes, base64_decode, base64_encode, base64_text};

verus! {

/// Pixels along one side of the grid.
pub const GRID_SIDE: usize = 64;

/// Bits that hold one pixel code.
pub const PIXEL_BITS: usize = 6;

/// Pixels in the grid.
pub const PIXEL_COUNT: usize = 4096;

/// Bits in the grid.
pub const BIT_COUNT: usize = 24_576;

/// Bytes in the flat encoding.
pub const BYTE_COUNT: usize = 3072;

/// Letters of a flat encoding.
pub const TEXT_LEN: usize = 4096;

/// Why a grid could not be decoded.
#[derive(Debug, Clone, Copy, PartialEq, Eq)]
pub enum DnaError {
    /// The text is not an encoding of anything.
    MalformedInput,
    /// The tree has another shape than a grid's tree: a node with another
    /// number of bits or of children than its position asks for.
    MalformedTree,
}

/// A pixel grid: exactly `BIT_COUNT` bits.
#[derive(Debug)]
pub struct Dna {
    bits: Vec<bool>,
}

impl View for Dna {
    type V = Seq<bool>;

    closed spec fn view(&self) -> Seq<bool> {
        self.bits@
    }
}

/// `rows` is 64 rows of 64 pixel codes.
pub open spec fn is_grid(rows: Seq<Seq<u8>>) -> bool {
    &&& rows.len() == GRID_SIDE
    &&& forall|y: int| 0 <= y < GRID_SIDE ==> (#[trigger] rows[y]).len() == GRID_SIDE
}

/// Every pixel code of `rows` is below 64.
pub open spec fn codes_in_range(rows: Seq<Seq<u8>>) -> bool {
    forall|y: int, x: int|
        0 <= y < rows.len() && 0 <= x < rows[y].len() ==> #[trigger] rows[y][x] < 64
}

/// The rows of a vector of rows.
pub open spec fn rows_of(data: Seq<Vec<u8>>) -> Seq<Seq<u8>> {
    Seq::new(data.len(), |y: int| data[y]@)
}

/// The pixel codes of a grid, row after row.
pub open spec fn flatten_rows(rows: Seq<Seq<u8>>) -> Seq<u8> {
    Seq::new(PIXEL_COUNT as nat, |k: int| rows[k / 64][k % 64])
}

/// The rows of a grid given by its pixel codes, row after row.
pub open spec fn split_rows(codes: Seq<u8>) -> Seq<Seq<u8>> {
    Seq::new(GRID_SIDE as nat, |y: int| codes.subrange(64 * y, 64 * y + 64))
}

/// The grid bits of pixel rows: the six low digits of each code, row after
/// row.
pub open spec fn rows_bits(rows: Seq<Seq<u8>>) -> Seq<bool> {
    spread(flatten_rows(rows), 6)
}

/// The pixel rows of grid bits.
pub open spec fn bits_rows(bits: Seq<bool>) -> Seq<Seq<u8>> {
    split_rows(gather(bits, 6))
}

/// The bits of a flat byte buffer.
pub open spec fn bytes_bits(bytes: Seq<u8>) -> Seq<bool> {
    spread(bytes, 8)
}

/// The flat byte buffer of grid bits.
pub open spec fn bits_bytes(bits: Seq<bool>) -> Seq<u8> {
    gather(bits, 8)
}

/// The digit that stands for a bit.
pub open spec fn bit_digit(bit: bool) -> Seq<char> {
    if bit {
        "1"@
    } else {
        "0"@
    }
}

/// The digits of `bits`, with a comma and a space between one and the
/// next.
pub open spec fn bits_list(bits: Seq<bool>) -> Seq<char>
    decreases bits.len(),
{
    if bits.len() == 0 {
        Seq::empty()
    } else if bits.len() == 1 {
        bit_digit(bits[0])
    } else {
        bits_list(bits.drop_last()) + ", "@ + bit_digit(bits.last())
    }
}

/// The grid written out: its bits as a list of digits in square brackets.
pub open spec fn bits_text(bits: Seq<bool>) -> Seq<char> {
    "["@ + bits_list(bits) + "]"@
}

/// `text` is a flat encoding: base64 of exactly `BYTE_COUNT` bytes.
pub open spec fn is_flat_text(text: Seq<char>) -> bool {
    match base64_bytes(text) {
        Some(bytes) => bytes.len() == BYTE_COUNT,
        None => false,
    }
}

/// The flat encoding of grid bits.
pub open spec fn flat_text(bits: Seq<bool>) -> Seq<char> {
    base64_text(bits_bytes(bits))
}

impl Dna {
    #[verifier::type_invariant]
    spec fn well_formed(&self) -> bool {
        self.bits@.len() == BIT_COUNT
    }

    /// The bits of the grid.
    pub fn bits(&self) -> (bits: &Vec<bool>)
        ensures
            bits@ == self@,
            bits@.len() == BIT_COUNT,
    {
        proof {
            use_type_invariant(self);
        }
        &self.bits
    }

    /// Takes `bits` as a grid, if there are exactly `BIT_COUNT` of them.
    pub fn from_bits(bits: Vec<bool>) -> (dna: Option<Dna>)
        ensures
            dna.is_some() <==> bits@.len() == BIT_COUNT,
            dna matches Some(d) ==> d@ == bits@,
    {
        if bits.len() == BIT_COUNT {
            Some(Dna { bits })
        } else {
            None
        }
    }

    /// Takes a flat byte buffer as a grid, if it has exactly `BYTE_COUNT`
    /// bytes.
    pub fn from_bytes(bytes: &Vec<u8>) -> (dna: Option<Dna>)
        ensures
            dna.is_some() <==> bytes@.len() == BYTE_COUNT,
            dna matches Some(d) ==> d@ == bytes_bits(bytes@) && d@.len() == BIT_COUNT,
    {
        if bytes.len() != BYTE_COUNT {
            return None;
        }
        let bits = spread_values(bytes, 8);
        Some(Dna { bits })
    }

    /// The flat byte buffer of the grid.
    pub fn to_bytes(&self) -> (bytes: Vec<u8>)
        ensures
            bytes@ == bits_bytes(self@),
            bytes@.len() == BYTE_COUNT,
            bytes_bits(bytes@) == self@,
    {
        proof {
            use_type_invariant(self);
            lemma_spread_gather(self.bits@, 8);
        }
        gather_values(&self.bits, 8)
    }

    /// Decodes a flat encoding.
    ///
    /// Returns `None` for malformed input: text that is not padded standard
    /// base64, or that decodes to another number of bytes than `BYTE_COUNT`.
    /// A grid that is returned encodes to `base64` again, and `base64` has
    /// `TEXT_LEN` letters.
    pub fn from_base64(base64: &str) -> (dna: Option<Dna>)
        ensures
            dna.is_some() <==> is_flat_text(base64@),
            dna matches Some(d) ==> {
                &&& d@ == bytes_bits(base64_bytes(base64@).unwrap())
                &&& d@.len() == BIT_COUNT
                &&& flat_text(d@) == base64@
                &&& base64@.len() == TEXT_LEN
            },
    {
        let bytes = match base64_decode(base64) {
            Some(bytes) => bytes,
            None => {
                return None;
            },
        };
        let dna = Dna::from_bytes(&bytes);
        proof {
            if bytes@.len() == BYTE_COUNT {
                lemma_bytes_round_trip(bytes@);
            }
        }
        dna
    }

    /// Encodes the grid as padded standard base64 of its flat byte buffer.
    ///
    /// The text has `TEXT_LEN` letters and decodes to this grid again.
    pub fn to_base64(&self) -> (text: String)
        ensures
            text@ == flat_text(self@),
            text@.len() == TEXT_LEN,
            is_flat_text(text@),
            bytes_bits(base64_bytes(text@).unwrap()) == self@,
    {
        let bytes = self.to_bytes();
        base64_encode(&bytes)
    }

    /// Builds the grid from 64 rows of 64 pixel codes; of each code the six
    /// low bits are kept.
    pub fn from_data(data: Vec<Vec<u8>>) -> (dna: Dna)
        requires
            is_grid(rows_of(data@)),
        ensures
            dna@ == rows_bits(rows_of(data@)),
            dna@.len() == BIT_COUNT,
    {
        let mut codes: Vec<u8> = Vec::new();
        let mut y: usize = 0;
        while y < GRID_SIDE
            invariant
                y <= GRID_SIDE,
                is_grid(rows_of(data@)),
                codes@.len() == 64 * y,
                forall|k: int|
                    0 <= k < codes@.len() ==> codes@[k] == flatten_rows(rows_of(data@))[k],
            decreases GRID_SIDE - y,
        {
            let row = &data[y];
            assert(row@ == rows_of(data@)[y as int]);
            let mut x: usize = 0;
            while x < GRID_SIDE
                invariant
                    x <= GRID_SIDE,
                    y < GRID_SIDE,
                    row@ == rows_of(data@)[y as int],
                    row@.len() == GRID_SIDE,
                    codes@.len() == 64 * y + x,
                    forall|k: int|
                        0 <= k < codes@.len() ==> codes@[k] == flatten_rows(rows_of(data@))[k],
                decreases GRID_SIDE - x,
            {
                codes.push(row[x]);
                x += 1;
            }
            y += 1;
        }
        assert(codes@ =~= flatten_rows(rows_of(data@)));
        let bits = spread_values(&codes, PIXEL_BITS);
        Dna { bits }
    }

    /// The grid written out for reading: `[0, 1, 1, ...]`, one digit for
    /// each bit.
    pub fn to_text(&self) -> (text: String)
        ensures
            text@ == bits_text(self@),
    {
        let mut text = "[".to_owned();
        let mut i: usize = 0;
        while i < self.bits.len()
            invariant
                i <= self.bits@.len(),
                text@ == "["@ + bits_list(self.bits@.take(i as int)),
            decreases self.bits.len() - i,
        {
            let ghost before = self.bits@.take(i as int);
            let ghost after = self.bits@.take(i + 1);
            proof {
                assert(after.drop_last() =~= before);
                assert(after.last() == self.bits@[i as int]);
            }
            if i > 0 {
                text.append(", ");
            }
            text.append(if self.bits[i] { "1" } else { "0" });
            proof {
                if i == 0 {
                    assert(bits_list(before) =~= Seq::<char>::empty());
                    assert(text@ =~= "["@ + bits_list(after));
                } else {
                    assert(text@ =~= "["@ + bits_list(after));
                }
            }
            i += 1;
        }
        proof {
            assert(self.bits@.take(i as int) =~= self.bits@);
        }
        text.append("]");
        text
    }

    /// The pixel codes of the grid, row after row.
    pub fn pixels(&self) -> (codes: Vec<u8>)
        ensures
            codes@ == gather(self@, 6),
            codes@.len() == PIXEL_COUNT,
            forall|k: int| 0 <= k < PIXEL_COUNT ==> codes@[k] < 64,
    {
        proof {
            use_type_invariant(self);
        }
        let codes = gather_values(&self.bits, PIXEL_BITS);
        proof {
            assert forall|k: int| 0 <= k < PIXEL_COUNT implies codes@[k] < 64 by {
                lemma_code_in_range(self.bits@, k);
            }
        }
        codes
    }

    /// The grid as 64 rows of 64 pixel codes, each below 64.
    pub fn to_data(&self) -> (data: Vec<Vec<u8>>)
        ensures
            rows_of(data@) == bits_rows(self@),
            is_grid(rows_of(data@)),
            codes_in_range(rows_of(data@)),
    {
        let codes = self.pixels();
        let mut data: Vec<Vec<u8>> = Vec::new();
        let mut y: usize = 0;
        while y < GRID_SIDE
            invariant
                y <= GRID_SIDE,
                codes@.len() == PIXEL_COUNT,
                data@.len() == y,
                forall|r: int| 0 <= r < y ==> (#[trigger] data@[r])@ == split_rows(codes@)[r],
            decreases GRID_SIDE - y,
        {
            let mut row: Vec<u8> = Vec::new();
            let mut x: usize = 0;
            while x < GRID_SIDE
                invariant
                    x <= GRID_SIDE,
                    y < GRID_SIDE,
                    codes@.len() == PIXEL_COUNT,
                    row@.len() == x,
                    forall|c: int| 0 <= c < x ==> row@[c] == codes@[64 * y + c],
                decreases GRID_SIDE - x,
            {
                row.push(codes[64 * y + x]);
                x += 1;
            }
            assert(row@ =~= split_rows(codes@)[y as int]);
            data.push(row);
            y += 1;
        }
        assert(rows_of(data@) =~= bits_rows(self@));
        data
    }
}

/// Every code read from grid bits is below 64.
pub proof fn lemma_code_in_range(bits: Seq<bool>, k: int)
    requires
        0 <= k < bits.len() / 6,
    ensures
        gather(bits, 6)[k] < 64,
{
    let part = bits.subrange(6 * k, 6 * k + 6);
    crate::bits::lemma_bits_value_bound(part);
    lemma_two_pow_small();
}

/// The bits of a byte buffer pack into the same buffer again.
pub proof fn lemma_bytes_round_trip(bytes: Seq<u8>)
    ensures
        bits_bytes(bytes_bits(bytes)) == bytes,
{
    lemma_gather_spread(bytes, 8);
    lemma_two_pow_small();
    let back = bits_bytes(bytes_bits(bytes));
    assert forall|k: int| 0 <= k < bytes.len() implies back[k] == bytes[k] by {
        assert(back[k] as nat == bytes[k] as nat % two_pow(8));
    }
    assert(back =~= bytes);
}

/// The codes of a grid, row after row, split into rows again are the grid.
pub proof fn lemma_split_flatten(rows: Seq<Seq<u8>>)
    requires
        is_grid(rows),
    ensures
        split_rows(flatten_rows(rows)) == rows,
{
    let codes = flatten_rows(rows);
    assert forall|y: int| 0 <= y < GRID_SIDE implies #[trigger] split_rows(codes)[y] == rows[y] by {
        let row = split_rows(codes)[y];
        assert(row.len() == rows[y].len());
        assert forall|x: int| 0 <= x < GRID_SIDE implies row[x] == rows[y][x] by {
            assert(row[x] == codes[64 * y + x]);
            assert((64 * y + x) / 64 == y && (64 * y + x) % 64 == x);
        }
        assert(row =~= rows[y]);
    }
    assert(split_rows(codes) =~= rows);
}

/// Codes below 64 are read back as they were written.
pub proof fn lemma_codes_round_trip(codes: Seq<u8>)
    requires
        forall|k: int| 0 <= k < codes.len() ==> #[trigger] codes[k] < 64,
    ensures
        gather(spread(codes, 6), 6) == codes,
{
    lemma_gather_spread(codes, 6);
    lemma_two_pow_small();
    let back = gather(spread(codes, 6), 6);
    assert forall|k: int| 0 <= k < codes.len() implies back[k] == codes[k] by {
        assert(back[k] as nat == codes[k] as nat % two_pow(6));
        assert(codes[k] < 64);
    }
    assert(back =~= codes);
}

/// Building a grid from pixel rows and reading its rows gives the rows
/// back, for every 64 x 64 grid of codes below 64.
pub proof fn law_rows_round_trip(rows: Seq<Seq<u8>>)
    requires
        is_grid(rows),
        codes_in_range(rows),
    ensures
        rows_bits(rows).len() == BIT_COUNT,
        bits_rows(rows_bits(rows)) == rows,
{
    let codes = flatten_rows(rows);
    assert forall|k: int| 0 <= k < codes.len() implies #[trigger] codes[k] < 64 by {
        let y = k / 64;
        let x = k % 64;
        assert(rows[y].len() == GRID_SIDE);
        assert(rows[y][x] < 64);
    }
    lemma_codes_round_trip(codes);
    lemma_split_flatten(rows);
}

/// Reading the rows of a grid and building a grid from them gives the grid
/// back; the rows are 64 x 64 codes below 64.
pub proof fn law_bits_round_trip(bits: Seq<bool>)
    requires
        bits.len() == BIT_COUNT,
    ensures
        is_grid(bits_rows(bits)),
        codes_in_range(bits_rows(bits)),
        rows_bits(bits_rows(bits)) == bits,
{
    let codes = gather(bits, 6);
    let rows = bits_rows(bits);
    assert(bits.len() / 6 == PIXEL_COUNT);
    assert(codes.len() == PIXEL_COUNT);
    assert(rows.len() == GRID_SIDE);
    assert forall|y: int| 0 <= y < GRID_SIDE implies (#[trigger] rows[y]).len() == GRID_SIDE by {
        assert(rows[y] == codes.subrange(64 * y, 64 * y + 64));
    }
    assert forall|y: int, x: int| 0 <= y < rows.len() && 0 <= x < rows[y].len() implies
        #[trigger] rows[y][x] < 64 by {
        assert(rows[y] == codes.subrange(64 * y, 64 * y + 64));
        lemma_code_in_range(bits, 64 * y + x);
    }
    assert forall|k: int| 0 <= k < PIXEL_COUNT implies flatten_rows(rows)[k] == codes[k] by {
        assert(rows[k / 64] == codes.subrange(64 * (k / 64), 64 * (k / 64) + 64));
    }
    assert(flatten_rows(rows) =~= codes);
    lemma_spread_gather(bits, 6);
}

/// The flat byte buffer of a grid unpacks to the grid again, and the bits of
/// a flat byte buffer pack into the buffer again.
pub proof fn law_bytes_round_trip(bits: Seq<bool>, bytes: Seq<u8>)
    requires
        bits.len() == BIT_COUNT,
        bytes.len() == BYTE_COUNT,
    ensures
        bits_bytes(bits).len() == BYTE_COUNT,
        bytes_bits(bits_bytes(bits)) == bits,
        bytes_bits(bytes).len() == BIT_COUNT,
        bits_bytes(bytes_bits(bytes)) == bytes,
{
    lemma_spread_gather(bits, 8);
    lemma_bytes_round_trip(bytes);
}

} // verus!
