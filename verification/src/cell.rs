//! The grid's tree as cells of the TON blockchain, and as the serialized
//! bag of cells that the chain stores.
//!
//! A cell holds a stream of at most 1023 bits and at most four references
//! to other cells. A node's payload is laid into a cell's stream byte by
//! byte: each whole group of eight payload bits becomes one byte with the
//! group's first bit as its lowest digit, and the stream carries that byte
//! highest digit first; the bits left over after the last whole group
//! follow in payload order.
//!
//! The cell library is handed bytes only after [`crate::boc`] found them
//! sound, and what it serializes is read again before it is given out: the
//! library neither tests the indices that it is given nor says in which
//! order it writes the cells.

use vstd::prelude::*;
use vstd::string::*;
use std::collections::HashMap;
use std::sync::Arc;
use num_bigint::BigUint;
use tonlib_core::cell::dict::predefined_readers::key_reader_u32;
use tonlib_core::cell::{Cell, CellBuilder, CellParser, TonCellError};
use tonlib_core::tlb_types::tlb::TLB;
use tonlib_core::{TonAddress, TonHash};
use crate::bits::{
    lemma_bits_of_value, lemma_value_bits_len, push_digits, read_digits, value_bits,
};
use crate::boc::{is_sound, is_sound_boc};
use crate::dict::{check_dict, is_sound_dict};
use crate::dna::{Dna, DnaError, BIT_COUNT};
use crate::encoding::{base64_bytes, base64_decode, base64_encode, base64_text};
use crate::tree::{
    all_fit, deserialize, fits_node, is_dna_tree, law_tree_round_trip, lemma_node_view,
    lemma_tree_fits, same_tree, serialize, tree_bits, tree_of, NodeView, StorageNode, NODE_BITS,
    NODE_REFS,
};

verus! {

/// `tonlib_core::cell::Cell`: a built cell. What it holds is known by
/// `cell_data`, `cell_bit_len` and `cell_refs` alone.
#[verifier::external_type_specification]
#[verifier::external_body]
pub struct ExCell(Cell);

/// `tonlib_core::cell::CellBuilder`: a cell in the making. What it holds is
/// known by `builder_bits` and `builder_refs` alone.
#[verifier::external_type_specification]
#[verifier::external_body]
pub struct ExCellBuilder(CellBuilder);

/// `tonlib_core::cell::TonCellError`: why the cell library refused. Nothing
/// is known of it.
#[verifier::external_type_specification]
#[verifier::external_body]
pub struct ExTonCellError(TonCellError);

/// `tonlib_core::cell::CellParser`: a reader of a cell. Nothing is known
/// of it.
#[verifier::external_type_specification]
#[verifier::external_body]
pub struct ExCellParser<'a>(CellParser<'a>);

/// Why a tree could not be turned into cells.
#[derive(Debug, Clone, Copy, PartialEq, Eq)]
pub enum CellError {
    /// A node has more bits or more children than a cell can hold, or the
    /// tree is deeper than cells can be.
    TooLarge,
    /// The cell library refused to build or to serialize a cell.
    Rejected,
}

/// The bytes that a cell holds its bits in.
pub uninterp spec fn cell_data(cell: Cell) -> Seq<u8>;

/// The number of bits that a cell holds.
pub uninterp spec fn cell_bit_len(cell: Cell) -> nat;

/// The cells that a cell refers to, in order.
pub uninterp spec fn cell_refs(cell: Cell) -> Seq<Cell>;

/// The depth of a cell: 0 where it refers to no cell, else one more than
/// the depth of the deepest cell that it refers to.
pub uninterp spec fn cell_depth(cell: Cell) -> nat;

/// The level mask of a cell; it is 0 in a tree of ordinary cells.
pub uninterp spec fn cell_level_mask(cell: Cell) -> nat;

/// The bit stream written to a builder so far.
pub uninterp spec fn builder_bits(builder: CellBuilder) -> Seq<bool>;

/// The references stored in a builder so far.
pub uninterp spec fn builder_refs(builder: CellBuilder) -> Seq<Cell>;

/// The root cell of the bag of cells that `bytes` are, if they are a bag of
/// cells with one root.
pub uninterp spec fn boc_root(bytes: Seq<u8>) -> Option<Cell>;

/// The bits by which the address that the text `text` spells is stored in a
/// cell, if `text` spells an address.
pub open spec fn address_bits(text: Seq<char>) -> Option<Seq<bool>> {
    match address_parts(text) {
        Some((workchain, hash)) => Some(address_stream(workchain, hash)),
        None => None,
    }
}

/// The workchain and the 32 bytes of the hash of the address that `text`
/// spells, if it spells one.
pub uninterp spec fn address_parts(text: Seq<char>) -> Option<(i32, Seq<u8>)>;

/// Bytes of an address's hash.
pub const HASH_BYTES: usize = 32;

/// The bits by which a cell holds the address of `workchain` and `hash`:
/// the bits 1, 0, 0, the workchain as a signed number of 8 bits and the
/// hash; but two zero bits, which stand for no address, for the address
/// of workchain 0 whose hash is all zero.
pub open spec fn address_stream(workchain: i32, hash: Seq<u8>) -> Seq<bool> {
    if workchain == 0 && (forall|i: int| 0 <= i < hash.len() ==> hash[i] == 0) {
        seq![false, false]
    } else {
        seq![true, false, false] + be_bits(
            if workchain < 0 {
                (workchain + 256) as nat
            } else {
                workchain as nat
            },
            8,
        ) + msb_bits(hash, 8 * HASH_BYTES as nat)
    }
}

/// The text of the address of the contract with the code `code` and the
/// initial data `data` in the workchain `workchain`.
pub uninterp spec fn derived_address(workchain: i32, code: Cell, data: Cell) -> Option<Seq<char>>;

/// The dictionary from 32-bit keys to numbers that `cell` is the root of,
/// if it is the root of one whose numbers fit in 32 bits.
pub uninterp spec fn offered_dict(cell: Cell) -> Option<Map<u32, u32>>;

/// The depth that a cell can have at most.
pub const MAX_CELL_DEPTH: usize = 65_535;

/// The depth of the deepest of `cells`; 0 where there is none.
pub open spec fn deepest(cells: Seq<Cell>) -> nat
    decreases cells.len(),
{
    if cells.len() == 0 {
        0
    } else if cell_depth(cells.last()) >= deepest(cells.drop_last()) {
        cell_depth(cells.last())
    } else {
        deepest(cells.drop_last())
    }
}

/// Each of `cells` has the level mask 0.
pub open spec fn all_level_zero(cells: Seq<Cell>) -> bool {
    forall|i: int| 0 <= i < cells.len() ==> cell_level_mask(#[trigger] cells[i]) == 0
}

/// The deepest of cells that are each at most `bound` deep is at most
/// `bound` deep.
pub proof fn lemma_deepest(cells: Seq<Cell>, bound: nat)
    requires
        forall|i: int| 0 <= i < cells.len() ==> cell_depth(#[trigger] cells[i]) <= bound,
    ensures
        deepest(cells) <= bound,
    decreases cells.len(),
{
    if cells.len() > 0 {
        assert forall|i: int| 0 <= i < cells.drop_last().len() implies cell_depth(
            #[trigger] cells.drop_last()[i],
        ) <= bound by {
            assert(cells.drop_last()[i] == cells[i]);
        }
        lemma_deepest(cells.drop_last(), bound);
        assert(cell_depth(cells.last()) <= bound);
    }
}

/// Levels below its root that a tree of cells may have to be serialized
/// here.
pub const PACK_DEPTH: usize = 8;

/// `cell` and the cells below it are a tree as a builder makes it, at most
/// `depth` levels deep: each cell has at most 1023 bits in bytes that reach
/// them, at most four references, and the level mask 0.
pub open spec fn is_plain(cell: Cell, depth: nat) -> bool
    decreases depth,
{
    &&& cell_bit_len(cell) <= 1023
    &&& cell_bit_len(cell) <= 8 * cell_data(cell).len()
    &&& cell_refs(cell).len() <= 4
    &&& cell_level_mask(cell) == 0
    &&& cell_depth(cell) <= depth
    &&& if depth == 0 {
        cell_refs(cell).len() == 0
    } else {
        forall|i: int|
            0 <= i < cell_refs(cell).len() ==> is_plain(
                #[trigger] cell_refs(cell)[i],
                (depth - 1) as nat,
            )
    }
}

/// A tree of cells that is plain to some depth is plain to every greater
/// depth.
pub proof fn lemma_plain_more(cell: Cell, depth: nat, more: nat)
    requires
        is_plain(cell, depth),
        depth <= more,
    ensures
        is_plain(cell, more),
    decreases depth,
{
    if depth > 0 {
        assert forall|i: int| 0 <= i < cell_refs(cell).len() implies is_plain(
            #[trigger] cell_refs(cell)[i],
            (more - 1) as nat,
        ) by {
            assert(is_plain(cell_refs(cell)[i], (depth - 1) as nat));
            lemma_plain_more(cell_refs(cell)[i], (depth - 1) as nat, (more - 1) as nat);
        }
    }
}

/// The `count` lowest binary digits of `value`, highest first.
pub open spec fn be_bits(value: nat, count: nat) -> Seq<bool> {
    Seq::new(count, |k: int| value_bits(value, count)[count - 1 - k])
}

/// The first `count` bits of `bytes`, each byte highest digit first.
pub open spec fn msb_bits(bytes: Seq<u8>, count: nat) -> Seq<bool> {
    Seq::new(count, |k: int| value_bits(bytes[k / 8] as nat, 8)[7 - k % 8])
}

/// Calls `TLB::from_boc` for `ArcCell`: parses the bag of cells and takes
/// its single root. The result is named `boc_root`.
///
/// The parser indexes its list of cells by the indices that the bytes
/// give, and counts depths in 16 bits, both without a test; the bytes must
/// be a sound bag, in which every index is the index of a cell, every cell
/// refers to cells behind it, and no cell is as deep as 16 bits can count.
/// A sound bag has no exotic cell, so the root has the level mask 0. The
/// parser counts a cell's bits from the bytes that it read for the cell,
/// less the padding, so the root's bytes reach its bits.
#[verifier::external_body]
fn parse_boc(bytes: &Vec<u8>) -> (root: Result<Arc<Cell>, TonCellError>)
    requires
        is_sound_boc(bytes@),
    ensures
        match root {
            Ok(cell) => {
                &&& boc_root(bytes@) == Some(*cell)
                &&& cell_depth(*cell) < MAX_CELL_DEPTH
                &&& cell_level_mask(*cell) == 0
                &&& cell_bit_len(*cell) <= 8 * cell_data(*cell).len()
            },
            Err(_) => boc_root(bytes@).is_none(),
        },
{
    Arc::<Cell>::from_boc(bytes)
}

/// Calls `TLB::to_boc` for `Cell` with a checksum. The order of the cells
/// in the bytes follows the walk of a hash map, so nothing is said of the
/// bytes; they are read again before they are used.
///
/// The serializer indexes each cell's bytes by its number of bits and sums
/// sizes in 32 bits, both without a test; the tree must be plain and few
/// levels deep.
#[verifier::external_body]
fn serialize_boc(cell: &Cell) -> (bytes: Result<Vec<u8>, TonCellError>)
    requires
        is_plain(*cell, PACK_DEPTH as nat),
{
    cell.to_boc(true)
}

/// Calls `Cell::bit_len`. The result is named `cell_bit_len`.
#[verifier::external_body]
pub(crate) fn read_cell_bit_len(cell: &Cell) -> (len: usize)
    ensures
        len == cell_bit_len(*cell),
{
    cell.bit_len()
}

/// Calls `Cell::data` and copies the bytes. The result is named
/// `cell_data`.
#[verifier::external_body]
pub(crate) fn read_cell_data(cell: &Cell) -> (data: Vec<u8>)
    ensures
        data@ == cell_data(*cell),
{
    cell.data().to_vec()
}

/// Calls `Cell::references` for its length: the number of cells referred
/// to.
#[verifier::external_body]
pub(crate) fn read_cell_ref_count(cell: &Cell) -> (count: usize)
    ensures
        count == cell_refs(*cell).len(),
{
    cell.references().len()
}

/// Calls `Cell::reference`: the cell referred to at position `index`, if
/// there is one.
#[verifier::external_body]
pub(crate) fn read_cell_reference(cell: &Cell, index: usize) -> (child: Option<Arc<Cell>>)
    ensures
        child.is_some() <==> index < cell_refs(*cell).len(),
        child matches Some(c) ==> *c == cell_refs(*cell)[index as int],
{
    cell.reference(index).ok().cloned()
}

/// Calls `CellBuilder::new`: a builder that holds nothing.
#[verifier::external_body]
fn builder_new() -> (builder: CellBuilder)
    ensures
        builder_bits(builder).len() == 0,
        builder_refs(builder).len() == 0,
{
    CellBuilder::new()
}

/// Calls `CellBuilder::store_bits`: appends the first `count` bits of
/// `bytes`, each byte highest digit first. The call indexes `bytes` up to
/// the byte of the last bit, so the bytes must reach it. It only writes to
/// the builder's own buffer, so it succeeds.
#[verifier::external_body]
fn builder_store_bits(builder: &mut CellBuilder, count: usize, bytes: &Vec<u8>) -> (stored: Result<
    (),
    TonCellError,
>)
    requires
        count <= 8 * bytes@.len(),
    ensures
        stored.is_ok(),
        stored.is_ok() ==> builder_bits(*final(builder)) == builder_bits(*old(builder)) + msb_bits(
            bytes@,
            count as nat,
        ),
        stored.is_ok() ==> builder_refs(*final(builder)) == builder_refs(*old(builder)),
{
    builder.store_bits(count, bytes).map(|_| ())
}

/// Calls `CellBuilder::store_bit`: appends one bit. It only writes to the
/// builder's own buffer, so it succeeds.
#[verifier::external_body]
fn builder_store_bit(builder: &mut CellBuilder, bit: bool) -> (stored: Result<(), TonCellError>)
    ensures
        stored.is_ok(),
        stored.is_ok() ==> builder_bits(*final(builder)) == builder_bits(*old(builder)).push(bit),
        stored.is_ok() ==> builder_refs(*final(builder)) == builder_refs(*old(builder)),
{
    builder.store_bit(bit).map(|_| ())
}

/// Calls `CellBuilder::store_u32`: appends the `bit_len` lowest digits of
/// `value`, highest first; fails when `value` has more digits, which it
/// has not where all 32 are written.
#[verifier::external_body]
fn builder_store_u32(builder: &mut CellBuilder, bit_len: usize, value: u32) -> (stored: Result<
    (),
    TonCellError,
>)
    requires
        0 < bit_len <= 32,
    ensures
        bit_len == 32 ==> stored.is_ok(),
        stored.is_ok() ==> builder_bits(*final(builder)) == builder_bits(*old(builder)) + be_bits(
            value as nat,
            bit_len as nat,
        ),
        stored.is_ok() ==> builder_refs(*final(builder)) == builder_refs(*old(builder)),
{
    builder.store_u32(bit_len, value).map(|_| ())
}

/// Calls `CellBuilder::store_uint` with `value` as a big unsigned number:
/// appends `value` in `bit_len` digits, highest first. The digits are
/// enough for the value, and the call only writes to the builder's own
/// buffer, so it succeeds.
#[verifier::external_body]
fn builder_store_uint(builder: &mut CellBuilder, bit_len: usize, value: u32) -> (stored: Result<
    (),
    TonCellError,
>)
    requires
        32 <= bit_len,
    ensures
        stored.is_ok(),
        stored.is_ok() ==> builder_bits(*final(builder)) == builder_bits(*old(builder)) + be_bits(
            value as nat,
            bit_len as nat,
        ),
        stored.is_ok() ==> builder_refs(*final(builder)) == builder_refs(*old(builder)),
{
    builder.store_uint(bit_len, &BigUint::from(value)).map(|_| ())
}

/// Calls `CellBuilder::store_string`: appends the bytes of `text`, each
/// byte highest digit first. It only writes to the builder's own buffer, so
/// it succeeds.
#[verifier::external_body]
fn builder_store_string(builder: &mut CellBuilder, text: &str) -> (stored: Result<
    (),
    TonCellError,
>)
    ensures
        stored.is_ok(),
        stored.is_ok() ==> builder_bits(*final(builder)) == builder_bits(*old(builder)) + msb_bits(
            text.spec_bytes(),
            8 * text.spec_bytes().len(),
        ),
        stored.is_ok() ==> builder_refs(*final(builder)) == builder_refs(*old(builder)),
{
    builder.store_string(text).map(|_| ())
}

/// Calls `TonAddress::from_base64_url_flags` and takes the address apart.
/// The result is named `address_parts`. The workchain is read from one
/// byte as a signed number.
#[verifier::external_body]
fn read_address(text: &str) -> (parts: Option<(i32, [u8; 32])>)
    ensures
        match parts {
            Some((workchain, hash)) => {
                &&& address_parts(text@) == Some((workchain, hash@))
                &&& -128 <= workchain <= 127
            },
            None => address_parts(text@).is_none(),
        },
{
    match TonAddress::from_base64_url_flags(text) {
        Ok((address, _, _)) => Some((address.workchain, address.hash_part.into())),
        Err(_) => None,
    }
}

/// Calls `TonAddress::new` and `CellBuilder::store_address`: appends the
/// address of `workchain` and `hash`. The address of workchain 0 with a
/// hash of zeros is stored as two zero bits; any other as the bits 1, 0,
/// 0, the workchain in 8 bits and the hash in 256. It only writes to the
/// builder's own buffer, so it succeeds.
#[verifier::external_body]
fn builder_store_address(builder: &mut CellBuilder, workchain: i32, hash: &[u8; 32]) -> (stored:
    Result<(), TonCellError>)
    requires
        -128 <= workchain <= 127,
    ensures
        stored.is_ok(),
        builder_bits(*final(builder)) == builder_bits(*old(builder)) + address_stream(
            workchain,
            hash@,
        ),
        builder_refs(*final(builder)) == builder_refs(*old(builder)),
{
    builder.store_address(&TonAddress::new(workchain, TonHash::from(*hash))).map(|_| ())
}

/// Calls `TonAddress::derive` and writes the address as text. The result
/// is named `derived_address`. The call builds a cell that refers to both
/// cells and counts its depth in 16 bits without a test, so both must have
/// the level mask 0, by which one depth is theirs at every level, and
/// neither may have the greatest depth. It copies the bits of both cells
/// out of their bytes, so the bytes of each must reach its bits. Such code
/// and data always make a cell, so the call succeeds.
#[verifier::external_body]
fn derive_address(workchain: i32, code: &Arc<Cell>, data: Cell) -> (address: Option<String>)
    requires
        cell_depth(**code) < MAX_CELL_DEPTH,
        cell_depth(data) < MAX_CELL_DEPTH,
        cell_level_mask(**code) == 0,
        cell_level_mask(data) == 0,
        cell_bit_len(**code) <= 8 * cell_data(**code).len(),
        cell_bit_len(data) <= 8 * cell_data(data).len(),
    ensures
        address.is_some(),
        match address {
            Some(text) => derived_address(workchain, **code, data) == Some(text@),
            None => derived_address(workchain, **code, data).is_none(),
        },
{
    TonAddress::derive(workchain, code.clone(), data.to_arc()).ok().map(|a| a.to_string())
}

/// Calls `CellParser::load_int` for a number of 257 bits and converts it:
/// the price of one offer, which must fit in 32 bits. It is handed to
/// `CellParser::load_dict_data` as the reader of the dictionary's values.
#[verifier::external_body]
fn read_offer_price(parser: &mut CellParser) -> (price: Result<u32, TonCellError>) {
    u32::try_from(parser.load_int(257)?).map_err(|err| TonCellError::InvalidInput(err.to_string()))
}

/// Calls `Cell::parse_fully` with `CellParser::load_dict_data`, with
/// 32-bit keys and with `read_offer_price` for the values. The result is
/// named `offered_dict`.
///
/// The dictionary parser counts the key bits that are left without a test,
/// reads a long label of no bits as a word, and follows the references
/// for as long as a key is not complete; the cells must be a sound
/// dictionary, in which no label passes the key's 32 bits, no long label
/// is empty, and a key is complete after at most 32 steps down. The parser
/// takes the width of a label's length field from a logarithm in floating
/// point, rounded up; a sound dictionary is told by the widths that this
/// gives where the logarithm of a power of two is exact.
#[verifier::external_body]
fn parse_offered_dict(root: &Cell) -> (dict: Result<HashMap<u32, u32>, TonCellError>)
    requires
        is_sound_dict(*root, 0),
    ensures
        match dict {
            Ok(map) => offered_dict(*root) == Some(map@),
            Err(_) => offered_dict(*root).is_none(),
        },
{
    root.parse_fully(|parser| parser.load_dict_data(32, key_reader_u32, read_offer_price))
}

/// Calls `CellBuilder::store_reference`: appends a reference to `cell`;
/// fails when the builder holds four references already.
#[verifier::external_body]
fn builder_store_reference(builder: &mut CellBuilder, cell: &Arc<Cell>) -> (stored: Result<
    (),
    TonCellError,
>)
    ensures
        stored.is_ok() ==> builder_refs(*final(builder)) == builder_refs(*old(builder)).push(
            **cell,
        ),
        stored.is_ok() ==> builder_bits(*final(builder)) == builder_bits(*old(builder)),
        stored.is_ok() <==> builder_refs(*old(builder)).len() < 4,
{
    builder.store_reference(cell).map(|_| ())
}

/// Calls `CellBuilder::build`: the cell of what the builder holds, its
/// bits in bytes that are filled up with zero bits; fails when the builder
/// holds more than 1023 bits or more than four references. The cell is one
/// deeper than the deepest cell that it refers to, and the depth is counted
/// in 16 bits without a test, so the cells referred to must have the level
/// mask 0, by which one depth is theirs at every level, and none may have
/// the greatest depth. Over such cells the cell is built exactly when bits
/// and references are within the limits, and has the level mask 0 itself.
#[verifier::external_body]
fn builder_build(builder: &mut CellBuilder) -> (cell: Result<Cell, TonCellError>)
    requires
        deepest(builder_refs(*old(builder))) < MAX_CELL_DEPTH,
        all_level_zero(builder_refs(*old(builder))),
    ensures
        cell matches Ok(c) ==> {
            &&& cell_bit_len(c) == builder_bits(*old(builder)).len()
            &&& cell_bit_len(c) <= 8 * cell_data(c).len()
            &&& msb_bits(cell_data(c), cell_bit_len(c)) == builder_bits(*old(builder))
            &&& cell_refs(c) == builder_refs(*old(builder))
            &&& cell_bit_len(c) <= 1023
            &&& cell_refs(c).len() <= 4
            &&& cell_depth(c) == (if cell_refs(c).len() == 0 {
                0
            } else {
                deepest(cell_refs(c)) + 1
            })
            &&& cell_level_mask(c) == 0
        },
        cell.is_ok() <==> builder_bits(*old(builder)).len() <= 1023 && builder_refs(
            *old(builder),
        ).len() <= 4,
{
    builder.build()
}

/// The position in a cell's stream of the payload bit at position `p`, in
/// a payload of `len` bits: within a whole group of eight the order is
/// turned round, after the last whole group it is kept.
pub open spec fn stream_position(len: int, p: int) -> int {
    if p < 8 * (len / 8) {
        8 * (p / 8) + 7 - p % 8
    } else {
        p
    }
}

/// The bits of `bits` with each whole group of eight turned round. Applied
/// to a payload this gives the cell's stream, and applied to the stream it
/// gives the payload.
pub open spec fn regroup(bits: Seq<bool>) -> Seq<bool> {
    Seq::new(bits.len(), |p: int| bits[stream_position(bits.len() as int, p)])
}

/// Turning the groups round twice changes nothing.
pub proof fn lemma_regroup_twice(bits: Seq<bool>)
    ensures
        regroup(regroup(bits)) == bits,
{
    let once = regroup(bits);
    let twice = regroup(once);
    let len = bits.len() as int;
    assert forall|p: int| 0 <= p < len implies twice[p] == bits[p] by {
        let q = stream_position(len, p);
        assert(0 <= q < len);
        assert(stream_position(len, q) == p);
    }
    assert(twice =~= bits);
}

/// The payload of a cell: its stream regrouped. A cell whose bytes do not
/// reach its last bit has no payload.
pub open spec fn cell_payload(cell: Cell) -> Seq<bool> {
    if cell_bit_len(cell) <= 8 * cell_data(cell).len() {
        regroup(msb_bits(cell_data(cell), cell_bit_len(cell)))
    } else {
        Seq::empty()
    }
}

/// The tree of nodes that a cell and the cells below it hold, down to
/// `depth` levels below the cell; what lies deeper is left out.
pub open spec fn cell_node(cell: Cell, depth: nat) -> NodeView
    decreases depth, 0nat,
{
    NodeView {
        bits: cell_payload(cell),
        refs: if depth == 0 {
            Seq::empty()
        } else {
            cell_nodes(cell_refs(cell), (depth - 1) as nat)
        },
    }
}

/// The trees of nodes that a list of cells holds.
pub open spec fn cell_nodes(cells: Seq<Cell>, depth: nat) -> Seq<NodeView>
    decreases depth, cells.len() + 1,
{
    if cells.len() == 0 {
        Seq::empty()
    } else {
        cell_nodes(cells.drop_last(), depth).push(cell_node(cells.last(), depth))
    }
}

/// The trees of a list of cells are the trees of its cells, in order.
pub proof fn lemma_cell_nodes(cells: Seq<Cell>, depth: nat)
    ensures
        cell_nodes(cells, depth).len() == cells.len(),
        forall|i: int|
            0 <= i < cells.len() ==> cell_nodes(cells, depth)[i] == cell_node(
                #[trigger] cells[i],
                depth,
            ),
    decreases cells.len(),
{
    if cells.len() > 0 {
        lemma_cell_nodes(cells.drop_last(), depth);
        assert(cell_nodes(cells, depth) == cell_nodes(cells.drop_last(), depth).push(
            cell_node(cells.last(), depth),
        ));
        assert forall|i: int| 0 <= i < cells.len() implies cell_nodes(cells, depth)[i]
            == cell_node(#[trigger] cells[i], depth) by {
            if i < cells.len() - 1 {
                assert(cells.drop_last()[i] == cells[i]);
            }
        }
    } else {
        assert(cell_nodes(cells, depth) == Seq::<NodeView>::empty());
    }
}

/// `cell` and the cells below it hold exactly the tree `node`.
pub open spec fn cell_holds(cell: Cell, node: NodeView) -> bool
    decreases node,
{
    &&& cell_payload(cell) == node.bits
    &&& cell_refs(cell).len() == node.refs.len()
    &&& forall|i: int|
        0 <= i < node.refs.len() ==> cell_holds(cell_refs(cell)[i], #[trigger] node.refs[i])
}

/// The tree `node` is at most `depth` levels deep below its root.
pub open spec fn within(node: NodeView, depth: nat) -> bool
    decreases depth,
{
    if depth == 0 {
        node.refs.len() == 0
    } else {
        forall|i: int|
            0 <= i < node.refs.len() ==> within(#[trigger] node.refs[i], (depth - 1) as nat)
    }
}

/// A cell that holds a tree reads as that tree, to any depth that the tree
/// does not exceed.
pub proof fn lemma_holds_reads(cell: Cell, node: NodeView, depth: nat)
    requires
        cell_holds(cell, node),
        within(node, depth),
    ensures
        cell_node(cell, depth) == node,
    decreases depth,
{
    let read = cell_node(cell, depth);
    if depth == 0 {
        assert(read.refs =~= node.refs);
    } else {
        let below = (depth - 1) as nat;
        lemma_cell_nodes(cell_refs(cell), below);
        assert forall|i: int| 0 <= i < node.refs.len() implies read.refs[i] == node.refs[i] by {
            assert(cell_holds(cell_refs(cell)[i], node.refs[i]));
            assert(within(node.refs[i], below));
            lemma_holds_reads(cell_refs(cell)[i], node.refs[i], below);
        }
        assert(read.refs =~= node.refs);
    }
}

/// A tree that is at most `depth` levels deep is at most `more` levels
/// deep for every `more` from `depth` on.
pub proof fn lemma_within_more(node: NodeView, depth: nat, more: nat)
    requires
        within(node, depth),
        depth <= more,
    ensures
        within(node, more),
    decreases depth,
{
    if depth == 0 {
        assert(node.refs.len() == 0);
    } else {
        assert forall|i: int| 0 <= i < node.refs.len() implies within(
            #[trigger] node.refs[i],
            (more - 1) as nat,
        ) by {
            assert(within(node.refs[i], (depth - 1) as nat));
            lemma_within_more(node.refs[i], (depth - 1) as nat, (more - 1) as nat);
        }
    }
}

/// A grid's tree is three levels deep.
pub proof fn lemma_dna_tree_within(node: NodeView)
    requires
        is_dna_tree(node),
    ensures
        within(node, 3),
        within(node, READ_DEPTH as nat),
{
    assert forall|i: int| 0 <= i < node.refs.len() implies within(#[trigger] node.refs[i], 2) by {
        let branch = node.refs[i];
        assert forall|j: int| 0 <= j < branch.refs.len() implies within(
            #[trigger] branch.refs[j],
            1,
        ) by {
            let twig = branch.refs[j];
            assert forall|k: int| 0 <= k < twig.refs.len() implies within(
                #[trigger] twig.refs[k],
                0,
            ) by {
                let leaf = twig.refs[k];
                assert(i == 0 && j == 0);
                assert(leaf.refs.len() == 0);
            }
        }
    }
    lemma_within_more(node, 3, READ_DEPTH as nat);
}

/// Turns each whole group of eight bits round.
fn regroup_bits(bits: &Vec<bool>) -> (out: Vec<bool>)
    ensures
        out@ == regroup(bits@),
{
    let len = bits.len();
    let whole: usize = 8 * (len / 8);
    let mut out: Vec<bool> = Vec::new();
    let mut p: usize = 0;
    while p < len
        invariant
            p <= len,
            len == bits@.len(),
            whole == 8 * (len / 8),
            out@.len() == p,
            forall|i: int| 0 <= i < p ==> out@[i] == bits@[stream_position(len as int, i)],
        decreases len - p,
    {
        let from: usize = if p < whole { 8 * (p / 8) + 7 - p % 8 } else { p };
        out.push(bits[from]);
        p += 1;
    }
    assert(out@ =~= regroup(bits@));
    out
}

/// Reads the first `count` bits of `bytes`, each byte highest digit first.
pub(crate) fn unpack_stream(bytes: &Vec<u8>, count: usize) -> (out: Vec<bool>)
    requires
        count <= 8 * bytes@.len(),
    ensures
        out@ == msb_bits(bytes@, count as nat),
{
    let mut out: Vec<bool> = Vec::new();
    let mut k: usize = 0;
    while k < count
        invariant
            k <= count <= 8 * bytes@.len(),
            out@.len() == k,
            forall|i: int| 0 <= i < k ==> out@[i] == msb_bits(bytes@, count as nat)[i],
        decreases count - k,
    {
        let mut digits: Vec<bool> = Vec::new();
        push_digits(&mut digits, bytes[k / 8], 8);
        proof {
            lemma_value_bits_len(bytes@[k as int / 8] as nat, 8);
            assert(digits@ =~= value_bits(bytes@[k as int / 8] as nat, 8));
        }
        out.push(digits[7 - k % 8]);
        k += 1;
    }
    assert(out@ =~= msb_bits(bytes@, count as nat));
    out
}

/// Packs `bits` into bytes, each byte highest digit first; the last byte is
/// filled up with zero bits.
fn pack_stream(bits: &Vec<bool>) -> (bytes: Vec<u8>)
    requires
        bits@.len() <= NODE_BITS,
    ensures
        bits@.len() <= 8 * bytes@.len(),
        msb_bits(bytes@, bits@.len()) == bits@,
{
    let len = bits.len();
    let groups: usize = (len + 7) / 8;
    let mut bytes: Vec<u8> = Vec::new();
    let mut j: usize = 0;
    while j < groups
        invariant
            j <= groups,
            len == bits@.len(),
            groups == (len + 7) / 8,
            bytes@.len() == j,
            forall|k: int|
                0 <= k < len && k < 8 * j ==> value_bits(bytes@[k / 8] as nat, 8)[7 - k % 8]
                    == bits@[k],
        decreases groups - j,
    {
        let mut digits: Vec<bool> = Vec::new();
        let mut d: usize = 0;
        while d < 8
            invariant
                d <= 8,
                j < groups,
                len == bits@.len(),
                groups == (len + 7) / 8,
                digits@.len() == d,
                forall|e: int|
                    0 <= e < d ==> digits@[e] == (if 8 * j + 7 - e < len {
                        bits@[8 * j + 7 - e]
                    } else {
                        false
                    }),
            decreases 8 - d,
        {
            let at: usize = 8 * j + 7 - d;
            digits.push(if at < len { bits[at] } else { false });
            d += 1;
        }
        let byte = read_digits(&digits, 0, 8);
        let ghost earlier = bytes@;
        bytes.push(byte);
        proof {
            assert(digits@.subrange(0, 8) =~= digits@);
            lemma_bits_of_value(digits@);
            assert(value_bits(byte as nat, 8) == digits@);
            assert forall|k: int| 0 <= k < len && k < 8 * (j + 1) implies value_bits(
                bytes@[k / 8] as nat,
                8,
            )[7 - k % 8] == bits@[k] by {
                if k < 8 * j {
                    assert(bytes@[k / 8] == earlier[k / 8]);
                } else {
                    assert(k / 8 == j);
                    assert(digits@[7 - k % 8] == bits@[k]);
                }
            }
        }
        j += 1;
    }
    assert(msb_bits(bytes@, bits@.len()) =~= bits@);
    bytes
}

/// Reads the payload of a cell.
fn read_cell_payload(cell: &Cell) -> (bits: Vec<bool>)
    ensures
        bits@ == cell_payload(*cell),
{
    let data = read_cell_data(cell);
    let len = read_cell_bit_len(cell);
    if data.len() < len / 8 || (data.len() == len / 8 && len % 8 != 0) {
        return Vec::new();
    }
    let stream = unpack_stream(&data, len);
    regroup_bits(&stream)
}

/// Reads the tree of nodes that a cell and the cells below it hold, down to
/// `depth` levels below the cell; what lies deeper is left out.
pub fn node_of_cell(cell: &Cell, depth: usize) -> (node: StorageNode)
    ensures
        node@ == cell_node(*cell, depth as nat),
    decreases depth,
{
    let bits = read_cell_payload(cell);
    let mut refs: Vec<StorageNode> = Vec::new();
    if depth > 0 {
        let count = read_cell_ref_count(cell);
        let mut i: usize = 0;
        while i < count
            invariant
                i <= count,
                depth > 0,
                count == cell_refs(*cell).len(),
                refs@.len() == i,
                forall|k: int|
                    0 <= k < i ==> (#[trigger] refs@[k])@ == cell_node(
                        cell_refs(*cell)[k],
                        (depth - 1) as nat,
                    ),
            decreases count - i,
        {
            match read_cell_reference(cell, i) {
                Some(child) => {
                    let node = node_of_cell(&*child, depth - 1);
                    refs.push(node);
                },
                None => {
                    proof {
                        assert(false);
                    }
                },
            }
            i += 1;
        }
    }
    let node = StorageNode { bits, refs };
    proof {
        lemma_node_view(&node);
        let read = cell_node(*cell, depth as nat);
        if depth > 0 {
            lemma_cell_nodes(cell_refs(*cell), (depth - 1) as nat);
            assert forall|k: int| 0 <= k < node@.refs.len() implies node@.refs[k] == read.refs[k] by {
                assert(node@.refs[k] == node.refs@[k]@);
                assert(read.refs[k] == cell_node(cell_refs(*cell)[k], (depth - 1) as nat));
            }
        }
        assert(node@.refs =~= read.refs);
    }
    node
}

/// The tree `node` can be laid into cells that are at most `depth` deep:
/// every node is within the capacity of a node, and the tree is at most
/// `depth` levels deep.
pub open spec fn is_buildable(node: NodeView, depth: nat) -> bool {
    all_fit(node) && within(node, depth)
}

/// Builds the cell that holds the tree `node`, children before parents,
/// where the tree is at most `budget` levels deep.
fn build_node(node: &StorageNode, budget: usize) -> (cell: Result<Cell, CellError>)
    requires
        budget <= MAX_CELL_DEPTH,
    ensures
        cell.is_ok() <==> is_buildable(node@, budget as nat),
        cell matches Ok(c) ==> cell_holds(c, node@) && is_plain(c, budget as nat),
        cell matches Err(e) ==> e == CellError::TooLarge,
    decreases node,
{
    proof {
        lemma_node_view(node);
    }
    if node.bits.len() > NODE_BITS || node.refs.len() > NODE_REFS {
        return Err(CellError::TooLarge);
    }
    if budget == 0 && node.refs.len() > 0 {
        return Err(CellError::TooLarge);
    }
    let stream = regroup_bits(&node.bits);
    let bytes = pack_stream(&stream);
    let mut builder = builder_new();
    let ghost empty = builder;
    match builder_store_bits(&mut builder, stream.len(), &bytes) {
        Ok(()) => {},
        Err(_) => {
            return Err(CellError::TooLarge);
        },
    }
    proof {
        assert(builder_bits(empty) =~= Seq::<bool>::empty());
        assert(builder_bits(builder) =~= stream@);
        assert(builder_refs(builder) =~= Seq::<Cell>::empty());
    }
    let mut i: usize = 0;
    while i < node.refs.len()
        invariant
            i <= node.refs@.len(),
            budget <= MAX_CELL_DEPTH,
            node.refs@.len() > 0 ==> budget > 0,
            fits_node(node@),
            node@.bits == node.bits@,
            node@.refs.len() == node.refs@.len(),
            forall|k: int|
                0 <= k < node.refs@.len() ==> node@.refs[k] == (#[trigger] node.refs@[k])@,
            builder_bits(builder) == stream@,
            builder_refs(builder).len() == i,
            forall|k: int|
                0 <= k < i ==> {
                    &&& cell_holds(#[trigger] builder_refs(builder)[k], node.refs@[k]@)
                    &&& is_plain(builder_refs(builder)[k], (budget - 1) as nat)
                },
            forall|k: int|
                0 <= k < i ==> is_buildable((#[trigger] node.refs@[k])@, (budget - 1) as nat),
        decreases node.refs@.len() - i,
    {
        let child = &node.refs[i];
        let child_cell = match build_node(child, budget - 1) {
            Ok(child_cell) => child_cell,
            Err(error) => {
                proof {
                    assert(node@.refs[i as int] == child@);
                    assert(!is_buildable(child@, (budget - 1) as nat));
                    if all_fit(node@) && within(node@, budget as nat) {
                        assert(all_fit(node@.refs[i as int]));
                        assert(within(node@.refs[i as int], (budget - 1) as nat));
                    }
                }
                return Err(error);
            },
        };
        let ghost earlier = builder_refs(builder);
        match builder_store_reference(&mut builder, &Arc::new(child_cell)) {
            Ok(()) => {},
            Err(_) => {
                return Err(CellError::TooLarge);
            },
        }
        proof {
            assert forall|k: int| 0 <= k < i + 1 implies {
                &&& cell_holds(#[trigger] builder_refs(builder)[k], node.refs@[k]@)
                &&& is_plain(builder_refs(builder)[k], (budget - 1) as nat)
            } by {
                if k < i {
                    assert(builder_refs(builder)[k] == earlier[k]);
                }
            }
        }
        i += 1;
    }
    proof {
        if node.refs@.len() > 0 {
            assert forall|k: int| 0 <= k < builder_refs(builder).len() implies cell_depth(
                #[trigger] builder_refs(builder)[k],
            ) <= budget - 1 by {
                assert(is_plain(builder_refs(builder)[k], (budget - 1) as nat));
            }
            lemma_deepest(builder_refs(builder), (budget - 1) as nat);
        }
        assert forall|k: int| 0 <= k < builder_refs(builder).len() implies cell_level_mask(
            #[trigger] builder_refs(builder)[k],
        ) == 0 by {
            assert(is_plain(builder_refs(builder)[k], (budget - 1) as nat));
        }
        assert(all_level_zero(builder_refs(builder)));
        assert forall|k: int| 0 <= k < node@.refs.len() implies all_fit(
            #[trigger] node@.refs[k],
        ) by {
            assert(is_buildable(node.refs@[k]@, (budget - 1) as nat));
            assert(node@.refs[k] == node.refs@[k]@);
        }
        assert(all_fit(node@));
        if budget > 0 {
            assert forall|k: int| 0 <= k < node@.refs.len() implies within(
                #[trigger] node@.refs[k],
                (budget - 1) as nat,
            ) by {
                assert(is_buildable(node.refs@[k]@, (budget - 1) as nat));
                assert(node@.refs[k] == node.refs@[k]@);
            }
        }
        assert(within(node@, budget as nat));
    }
    match builder_build(&mut builder) {
        Ok(cell) => {
            proof {
                lemma_regroup_twice(node.bits@);
                assert(cell_payload(cell) == node@.bits);
                assert forall|k: int| 0 <= k < node@.refs.len() implies cell_holds(
                    cell_refs(cell)[k],
                    #[trigger] node@.refs[k],
                ) by {
                    assert(node@.refs[k] == node.refs@[k]@);
                }
            }
            Ok(cell)
        },
        Err(_) => Err(CellError::TooLarge),
    }
}

/// Builds the cell that holds the tree `node`, children before parents.
///
/// The cell is built exactly when every node is within the capacity of a
/// node and the tree is at most as deep as cells can be; otherwise the
/// tree is refused with `TooLarge`.
pub fn cell_of_node(node: &StorageNode) -> (cell: Result<Cell, CellError>)
    ensures
        cell.is_ok() <==> is_buildable(node@, MAX_CELL_DEPTH as nat),
        cell matches Ok(c) ==> cell_holds(c, node@) && is_plain(c, MAX_CELL_DEPTH as nat),
        cell matches Err(e) ==> e == CellError::TooLarge,
{
    build_node(node, MAX_CELL_DEPTH)
}

/// Levels below the root that are read from a cell: the three of a grid's
/// tree and one more, so that a leaf with children is seen to have them.
pub const READ_DEPTH: usize = 4;

/// Reads a grid from the cell at the root of its tree.
///
/// Fails with `MalformedTree` exactly when the cells have not the shape of
/// a grid's tree: when some cell has another payload length or another
/// number of references than its position asks for.
pub fn from_cell(cell: &Cell) -> (dna: Result<Dna, DnaError>)
    ensures
        dna.is_ok() <==> is_dna_tree(cell_node(*cell, READ_DEPTH as nat)),
        dna matches Ok(d) ==> d@ == tree_bits(cell_node(*cell, READ_DEPTH as nat)),
        dna matches Err(e) ==> e == DnaError::MalformedTree,
{
    let node = node_of_cell(cell, READ_DEPTH);
    deserialize(&node)
}

/// Cells that hold a grid's tree read back as the grid.
pub proof fn law_cell_round_trip(cell: Cell, bits: Seq<bool>)
    requires
        bits.len() == BIT_COUNT,
        cell_node(cell, READ_DEPTH as nat) == tree_of(bits),
    ensures
        is_dna_tree(cell_node(cell, READ_DEPTH as nat)),
        tree_bits(cell_node(cell, READ_DEPTH as nat)) == bits,
{
    law_tree_round_trip(bits);
}

/// The root cell of the bag of cells that the base64 text `text` holds, if
/// it holds a sound bag of cells with one root.
pub open spec fn boc_cell(text: Seq<char>) -> Option<Cell> {
    match base64_bytes(text) {
        Some(bytes) => if is_sound_boc(bytes) {
            boc_root(bytes)
        } else {
            None
        },
        None => None,
    }
}

/// What reading the text of a bag of cells as a grid gives.
pub open spec fn boc_dna(text: Seq<char>) -> Result<Seq<bool>, DnaError> {
    match boc_cell(text) {
        None => Err(DnaError::MalformedInput),
        Some(root) => if is_dna_tree(cell_node(root, READ_DEPTH as nat)) {
            Ok(tree_bits(cell_node(root, READ_DEPTH as nat)))
        } else {
            Err(DnaError::MalformedTree)
        },
    }
}

/// Reads the root cell from the base64 text of a bag of cells: decodes the
/// text, tests that the bytes are a sound bag, and has the cell library
/// parse them.
pub fn read_boc(text: &str) -> (root: Option<Arc<Cell>>)
    ensures
        match root {
            Some(cell) => {
                &&& boc_cell(text@) == Some(*cell)
                &&& cell_depth(*cell) < MAX_CELL_DEPTH
                &&& cell_level_mask(*cell) == 0
                &&& cell_bit_len(*cell) <= 8 * cell_data(*cell).len()
            },
            None => boc_cell(text@).is_none(),
        },
{
    let bytes = match base64_decode(text) {
        Some(bytes) => bytes,
        None => {
            return None;
        },
    };
    if !is_sound(&bytes) {
        return None;
    }
    match parse_boc(&bytes) {
        Ok(root) => Some(root),
        Err(_) => None,
    }
}

impl Dna {
    /// Reads a grid from the base64 text of a bag of cells.
    ///
    /// Fails with `MalformedInput` when the text holds no sound bag of
    /// cells with a single root, and with `MalformedTree` when the cells
    /// have not the shape of a grid's tree.
    pub fn from_boc(boc_b64: &str) -> (dna: Result<Dna, DnaError>)
        ensures
            match dna {
                Ok(d) => boc_dna(boc_b64@) == Ok::<Seq<bool>, DnaError>(d@),
                Err(e) => boc_dna(boc_b64@) == Err::<Seq<bool>, DnaError>(e),
            },
    {
        match read_boc(boc_b64) {
            Some(root) => from_cell(&*root),
            None => Err(DnaError::MalformedInput),
        }
    }

    /// Builds the cells of the grid's tree and returns the root. A grid's
    /// tree is always built.
    ///
    /// The root reads back as the grid's tree.
    pub fn to_cell(&self) -> (cell: Result<Cell, CellError>)
        ensures
            cell.is_ok(),
            cell matches Ok(c) ==> cell_node(c, READ_DEPTH as nat) == tree_of(self@) && is_plain(
                c,
                3,
            ),
    {
        let node = serialize(self);
        proof {
            lemma_tree_fits(node@);
            lemma_dna_tree_within(node@);
        }
        match build_node(&node, 3) {
            Ok(cell) => {
                proof {
                    lemma_holds_reads(cell, node@, READ_DEPTH as nat);
                }
                Ok(cell)
            },
            Err(error) => Err(error),
        }
    }
}

/// Bytes that a serialized bag may have to be given out as text.
pub const MAX_PACKED: usize = 0x4000_0000;

/// `bytes` are a serialized bag of cells that reads as `cell` does, `depth`
/// levels down: they are a sound bag of at most `MAX_PACKED` bytes whose
/// root holds the tree that `cell` holds.
pub open spec fn seals(bytes: Seq<u8>, cell: Cell, depth: nat) -> bool {
    &&& bytes.len() <= MAX_PACKED
    &&& is_sound_boc(bytes)
    &&& boc_root(bytes) matches Some(root)
    &&& cell_node(root, depth) == cell_node(cell, depth)
}

/// `text` is the text of a bag of cells that reads as `cell` does, `depth`
/// levels down.
pub open spec fn packs(text: Seq<char>, cell: Cell, depth: nat) -> bool {
    &&& boc_cell(text) matches Some(root)
    &&& cell_node(root, depth) == cell_node(cell, depth)
}

/// Gives out serialized bytes as base64 text, after reading them again:
/// they are given out exactly when they are a sound bag that reads as
/// `cell` does, `depth` levels down. Otherwise they are `Rejected`.
pub fn sealed(bytes: Vec<u8>, cell: &Cell, depth: usize) -> (text: Result<String, CellError>)
    ensures
        text.is_ok() <==> seals(bytes@, *cell, depth as nat),
        text matches Ok(t) ==> t@ == base64_text(bytes@) && packs(t@, *cell, depth as nat),
        text matches Err(e) ==> e == CellError::Rejected,
{
    if bytes.len() > MAX_PACKED || !is_sound(&bytes) {
        return Err(CellError::Rejected);
    }
    let root = match parse_boc(&bytes) {
        Ok(root) => root,
        Err(_) => {
            return Err(CellError::Rejected);
        },
    };
    let read = node_of_cell(&*root, depth);
    let wanted = node_of_cell(cell, depth);
    if !same_tree(&read, &wanted) {
        return Err(CellError::Rejected);
    }
    Ok(base64_encode(&bytes))
}

/// Serializes a plain tree of cells as base64 text. The text reads as
/// `cell` does, `depth` levels down; `Rejected` says that the cell library
/// did not serialize the cells so.
fn pack_cell(cell: &Cell, depth: usize) -> (text: Result<String, CellError>)
    requires
        is_plain(*cell, PACK_DEPTH as nat),
    ensures
        text matches Ok(t) ==> packs(t@, *cell, depth as nat),
        text matches Err(e) ==> e == CellError::Rejected,
{
    match serialize_boc(cell) {
        Ok(bytes) => sealed(bytes, cell, depth),
        Err(_) => Err(CellError::Rejected),
    }
}

/// The base64 text of the bag of cells that holds the grid's tree, with a
/// checksum. The text reads back as the grid.
///
/// `Rejected` says that the cell library did not serialize the cells so.
pub fn pack_dna(dna: &Dna) -> (text: Result<String, CellError>)
    ensures
        text matches Ok(t) ==> boc_dna(t@) == Ok::<Seq<bool>, DnaError>(dna@),
        text matches Err(e) ==> e == CellError::Rejected,
{
    let root = match dna.to_cell() {
        Ok(root) => root,
        Err(_) => {
            return Err(CellError::Rejected);
        },
    };
    let bits = dna.bits();
    proof {
        lemma_plain_more(root, 3, PACK_DEPTH as nat);
        law_tree_round_trip(bits@);
    }
    pack_cell(&root, READ_DEPTH)
}

/// The bit stream of a cell whose bytes reach its last bit.
pub open spec fn cell_stream(cell: Cell) -> Seq<bool> {
    msb_bits(cell_data(cell), cell_bit_len(cell))
}

/// The operation code of a message that bakes an item.
pub const BAKE_OP: u32 = 0xf0f7_c18a;

/// The operation code of a message that buys an exclusive item.
pub const PURCHASE_EXCLUSIVE_OP: u32 = 0x6480_907e;

/// Bits in which an item's index is stored in the item's initial data.
pub const INDEX_BITS: usize = 257;

/// Bytes of text that one cell holds at most.
pub const MAX_TEXT_BYTES: usize = 127;

/// Levels that a message is read down: those of a bake message, which
/// holds a grid's tree, and one more.
pub const MESSAGE_DEPTH: usize = 5;

/// `cell` holds the text `text` and nothing else.
pub open spec fn is_text_cell(cell: Cell, text: Seq<u8>) -> bool {
    &&& cell_stream(cell) == msb_bits(text, 8 * text.len())
    &&& cell_refs(cell).len() == 0
}

/// `cell` is a message that bakes an item: the operation code, no address
/// and a zero bit, with references to the title, the artist and the grid's
/// tree.
pub open spec fn is_bake_message(cell: Cell, title: Seq<u8>, artist: Seq<u8>, bits: Seq<bool>) -> bool {
    &&& cell_stream(cell) == be_bits(BAKE_OP as nat, 32) + seq![false, false] + seq![false]
    &&& cell_bit_len(cell) == 35
    &&& cell_refs(cell).len() == 3
    &&& is_text_cell(cell_refs(cell)[0], title)
    &&& is_text_cell(cell_refs(cell)[1], artist)
    &&& cell_node(cell_refs(cell)[2], READ_DEPTH as nat) == tree_of(bits)
}

/// `cell` is a message that buys the exclusive item `item_index`: the
/// operation code and the index, 32 bits each.
pub open spec fn is_purchase_message(cell: Cell, item_index: u32) -> bool {
    &&& cell_stream(cell) == be_bits(PURCHASE_EXCLUSIVE_OP as nat, 32) + be_bits(
        item_index as nat,
        32,
    )
    &&& cell_bit_len(cell) == 64
    &&& cell_refs(cell).len() == 0
}

/// `cell` is the initial data of the item `index` of the collection at
/// `collection`: a zero bit, the collection's address and the index.
pub open spec fn is_item_data(cell: Cell, collection: Seq<char>, index: u32) -> bool {
    &&& address_bits(collection).is_some()
    &&& cell_stream(cell) == seq![false] + address_bits(collection).unwrap() + be_bits(
        index as nat,
        INDEX_BITS as nat,
    )
    &&& cell_refs(cell).len() == 0
}

/// Builds the cell that holds `text` and nothing else. The cell is built
/// exactly when the text has at most `MAX_TEXT_BYTES` bytes.
fn text_cell(text: &str) -> (cell: Result<Cell, CellError>)
    ensures
        cell.is_ok() <==> text.spec_bytes().len() <= MAX_TEXT_BYTES,
        cell matches Ok(c) ==> is_text_cell(c, text.spec_bytes()) && is_plain(c, 0),
        cell matches Err(e) ==> e == CellError::TooLarge,
{
    let mut builder = builder_new();
    let ghost empty = builder;
    if builder_store_string(&mut builder, text).is_err() {
        return Err(CellError::TooLarge);
    }
    proof {
        assert(builder_bits(empty) =~= Seq::<bool>::empty());
        assert(builder_bits(builder) =~= msb_bits(text.spec_bytes(), 8 * text.spec_bytes().len()));
        assert(builder_refs(builder) =~= Seq::<Cell>::empty());
    }
    match builder_build(&mut builder) {
        Ok(cell) => Ok(cell),
        Err(_) => Err(CellError::TooLarge),
    }
}

/// Builds the message that bakes an item with the title `title`, by the
/// artist `artist`, with the grid `dna`: a cell of 35 bits with references
/// to the title, the artist and the grid's tree.
///
/// The message is built exactly when title and artist have at most
/// `MAX_TEXT_BYTES` bytes each; otherwise it is refused with `TooLarge`.
pub fn bake_message(title: &str, artist: &str, dna: &Dna) -> (message: Result<Cell, CellError>)
    ensures
        message.is_ok() <==> title.spec_bytes().len() <= MAX_TEXT_BYTES && artist.spec_bytes().len()
            <= MAX_TEXT_BYTES,
        message matches Ok(cell) ==> is_bake_message(
            cell,
            title.spec_bytes(),
            artist.spec_bytes(),
            dna@,
        ) && is_plain(cell, 4),
        message matches Err(e) ==> e == CellError::TooLarge,
{
    let mut message = builder_new();
    let ghost empty = message;
    if builder_store_u32(&mut message, 32, BAKE_OP).is_err() {
        return Err(CellError::TooLarge);
    }
    let title_cell = match text_cell(title) {
        Ok(cell) => cell,
        Err(error) => {
            return Err(error);
        },
    };
    if builder_store_reference(&mut message, &Arc::new(title_cell)).is_err() {
        return Err(CellError::TooLarge);
    }
    let artist_cell = match text_cell(artist) {
        Ok(cell) => cell,
        Err(error) => {
            return Err(error);
        },
    };
    if builder_store_reference(&mut message, &Arc::new(artist_cell)).is_err() {
        return Err(CellError::TooLarge);
    }
    let dna_cell = match dna.to_cell() {
        Ok(cell) => cell,
        Err(error) => {
            return Err(error);
        },
    };
    if builder_store_reference(&mut message, &Arc::new(dna_cell)).is_err() {
        return Err(CellError::TooLarge);
    }
    let no_hash: [u8; 32] = [0u8; 32];
    if builder_store_address(&mut message, 0, &no_hash).is_err() {
        return Err(CellError::TooLarge);
    }
    if builder_store_bit(&mut message, false).is_err() {
        return Err(CellError::TooLarge);
    }
    proof {
        assert(builder_bits(empty) =~= Seq::<bool>::empty());
        assert(builder_bits(message) =~= be_bits(BAKE_OP as nat, 32) + seq![false, false] + seq![
            false,
        ]);
        let refs = builder_refs(message);
        assert(refs.len() == 3);
        lemma_plain_more(refs[0], 0, 3);
        lemma_plain_more(refs[1], 0, 3);
        assert forall|k: int| 0 <= k < refs.len() implies is_plain(#[trigger] refs[k], 3) by {
            assert(k == 0 || k == 1 || k == 2);
        }
        assert forall|k: int| 0 <= k < refs.len() implies cell_depth(#[trigger] refs[k]) <= 3 by {
            assert(is_plain(refs[k], 3));
        }
        lemma_deepest(refs, 3);
        assert forall|k: int| 0 <= k < refs.len() implies cell_level_mask(#[trigger] refs[k])
            == 0 by {
            assert(is_plain(refs[k], 3));
        }
    }
    match builder_build(&mut message) {
        Ok(cell) => Ok(cell),
        Err(_) => Err(CellError::TooLarge),
    }
}

/// Builds the message that buys the exclusive item `item_index`: a cell of
/// 64 bits. The message is always built.
pub fn purchase_message(item_index: u32) -> (message: Result<Cell, CellError>)
    ensures
        message.is_ok(),
        message matches Ok(cell) ==> is_purchase_message(cell, item_index) && is_plain(cell, 0),
{
    let mut message = builder_new();
    let ghost empty = message;
    if builder_store_u32(&mut message, 32, PURCHASE_EXCLUSIVE_OP).is_err() {
        return Err(CellError::TooLarge);
    }
    if builder_store_u32(&mut message, 32, item_index).is_err() {
        return Err(CellError::TooLarge);
    }
    proof {
        assert(builder_bits(empty) =~= Seq::<bool>::empty());
        assert(builder_bits(message) =~= be_bits(PURCHASE_EXCLUSIVE_OP as nat, 32) + be_bits(
            item_index as nat,
            32,
        ));
        assert(builder_refs(message) =~= Seq::<Cell>::empty());
    }
    match builder_build(&mut message) {
        Ok(cell) => Ok(cell),
        Err(_) => Err(CellError::TooLarge),
    }
}

/// The base64 text of the message that bakes an item with the title
/// `title`, by the artist `artist`, with the grid `dna`. The text reads
/// back as the message, `MESSAGE_DEPTH` levels down.
///
/// A title or an artist of more than `MAX_TEXT_BYTES` bytes is refused
/// with `TooLarge`. `Rejected` says that the cell library did not
/// serialize the message so that it reads back.
pub fn pack_bake(title: &str, artist: &str, dna: &Dna) -> (text: Result<String, CellError>)
    ensures
        text matches Ok(t) ==> exists|message: Cell|
            #[trigger] is_bake_message(message, title.spec_bytes(), artist.spec_bytes(), dna@)
                && packs(t@, message, MESSAGE_DEPTH as nat),
        text == Err::<String, CellError>(CellError::TooLarge) <==> !(title.spec_bytes().len()
            <= MAX_TEXT_BYTES && artist.spec_bytes().len() <= MAX_TEXT_BYTES),
{
    let message = match bake_message(title, artist, dna) {
        Ok(message) => message,
        Err(error) => {
            return Err(error);
        },
    };
    proof {
        lemma_plain_more(message, 4, PACK_DEPTH as nat);
    }
    pack_cell(&message, MESSAGE_DEPTH)
}

/// The base64 text of the message that buys the exclusive item
/// `item_index`. The text reads back as the message.
///
/// `Rejected` says that the cell library did not serialize the message so
/// that it reads back.
pub fn pack_purchase_exclusive(item_index: u32) -> (text: Result<String, CellError>)
    ensures
        text matches Ok(t) ==> exists|message: Cell|
            #[trigger] is_purchase_message(message, item_index) && packs(
                t@,
                message,
                MESSAGE_DEPTH as nat,
            ),
        text matches Err(e) ==> e == CellError::Rejected,
{
    let message = match purchase_message(item_index) {
        Ok(message) => message,
        Err(_) => {
            return Err(CellError::Rejected);
        },
    };
    proof {
        lemma_plain_more(message, 0, PACK_DEPTH as nat);
    }
    pack_cell(&message, MESSAGE_DEPTH)
}

/// The address of the item `index` of the collection at
/// `collection_address`, as text: the address of the contract with the
/// item code, from the bag of cells in `item_code`, and the item's initial
/// data, in workchain 0.
///
/// The address is given exactly when the code is a sound bag of cells and
/// the collection's address can be read.
pub fn item_address(item_code: &str, collection_address: &str, index: u32) -> (address: Option<
    String,
>)
    ensures
        address.is_some() <==> boc_cell(item_code@).is_some() && address_bits(
            collection_address@,
        ).is_some(),
        address matches Some(text) ==> exists|data: Cell|
            #[trigger] is_item_data(data, collection_address@, index) && derived_address(
                ITEM_WORKCHAIN,
                boc_cell(item_code@).unwrap(),
                data,
            ) == Some(text@),
{
    let code = read_boc(item_code);
    let data = item_data(collection_address, index);
    match (code, data) {
        (Some(code), Some(data)) => {
            proof {
                assert(is_item_data(data, collection_address@, index));
            }
            derive_address(ITEM_WORKCHAIN, &code, data)
        },
        _ => None,
    }
}

/// The workchain of the items.
pub const ITEM_WORKCHAIN: i32 = 0;

/// Builds the initial data of the item `index` of the collection at
/// `collection_address`: a zero bit, the collection's address and the
/// index in 257 bits.
///
/// The data is built exactly when the address can be read.
pub fn item_data(collection_address: &str, index: u32) -> (data: Option<Cell>)
    ensures
        data.is_some() <==> address_bits(collection_address@).is_some(),
        data matches Some(cell) ==> is_item_data(cell, collection_address@, index) && is_plain(
            cell,
            0,
        ),
{
    let mut data = builder_new();
    let ghost empty = data;
    if builder_store_bit(&mut data, false).is_err() {
        return None;
    }
    let (workchain, hash) = match read_address(collection_address) {
        Some(parts) => parts,
        None => {
            return None;
        },
    };
    if builder_store_address(&mut data, workchain, &hash).is_err() {
        return None;
    }
    if builder_store_uint(&mut data, INDEX_BITS, index).is_err() {
        return None;
    }
    proof {
        assert(builder_bits(empty) =~= Seq::<bool>::empty());
        assert(builder_bits(data) =~= seq![false] + address_bits(collection_address@).unwrap()
            + be_bits(index as nat, INDEX_BITS as nat));
        assert(builder_refs(data) =~= Seq::<Cell>::empty());
    }
    match builder_build(&mut data) {
        Ok(cell) => Some(cell),
        Err(_) => None,
    }
}

/// What reading the offers from the base64 text of a bag of cells gives:
/// the dictionary under the root of the bag, where the text holds a sound
/// bag whose cells are a sound dictionary.
pub open spec fn offers_of(text: Seq<char>) -> Option<Map<u32, u32>> {
    match boc_cell(text) {
        Some(root) => if is_sound_dict(root, 0) {
            offered_dict(root)
        } else {
            None
        },
        None => None,
    }
}

/// What a result of offers holds.
pub open spec fn offers_result(offers: Result<HashMap<u32, u32>, DnaError>) -> Option<
    Map<u32, u32>,
> {
    match offers {
        Ok(map) => Some(map@),
        Err(_) => None,
    }
}

/// Reads the exclusives on offer, index and price, from the base64 text of
/// the bag of cells that holds their dictionary.
///
/// Fails with `MalformedInput` when the text holds no sound bag of cells
/// with such a dictionary.
pub fn parse_exclusives_dict(boc_b64: &str) -> (offers: Result<HashMap<u32, u32>, DnaError>)
    ensures
        offers_result(offers) == offers_of(boc_b64@),
        offers matches Err(e) ==> e == DnaError::MalformedInput,
{
    let root = match read_boc(boc_b64) {
        Some(root) => root,
        None => {
            return Err(DnaError::MalformedInput);
        },
    };
    if !check_dict(&*root, 0) {
        return Err(DnaError::MalformedInput);
    }
    match parse_offered_dict(&*root) {
        Ok(map) => Ok(map),
        Err(_) => Err(DnaError::MalformedInput),
    }
}

} // verus!
