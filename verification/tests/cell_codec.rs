use bitvec::order::Lsb0;
use bitvec::slice::BitSlice;
use bitvec::vec::BitVec;
use pixel_dna::cell::{cell_of_node, from_cell, node_of_cell, pack_dna, CellError};
use pixel_dna::dna::{Dna, DnaError, BIT_COUNT};
use pixel_dna::tree::{serialize, StorageNode};
use tonlib_core::cell::{ArcCell, Cell, CellBuilder, CellParser, TonCellError};
use tonlib_core::tlb_types::tlb::TLB;

fn patterned_dna() -> Dna {
    let bits: Vec<bool> = (0..BIT_COUNT).map(|i| (i * 7 + i / 5 + i / 1023) % 3 == 1).collect();
    Dna::from_bits(bits).unwrap()
}

fn read_bits(parser: &mut CellParser, n: usize, bits: &mut BitVec<u8, Lsb0>) -> Result<(), TonCellError> {
    let full_bits = n / 8 * 8;
    if full_bits > 0 {
        let raw = parser.load_bits(full_bits)?;
        let slice = BitSlice::<u8, Lsb0>::from_slice(&raw);
        bits.extend_from_bitslice(&slice[..full_bits]);
    }
    for _ in 0..n % 8 {
        bits.push(parser.load_bit()?);
    }
    Ok(())
}

fn read_with_parsers(root: &Cell) -> Result<Vec<bool>, TonCellError> {
    let mut bits: BitVec<u8, Lsb0> = BitVec::new();
    let mut parser = root.parser();
    read_bits(&mut parser, 1023, &mut bits)?;
    let mut leftmost = true;
    for _ in 0..4 {
        let level1 = parser.next_reference()?;
        let mut level1 = level1.parser();
        read_bits(&mut level1, 1023, &mut bits)?;
        for _ in 0..4 {
            let level2 = level1.next_reference()?;
            let mut level2 = level2.parser();
            read_bits(&mut level2, 1023, &mut bits)?;
            if leftmost {
                for _ in 0..3 {
                    let level3 = level2.next_reference()?;
                    read_bits(&mut level3.parser(), 1023, &mut bits)?;
                }
                let last = level2.next_reference()?;
                read_bits(&mut last.parser(), 24, &mut bits)?;
                leftmost = false;
            }
        }
    }
    parser.ensure_empty()?;
    Ok(bits.iter().map(|bit| *bit).collect())
}

fn leaf_cell(bits: usize) -> Cell {
    let mut builder = CellBuilder::new();
    for i in 0..bits {
        builder.store_bit(i % 3 == 0).unwrap();
    }
    builder.build().unwrap()
}

#[test]
fn cells_have_the_shape_of_the_tree() {
    let root = patterned_dna().to_cell().unwrap();
    assert_eq!(root.bit_len(), 1023);
    assert_eq!(root.references().len(), 4);
    for (i, branch) in root.references().iter().enumerate() {
        assert_eq!(branch.bit_len(), 1023);
        assert_eq!(branch.references().len(), 4);
        for (j, twig) in branch.references().iter().enumerate() {
            assert_eq!(twig.bit_len(), 1023);
            if i == 0 && j == 0 {
                let lengths: Vec<usize> = twig.references().iter().map(|leaf| leaf.bit_len()).collect();
                assert_eq!(lengths, vec![1023, 1023, 1023, 24]);
            } else {
                assert!(twig.references().is_empty());
            }
        }
    }
}

#[test]
fn cells_read_back_as_the_grid() {
    let dna = patterned_dna();
    let root = dna.to_cell().unwrap();
    let back = from_cell(&root).unwrap();
    assert_eq!(back.bits(), dna.bits());
}

#[test]
fn cells_read_back_with_cell_parsers() {
    let dna = patterned_dna();
    let root = dna.to_cell().unwrap();
    assert_eq!(&read_with_parsers(&root).unwrap(), dna.bits());
}

#[test]
fn whole_bytes_go_lowest_bit_first_and_the_rest_in_order() {
    let mut bits = vec![false; BIT_COUNT];
    bits[0] = true;
    bits[9] = true;
    bits[1016] = true;
    bits[1022] = true;
    let root = Dna::from_bits(bits).unwrap().to_cell().unwrap();
    let data = root.data();
    assert_eq!(data[0], 0b0000_0001);
    assert_eq!(data[1], 0b0000_0010);
    assert_eq!(data[127], 0b1000_0010);
    assert!(data[2..127].iter().all(|byte| *byte == 0));
}

#[test]
fn packed_text_round_trips() {
    let dna = patterned_dna();
    let text = pack_dna(&dna).unwrap();
    let back = Dna::from_boc(&text).unwrap();
    assert_eq!(back.bits(), dna.bits());
    let root = ArcCell::from_boc_b64(&text).unwrap();
    assert_eq!(&read_with_parsers(&root).unwrap(), dna.bits());
}

#[test]
fn text_that_holds_no_cells_is_malformed_input() {
    assert_eq!(Dna::from_boc("").err(), Some(DnaError::MalformedInput));
    assert_eq!(Dna::from_boc("not a bag of cells").err(), Some(DnaError::MalformedInput));
    assert_eq!(Dna::from_boc("AAAA").err(), Some(DnaError::MalformedInput));
}

#[test]
fn cells_of_another_shape_are_a_malformed_tree() {
    let text = leaf_cell(1023).to_boc_b64(true).unwrap();
    assert_eq!(Dna::from_boc(&text).err(), Some(DnaError::MalformedTree));
    let text = leaf_cell(0).to_boc_b64(true).unwrap();
    assert_eq!(Dna::from_boc(&text).err(), Some(DnaError::MalformedTree));
}

#[test]
fn a_leaf_with_a_child_is_a_malformed_tree() {
    let mut tree = serialize(&patterned_dna());
    tree.refs[0].refs[0].refs[2].refs.push(StorageNode { bits: vec![true; 5], refs: Vec::new() });
    let root = cell_of_node(&tree).unwrap();
    assert_eq!(from_cell(&root).err(), Some(DnaError::MalformedTree));
}

#[test]
fn a_last_leaf_with_more_bits_is_a_malformed_tree() {
    let mut tree = serialize(&patterned_dna());
    tree.refs[0].refs[0].refs[3].bits.push(false);
    let root = cell_of_node(&tree).unwrap();
    assert_eq!(from_cell(&root).err(), Some(DnaError::MalformedTree));
}

#[test]
fn nodes_and_cells_convert_both_ways() {
    let tree = StorageNode {
        bits: vec![true, false, true, true, false, false, false, true, true, true, false],
        refs: vec![
            StorageNode { bits: Vec::new(), refs: Vec::new() },
            StorageNode {
                bits: vec![false; 17],
                refs: vec![StorageNode { bits: vec![true; 8], refs: Vec::new() }],
            },
        ],
    };
    let root = cell_of_node(&tree).unwrap();
    assert_eq!(root.bit_len(), 11);
    assert_eq!(root.data(), &[0b1000_1101, 0b1100_0000]);
    let back = node_of_cell(&root, 2);
    assert_eq!(back.bits, tree.bits);
    assert_eq!(back.refs.len(), 2);
    assert!(back.refs[0].bits.is_empty());
    assert_eq!(back.refs[1].bits, vec![false; 17]);
    assert_eq!(back.refs[1].refs[0].bits, vec![true; 8]);
    let cut = node_of_cell(&root, 1);
    assert_eq!(cut.refs.len(), 2);
    assert!(cut.refs[1].refs.is_empty());
}

#[test]
fn a_node_that_fits_no_cell_is_too_large() {
    let wide = StorageNode { bits: vec![false; 1024], refs: Vec::new() };
    assert_eq!(cell_of_node(&wide).err(), Some(CellError::TooLarge));
    let leaf = || StorageNode { bits: Vec::new(), refs: Vec::new() };
    let bushy = StorageNode { bits: Vec::new(), refs: vec![leaf(), leaf(), leaf(), leaf(), leaf()] };
    assert_eq!(cell_of_node(&bushy).err(), Some(CellError::TooLarge));
    let nested = StorageNode { bits: Vec::new(), refs: vec![wide] };
    assert_eq!(cell_of_node(&nested).err(), Some(CellError::TooLarge));
    let full = StorageNode { bits: vec![true; 1023], refs: vec![leaf(), leaf(), leaf(), leaf()] };
    assert!(cell_of_node(&full).is_ok());
}
