use pixel_dna::boc::{is_sound, DEPTH_LIMIT};
use pixel_dna::dna::{Dna, BIT_COUNT};
use tonlib_core::cell::{ArcCell, CellBuilder};
use tonlib_core::tlb_types::tlb::TLB;

fn leaf(bits: usize) -> tonlib_core::cell::Cell {
    let mut builder = CellBuilder::new();
    for i in 0..bits {
        builder.store_bit(i % 2 == 0).unwrap();
    }
    builder.build().unwrap()
}

fn bag(rows: &[Vec<u32>]) -> Vec<u8> {
    let mut bytes = vec![0xb5, 0xee, 0x9c, 0x72, 0x03, 0x04];
    let count = rows.len() as u32;
    let size: u32 = rows.iter().map(|row| 2 + 3 * row.len() as u32).sum();
    bytes.extend_from_slice(&count.to_be_bytes()[1..]);
    bytes.extend_from_slice(&[0, 0, 1]);
    bytes.extend_from_slice(&[0, 0, 0]);
    bytes.extend_from_slice(&size.to_be_bytes());
    bytes.extend_from_slice(&[0, 0, 0]);
    for row in rows {
        bytes.push(row.len() as u8);
        bytes.push(0);
        for index in row {
            bytes.extend_from_slice(&index.to_be_bytes()[1..]);
        }
    }
    bytes
}

fn one_cell(root_index: u8, d1: u8, refs: &[u8]) -> Vec<u8> {
    let mut bytes = vec![0xb5, 0xee, 0x9c, 0x72, 0x01, 0x01, 0x01, 0x01, 0x00, 0x02, root_index];
    bytes.push(d1);
    bytes.push(0x00);
    bytes.extend_from_slice(refs);
    bytes
}

#[test]
fn serialized_cells_are_sound() {
    let dna = Dna::from_bits(vec![true; BIT_COUNT]).unwrap();
    assert!(is_sound(&dna.to_cell().unwrap().to_boc(true).unwrap()));
    assert!(is_sound(&dna.to_cell().unwrap().to_boc(false).unwrap()));
    assert!(is_sound(&leaf(0).to_boc(true).unwrap()));
    assert!(is_sound(&leaf(1023).to_boc(false).unwrap()));
    assert!(is_sound(&one_cell(0, 0, &[])));
}

#[test]
fn shared_cells_are_sound() {
    let shared = leaf(9).to_arc();
    let mut middle = CellBuilder::new();
    middle.store_reference(&shared).unwrap();
    let middle = middle.build().unwrap().to_arc();
    let mut root = CellBuilder::new();
    root.store_reference(&middle).unwrap();
    root.store_reference(&shared).unwrap();
    root.store_reference(&middle).unwrap();
    assert!(is_sound(&root.build().unwrap().to_boc(true).unwrap()));
}

#[test]
fn index_of_no_cell_is_unsound() {
    assert!(!is_sound(&one_cell(5, 0, &[])));
    assert!(!is_sound(&one_cell(1, 0, &[])));
    assert!(!is_sound(&one_cell(0, 1, &[1])));
    assert!(!is_sound(&one_cell(0, 2, &[0, 7])));
}

#[test]
fn a_cell_that_refers_to_itself_or_back_is_unsound() {
    assert!(!is_sound(&one_cell(0, 1, &[0])));
    assert!(is_sound(&bag(&[vec![1], vec![]])));
    assert!(!is_sound(&bag(&[vec![], vec![0]])));
    assert!(!is_sound(&bag(&[vec![1], vec![1]])));
    assert!(!is_sound(&bag(&[vec![1, 2], vec![2], vec![1]])));
    assert!(is_sound(&bag(&[vec![1, 2], vec![2], vec![]])));
}

#[test]
fn a_bag_of_many_cells_is_sound() {
    let count: u32 = 70_000;
    let rows: Vec<Vec<u32>> = (0..count)
        .map(|i| (1..=4).map(|k| 4 * i + k).filter(|child| *child < count).collect())
        .collect();
    let bytes = bag(&rows);
    assert!(is_sound(&bytes));
    let root = ArcCell::from_boc(&bytes).unwrap();
    assert_eq!(root.references().len(), 4);
    assert_eq!(root.cell_depth(), 8);
}

#[test]
fn a_chain_is_sound_below_the_greatest_depth() {
    assert_eq!(DEPTH_LIMIT, 65_535);
    let chain = |count: u32| -> Vec<Vec<u32>> {
        (0..count).map(|i| if i + 1 < count { vec![i + 1] } else { Vec::new() }).collect()
    };
    assert!(is_sound(&bag(&chain(2))));
    assert!(is_sound(&bag(&chain(65_535))));
    assert!(!is_sound(&bag(&chain(65_536))));
    assert!(!is_sound(&bag(&chain(70_000))));
    let mut rows = chain(65_535);
    rows.push(Vec::new());
    rows[0].push(65_535);
    assert!(is_sound(&bag(&rows)));
    let mut rows = chain(65_536);
    rows.insert(0, Vec::new());
    for row in rows.iter_mut().skip(1) {
        for index in row.iter_mut() {
            *index += 1;
        }
    }
    assert!(!is_sound(&bag(&rows)));
}

#[test]
fn exotic_cells_are_unsound() {
    assert!(!is_sound(&one_cell(0, 8, &[])));
}

#[test]
fn bytes_that_end_early_are_unsound() {
    let whole = Dna::from_bits(vec![false; BIT_COUNT]).unwrap().to_cell().unwrap().to_boc(false).unwrap();
    for keep in [0, 3, 5, 6, 10, 11, 12, 200, whole.len() - 1] {
        assert!(!is_sound(&whole[..keep].to_vec()), "{} bytes", keep);
    }
    assert!(is_sound(&whole));
}

#[test]
fn bytes_of_another_kind_are_unsound() {
    assert!(!is_sound(&Vec::new()));
    assert!(!is_sound(&vec![0u8; 64]));
    let mut bytes = one_cell(0, 0, &[]);
    bytes[0] = 0xb6;
    assert!(!is_sound(&bytes));
    let mut wide = one_cell(0, 0, &[]);
    wide[4] = 0x05;
    assert!(!is_sound(&wide));
}

#[test]
fn stored_hashes_are_stepped_over() {
    let mut bytes = vec![0xb5, 0xee, 0x9c, 0x72, 0x01, 0x01, 0x02, 0x01, 0x00, 0x27, 0x00];
    bytes.push(0x11);
    bytes.push(0x00);
    bytes.extend_from_slice(&[0u8; 34]);
    bytes.push(0x01);
    bytes.push(0x00);
    bytes.push(0x00);
    assert!(is_sound(&bytes));
    bytes.pop();
    assert!(!is_sound(&bytes));
    bytes.truncate(bytes.len() - 35);
    bytes.extend_from_slice(&[0x00, 0x00]);
    assert!(!is_sound(&bytes));
}
