use num_bigint::BigInt;
use pixel_dna::cell::parse_exclusives_dict;
use pixel_dna::dict::check_dict;
use pixel_dna::dna::DnaError;
use pixel_dna::task::{parse_offers, Envelope, StackElem, UpstreamReason};
use std::collections::HashMap;
use tonlib_core::cell::{Cell, CellBuilder, TonCellError};
use tonlib_core::tlb_types::tlb::TLB;

fn store_price(builder: &mut CellBuilder, price: BigInt) -> Result<(), TonCellError> {
    builder.store_int(257, &price)?;
    Ok(())
}

fn offers_cell(entries: &[(u32, i64)]) -> Cell {
    let data: HashMap<u32, BigInt> =
        entries.iter().map(|(index, price)| (*index, BigInt::from(*price))).collect();
    let mut builder = CellBuilder::new();
    builder.store_dict_data(32, store_price, data).unwrap();
    builder.build().unwrap()
}

fn cell_of(bits: &str, refs: &[Cell]) -> Cell {
    let mut builder = CellBuilder::new();
    for bit in bits.chars() {
        builder.store_bit(bit == '1').unwrap();
    }
    for cell in refs {
        builder.store_reference(&cell.clone().to_arc()).unwrap();
    }
    builder.build().unwrap()
}

fn text_of(cell: &Cell) -> String {
    cell.to_boc_b64(true).unwrap()
}

fn price_bits(price: u32) -> String {
    format!("{:0257b}", price)
}

fn answer(kind: &str, value: Option<String>) -> Envelope {
    Envelope {
        code: None,
        exit_code: Some(0),
        stack: Some(vec![StackElem { type_: kind.to_string(), value }]),
    }
}

#[test]
fn a_built_dictionary_is_sound() {
    assert!(check_dict(&offers_cell(&[(5, 9)]), 0));
    assert!(check_dict(&offers_cell(&[(1, 100), (7, 250), (4_000_000_000, 3)]), 0));
    let many: Vec<(u32, i64)> = (0..200u32).map(|i| (i * 7919, i64::from(i) + 1)).collect();
    let cell = offers_cell(&many);
    assert!(check_dict(&cell, 0));
    let offers = parse_exclusives_dict(&text_of(&cell)).unwrap();
    assert_eq!(offers.len(), 200);
    assert_eq!(offers.get(&(199 * 7919)), Some(&200));
}

#[test]
fn a_short_label_of_the_whole_key_makes_a_leaf() {
    let key = 0x8000_0001u32;
    let bits = format!("0{}0{:032b}{}", "1".repeat(32), key, price_bits(77));
    let cell = cell_of(&bits, &[]);
    assert!(check_dict(&cell, 0));
    let offers = parse_exclusives_dict(&text_of(&cell)).unwrap();
    let expected: HashMap<u32, u32> = [(key, 77)].into_iter().collect();
    assert_eq!(offers, expected);
}

#[test]
fn a_long_label_gives_its_length_in_six_bits_at_the_root() {
    let key = 0x0102_0304u32;
    let bits = format!("10{:06b}{:032b}{}", 32, key, price_bits(5));
    let cell = cell_of(&bits, &[]);
    assert!(check_dict(&cell, 0));
    let expected: HashMap<u32, u32> = [(key, 5)].into_iter().collect();
    assert_eq!(parse_exclusives_dict(&text_of(&cell)).unwrap(), expected);
}

#[test]
fn a_label_of_one_repeated_bit_spells_the_key() {
    let bits = format!("111{:06b}{}", 32, price_bits(8));
    let cell = cell_of(&bits, &[]);
    assert!(check_dict(&cell, 0));
    let expected: HashMap<u32, u32> = [(u32::MAX, 8)].into_iter().collect();
    assert_eq!(parse_exclusives_dict(&text_of(&cell)).unwrap(), expected);
}

#[test]
fn a_fork_takes_one_key_bit() {
    let low = cell_of(&format!("110{:05b}{}", 31, price_bits(1)), &[]);
    let high = cell_of(&format!("111{:05b}{}", 31, price_bits(2)), &[]);
    let root = cell_of("00", &[low, high]);
    assert!(check_dict(&root, 0));
    let expected: HashMap<u32, u32> = [(0, 1), (u32::MAX, 2)].into_iter().collect();
    assert_eq!(parse_exclusives_dict(&text_of(&root)).unwrap(), expected);
}

#[test]
fn a_label_where_no_key_bit_is_left_is_refused() {
    let leaf = cell_of(&format!("11{}", price_bits(1)), &[]);
    let other = cell_of(&format!("00{}", price_bits(2)), &[]);
    let root = cell_of(&format!("0{}0{}", "1".repeat(31), "0".repeat(31)), &[other, leaf]);
    assert!(!check_dict(&root, 0));
    assert_eq!(parse_exclusives_dict(&text_of(&root)).err(), Some(DnaError::MalformedInput));
    let leaf = cell_of(&format!("10{}", price_bits(1)), &[]);
    let other = cell_of(&format!("00{}", price_bits(2)), &[]);
    let root = cell_of(&format!("0{}0{}", "1".repeat(31), "0".repeat(31)), &[other, leaf]);
    assert!(!check_dict(&root, 0));
    assert_eq!(parse_exclusives_dict(&text_of(&root)).err(), Some(DnaError::MalformedInput));
}

#[test]
fn an_empty_long_label_is_refused() {
    let low = cell_of(&format!("110{:05b}{}", 31, price_bits(1)), &[]);
    let high = cell_of(&format!("111{:05b}{}", 31, price_bits(2)), &[]);
    let root = cell_of(&format!("10{:06b}{}", 0, "0".repeat(40)), &[low, high]);
    assert!(!check_dict(&root, 0));
    assert_eq!(parse_exclusives_dict(&text_of(&root)).err(), Some(DnaError::MalformedInput));
}

#[test]
fn a_label_longer_than_the_key_is_refused() {
    let child = cell_of("00", &[]);
    let short = cell_of(
        &format!("0{}0{}", "1".repeat(33), "0".repeat(33)),
        &[child.clone(), child.clone()],
    );
    assert!(!check_dict(&short, 0));
    assert_eq!(parse_exclusives_dict(&text_of(&short)).err(), Some(DnaError::MalformedInput));
    let same = cell_of(&format!("111{:06b}", 33), &[child.clone(), child.clone()]);
    assert!(!check_dict(&same, 0));
    assert_eq!(parse_exclusives_dict(&text_of(&same)).err(), Some(DnaError::MalformedInput));
    let long = cell_of(&format!("10{:06b}{}", 40, "1".repeat(40)), &[child.clone(), child]);
    assert!(!check_dict(&long, 0));
    assert_eq!(parse_exclusives_dict(&text_of(&long)).err(), Some(DnaError::MalformedInput));
}

#[test]
fn a_label_that_leaves_its_cell_is_refused() {
    assert!(!check_dict(&cell_of("", &[]), 0));
    assert!(!check_dict(&cell_of("0111", &[]), 0));
    assert!(!check_dict(&cell_of("01101", &[]), 0));
    assert!(!check_dict(&cell_of("1", &[]), 0));
    assert!(!check_dict(&cell_of("1000011", &[]), 0));
    assert!(!check_dict(&cell_of("10000101", &[]), 0));
    assert!(!check_dict(&cell_of("1110000", &[]), 0));
    assert_eq!(
        parse_exclusives_dict(&text_of(&cell_of("0111", &[]))).err(),
        Some(DnaError::MalformedInput)
    );
}

#[test]
fn a_fork_needs_two_cells() {
    let leaf = cell_of(&format!("110{:05b}{}", 31, price_bits(1)), &[]);
    assert!(!check_dict(&cell_of("00", &[]), 0));
    assert!(!check_dict(&cell_of("00", &[leaf.clone()]), 0));
    assert!(check_dict(&cell_of("00", &[leaf.clone(), leaf.clone()]), 0));
    let root = cell_of("00", &[leaf]);
    assert_eq!(parse_exclusives_dict(&text_of(&root)).err(), Some(DnaError::MalformedInput));
}

#[test]
fn the_bits_that_are_known_count_against_the_key() {
    let leaf = cell_of(&format!("110{:05b}{}", 31, price_bits(1)), &[]);
    assert!(check_dict(&leaf, 1));
    assert!(!check_dict(&leaf, 2));
    assert!(check_dict(&cell_of("00", &[]), 32));
    assert!(!check_dict(&cell_of("00", &[]), 33));
    assert!(!check_dict(&cell_of("0101", &[]), 32));
}

#[test]
fn a_sound_dictionary_without_a_price_is_refused() {
    let bits = format!("0{}0{:032b}", "1".repeat(32), 12);
    let cell = cell_of(&bits, &[]);
    assert!(check_dict(&cell, 0));
    assert_eq!(parse_exclusives_dict(&text_of(&cell)).err(), Some(DnaError::MalformedInput));
}

#[test]
fn offers_of_an_answer_without_a_cell_are_none() {
    assert_eq!(parse_offers(&answer("num", Some("0x1".to_string()))), Ok(HashMap::new()));
    assert_eq!(parse_offers(&answer("cell", None)), Ok(HashMap::new()));
}

#[test]
fn offers_of_an_answer_are_read_from_its_cell() {
    let text = text_of(&offers_cell(&[(3, 30), (4, 40)]));
    let expected: HashMap<u32, u32> = [(3, 30), (4, 40)].into_iter().collect();
    assert_eq!(parse_offers(&answer("cell", Some(text))), Ok(expected));
}

#[test]
fn offers_of_an_answer_with_another_cell_are_an_invalid_cell() {
    assert_eq!(
        parse_offers(&answer("cell", Some("no cells".to_string()))),
        Err(UpstreamReason::InvalidCell)
    );
    let text = text_of(&cell_of(&format!("10{:06b}{}", 0, "0".repeat(40)), &[]));
    assert_eq!(parse_offers(&answer("cell", Some(text))), Err(UpstreamReason::InvalidCell));
    let text = text_of(&offers_cell(&[(1, 1 << 40)]));
    assert_eq!(parse_offers(&answer("cell", Some(text))), Err(UpstreamReason::InvalidCell));
}

#[test]
fn offers_of_a_failed_answer_are_its_error() {
    let failed = Envelope { code: None, exit_code: Some(7), stack: Some(Vec::new()) };
    assert_eq!(parse_offers(&failed), Err(UpstreamReason::ErrorResponse));
    let bare = Envelope { code: None, exit_code: Some(0), stack: None };
    assert_eq!(parse_offers(&bare), Err(UpstreamReason::InvalidResponse));
    let empty = Envelope { code: None, exit_code: Some(0), stack: Some(Vec::new()) };
    assert_eq!(parse_offers(&empty), Err(UpstreamReason::InvalidResponse));
}

#[test]
fn a_dictionary_of_many_offers_is_read() {
    let many: Vec<(u32, i64)> = (0..35_000u32).map(|i| (i * 104_729 + 3, i64::from(i))).collect();
    let cell = offers_cell(&many);
    let offers = parse_exclusives_dict(&text_of(&cell)).unwrap();
    assert_eq!(offers.len(), 35_000);
    assert_eq!(offers.get(&3), Some(&0));
    assert_eq!(offers.get(&(34_999 * 104_729 + 3)), Some(&34_999));
}
