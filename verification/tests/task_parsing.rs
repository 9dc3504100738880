use pixel_dna::task::{
    join_exclusives, parse_dna_output, parse_exclusives_output, parse_item_price_output,
    parse_items_output, Envelope, ExclusivesSource, NftItem, NftItemSpec, StackElem,
    UpstreamReason,
};
use std::collections::HashMap;

fn elem(kind: &str, value: Option<&str>) -> StackElem {
    StackElem { type_: kind.to_string(), value: value.map(|text| text.to_string()) }
}

fn reply(stack: Option<Vec<StackElem>>) -> Envelope {
    Envelope { code: None, exit_code: Some(0), stack }
}

fn spec(index: &str, name: &str) -> NftItemSpec {
    NftItemSpec {
        index: index.to_string(),
        name: name.to_string(),
        description: format!("about {}", name),
    }
}

fn item(index: u32, name: &str) -> NftItem {
    NftItem { index, name: name.to_string(), description: format!("about {}", name) }
}

fn summary(pairs: &[(NftItem, u32)]) -> Vec<(u32, String, u32)> {
    pairs.iter().map(|(item, price)| (item.index, item.name.clone(), *price)).collect()
}

#[test]
fn dna_is_the_value_of_the_last_cell() {
    let envelope = reply(Some(vec![elem("num", Some("0x1")), elem("cell", Some("te6cck"))]));
    assert_eq!(parse_dna_output(&envelope), Ok("te6cck".to_string()));
}

#[test]
fn dna_needs_a_cell_at_the_end_of_the_stack() {
    let envelope = reply(Some(vec![elem("cell", Some("te6cck")), elem("num", Some("0x1"))]));
    assert_eq!(parse_dna_output(&envelope), Err(UpstreamReason::InvalidResponse));
    assert_eq!(parse_dna_output(&reply(Some(Vec::new()))), Err(UpstreamReason::InvalidResponse));
    assert_eq!(parse_dna_output(&reply(None)), Err(UpstreamReason::InvalidResponse));
}

#[test]
fn dna_needs_text_values() {
    let envelope = reply(Some(vec![elem("list", None), elem("cell", Some("te6cck"))]));
    assert_eq!(parse_dna_output(&envelope), Err(UpstreamReason::InvalidFormat));
    let envelope = reply(Some(vec![elem("cell", None)]));
    assert_eq!(parse_dna_output(&envelope), Err(UpstreamReason::InvalidFormat));
}

#[test]
fn nonzero_exit_code_is_an_error_response() {
    let mut envelope = reply(Some(vec![elem("cell", Some("te6cck"))]));
    envelope.exit_code = Some(11);
    assert!(envelope.failed());
    assert_eq!(parse_dna_output(&envelope), Err(UpstreamReason::ErrorResponse));
    assert_eq!(parse_item_price_output(&envelope), Err(UpstreamReason::ErrorResponse));
    assert_eq!(parse_exclusives_output(&envelope).err(), Some(UpstreamReason::ErrorResponse));
    envelope.exit_code = Some(-1);
    assert_eq!(parse_dna_output(&envelope), Err(UpstreamReason::ErrorResponse));
    envelope.exit_code = None;
    assert!(!envelope.failed());
    assert_eq!(parse_dna_output(&envelope), Ok("te6cck".to_string()));
}

#[test]
fn code_429_is_rate_limiting() {
    let mut envelope = reply(None);
    assert!(!envelope.rate_limited());
    envelope.code = Some(429);
    assert!(envelope.rate_limited());
    envelope.code = Some(430);
    assert!(!envelope.rate_limited());
    envelope.code = Some(0);
    assert!(!envelope.rate_limited());
}

#[test]
fn price_is_read_in_hexadecimal_after_the_prefix() {
    let envelope = reply(Some(vec![elem("num", Some("0x1A2b"))]));
    assert_eq!(parse_item_price_output(&envelope), Ok(0x1a2b));
    let envelope = reply(Some(vec![elem("num", Some("0x0"))]));
    assert_eq!(parse_item_price_output(&envelope), Ok(0));
    let envelope = reply(Some(vec![elem("num", Some("0xffffffff"))]));
    assert_eq!(parse_item_price_output(&envelope), Ok(u32::MAX));
}

#[test]
fn price_prefix_is_two_bytes() {
    let envelope = reply(Some(vec![elem("num", Some("\u{e9}1f"))]));
    assert_eq!(parse_item_price_output(&envelope), Ok(0x1f));
    let envelope = reply(Some(vec![elem("num", Some("a\u{e9}1f"))]));
    assert_eq!(parse_item_price_output(&envelope), Err(UpstreamReason::InvalidResponse));
    let envelope = reply(Some(vec![elem("num", Some("\u{e9}"))]));
    assert_eq!(parse_item_price_output(&envelope), Err(UpstreamReason::InvalidResponse));
}

#[test]
fn price_that_is_no_number_is_refused() {
    for value in ["0x", "0", "", "0xzz", "0x100000000", "0x-1"] {
        let envelope = reply(Some(vec![elem("num", Some(value))]));
        assert_eq!(
            parse_item_price_output(&envelope),
            Err(UpstreamReason::InvalidResponse),
            "value {:?}",
            value
        );
    }
    let envelope = reply(Some(vec![elem("cell", Some("0x10"))]));
    assert_eq!(parse_item_price_output(&envelope), Err(UpstreamReason::InvalidResponse));
}

#[test]
fn exclusives_come_from_the_last_cell() {
    let envelope = reply(Some(vec![elem("cell", Some("te6cck"))]));
    assert!(matches!(
        parse_exclusives_output(&envelope),
        Ok(ExclusivesSource::Boc(text)) if text == "te6cck"
    ));
}

#[test]
fn exclusives_are_none_without_a_cell() {
    let envelope = reply(Some(vec![elem("null", None)]));
    assert!(matches!(parse_exclusives_output(&envelope), Ok(ExclusivesSource::Nothing)));
    let envelope = reply(Some(vec![elem("cell", None)]));
    assert!(matches!(parse_exclusives_output(&envelope), Ok(ExclusivesSource::Nothing)));
    let envelope = reply(Some(vec![elem("num", Some("0x1"))]));
    assert!(matches!(parse_exclusives_output(&envelope), Ok(ExclusivesSource::Nothing)));
}

#[test]
fn exclusives_need_a_stack() {
    assert_eq!(parse_exclusives_output(&reply(None)).err(), Some(UpstreamReason::InvalidResponse));
    assert_eq!(
        parse_exclusives_output(&reply(Some(Vec::new()))).err(),
        Some(UpstreamReason::InvalidResponse)
    );
}

#[test]
fn a_full_page_says_that_more_follows() {
    let specs = vec![spec("1", "a"), spec("2", "b"), spec("3", "c"), spec("4", "d"), spec("5", "e")];
    let page = parse_items_output(specs).unwrap();
    assert!(page.has_next_page);
    let listed: Vec<(u32, &str, &str)> = page
        .items
        .iter()
        .map(|item| (item.index, item.name.as_str(), item.description.as_str()))
        .collect();
    assert_eq!(
        listed,
        vec![(1, "a", "about a"), (2, "b", "about b"), (3, "c", "about c"), (4, "d", "about d")]
    );
}

#[test]
fn a_short_page_is_the_last() {
    let page = parse_items_output(vec![spec("10", "a"), spec("11", "b")]).unwrap();
    assert!(!page.has_next_page);
    assert_eq!(page.items.len(), 2);
    let page = parse_items_output(vec![spec("1", "a"), spec("2", "b"), spec("3", "c"), spec("4", "d")])
        .unwrap();
    assert!(!page.has_next_page);
    assert_eq!(page.items.len(), 4);
    let page = parse_items_output(Vec::new()).unwrap();
    assert!(!page.has_next_page);
    assert!(page.items.is_empty());
}

#[test]
fn an_index_that_is_no_number_is_refused() {
    let specs = vec![spec("1", "a"), spec("two", "b")];
    assert_eq!(parse_items_output(specs).err(), Some(UpstreamReason::InvalidItemIndex));
    let specs = vec![spec("4294967296", "a")];
    assert_eq!(parse_items_output(specs).err(), Some(UpstreamReason::InvalidItemIndex));
    let specs = vec![spec("-1", "a")];
    assert_eq!(parse_items_output(specs).err(), Some(UpstreamReason::InvalidItemIndex));
}

#[test]
fn an_index_beyond_the_page_is_not_read() {
    let specs = vec![spec("1", "a"), spec("2", "b"), spec("3", "c"), spec("4", "d"), spec("x", "e")];
    let page = parse_items_output(specs).unwrap();
    assert!(page.has_next_page);
    assert_eq!(page.items.len(), 4);
}

#[test]
fn exclusives_are_joined_in_order_of_index() {
    let offered: HashMap<u32, u32> = [(7, 70), (2, 20), (5, 50), (9, 90)].into_iter().collect();
    let items = vec![item(5, "five"), item(1, "one"), item(9, "nine"), item(2, "two")];
    let pairs = join_exclusives(&offered, &items);
    assert_eq!(
        summary(&pairs),
        vec![(2, "two".to_string(), 20), (5, "five".to_string(), 50), (9, "nine".to_string(), 90)]
    );
    assert_eq!(pairs[0].0.description, "about two");
}

#[test]
fn of_items_with_one_index_the_last_is_taken() {
    let offered: HashMap<u32, u32> = [(3, 30)].into_iter().collect();
    let items = vec![item(3, "early"), item(4, "other"), item(3, "late")];
    assert_eq!(summary(&join_exclusives(&offered, &items)), vec![(3, "late".to_string(), 30)]);
}

#[test]
fn nothing_is_joined_without_offers_or_items() {
    let nothing: HashMap<u32, u32> = HashMap::new();
    assert!(join_exclusives(&nothing, &vec![item(1, "one")]).is_empty());
    let offered: HashMap<u32, u32> = [(1, 10)].into_iter().collect();
    assert!(join_exclusives(&offered, &Vec::new()).is_empty());
    assert!(join_exclusives(&offered, &vec![item(2, "two")]).is_empty());
}

#[test]
fn the_lowest_and_the_highest_index_are_joined() {
    let offered: HashMap<u32, u32> = [(0, 1), (u32::MAX, 2)].into_iter().collect();
    let items = vec![item(u32::MAX, "last"), item(0, "first")];
    assert_eq!(
        summary(&join_exclusives(&offered, &items)),
        vec![(0, "first".to_string(), 1), (u32::MAX, "last".to_string(), 2)]
    );
}
