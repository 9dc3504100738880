//! The queries that the viewer service answers: how each is asked and how
//! its answer is read.
//!
//! A [`Task`] is one of a closed set of queries. [`Task::job_payload`] says
//! what is sent; the `parse_*` functions say what an answer means. The
//! answer arrives as an [`Envelope`], the fields of the service's JSON reply
//! that any query looks at.

use vstd::prelude::*;
use vstd::string::*;
use vstd::utf8::{encode_utf8, is_char_boundary};
use std::collections::HashMap;
use crate::cell::{offers_of, parse_exclusives_dict};
use crate::encoding::{decimal_u32, hex_u32, parse_decimal_u32, parse_hex_u32};

verus! {

/// Items on one page of a listing.
pub const PAGE_SIZE: usize = 4;

/// The reply code by which the service says that it is over capacity.
pub const RATE_LIMIT_CODE: u32 = 429;

/// How a request is sent.
#[derive(Debug, Clone, Copy, PartialEq, Eq)]
pub enum HttpMethod {
    Get,
    Post,
}

/// The value of one request parameter.
#[derive(Debug)]
pub enum ParamValue {
    Text(String),
    Number(u64),
    EmptyList,
}

/// One named request parameter.
#[derive(Debug)]
pub struct Param {
    pub name: String,
    pub value: ParamValue,
}

/// What is sent to the service: the method, the path below the service's
/// address, and the parameters in order.
#[derive(Debug)]
pub struct Request {
    pub http_method: HttpMethod,
    pub api_method: String,
    pub params: Vec<Param>,
}

/// A query, with the addresses it is about written as text.
#[derive(Debug)]
pub enum Task {
    GetDna { item_address: String },
    GetItems { collection_address: String, owner_address: String, page: Option<usize> },
    GetExclusivesOffered { store_address: String },
    GetItemPrice { store_address: String },
}

/// One element of the stack that a contract method left.
#[derive(Debug)]
pub struct StackElem {
    pub type_: String,
    /// The element's value where it is text, `None` where it is anything
    /// else.
    pub value: Option<String>,
}

/// The fields of a reply that the client reads.
#[derive(Debug)]
pub struct Envelope {
    pub code: Option<u32>,
    pub exit_code: Option<i32>,
    pub stack: Option<Vec<StackElem>>,
}

/// Why a reply could not be used.
#[derive(Debug, Clone, Copy, PartialEq, Eq)]
pub enum UpstreamReason {
    /// The request did not get a reply.
    RequestFailed,
    /// The reply is not JSON.
    InvalidJson,
    /// The reply is JSON of another form than the query's answer has.
    InvalidFormat,
    /// The contract method ended with a nonzero exit code.
    ErrorResponse,
    /// The answer holds no value of the kind that the query asks for.
    InvalidResponse,
    /// An item's index is not a number.
    InvalidItemIndex,
    /// The cell that the answer holds cannot be read.
    InvalidCell,
}

/// One item of a listing, as the service describes it.
#[derive(Debug)]
pub struct NftItemSpec {
    pub index: String,
    pub name: String,
    pub description: String,
}

/// One item of a listing.
#[derive(Debug)]
pub struct NftItem {
    pub index: u32,
    pub name: String,
    pub description: String,
}

/// One page of a listing.
#[derive(Debug)]
pub struct NftItemsResponse {
    pub items: Vec<NftItem>,
    pub has_next_page: bool,
}

/// Where the exclusives on offer are to be read from.
#[derive(Debug)]
pub enum ExclusivesSource {
    /// Nothing is on offer.
    Nothing,
    /// The offers are the dictionary in this serialized cell.
    Boc(String),
}

/// A parameter and its value as plain text and numbers.
pub enum ParamView {
    Text(Seq<char>, Seq<char>),
    Number(Seq<char>, int),
    EmptyList(Seq<char>),
}

impl View for Param {
    type V = ParamView;

    open spec fn view(&self) -> ParamView {
        match self.value {
            ParamValue::Text(text) => ParamView::Text(self.name@, text@),
            ParamValue::Number(number) => ParamView::Number(self.name@, number as int),
            ParamValue::EmptyList => ParamView::EmptyList(self.name@),
        }
    }
}

/// The parameters of a call of the contract method `method` at `address`.
pub open spec fn get_method_params(address: Seq<char>, method: Seq<char>) -> Seq<ParamView> {
    seq![
        ParamView::Text("address"@, address),
        ParamView::Text("method"@, method),
        ParamView::EmptyList("stack"@),
    ]
}

/// The parameters of a listing query.
pub open spec fn items_params(
    collection_address: Seq<char>,
    owner_address: Seq<char>,
    page: Option<usize>,
) -> Seq<ParamView> {
    let addresses = seq![
        ParamView::Text("collection_address"@, collection_address),
        ParamView::Text("owner_address"@, owner_address),
    ];
    match page {
        Some(page) => addresses + seq![
            ParamView::Number("limit"@, PAGE_SIZE + 1),
            ParamView::Number("offset"@, page * PAGE_SIZE),
        ],
        None => addresses,
    }
}

/// The parameters that a query is sent with.
pub open spec fn task_params(task: Task) -> Seq<ParamView> {
    match task {
        Task::GetDna { item_address } => get_method_params(item_address@, "dna"@),
        Task::GetItems { collection_address, owner_address, page } => items_params(
            collection_address@,
            owner_address@,
            page,
        ),
        Task::GetExclusivesOffered { store_address } => get_method_params(
            store_address@,
            "exclusives_offered"@,
        ),
        Task::GetItemPrice { store_address } => get_method_params(store_address@, "item_price"@),
    }
}

/// The parameters of a request as plain text and numbers.
pub open spec fn params_view(params: Seq<Param>) -> Seq<ParamView> {
    Seq::new(params.len(), |i: int| params[i]@)
}

/// The page of a listing query fits in the request: its offset is a `u64`.
pub open spec fn page_fits(task: Task) -> bool {
    match task {
        Task::GetItems { page: Some(page), .. } => page * PAGE_SIZE <= u64::MAX,
        _ => true,
    }
}

/// Makes the parameter `name` with the text `text`.
fn text_param(name: &str, text: &str) -> (param: Param)
    ensures
        param@ == ParamView::Text(name@, text@),
{
    Param { name: name.to_owned(), value: ParamValue::Text(text.to_owned()) }
}

/// Makes the parameter `name` with the number `number`.
fn number_param(name: &str, number: u64) -> (param: Param)
    ensures
        param@ == ParamView::Number(name@, number as int),
{
    Param { name: name.to_owned(), value: ParamValue::Number(number) }
}

/// Makes the parameters of a call of the contract method `method` at
/// `address`.
fn get_method_request(address: &str, method: &str) -> (request: Request)
    ensures
        request.http_method == HttpMethod::Post,
        request.api_method@ == "runGetMethod"@,
        params_view(request.params@) == get_method_params(address@, method@),
{
    let mut params: Vec<Param> = Vec::new();
    params.push(text_param("address", address));
    params.push(text_param("method", method));
    params.push(Param { name: "stack".to_owned(), value: ParamValue::EmptyList });
    assert(params_view(params@) =~= get_method_params(address@, method@));
    Request { http_method: HttpMethod::Post, api_method: "runGetMethod".to_owned(), params }
}

impl Task {
    /// What is sent for this query.
    ///
    /// The three contract queries post a call of their method, with an empty
    /// argument stack, to `runGetMethod`. The listing query gets `nft/items`
    /// for a collection and an owner; with a page it asks for one item more
    /// than a page holds, from the page's first item on.
    pub fn job_payload(&self) -> (request: Request)
        requires
            page_fits(*self),
        ensures
            request.http_method == (if self is GetItems {
                HttpMethod::Get
            } else {
                HttpMethod::Post
            }),
            request.api_method@ == (if self is GetItems {
                "nft/items"@
            } else {
                "runGetMethod"@
            }),
            params_view(request.params@) == task_params(*self),
    {
        match self {
            Task::GetDna { item_address } => get_method_request(item_address.as_str(), "dna"),
            Task::GetExclusivesOffered { store_address } => get_method_request(
                store_address.as_str(),
                "exclusives_offered",
            ),
            Task::GetItemPrice { store_address } => get_method_request(
                store_address.as_str(),
                "item_price",
            ),
            Task::GetItems { collection_address, owner_address, page } => {
                let mut params: Vec<Param> = Vec::new();
                params.push(text_param("collection_address", collection_address.as_str()));
                params.push(text_param("owner_address", owner_address.as_str()));
                match page {
                    Some(page) => {
                        params.push(number_param("limit", 5));
                        params.push(number_param("offset", (*page as u64) * 4));
                    },
                    None => {},
                }
                assert(params_view(params@) =~= task_params(*self));
                Request {
                    http_method: HttpMethod::Get,
                    api_method: "nft/items".to_owned(),
                    params,
                }
            },
        }
    }
}

/// The reply says that the service is over capacity.
pub open spec fn is_rate_limited(envelope: Envelope) -> bool {
    envelope.code == Some(RATE_LIMIT_CODE)
}

/// The reply says that the contract method failed.
pub open spec fn failed_remotely(envelope: Envelope) -> bool {
    match envelope.exit_code {
        Some(code) => code != 0,
        None => false,
    }
}

/// The stack of a reply; a reply without one has an empty stack.
pub open spec fn stack_elems(envelope: Envelope) -> Seq<StackElem> {
    match envelope.stack {
        Some(stack) => stack@,
        None => Seq::empty(),
    }
}

/// Every element of the stack has text for its value.
pub open spec fn all_text(elems: Seq<StackElem>) -> bool {
    forall|i: int| 0 <= i < elems.len() ==> (#[trigger] elems[i]).value.is_some()
}

/// The answer of kind `kind` that a reply holds: the value of the last
/// element of its stack.
pub open spec fn stack_answer(envelope: Envelope, kind: Seq<char>) -> Result<
    Seq<char>,
    UpstreamReason,
> {
    let elems = stack_elems(envelope);
    if failed_remotely(envelope) {
        Err(UpstreamReason::ErrorResponse)
    } else if !all_text(elems) {
        Err(UpstreamReason::InvalidFormat)
    } else if elems.len() == 0 || elems.last().type_@ != kind {
        Err(UpstreamReason::InvalidResponse)
    } else {
        Ok(elems.last().value.unwrap()@)
    }
}

/// The price that a reply holds: the hexadecimal number after the first two
/// bytes of its `num` answer. An answer of less than two bytes, or one
/// whose third byte begins no character, holds none.
pub open spec fn price_answer(envelope: Envelope) -> Result<u32, UpstreamReason> {
    match stack_answer(envelope, "num"@) {
        Ok(text) => {
            let bytes = encode_utf8(text);
            if bytes.len() < 2 || !is_char_boundary(bytes, 2) {
                Err(UpstreamReason::InvalidResponse)
            } else {
                match hex_u32(bytes.subrange(2, bytes.len() as int)) {
                    Some(price) => Ok(price),
                    None => Err(UpstreamReason::InvalidResponse),
                }
            }
        },
        Err(reason) => Err(reason),
    }
}

/// What a text result holds, with its text as characters.
pub open spec fn text_result(result: Result<String, UpstreamReason>) -> Result<
    Seq<char>,
    UpstreamReason,
> {
    match result {
        Ok(text) => Ok(text@),
        Err(reason) => Err(reason),
    }
}

impl Envelope {
    /// Whether the reply says that the service is over capacity: its code
    /// is 429.
    pub fn rate_limited(&self) -> (limited: bool)
        ensures
            limited == is_rate_limited(*self),
    {
        match self.code {
            Some(code) => code == RATE_LIMIT_CODE,
            None => false,
        }
    }

    /// Whether the reply says that the contract method failed: it has an
    /// exit code other than 0.
    pub fn failed(&self) -> (failed: bool)
        ensures
            failed == failed_remotely(*self),
    {
        match self.exit_code {
            Some(code) => code != 0,
            None => false,
        }
    }
}

/// Whether every element of `elems` has text for its value.
fn check_all_text(elems: &Vec<StackElem>) -> (ok: bool)
    ensures
        ok == all_text(elems@),
{
    let mut i: usize = 0;
    while i < elems.len()
        invariant
            i <= elems.len(),
            forall|k: int| 0 <= k < i ==> (#[trigger] elems@[k]).value.is_some(),
        decreases elems.len() - i,
    {
        if elems[i].value.is_none() {
            return false;
        }
        i += 1;
    }
    true
}

/// Reads the answer of kind `kind` from a reply.
fn read_stack_answer(envelope: &Envelope, kind: &str) -> (answer: Result<String, UpstreamReason>)
    ensures
        text_result(answer) == stack_answer(*envelope, kind@),
{
    if envelope.failed() {
        return Err(UpstreamReason::ErrorResponse);
    }
    let elems = match &envelope.stack {
        Some(elems) => elems,
        None => {
            return Err(UpstreamReason::InvalidResponse);
        },
    };
    if !check_all_text(elems) {
        return Err(UpstreamReason::InvalidFormat);
    }
    if elems.len() == 0 {
        return Err(UpstreamReason::InvalidResponse);
    }
    let last = &elems[elems.len() - 1];
    if last.type_ != kind.to_owned() {
        return Err(UpstreamReason::InvalidResponse);
    }
    match &last.value {
        Some(text) => Ok(text.clone()),
        None => Err(UpstreamReason::InvalidFormat),
    }
}

/// Reads the serialized DNA cell from the answer to a `GetDna` query: the
/// value of the last stack element, which must be a `cell`.
pub fn parse_dna_output(envelope: &Envelope) -> (dna: Result<String, UpstreamReason>)
    ensures
        text_result(dna) == stack_answer(*envelope, "cell"@),
{
    read_stack_answer(envelope, "cell")
}

/// Reads the price from the answer to a `GetItemPrice` query: the value of
/// the last stack element, which must be a `num`, read as a hexadecimal
/// number after its prefix of two bytes.
pub fn parse_item_price_output(envelope: &Envelope) -> (price: Result<u32, UpstreamReason>)
    ensures
        price == price_answer(*envelope),
{
    let text = match read_stack_answer(envelope, "num") {
        Ok(text) => text,
        Err(reason) => {
            return Err(reason);
        },
    };
    let answer = text.as_str();
    proof {
        assert(answer.spec_bytes() == encode_utf8(text@));
        assert(stack_answer(*envelope, "num"@) == Ok::<Seq<char>, UpstreamReason>(text@));
    }
    if answer.as_bytes().len() < 2 || !answer.is_char_boundary(2) {
        return Err(UpstreamReason::InvalidResponse);
    }
    let (_, digits) = answer.split_at(2);
    match parse_hex_u32(digits) {
        Some(price) => Ok(price),
        None => Err(UpstreamReason::InvalidResponse),
    }
}

/// Where the answer to a `GetExclusivesOffered` query says the offers are.
pub open spec fn exclusives_answer(envelope: Envelope) -> Result<
    Option<Seq<char>>,
    UpstreamReason,
> {
    let elems = stack_elems(envelope);
    if failed_remotely(envelope) {
        Err(UpstreamReason::ErrorResponse)
    } else if elems.len() == 0 {
        Err(UpstreamReason::InvalidResponse)
    } else if elems.last().type_@ == "cell"@ && elems.last().value.is_some() {
        Ok(Some(elems.last().value.unwrap()@))
    } else {
        Ok(None)
    }
}

/// What an `ExclusivesSource` result stands for.
pub open spec fn source_result(result: Result<ExclusivesSource, UpstreamReason>) -> Result<
    Option<Seq<char>>,
    UpstreamReason,
> {
    match result {
        Ok(ExclusivesSource::Boc(text)) => Ok(Some(text@)),
        Ok(ExclusivesSource::Nothing) => Ok(None),
        Err(reason) => Err(reason),
    }
}

/// Reads where the offers are from the answer to a `GetExclusivesOffered`
/// query: in the cell that the last stack element holds, or nowhere when
/// that element holds no cell. An empty stack is an error.
pub fn parse_exclusives_output(envelope: &Envelope) -> (source: Result<
    ExclusivesSource,
    UpstreamReason,
>)
    ensures
        source_result(source) == exclusives_answer(*envelope),
{
    if envelope.failed() {
        return Err(UpstreamReason::ErrorResponse);
    }
    let elems = match &envelope.stack {
        Some(elems) => elems,
        None => {
            return Err(UpstreamReason::InvalidResponse);
        },
    };
    if elems.len() == 0 {
        return Err(UpstreamReason::InvalidResponse);
    }
    let last = &elems[elems.len() - 1];
    if last.type_ != "cell".to_owned() {
        return Ok(ExclusivesSource::Nothing);
    }
    match &last.value {
        Some(text) => Ok(ExclusivesSource::Boc(text.clone())),
        None => Ok(ExclusivesSource::Nothing),
    }
}

/// What reading the offers from the answer to a `GetExclusivesOffered`
/// query gives: no offers where the answer holds no cell, the offers of
/// the dictionary in the cell where it holds one, and `InvalidCell` where
/// the cell holds no such dictionary.
pub open spec fn offers_answer(envelope: Envelope) -> Result<Map<u32, u32>, UpstreamReason> {
    match exclusives_answer(envelope) {
        Ok(None) => Ok(Map::empty()),
        Ok(Some(text)) => match offers_of(text) {
            Some(offers) => Ok(offers),
            None => Err(UpstreamReason::InvalidCell),
        },
        Err(reason) => Err(reason),
    }
}

/// What a result of offers holds.
pub open spec fn offers_view(offers: Result<HashMap<u32, u32>, UpstreamReason>) -> Result<
    Map<u32, u32>,
    UpstreamReason,
> {
    match offers {
        Ok(map) => Ok(map@),
        Err(reason) => Err(reason),
    }
}

/// Reads the exclusives on offer, index and price, from the answer to a
/// `GetExclusivesOffered` query.
pub fn parse_offers(envelope: &Envelope) -> (offers: Result<HashMap<u32, u32>, UpstreamReason>)
    ensures
        offers_view(offers) == offers_answer(*envelope),
{
    match parse_exclusives_output(envelope) {
        Ok(ExclusivesSource::Nothing) => Ok(HashMap::new()),
        Ok(ExclusivesSource::Boc(text)) => match parse_exclusives_dict(text.as_str()) {
            Ok(offers) => Ok(offers),
            Err(_) => Err(UpstreamReason::InvalidCell),
        },
        Err(reason) => Err(reason),
    }
}

/// The number of items of `specs` that a page shows.
pub open spec fn shown(specs: Seq<NftItemSpec>) -> int {
    if specs.len() > PAGE_SIZE {
        PAGE_SIZE as int
    } else {
        specs.len() as int
    }
}

/// `item` is what `spec` describes.
pub open spec fn describes(spec: NftItemSpec, item: NftItem) -> bool {
    &&& decimal_u32(spec.index@) == Some(item.index)
    &&& item.name@ == spec.name@
    &&& item.description@ == spec.description@
}

/// The index of each of the first `count` items is a number.
pub open spec fn indices_parse(specs: Seq<NftItemSpec>, count: int) -> bool {
    forall|i: int| 0 <= i < count ==> decimal_u32((#[trigger] specs[i]).index@).is_some()
}

/// Reads one page from the items that answer a `GetItems` query.
///
/// The page shows the first `PAGE_SIZE` items and says whether more came.
/// It fails with `InvalidItemIndex` exactly when the index of an item that
/// it would show is not a decimal number.
pub fn parse_items_output(specs: Vec<NftItemSpec>) -> (page: Result<
    NftItemsResponse,
    UpstreamReason,
>)
    ensures
        page.is_ok() <==> indices_parse(specs@, shown(specs@)),
        page matches Ok(p) ==> {
            &&& p.has_next_page == (specs@.len() > PAGE_SIZE)
            &&& p.items@.len() == shown(specs@)
            &&& forall|i: int| 0 <= i < shown(specs@) ==> describes(specs@[i], #[trigger] p.items@[i])
        },
        page matches Err(reason) ==> reason == UpstreamReason::InvalidItemIndex,
{
    let has_next_page = specs.len() > PAGE_SIZE;
    let count: usize = if has_next_page { PAGE_SIZE } else { specs.len() };
    let mut items: Vec<NftItem> = Vec::new();
    let mut i: usize = 0;
    while i < count
        invariant
            i <= count,
            count == shown(specs@),
            items@.len() == i,
            forall|k: int| 0 <= k < i ==> describes(specs@[k], #[trigger] items@[k]),
        decreases count - i,
    {
        let spec = &specs[i];
        let index = match parse_decimal_u32(spec.index.as_str()) {
            Some(index) => index,
            None => {
                return Err(UpstreamReason::InvalidItemIndex);
            },
        };
        items.push(NftItem { index, name: spec.name.clone(), description: spec.description.clone() });
        i += 1;
    }
    assert forall|k: int| 0 <= k < count implies decimal_u32((#[trigger] specs@[k]).index@).is_some() by {
        assert(describes(specs@[k], items@[k]));
    }
    Ok(NftItemsResponse { items, has_next_page })
}

/// Item `at` is the last of `items` with its index.
pub open spec fn is_last_with_index(items: Seq<NftItem>, at: int) -> bool {
    &&& 0 <= at < items.len()
    &&& forall|j: int| at < j < items.len() ==> (#[trigger] items[j]).index != items[at].index
}

/// `pair` is the item `items[at]` with the price that `offered` has for it.
pub open spec fn pairs_with(
    pair: (NftItem, u32),
    offered: Map<u32, u32>,
    items: Seq<NftItem>,
    at: int,
) -> bool {
    &&& is_last_with_index(items, at)
    &&& pair.0.index == items[at].index
    &&& pair.0.name@ == items[at].name@
    &&& pair.0.description@ == items[at].description@
    &&& offered.contains_key(pair.0.index)
    &&& pair.1 == offered[pair.0.index]
}

/// `pair` is a listed item, the last with its index, with the price that
/// `offered` has for it.
pub open spec fn is_offer(pair: (NftItem, u32), offered: Map<u32, u32>, items: Seq<NftItem>) -> bool {
    exists|at: int| #[trigger] pairs_with(pair, offered, items, at)
}

/// Some pair of `pairs` has the index `index`.
pub open spec fn has_index(pairs: Seq<(NftItem, u32)>, index: u32) -> bool {
    exists|k: int| 0 <= k < pairs.len() && (#[trigger] pairs[k]).0.index == index
}

/// `pairs` are the exclusives on offer: one pair for each index that is
/// both offered and listed, in ascending order of index, each made of the
/// last listed item with that index and the price offered for it.
pub open spec fn is_exclusives(
    pairs: Seq<(NftItem, u32)>,
    offered: Map<u32, u32>,
    items: Seq<NftItem>,
) -> bool {
    &&& forall|a: int, b: int|
        0 <= a < b < pairs.len() ==> (#[trigger] pairs[a]).0.index < (#[trigger] pairs[b]).0.index
    &&& forall|k: int| 0 <= k < pairs.len() ==> is_offer(#[trigger] pairs[k], offered, items)
    &&& forall|j: int|
        0 <= j < items.len() && offered.contains_key((#[trigger] items[j]).index) ==> has_index(
            pairs,
            items[j].index,
        )
}

/// Index `index` is above the floor: above the last index that was taken.
pub open spec fn above(floor: Option<u32>, index: u32) -> bool {
    match floor {
        Some(floor) => index > floor,
        None => true,
    }
}

/// Finds the last item with the lowest index that is offered and above
/// `floor`.
fn next_exclusive(offered: &HashMap<u32, u32>, items: &Vec<NftItem>, floor: Option<u32>) -> (best:
    Option<usize>)
    ensures
        match best {
            Some(at) => {
                &&& is_last_with_index(items@, at as int)
                &&& offered@.contains_key(items@[at as int].index)
                &&& above(floor, items@[at as int].index)
                &&& forall|j: int|
                    0 <= j < items@.len() && offered@.contains_key((#[trigger] items@[j]).index)
                        && above(floor, items@[j].index) ==> items@[at as int].index
                        <= items@[j].index
            },
            None => forall|j: int|
                0 <= j < items@.len() && offered@.contains_key((#[trigger] items@[j]).index)
                    ==> !above(floor, items@[j].index),
        },
{
    broadcast use vstd::std_specs::hash::group_hash_axioms;

    let mut best: Option<usize> = None;
    let mut j: usize = 0;
    while j < items.len()
        invariant
            j <= items.len(),
            match best {
                Some(at) => {
                    &&& at < j
                    &&& offered@.contains_key(items@[at as int].index)
                    &&& above(floor, items@[at as int].index)
                    &&& forall|k: int|
                        at < k < j ==> (#[trigger] items@[k]).index != items@[at as int].index
                    &&& forall|k: int|
                        0 <= k < j && offered@.contains_key((#[trigger] items@[k]).index) && above(
                            floor,
                            items@[k].index,
                        ) ==> items@[at as int].index <= items@[k].index
                },
                None => forall|k: int|
                    0 <= k < j && offered@.contains_key((#[trigger] items@[k]).index) ==> !above(
                        floor,
                        items@[k].index,
                    ),
            },
        decreases items.len() - j,
    {
        let index = items[j].index;
        let is_above = match floor {
            Some(floor) => index > floor,
            None => true,
        };
        if is_above && offered.contains_key(&index) {
            let better = match best {
                Some(at) => index <= items[at].index,
                None => true,
            };
            if better {
                best = Some(j);
            }
        }
        j += 1;
    }
    best
}

/// Pairs the listed items with the prices offered for them.
///
/// The result holds one pair for each index that is both offered and
/// listed, in ascending order of index. Where several listed items share an
/// index, the last of them is taken.
pub fn join_exclusives(offered: &HashMap<u32, u32>, items: &Vec<NftItem>) -> (pairs: Vec<
    (NftItem, u32),
>)
    ensures
        is_exclusives(pairs@, offered@, items@),
{
    broadcast use vstd::std_specs::hash::group_hash_axioms;

    let mut pairs: Vec<(NftItem, u32)> = Vec::new();
    let mut floor: Option<u32> = None;
    loop
        invariant
            forall|a: int, b: int|
                0 <= a < b < pairs@.len() ==> (#[trigger] pairs@[a]).0.index < (
                #[trigger] pairs@[b]).0.index,
            forall|k: int| 0 <= k < pairs@.len() ==> is_offer(#[trigger] pairs@[k], offered@, items@),
            forall|k: int| 0 <= k < pairs@.len() ==> !above(floor, (#[trigger] pairs@[k]).0.index),
            forall|j: int|
                0 <= j < items@.len() && offered@.contains_key((#[trigger] items@[j]).index)
                    && !above(floor, items@[j].index) ==> has_index(pairs@, items@[j].index),
            floor is None ==> pairs@.len() == 0,
        ensures
            is_exclusives(pairs@, offered@, items@),
        decreases
                match floor {
                    Some(floor) => u32::MAX - floor,
                    None => u32::MAX + 1,
                },
    {
        let at = match next_exclusive(offered, items, floor) {
            Some(at) => at,
            None => {
                break ;
            },
        };
        let item = &items[at];
        let price = match offered.get(&item.index) {
            Some(price) => *price,
            None => {
                proof {
                    assert(false);
                }
                0
            },
        };
        let pair = (
            NftItem {
                index: item.index,
                name: item.name.clone(),
                description: item.description.clone(),
            },
            price,
        );
        let ghost earlier = pairs@;
        let ghost old_floor = floor;
        proof {
            assert(pairs_with(pair, offered@, items@, at as int));
        }
        pairs.push(pair);
        floor = Some(item.index);
        proof {
            assert forall|k: int| 0 <= k < pairs@.len() implies is_offer(
                #[trigger] pairs@[k],
                offered@,
                items@,
            ) by {
                if k < earlier.len() {
                    assert(pairs@[k] == earlier[k]);
                }
            }
            assert forall|a: int, b: int| 0 <= a < b < pairs@.len() implies (#[trigger] pairs@[a]).0.index
                < (#[trigger] pairs@[b]).0.index by {
                if b < earlier.len() {
                    assert(pairs@[a] == earlier[a] && pairs@[b] == earlier[b]);
                } else {
                    assert(pairs@[a] == earlier[a]);
                    assert(!above(old_floor, earlier[a].0.index));
                }
            }
            assert forall|k: int| 0 <= k < pairs@.len() implies !above(
                floor,
                (#[trigger] pairs@[k]).0.index,
            ) by {
                if k < earlier.len() {
                    assert(pairs@[k] == earlier[k]);
                    assert(!above(old_floor, earlier[k].0.index));
                }
            }
            assert forall|j: int|
                0 <= j < items@.len() && offered@.contains_key((#[trigger] items@[j]).index)
                    && !above(floor, items@[j].index) implies has_index(pairs@, items@[j].index) by {
                if above(old_floor, items@[j].index) {
                    let k = earlier.len() as int;
                    assert(pairs@[k].0.index == items@[j].index);
                } else {
                    assert(has_index(earlier, items@[j].index));
                    let k = choose|k: int|
                        0 <= k < earlier.len() && (#[trigger] earlier[k]).0.index == items@[j].index;
                    assert(pairs@[k] == earlier[k]);
                }
            }
        }
    }
    pairs
}

} // verus!
