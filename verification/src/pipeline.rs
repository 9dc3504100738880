//! The steps of one render request.
//!
//! A request first asks the cache. A hit is streamed to the caller and
//! nothing else is done. On a miss the DNA is taken from the request or
//! fetched from the chain, decoded, and painted; the image goes to the
//! caller and, without the caller waiting for it, to the cache.
//!
//! Nothing here looks anything up, fetches or paints. [`Pipeline::start`] and
//! [`Pipeline::advance`] say what to do; the caller does it and reports what
//! came of it.

use vstd::prelude::*;
use crate::cell::boc_dna;
use crate::dna::{bits_rows, bytes_bits, is_flat_text, Dna, DnaError};
use crate::encoding::base64_bytes;
use crate::palette::Palette;
use crate::render::{bytes_view, rasterize, rendered, UPSCALE};
use crate::storage::Path;

verus! {

/// Where the DNA of a request comes from.
#[derive(Debug)]
pub enum DnaSource {
    /// The request carries the flat encoding.
    Flat(String),
    /// The DNA is the one of the item with this index, on the chain.
    OnChain { item_index: u32 },
}

/// How far a request has come.
#[derive(Debug, Clone, Copy, PartialEq, Eq)]
pub enum Phase {
    /// The cache was asked.
    CacheCheck,
    /// The DNA was asked for.
    FetchDna,
    /// The image is being painted.
    Rasterize,
    /// The caller was answered.
    Done,
}

/// The kinds of answer that a caller gets instead of an image.
#[derive(Debug, Clone, Copy, PartialEq, Eq)]
pub enum Status {
    /// Try later: the viewer service is over capacity.
    TooManyRequests,
    /// The DNA could not be fetched or decoded, or the image not painted.
    InternalError,
    /// The cache could not be asked.
    ServiceUnavailable,
}

/// What the caller reports.
#[derive(Debug)]
pub enum Event {
    /// The cache holds the image.
    CacheHit,
    /// The cache does not hold the image.
    CacheMiss,
    /// The cache failed.
    CacheFailed,
    /// The viewer service answered with this serialized DNA cell.
    DnaFetched(String),
    /// The viewer client refused, or the service stayed over capacity.
    FetchOverCapacity,
    /// The DNA could not be fetched.
    FetchFailed,
    /// The image was painted.
    Rendered(Vec<u8>),
    /// The image could not be painted.
    RenderFailed,
}

/// What the caller is to do.
#[derive(Debug)]
pub enum Action {
    /// Ask the cache for the blob under `key` and report `CacheHit`,
    /// `CacheMiss` or `CacheFailed`.
    CheckCache { key: Path },
    /// Stream the blob that the cache holds to the caller.
    StreamCached,
    /// Fetch the DNA of the item and report `DnaFetched`,
    /// `FetchOverCapacity` or `FetchFailed`.
    FetchDna { item_index: u32 },
    /// Paint the grid and report `Rendered` or `RenderFailed`.
    Rasterize { dna: Dna },
    /// Send the image to the caller.
    Respond { png: Vec<u8> },
    /// Store the image in the cache under `key`, in the background; nothing
    /// waits for it and nothing is reported.
    Persist { key: Path, png: Vec<u8> },
    /// Answer the caller with `status`.
    Reject { status: Status },
}

/// An event as plain values.
pub enum EventView {
    CacheHit,
    CacheMiss,
    CacheFailed,
    DnaFetched(Seq<char>),
    FetchOverCapacity,
    FetchFailed,
    Rendered(Seq<u8>),
    RenderFailed,
}

/// An action as plain values.
pub enum ActionView {
    CheckCache(Seq<char>),
    StreamCached,
    FetchDna(u32),
    Rasterize(Seq<bool>),
    Respond(Seq<u8>),
    Persist(Seq<char>, Seq<u8>),
    Reject(Status),
}

/// A source as plain values.
pub enum SourceView {
    Flat(Seq<char>),
    OnChain(u32),
}

impl View for Event {
    type V = EventView;

    open spec fn view(&self) -> EventView {
        match self {
            Event::CacheHit => EventView::CacheHit,
            Event::CacheMiss => EventView::CacheMiss,
            Event::CacheFailed => EventView::CacheFailed,
            Event::DnaFetched(text) => EventView::DnaFetched(text@),
            Event::FetchOverCapacity => EventView::FetchOverCapacity,
            Event::FetchFailed => EventView::FetchFailed,
            Event::Rendered(png) => EventView::Rendered(png@),
            Event::RenderFailed => EventView::RenderFailed,
        }
    }
}

impl View for Action {
    type V = ActionView;

    open spec fn view(&self) -> ActionView {
        match self {
            Action::CheckCache { key } => ActionView::CheckCache(key@),
            Action::StreamCached => ActionView::StreamCached,
            Action::FetchDna { item_index } => ActionView::FetchDna(*item_index),
            Action::Rasterize { dna } => ActionView::Rasterize(dna@),
            Action::Respond { png } => ActionView::Respond(png@),
            Action::Persist { key, png } => ActionView::Persist(key@, png@),
            Action::Reject { status } => ActionView::Reject(*status),
        }
    }
}

impl View for DnaSource {
    type V = SourceView;

    open spec fn view(&self) -> SourceView {
        match self {
            DnaSource::Flat(text) => SourceView::Flat(text@),
            DnaSource::OnChain { item_index } => SourceView::OnChain(*item_index),
        }
    }
}

/// What a request is made of, as plain values.
pub struct RenderRequest {
    pub source: SourceView,
    pub key: Seq<char>,
    /// A cache is there to ask and to store in.
    pub caching: bool,
}

/// What decoding the flat encoding `text` gives.
pub open spec fn flat_dna(text: Seq<char>) -> Result<Seq<bool>, DnaError> {
    if is_flat_text(text) {
        Ok(bytes_bits(base64_bytes(text).unwrap()))
    } else {
        Err(DnaError::MalformedInput)
    }
}

/// What follows the decoding of the DNA: painting, or an internal error.
pub open spec fn after_decode(decoded: Result<Seq<bool>, DnaError>) -> (Phase, Seq<ActionView>) {
    match decoded {
        Ok(bits) => (Phase::Rasterize, seq![ActionView::Rasterize(bits)]),
        Err(_) => (Phase::Done, seq![ActionView::Reject(Status::InternalError)]),
    }
}

/// What follows when the cache does not hold the image: the DNA is fetched,
/// or decoded if the request carries it.
pub open spec fn after_miss(request: RenderRequest) -> (Phase, Seq<ActionView>) {
    match request.source {
        SourceView::OnChain(item_index) => (
            Phase::FetchDna,
            seq![ActionView::FetchDna(item_index)],
        ),
        SourceView::Flat(text) => after_decode(flat_dna(text)),
    }
}

/// The first step of a request: the cache is asked; without a cache the
/// request goes on as after a miss.
pub open spec fn first_step(request: RenderRequest) -> (Phase, Seq<ActionView>) {
    if request.caching {
        (Phase::CacheCheck, seq![ActionView::CheckCache(request.key)])
    } else {
        after_miss(request)
    }
}

/// The step that `event` causes in phase `phase`: the next phase and what
/// is to be done. An event that the phase does not wait for causes nothing.
pub open spec fn transition(request: RenderRequest, phase: Phase, event: EventView) -> (
    Phase,
    Seq<ActionView>,
) {
    match (phase, event) {
        (Phase::CacheCheck, EventView::CacheHit) => (Phase::Done, seq![ActionView::StreamCached]),
        (Phase::CacheCheck, EventView::CacheFailed) => (
            Phase::Done,
            seq![ActionView::Reject(Status::ServiceUnavailable)],
        ),
        (Phase::CacheCheck, EventView::CacheMiss) => after_miss(request),
        (Phase::FetchDna, EventView::DnaFetched(text)) => after_decode(boc_dna(text)),
        (Phase::FetchDna, EventView::FetchOverCapacity) => (
            Phase::Done,
            seq![ActionView::Reject(Status::TooManyRequests)],
        ),
        (Phase::FetchDna, EventView::FetchFailed) => (
            Phase::Done,
            seq![ActionView::Reject(Status::InternalError)],
        ),
        (Phase::Rasterize, EventView::Rendered(png)) => (
            Phase::Done,
            if request.caching {
                seq![ActionView::Respond(png), ActionView::Persist(request.key, png)]
            } else {
                seq![ActionView::Respond(png)]
            },
        ),
        (Phase::Rasterize, EventView::RenderFailed) => (
            Phase::Done,
            seq![ActionView::Reject(Status::InternalError)],
        ),
        _ => (phase, Seq::empty()),
    }
}

/// Everything that is to be done, in order, when `events` are reported one
/// after the other from phase `phase` on.
pub open spec fn trace(request: RenderRequest, phase: Phase, events: Seq<EventView>) -> Seq<ActionView>
    decreases events.len(),
{
    if events.len() == 0 {
        Seq::empty()
    } else {
        let (next, actions) = transition(request, phase, events[0]);
        actions + trace(request, next, events.drop_first())
    }
}

/// Everything that is to be done for a request, from its first step on.
pub open spec fn run(request: RenderRequest, events: Seq<EventView>) -> Seq<ActionView> {
    let (phase, actions) = first_step(request);
    actions + trace(request, phase, events)
}

/// The kinds of action that a request makes at most once.
pub enum Work {
    /// Fetching the DNA.
    Fetch,
    /// Painting the image.
    Paint,
    /// Storing the image in the cache.
    Store,
}

/// `action` is work of the kind `work`.
pub open spec fn is_work(action: ActionView, work: Work) -> bool {
    match work {
        Work::Fetch => action is FetchDna,
        Work::Paint => action is Rasterize,
        Work::Store => action is Persist,
    }
}

/// The number of actions in `actions` that are work of the kind `work`.
pub open spec fn count(actions: Seq<ActionView>, work: Work) -> nat
    decreases actions.len(),
{
    if actions.len() == 0 {
        0
    } else {
        count(actions.drop_last(), work) + if is_work(actions.last(), work) {
            1nat
        } else {
            0nat
        }
    }
}

/// The number of times that work of the kind `work` can still be asked for
/// from phase `phase` on.
pub open spec fn budget(phase: Phase, work: Work) -> nat {
    match (work, phase) {
        (Work::Fetch, Phase::CacheCheck) => 1,
        (Work::Paint, Phase::CacheCheck) => 1,
        (Work::Paint, Phase::FetchDna) => 1,
        (Work::Store, Phase::Done) => 0,
        (Work::Store, _) => 1,
        _ => 0,
    }
}

/// Counting goes through concatenation.
pub proof fn lemma_count_add(first: Seq<ActionView>, second: Seq<ActionView>, work: Work)
    ensures
        count(first + second, work) == count(first, work) + count(second, work),
    decreases second.len(),
{
    if second.len() == 0 {
        assert(first + second =~= first);
    } else {
        assert((first + second).drop_last() =~= first + second.drop_last());
        lemma_count_add(first, second.drop_last(), work);
    }
}

/// A step uses up what it asks for: the work it asks for and the work that
/// can be asked for after it are within what could be asked for before it.
pub proof fn lemma_step_budget(result: (Phase, Seq<ActionView>), phase: Phase, work: Work)
    requires
        result.1.len() <= 2,
        result.1.len() == 2 ==> result.0 == Phase::Done && !is_work(result.1[0], work),
        forall|i: int|
            0 <= i < result.1.len() && is_work(#[trigger] result.1[i], work) ==> budget(
                phase,
                work,
            ) == 1 && budget(result.0, work) == 0,
        budget(result.0, work) <= budget(phase, work),
    ensures
        count(result.1, work) + budget(result.0, work) <= budget(phase, work),
{
    reveal_with_fuel(count, 3);
    let actions = result.1;
    if actions.len() == 1 {
        assert(actions.drop_last().len() == 0);
    } else if actions.len() == 2 {
        assert(actions.drop_last().drop_last().len() == 0);
        assert(actions.drop_last().last() == actions[0]);
    }
}

/// The step that an event causes keeps within the budget.
pub proof fn lemma_transition_budget(request: RenderRequest, phase: Phase, event: EventView, work: Work)
    ensures
        count(transition(request, phase, event).1, work) + budget(
            transition(request, phase, event).0,
            work,
        ) <= budget(phase, work),
{
    lemma_step_budget(transition(request, phase, event), phase, work);
}

/// From any phase on, no kind of work is asked for more often than the
/// phase's budget allows.
pub proof fn lemma_trace_budget(request: RenderRequest, phase: Phase, events: Seq<EventView>, work: Work)
    ensures
        count(trace(request, phase, events), work) <= budget(phase, work),
    decreases events.len(),
{
    if events.len() > 0 {
        let (next, actions) = transition(request, phase, events[0]);
        lemma_transition_budget(request, phase, events[0], work);
        lemma_trace_budget(request, next, events.drop_first(), work);
        lemma_count_add(actions, trace(request, next, events.drop_first()), work);
    }
}

/// Whatever is reported, and in whatever order, a request fetches the DNA
/// at most once, paints at most once and stores in the cache at most once.
pub proof fn law_work_at_most_once(request: RenderRequest, events: Seq<EventView>, work: Work)
    ensures
        count(run(request, events), work) <= 1,
{
    let (phase, actions) = first_step(request);
    lemma_trace_budget(request, phase, events, work);
    lemma_count_add(actions, trace(request, phase, events), work);
    if request.caching {
        lemma_step_budget((phase, actions), Phase::CacheCheck, work);
    } else {
        lemma_transition_budget(request, Phase::CacheCheck, EventView::CacheMiss, work);
    }
}

/// Once the caller was answered nothing more is done.
pub proof fn lemma_done(request: RenderRequest, events: Seq<EventView>)
    ensures
        trace(request, Phase::Done, events) == Seq::<ActionView>::empty(),
    decreases events.len(),
{
    if events.len() > 0 {
        lemma_done(request, events.drop_first());
        assert(Seq::<ActionView>::empty() + Seq::<ActionView>::empty() =~= Seq::<
            ActionView,
        >::empty());
    }
}

/// On a cache hit the cached image is streamed and nothing else is ever
/// done: no DNA is fetched and nothing is painted or stored.
pub proof fn law_cache_hit(request: RenderRequest, later: Seq<EventView>)
    requires
        request.caching,
    ensures
        run(request, seq![EventView::CacheHit] + later) == seq![
            ActionView::CheckCache(request.key),
            ActionView::StreamCached,
        ],
{
    let events = seq![EventView::CacheHit] + later;
    assert(events.drop_first() =~= later);
    lemma_done(request, later);
    assert(run(request, events) =~= seq![
        ActionView::CheckCache(request.key),
        ActionView::StreamCached,
    ]);
}

/// On a cache miss for an item on the chain, the DNA is fetched once and
/// painted once, the image is sent to the caller, and one store in the
/// cache is started after the answer; nothing waits for the store and
/// nothing more is done.
pub proof fn law_cache_miss(
    request: RenderRequest,
    item_index: u32,
    boc: Seq<char>,
    png: Seq<u8>,
    later: Seq<EventView>,
)
    requires
        request.caching,
        request.source == SourceView::OnChain(item_index),
        boc_dna(boc).is_ok(),
    ensures
        run(
            request,
            seq![EventView::CacheMiss, EventView::DnaFetched(boc), EventView::Rendered(png)]
                + later,
        ) == seq![
            ActionView::CheckCache(request.key),
            ActionView::FetchDna(item_index),
            ActionView::Rasterize(boc_dna(boc).unwrap()),
            ActionView::Respond(png),
            ActionView::Persist(request.key, png),
        ],
{
    let events = seq![EventView::CacheMiss, EventView::DnaFetched(boc), EventView::Rendered(png)]
        + later;
    let second = events.drop_first();
    let third = second.drop_first();
    assert(third.drop_first() =~= later);
    lemma_done(request, later);
    assert(trace(request, Phase::Rasterize, third) =~= seq![
        ActionView::Respond(png),
        ActionView::Persist(request.key, png),
    ]);
    assert(trace(request, Phase::FetchDna, second) =~= seq![
        ActionView::Rasterize(boc_dna(boc).unwrap()),
        ActionView::Respond(png),
        ActionView::Persist(request.key, png),
    ]);
    assert(run(request, events) =~= seq![
        ActionView::CheckCache(request.key),
        ActionView::FetchDna(item_index),
        ActionView::Rasterize(boc_dna(boc).unwrap()),
        ActionView::Respond(png),
        ActionView::Persist(request.key, png),
    ]);
}

/// The views of a list of actions.
pub open spec fn actions_view(actions: Seq<Action>) -> Seq<ActionView> {
    Seq::new(actions.len(), |i: int| actions[i]@)
}

/// One render request on its way.
#[derive(Debug)]
pub struct Pipeline {
    source: DnaSource,
    key: Path,
    caching: bool,
    phase: Phase,
}

/// The status by which the blob store says that it holds nothing under a
/// key.
pub const NOT_FOUND: u16 = 404;

/// What a lookup in the cache means: a hit where a blob was found, a miss
/// where the store answered that it holds none, and a failure of the cache
/// otherwise.
pub open spec fn cache_outcome(found: bool, status: Option<u16>) -> EventView {
    if found {
        EventView::CacheHit
    } else if status == Some(NOT_FOUND) {
        EventView::CacheMiss
    } else {
        EventView::CacheFailed
    }
}

/// The event to report after a lookup in the cache: `found` says whether
/// the store gave a blob, `status` is the status of its answer where it
/// gave none and answered at all.
pub fn cache_event(found: bool, status: Option<u16>) -> (event: Event)
    ensures
        event@ == cache_outcome(found, status),
{
    if found {
        return Event::CacheHit;
    }
    match status {
        Some(code) => if code == NOT_FOUND {
            Event::CacheMiss
        } else {
            Event::CacheFailed
        },
        None => Event::CacheFailed,
    }
}

impl Pipeline {
    /// What the request is made of.
    pub closed spec fn request(&self) -> RenderRequest {
        RenderRequest { source: self.source@, key: self.key@, caching: self.caching }
    }

    /// How far the request has come.
    pub closed spec fn phase(&self) -> Phase {
        self.phase
    }

    /// Starts a request for the image under `key`, with or without a cache,
    /// and says what to do first.
    pub fn start(source: DnaSource, key: Path, caching: bool) -> (out: (Pipeline, Vec<Action>))
        ensures
            out.0.request() == (RenderRequest { source: source@, key: key@, caching }),
            (out.0.phase(), actions_view(out.1@)) == first_step(out.0.request()),
    {
        let mut pipeline = Pipeline { source, key, caching, phase: Phase::CacheCheck };
        let actions = if caching {
            let mut actions: Vec<Action> = Vec::new();
            actions.push(Action::CheckCache { key: pipeline.key.duplicate() });
            assert(actions_view(actions@) =~= seq![ActionView::CheckCache(pipeline.key@)]);
            actions
        } else {
            pipeline.miss()
        };
        (pipeline, actions)
    }

    /// The phase that the request is in.
    pub fn current_phase(&self) -> (phase: Phase)
        ensures
            phase == self.phase(),
    {
        self.phase
    }

    /// Goes on after the cache did not hold the image.
    fn miss(&mut self) -> (actions: Vec<Action>)
        ensures
            final(self).request() == old(self).request(),
            (final(self).phase(), actions_view(actions@)) == after_miss(old(self).request()),
    {
        match &self.source {
            DnaSource::OnChain { item_index } => {
                let mut actions: Vec<Action> = Vec::new();
                actions.push(Action::FetchDna { item_index: *item_index });
                self.phase = Phase::FetchDna;
                assert(actions_view(actions@) =~= seq![ActionView::FetchDna(*item_index)]);
                actions
            },
            DnaSource::Flat(text) => {
                let decoded = match Dna::from_base64(text.as_str()) {
                    Some(dna) => Ok(dna),
                    None => Err(DnaError::MalformedInput),
                };
                self.decoded(decoded)
            },
        }
    }

    /// Goes on after the DNA was decoded, or was not.
    fn decoded(&mut self, decoded: Result<Dna, DnaError>) -> (actions: Vec<Action>)
        ensures
            final(self).request() == old(self).request(),
            (final(self).phase(), actions_view(actions@)) == after_decode(
                match decoded {
                    Ok(dna) => Ok(dna@),
                    Err(error) => Err(error),
                },
            ),
    {
        let mut actions: Vec<Action> = Vec::new();
        match decoded {
            Ok(dna) => {
                let ghost bits = dna@;
                actions.push(Action::Rasterize { dna });
                self.phase = Phase::Rasterize;
                assert(actions_view(actions@) =~= seq![ActionView::Rasterize(bits)]);
            },
            Err(_) => {
                actions.push(Action::Reject { status: Status::InternalError });
                self.phase = Phase::Done;
                assert(actions_view(actions@) =~= seq![
                    ActionView::Reject(Status::InternalError),
                ]);
            },
        }
        actions
    }

    /// Ends the request with `action`.
    fn finish(&mut self, action: Action) -> (actions: Vec<Action>)
        ensures
            final(self).request() == old(self).request(),
            final(self).phase() == Phase::Done,
            actions_view(actions@) == seq![action@],
    {
        let mut actions: Vec<Action> = Vec::new();
        actions.push(action);
        self.phase = Phase::Done;
        assert(actions_view(actions@) =~= seq![action@]);
        actions
    }

    /// Takes what the caller reports and says what to do next, by
    /// [`transition`].
    pub fn advance(&mut self, event: Event) -> (actions: Vec<Action>)
        ensures
            final(self).request() == old(self).request(),
            (final(self).phase(), actions_view(actions@)) == transition(
                old(self).request(),
                old(self).phase(),
                event@,
            ),
    {
        match (self.phase, event) {
            (Phase::CacheCheck, Event::CacheHit) => self.finish(Action::StreamCached),
            (Phase::CacheCheck, Event::CacheFailed) => self.finish(
                Action::Reject { status: Status::ServiceUnavailable },
            ),
            (Phase::CacheCheck, Event::CacheMiss) => self.miss(),
            (Phase::FetchDna, Event::DnaFetched(text)) => {
                let decoded = Dna::from_boc(text.as_str());
                self.decoded(decoded)
            },
            (Phase::FetchDna, Event::FetchOverCapacity) => self.finish(
                Action::Reject { status: Status::TooManyRequests },
            ),
            (Phase::FetchDna, Event::FetchFailed) => self.finish(
                Action::Reject { status: Status::InternalError },
            ),
            (Phase::Rasterize, Event::Rendered(png)) => {
                let mut actions: Vec<Action> = Vec::new();
                if self.caching {
                    let copy = png.clone();
                    let key = self.key.duplicate();
                    actions.push(Action::Respond { png });
                    actions.push(Action::Persist { key, png: copy });
                    assert(actions_view(actions@) =~= seq![
                        ActionView::Respond(png@),
                        ActionView::Persist(self.key@, png@),
                    ]);
                } else {
                    actions.push(Action::Respond { png });
                    assert(actions_view(actions@) =~= seq![ActionView::Respond(png@)]);
                }
                self.phase = Phase::Done;
                actions
            },
            (Phase::Rasterize, Event::RenderFailed) => self.finish(
                Action::Reject { status: Status::InternalError },
            ),
            _ => {
                let actions: Vec<Action> = Vec::new();
                assert(actions_view(actions@) =~= Seq::<ActionView>::empty());
                actions
            },
        }
    }
}

/// Paints a grid as the image that is served: a PNG file at scale 10;
/// `None` where the encoder refuses the image.
pub fn render(dna: Dna, palette: &Palette) -> (png: Option<Vec<u8>>)
    ensures
        bytes_view(png) == rendered(palette@, bits_rows(dna@), UPSCALE as int),
{
    let rows = dna.to_data();
    rasterize(&rows, UPSCALE, palette)
}

} // verus!
