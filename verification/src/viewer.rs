//! The client of the viewer service: one queue, one request at a time.
//!
//! The client holds at most `QUEUE_CAPACITY` jobs, the one in flight
//! included, and turns away what comes beyond that. A worker takes the
//! jobs in the order in which they came. A reply that says the service is
//! over capacity is answered by waiting and asking again, up to
//! `MAX_RETRIES` times.
//!
//! Nothing here sends or waits. [`Viewer::next_request`] says what to send,
//! [`Viewer::on_attempt`] takes what came back and says what to do next; the
//! caller does it.

use vstd::prelude::*;
use vstd::string::*;
use crate::task::{
    is_rate_limited, page_fits, params_view, task_params, Envelope, HttpMethod, Request, Task,
    UpstreamReason,
};

verus! {

/// Jobs that the client holds at most, the one in flight included.
pub const QUEUE_CAPACITY: usize = 10;

/// Times that a request is sent again after the service said it is over
/// capacity.
pub const MAX_RETRIES: u32 = 3;

/// Seconds to wait before a request is sent again.
pub const RETRY_WAIT_SECS: u64 = 1;

/// What the client itself refuses with.
#[derive(Debug, Clone, Copy, PartialEq, Eq)]
pub enum ViewerError {
    /// The queue is full, or the service stayed over capacity through every
    /// retry.
    OverCapacity,
}

/// A reply that could not be used, with its text.
#[derive(Debug)]
pub struct UpstreamError {
    pub reason: UpstreamReason,
    pub response: String,
}

/// Why a job failed.
#[derive(Debug)]
pub enum ViewerFailure {
    /// Try later.
    Viewer(ViewerError),
    /// The service's reply is at fault; not retried.
    Upstream(UpstreamError),
}

/// A reply that can be read, with its text.
#[derive(Debug)]
pub struct Reply {
    pub envelope: Envelope,
    pub response: String,
}

/// What one sending of a request ended in.
#[derive(Debug)]
pub enum Attempt {
    /// A reply came and has the form of an answer.
    Replied(Reply),
    /// No usable reply came.
    Failed(UpstreamError),
}

/// A query and the channel on which its one answer is to be delivered.
#[derive(Debug)]
pub struct Job<C> {
    pub task: Task,
    pub callback: C,
}

/// What the worker does after an attempt.
#[derive(Debug)]
pub enum Step<C> {
    /// Wait, then send the same request again.
    Retry { wait_secs: u64 },
    /// Hand the result to the job's channel; the job is done.
    Deliver { callback: C, result: Result<Reply, ViewerFailure> },
}

/// The kinds of end that an attempt can have.
pub enum AttemptKind {
    Answered,
    RateLimited,
    Failed,
}

/// The decisions that can follow an attempt.
pub enum Decision {
    /// Deliver the reply.
    Deliver,
    /// Wait `RETRY_WAIT_SECS` and send again.
    Retry,
    /// Deliver `OverCapacity`.
    GiveUp,
    /// Deliver the failure.
    Fail,
}

/// The kind of end that `attempt` is.
pub open spec fn kind_of(attempt: Attempt) -> AttemptKind {
    match attempt {
        Attempt::Replied(reply) => if is_rate_limited(reply.envelope) {
            AttemptKind::RateLimited
        } else {
            AttemptKind::Answered
        },
        Attempt::Failed(_) => AttemptKind::Failed,
    }
}

/// The retry policy: what follows an attempt of kind `kind` on a request
/// that was sent again `retries` times already.
pub open spec fn decide(retries: nat, kind: AttemptKind) -> Decision {
    match kind {
        AttemptKind::Answered => Decision::Deliver,
        AttemptKind::Failed => Decision::Fail,
        AttemptKind::RateLimited => if retries < MAX_RETRIES {
            Decision::Retry
        } else {
            Decision::GiveUp
        },
    }
}

/// How a job ends, and after how many waits.
pub enum Outcome {
    /// The reply was delivered.
    Delivered { waits: nat },
    /// `OverCapacity` was delivered.
    OverCapacity { waits: nat },
    /// The failure was delivered.
    Failed { waits: nat },
    /// The job is still in flight.
    Pending { waits: nat },
}

/// How a job ends whose attempts end in `kinds`, one after the other, when
/// `retries` of them were made before.
pub open spec fn outcome(kinds: Seq<AttemptKind>, retries: nat) -> Outcome
    decreases kinds.len(),
{
    if kinds.len() == 0 {
        Outcome::Pending { waits: retries }
    } else {
        match decide(retries, kinds[0]) {
            Decision::Deliver => Outcome::Delivered { waits: retries },
            Decision::Fail => Outcome::Failed { waits: retries },
            Decision::GiveUp => Outcome::OverCapacity { waits: retries },
            Decision::Retry => outcome(kinds.drop_first(), retries + 1),
        }
    }
}

/// `count` attempts that all end in `RateLimited`.
pub open spec fn rate_limited_run(count: nat) -> Seq<AttemptKind> {
    Seq::new(count, |i: int| AttemptKind::RateLimited)
}

/// Up to `MAX_RETRIES` rate-limited replies followed by an answer end in
/// the answer, after one wait for each rate-limited reply.
pub proof fn law_retry_then_answer(count: nat, later: Seq<AttemptKind>)
    requires
        count <= MAX_RETRIES,
    ensures
        outcome(rate_limited_run(count) + seq![AttemptKind::Answered] + later, 0)
            == (Outcome::Delivered { waits: count }),
{
    lemma_retry_run(count, seq![AttemptKind::Answered] + later, 0);
    assert(rate_limited_run(count) + (seq![AttemptKind::Answered] + later) =~= rate_limited_run(
        count,
    ) + seq![AttemptKind::Answered] + later);
}

/// One rate-limited reply more than `MAX_RETRIES` ends in `OverCapacity`,
/// after `MAX_RETRIES` waits, whatever would have come later.
pub proof fn law_retries_run_out(later: Seq<AttemptKind>)
    ensures
        outcome(rate_limited_run(MAX_RETRIES as nat + 1) + later, 0) == (Outcome::OverCapacity {
            waits: MAX_RETRIES as nat,
        }),
{
    let rest = seq![AttemptKind::RateLimited] + later;
    lemma_retry_run(MAX_RETRIES as nat, rest, 0);
    assert(rate_limited_run(MAX_RETRIES as nat) + rest =~= rate_limited_run(MAX_RETRIES as nat + 1)
        + later);
}

/// Rate-limited replies within the limit are each answered by one retry.
pub proof fn lemma_retry_run(count: nat, later: Seq<AttemptKind>, retries: nat)
    requires
        retries + count <= MAX_RETRIES,
    ensures
        outcome(rate_limited_run(count) + later, retries) == outcome(later, retries + count),
    decreases count,
{
    let all = rate_limited_run(count) + later;
    if count == 0 {
        assert(all =~= later);
    } else {
        let shorter = rate_limited_run((count - 1) as nat) + later;
        assert(all.drop_first() =~= shorter);
        lemma_retry_run((count - 1) as nat, later, retries + 1);
    }
}

/// The client's state.
pub struct Viewer<C> {
    api_url: String,
    api_key: Option<String>,
    /// The jobs held, oldest first; while `busy`, the first is in flight.
    jobs: Vec<Job<C>>,
    busy: bool,
    /// Times that the job in flight was sent again.
    retries: u32,
}

impl<C> Viewer<C> {
    /// The state is one that the client can be in: at most
    /// `QUEUE_CAPACITY` jobs are held, a job in flight is held, and retries
    /// are counted only for it and only up to `MAX_RETRIES`.
    pub closed spec fn wf(&self) -> bool {
        &&& self.jobs@.len() <= QUEUE_CAPACITY
        &&& self.busy ==> self.jobs@.len() > 0
        &&& self.retries <= MAX_RETRIES
        &&& !self.busy ==> self.retries == 0
        &&& forall|i: int| 0 <= i < self.jobs@.len() ==> page_fits((#[trigger] self.jobs@[i]).task)
    }

    /// The jobs held, oldest first; while a job is in flight it is the
    /// first.
    pub closed spec fn queue(&self) -> Seq<Job<C>> {
        self.jobs@
    }

    /// A job is in flight.
    pub closed spec fn in_flight(&self) -> bool {
        self.busy
    }

    /// Times that the job in flight was sent again.
    pub closed spec fn retries_made(&self) -> nat {
        self.retries as nat
    }

    /// The address of the service.
    pub closed spec fn url(&self) -> Seq<char> {
        self.api_url@
    }

    /// A client of the service at `api_url` that holds no job.
    pub fn new(api_url: String, api_key: Option<String>) -> (viewer: Self)
        ensures
            viewer.wf(),
            viewer.queue().len() == 0,
            !viewer.in_flight(),
            viewer.retries_made() == 0,
            viewer.url() == api_url@ && viewer.key() == api_key,
    {
        Viewer { api_url, api_key, jobs: Vec::new(), busy: false, retries: 0 }
    }

    /// The number of jobs held, the one in flight included.
    pub fn outstanding(&self) -> (count: usize)
        requires
            self.wf(),
        ensures
            count == self.queue().len(),
            count <= QUEUE_CAPACITY,
    {
        self.jobs.len()
    }

    /// Whether a job is in flight.
    pub fn busy(&self) -> (busy: bool)
        ensures
            busy == self.in_flight(),
    {
        self.busy
    }

    /// The key to send with each request, if the service wants one.
    pub fn api_key(&self) -> (key: &Option<String>)
        ensures
            *key == self.key(),
    {
        &self.api_key
    }

    /// The key that the client was made with, if it was made with one.
    pub closed spec fn key(&self) -> Option<String> {
        self.api_key
    }

    /// Takes a job into the queue, or refuses it with `OverCapacity` when
    /// `QUEUE_CAPACITY` jobs are held already. Nothing is sent either way,
    /// and a refusal changes nothing.
    pub fn run_task(&mut self, task: Task, callback: C) -> (taken: Result<(), ViewerError>)
        requires
            old(self).wf(),
            page_fits(task),
        ensures
            final(self).wf(),
            taken.is_ok() <==> old(self).queue().len() < QUEUE_CAPACITY,
            taken matches Err(error) ==> error == ViewerError::OverCapacity && final(self).queue()
                == old(self).queue(),
            taken.is_ok() ==> final(self).queue() == old(self).queue().push(
                Job { task, callback },
            ),
            final(self).in_flight() == old(self).in_flight(),
            final(self).retries_made() == old(self).retries_made(),
            final(self).url() == old(self).url(),
            final(self).key() == old(self).key(),
    {
        if self.jobs.len() >= QUEUE_CAPACITY {
            return Err(ViewerError::OverCapacity);
        }
        self.jobs.push(Job { task, callback });
        Ok(())
    }

    /// Asks for the DNA of the item at `item_address`.
    pub fn get_dna(&mut self, item_address: String, callback: C) -> (taken: Result<
        (),
        ViewerError,
    >)
        requires
            old(self).wf(),
        ensures
            final(self).wf(),
            taken.is_ok() <==> old(self).queue().len() < QUEUE_CAPACITY,
            taken matches Err(error) ==> error == ViewerError::OverCapacity && final(self).queue()
                == old(self).queue(),
            taken.is_ok() ==> final(self).queue() == old(self).queue().push(
                Job { task: Task::GetDna { item_address }, callback },
            ),
            final(self).in_flight() == old(self).in_flight(),
            final(self).retries_made() == old(self).retries_made(),
            final(self).url() == old(self).url(),
            final(self).key() == old(self).key(),
    {
        self.run_task(Task::GetDna { item_address }, callback)
    }

    /// Asks for the items of `collection_address` that `owner_address`
    /// owns: all of them, or those of one page.
    pub fn get_items(
        &mut self,
        collection_address: String,
        owner_address: String,
        page: Option<usize>,
        callback: C,
    ) -> (taken: Result<(), ViewerError>)
        requires
            old(self).wf(),
            page_fits(Task::GetItems { collection_address, owner_address, page }),
        ensures
            final(self).wf(),
            taken.is_ok() <==> old(self).queue().len() < QUEUE_CAPACITY,
            taken matches Err(error) ==> error == ViewerError::OverCapacity && final(self).queue()
                == old(self).queue(),
            taken.is_ok() ==> final(self).queue() == old(self).queue().push(
                Job { task: Task::GetItems { collection_address, owner_address, page }, callback },
            ),
            final(self).in_flight() == old(self).in_flight(),
            final(self).retries_made() == old(self).retries_made(),
            final(self).url() == old(self).url(),
            final(self).key() == old(self).key(),
    {
        self.run_task(Task::GetItems { collection_address, owner_address, page }, callback)
    }

    /// Asks for the exclusives that the store at `store_address` offers.
    pub fn get_exclusives(&mut self, store_address: String, callback: C) -> (taken: Result<
        (),
        ViewerError,
    >)
        requires
            old(self).wf(),
        ensures
            final(self).wf(),
            taken.is_ok() <==> old(self).queue().len() < QUEUE_CAPACITY,
            taken matches Err(error) ==> error == ViewerError::OverCapacity && final(self).queue()
                == old(self).queue(),
            taken.is_ok() ==> final(self).queue() == old(self).queue().push(
                Job { task: Task::GetExclusivesOffered { store_address }, callback },
            ),
            final(self).in_flight() == old(self).in_flight(),
            final(self).retries_made() == old(self).retries_made(),
            final(self).url() == old(self).url(),
            final(self).key() == old(self).key(),
    {
        self.run_task(Task::GetExclusivesOffered { store_address }, callback)
    }

    /// Asks for the price of an item at the store at `store_address`.
    pub fn get_item_price(&mut self, store_address: String, callback: C) -> (taken: Result<
        (),
        ViewerError,
    >)
        requires
            old(self).wf(),
        ensures
            final(self).wf(),
            taken.is_ok() <==> old(self).queue().len() < QUEUE_CAPACITY,
            taken matches Err(error) ==> error == ViewerError::OverCapacity && final(self).queue()
                == old(self).queue(),
            taken.is_ok() ==> final(self).queue() == old(self).queue().push(
                Job { task: Task::GetItemPrice { store_address }, callback },
            ),
            final(self).in_flight() == old(self).in_flight(),
            final(self).retries_made() == old(self).retries_made(),
            final(self).url() == old(self).url(),
            final(self).key() == old(self).key(),
    {
        self.run_task(Task::GetItemPrice { store_address }, callback)
    }

    /// Starts the oldest job when none is in flight: returns what to send
    /// for it. Returns `None`, and changes nothing, while a job is in flight
    /// or when no job is held.
    pub fn next_request(&mut self) -> (request: Option<Request>)
        requires
            old(self).wf(),
        ensures
            final(self).wf(),
            request.is_some() <==> !old(self).in_flight() && old(self).queue().len() > 0,
            request matches Some(r) ==> is_request_of(r, old(self).queue()[0].task),
            final(self).queue() == old(self).queue(),
            final(self).in_flight() == (old(self).in_flight() || request.is_some()),
            final(self).retries_made() == old(self).retries_made(),
            final(self).url() == old(self).url(),
            final(self).key() == old(self).key(),
    {
        if self.busy || self.jobs.len() == 0 {
            return None;
        }
        self.busy = true;
        Some(self.jobs[0].task.job_payload())
    }

    /// What to send again for the job in flight; `None` when none is.
    pub fn current_request(&self) -> (request: Option<Request>)
        requires
            self.wf(),
        ensures
            request.is_some() <==> self.in_flight(),
            request matches Some(r) ==> self.queue().len() > 0 && is_request_of(
                r,
                self.queue()[0].task,
            ),
    {
        if !self.busy {
            return None;
        }
        Some(self.jobs[0].task.job_payload())
    }

    /// The address to send `request` to: the service's address, a slash,
    /// and the request's path.
    pub fn request_url(&self, request: &Request) -> (url: String)
        ensures
            url@ == self.url() + "/"@ + request.api_method@,
    {
        self.api_url.clone().concat("/").concat(request.api_method.as_str())
    }

    /// Takes what the attempt for the job in flight ended in and says what
    /// to do next, by the retry policy [`decide`].
    ///
    /// On `Retry` the job stays in flight with one retry more. Otherwise
    /// the job leaves the queue and its result goes to its channel: the
    /// reply, the failure, or `OverCapacity` when the retries ran out.
    pub fn on_attempt(&mut self, attempt: Attempt) -> (step: Step<C>)
        requires
            old(self).wf(),
            old(self).in_flight(),
        ensures
            final(self).wf(),
            old(self).queue().len() > 0,
            final(self).url() == old(self).url(),
            final(self).key() == old(self).key(),
            match decide(old(self).retries_made(), kind_of(attempt)) {
                Decision::Retry => {
                    &&& step == (Step::<C>::Retry { wait_secs: RETRY_WAIT_SECS })
                    &&& final(self).queue() == old(self).queue()
                    &&& final(self).in_flight()
                    &&& final(self).retries_made() == old(self).retries_made() + 1
                },
                decision => {
                    &&& final(self).queue() == old(self).queue().drop_first()
                    &&& !final(self).in_flight()
                    &&& final(self).retries_made() == 0
                    &&& step matches Step::Deliver { callback, result }
                    &&& callback == old(self).queue()[0].callback
                    &&& match decision {
                        Decision::Deliver => attempt matches Attempt::Replied(reply) && result
                            == Ok::<Reply, ViewerFailure>(reply),
                        Decision::Fail => attempt matches Attempt::Failed(error) && result
                            == Err::<Reply, ViewerFailure>(ViewerFailure::Upstream(error)),
                        _ => result == Err::<Reply, ViewerFailure>(
                            ViewerFailure::Viewer(ViewerError::OverCapacity),
                        ),
                    }
                },
            },
    {
        let result = match attempt {
            Attempt::Failed(error) => Err(ViewerFailure::Upstream(error)),
            Attempt::Replied(reply) => {
                if reply.envelope.rate_limited() {
                    if self.retries < MAX_RETRIES {
                        self.retries = self.retries + 1;
                        return Step::Retry { wait_secs: RETRY_WAIT_SECS };
                    }
                    Err(ViewerFailure::Viewer(ViewerError::OverCapacity))
                } else {
                    Ok(reply)
                }
            },
        };
        let ghost before = self.jobs@;
        let job = self.jobs.remove(0);
        self.busy = false;
        self.retries = 0;
        proof {
            assert(self.jobs@ =~= before.drop_first());
        }
        Step::Deliver { callback: job.callback, result }
    }
}

/// `request` is what is sent for `task`.
pub open spec fn is_request_of(request: Request, task: Task) -> bool {
    &&& request.http_method == (if task is GetItems {
        HttpMethod::Get
    } else {
        HttpMethod::Post
    })
    &&& request.api_method@ == (if task is GetItems {
        "nft/items"@
    } else {
        "runGetMethod"@
    })
    &&& params_view(request.params@) == task_params(task)
}

/// Ends a job with what was read from its reply: what was read, or the
/// failure to read it together with the reply's text.
pub fn finish<T>(reply: &Reply, parsed: Result<T, UpstreamReason>) -> (result: Result<
    T,
    ViewerFailure,
>)
    ensures
        match parsed {
            Ok(value) => result == Ok::<T, ViewerFailure>(value),
            Err(reason) => result == Err::<T, ViewerFailure>(
                ViewerFailure::Upstream(UpstreamError { reason, response: reply.response }),
            ),
        },
{
    match parsed {
        Ok(value) => Ok(value),
        Err(reason) => Err(
            ViewerFailure::Upstream(UpstreamError { reason, response: reply.response.clone() }),
        ),
    }
}

/// What a caller over HTTP is answered.
#[derive(Debug, Clone, Copy, PartialEq, Eq)]
pub enum HttpAnswer {
    /// 200, with the result as the body.
    Success,
    /// 429 "Too Many Requests".
    TooManyRequests,
    /// 500 "Internal Error"; the failure is reported, not shown.
    InternalError,
}

/// The answer to a caller for the result of a job: the result itself, a
/// "try later" when the client or the service was over capacity, and an
/// internal error, which does not say what failed, for everything else.
pub fn handle_viewer_result<T>(result: &Result<T, ViewerFailure>) -> (answer: HttpAnswer)
    ensures
        answer == match result {
            Ok(_) => HttpAnswer::Success,
            Err(ViewerFailure::Viewer(ViewerError::OverCapacity)) => HttpAnswer::TooManyRequests,
            Err(ViewerFailure::Upstream(_)) => HttpAnswer::InternalError,
        },
{
    match result {
        Ok(_) => HttpAnswer::Success,
        Err(ViewerFailure::Viewer(ViewerError::OverCapacity)) => HttpAnswer::TooManyRequests,
        Err(ViewerFailure::Upstream(_)) => HttpAnswer::InternalError,
    }
}

impl HttpAnswer {
    /// The status code of the answer.
    pub fn status_code(&self) -> (code: u16)
        ensures
            code == match self {
                HttpAnswer::Success => 200u16,
                HttpAnswer::TooManyRequests => 429u16,
                HttpAnswer::InternalError => 500u16,
            },
    {
        match self {
            HttpAnswer::Success => 200,
            HttpAnswer::TooManyRequests => 429,
            HttpAnswer::InternalError => 500,
        }
    }
}

} // verus!
