//! The I/O engine's bookkeeping: a bounded queue of submitted requests,
//! the completions that the device has delivered, and the matching of one
//! to the other by token. The device itself is driven by the caller, who
//! performs each accepted request and reports its completion here.

use crate::error::{IoCause, PoolError};
use vstd::prelude::*;

verus! {

/// Direction of a block transfer.
#[derive(Debug, Clone, Copy, PartialEq, Eq)]
pub enum IoOp {
    Read,
    Write,
}

/// A transfer that the engine has accepted.
#[derive(Debug, Clone, Copy, PartialEq, Eq)]
pub struct Request {
    pub token: u64,
    pub op: IoOp,
    pub page_id: u64,
    pub frame_index: usize,
}

/// What the device reported for a request.
#[derive(Debug, Clone, Copy, PartialEq, Eq)]
pub struct Completion {
    pub request: Request,
    pub byte_count: usize,
    pub result: i32,
}

/// Answer of [`IoEngine::wait_for`].
#[derive(Debug, Clone, Copy, PartialEq, Eq)]
pub enum Waited {
    /// The completion has arrived and is handed over.
    Ready(Completion),
    /// The request is still with the device; suspend and ask again.
    Pending,
    /// No request with that token is outstanding.
    Unknown,
}

/// One call of the engine, as data.
pub enum EngineEvent {
    /// A request is submitted.
    Submit { op: IoOp, page_id: u64, frame_index: usize },
    /// The device reports on a token.
    Complete { token: u64, byte_count: usize, result: i32 },
    /// All arrived completions are taken.
    Drain,
    /// The completion of one token is taken, if it has arrived.
    Take { token: u64 },
}

/// Bounded submission queue with its completions.
pub struct IoEngine {
    depth: usize,
    next_token: u64,
    pending: Vec<Request>,
    ready: Vec<Completion>,
}

/// Mathematical value of an [`IoEngine`].
pub struct EngineView {
    /// The most requests that may be outstanding at once.
    pub depth: nat,
    /// The token that the next accepted request gets.
    pub next_token: u64,
    /// Accepted requests that the device has not completed, oldest first.
    pub pending: Seq<Request>,
    /// Delivered completions that nobody has taken, in order of arrival.
    pub ready: Seq<Completion>,
}

impl EngineView {
    /// Requests that occupy a slot of the queue.
    pub open spec fn in_flight(self) -> nat {
        self.pending.len() + self.ready.len()
    }

    /// Whether the engine has no slot or no token left for another request.
    pub open spec fn saturated(self) -> bool {
        self.in_flight() >= self.depth || self.next_token == u64::MAX
    }

    /// Whether a request with `token` waits for the device.
    pub open spec fn is_pending(self, token: u64) -> bool {
        exists|i: int| 0 <= i < self.pending.len() && (#[trigger] self.pending[i]).token == token
    }

    /// Whether a completion for `token` waits to be taken.
    pub open spec fn is_ready(self, token: u64) -> bool {
        exists|i: int|
            0 <= i < self.ready.len() && (#[trigger] self.ready[i]).request.token == token
    }

    /// The state after a request for `op` on `page_id` has been accepted.
    pub open spec fn accept(self, op: IoOp, page_id: u64, frame_index: usize) -> EngineView {
        EngineView {
            next_token: (self.next_token + 1) as u64,
            pending: self.pending.push(
                Request { token: self.next_token, op, page_id, frame_index },
            ),
            ..self
        }
    }

    /// The state after the device has completed the pending request at `i`.
    pub open spec fn deliver(self, i: int, byte_count: usize, result: i32) -> EngineView {
        EngineView {
            pending: self.pending.remove(i),
            ready: self.ready.push(Completion { request: self.pending[i], byte_count, result }),
            ..self
        }
    }

    /// Position of the pending request with `token`.
    pub open spec fn pending_index(self, token: u64) -> int {
        choose|i: int| 0 <= i < self.pending.len() && (#[trigger] self.pending[i]).token == token
    }

    /// Position of the ready completion for `token`.
    pub open spec fn ready_index(self, token: u64) -> int {
        choose|i: int|
            0 <= i < self.ready.len() && (#[trigger] self.ready[i]).request.token == token
    }

    /// The state after all arrived completions have been taken.
    pub open spec fn drained(self) -> EngineView {
        EngineView { ready: Seq::empty(), ..self }
    }

    /// The state after the completion at `i` has been taken.
    pub open spec fn taken(self, i: int) -> EngineView {
        EngineView { ready: self.ready.remove(i), ..self }
    }

    /// The state that `event` leads to: what is refused changes nothing.
    pub open spec fn after(self, event: EngineEvent) -> EngineView {
        match event {
            EngineEvent::Submit { op, page_id, frame_index } => if self.saturated() {
                self
            } else {
                self.accept(op, page_id, frame_index)
            },
            EngineEvent::Complete { token, byte_count, result } => if self.is_pending(token) {
                self.deliver(self.pending_index(token), byte_count, result)
            } else {
                self
            },
            EngineEvent::Drain => self.drained(),
            EngineEvent::Take { token } => if self.is_ready(token) {
                self.taken(self.ready_index(token))
            } else {
                self
            },
        }
    }

    /// How many requests `event` gets accepted: one for a submission that
    /// finds room, none otherwise.
    pub open spec fn accepts(self, event: EngineEvent) -> nat {
        if event is Submit && !self.saturated() {
            1
        } else {
            0
        }
    }

    /// How many completions `event` hands to the caller.
    pub open spec fn hands_out(self, event: EngineEvent) -> nat {
        match event {
            EngineEvent::Drain => self.ready.len(),
            EngineEvent::Take { token } => if self.is_ready(token) {
                1
            } else {
                0
            },
            _ => 0,
        }
    }

    /// Tokens are issued in increasing order and name one request each; the
    /// queue holds no more than its depth.
    pub open spec fn wf(self) -> bool {
        &&& self.in_flight() <= self.depth
        &&& forall|i: int|
            0 <= i < self.pending.len() ==> (#[trigger] self.pending[i]).token < self.next_token
        &&& forall|i: int|
            0 <= i < self.ready.len() ==> (#[trigger] self.ready[i]).request.token < self.next_token
        &&& forall|i: int, j: int|
            0 <= i < j < self.pending.len() ==> (#[trigger] self.pending[i]).token != (
            #[trigger] self.pending[j]).token
        &&& forall|i: int, j: int|
            0 <= i < j < self.ready.len() ==> (#[trigger] self.ready[i]).request.token != (
            #[trigger] self.ready[j]).request.token
        &&& forall|i: int, j: int|
            0 <= i < self.pending.len() && 0 <= j < self.ready.len() ==> (
            #[trigger] self.pending[i]).token != (#[trigger] self.ready[j]).request.token
    }
}

/// The state after a sequence of calls.
pub open spec fn after_all(start: EngineView, events: Seq<EngineEvent>) -> EngineView
    decreases events.len(),
{
    if events.len() == 0 {
        start
    } else {
        after_all(start.after(events[0]), events.drop_first())
    }
}

/// Number of requests that a sequence of calls gets accepted.
pub open spec fn accepted(start: EngineView, events: Seq<EngineEvent>) -> nat
    decreases events.len(),
{
    if events.len() == 0 {
        0
    } else {
        start.accepts(events[0]) + accepted(start.after(events[0]), events.drop_first())
    }
}

/// Number of completions that a sequence of calls hands to the caller.
pub open spec fn handed_out(start: EngineView, events: Seq<EngineEvent>) -> nat
    decreases events.len(),
{
    if events.len() == 0 {
        0
    } else {
        start.hands_out(events[0]) + handed_out(start.after(events[0]), events.drop_first())
    }
}

/// One call keeps the engine well formed and loses no request: what it
/// accepts is in flight afterwards, and what leaves the queue was handed out.
pub proof fn lemma_call_loses_nothing(state: EngineView, event: EngineEvent)
    requires
        state.wf(),
    ensures
        state.after(event).wf(),
        state.accepts(event) + state.in_flight() == state.hands_out(event) + state.after(
            event,
        ).in_flight(),
{
    match event {
        EngineEvent::Submit { op, page_id, frame_index } => {},
        EngineEvent::Complete { token, byte_count, result } => {
            if state.is_pending(token) {
                let i = state.pending_index(token);
                let next = state.deliver(i, byte_count, result);
                assert forall|a: int| 0 <= a < next.pending.len() implies #[trigger] next.pending[a]
                    == state.pending[if a < i {
                    a
                } else {
                    a + 1
                }] by {}
                assert(next.wf());
            }
        },
        EngineEvent::Drain => {},
        EngineEvent::Take { token } => {
            if state.is_ready(token) {
                let i = state.ready_index(token);
                let next = state.taken(i);
                assert forall|a: int| 0 <= a < next.ready.len() implies #[trigger] next.ready[a]
                    == state.ready[if a < i {
                    a
                } else {
                    a + 1
                }] by {}
                assert(next.wf());
            }
        },
    }
}

/// No request is silently dropped: over any sequence of calls, the
/// requests accepted plus those in flight at the start equal the
/// completions handed out plus the requests in flight at the end. Once
/// nothing is in flight, as many completions have been handed out as
/// requests were accepted.
pub proof fn lemma_no_request_is_lost(start: EngineView, events: Seq<EngineEvent>)
    requires
        start.wf(),
    ensures
        after_all(start, events).wf(),
        accepted(start, events) + start.in_flight() == handed_out(start, events) + after_all(
            start,
            events,
        ).in_flight(),
    decreases events.len(),
{
    if events.len() > 0 {
        lemma_call_loses_nothing(start, events[0]);
        lemma_no_request_is_lost(start.after(events[0]), events.drop_first());
    }
}

/// How a completion is read: a negative status is a device error, fewer
/// bytes than a page a short transfer, anything else success.
pub open spec fn transfer_outcome(c: Completion, page_size: nat) -> Result<(), PoolError> {
    if c.result < 0 {
        Err(
            PoolError::IoFailure {
                page_id: c.request.page_id,
                cause: IoCause::Device { code: c.result },
            },
        )
    } else if c.byte_count < page_size {
        Err(
            PoolError::IoFailure {
                page_id: c.request.page_id,
                cause: IoCause::ShortTransfer {
                    transferred: c.byte_count,
                    expected: page_size as usize,
                },
            },
        )
    } else {
        Ok(())
    }
}

/// A token names at most one pending request.
pub proof fn lemma_token_is_pending_once(state: EngineView, token: u64, i: int)
    requires
        state.wf(),
        0 <= i < state.pending.len(),
        state.pending[i].token == token,
    ensures
        state.is_pending(token),
        state.pending_index(token) == i,
        !state.is_ready(token),
{
    let j = state.pending_index(token);
    if i < j {
        assert(state.pending[i].token != state.pending[j].token);
    }
    if j < i {
        assert(state.pending[j].token != state.pending[i].token);
    }
    if state.is_ready(token) {
        let r = state.ready_index(token);
        assert(state.pending[i].token != state.ready[r].request.token);
    }
}

/// A token names at most one ready completion.
pub proof fn lemma_token_is_ready_once(state: EngineView, token: u64, i: int)
    requires
        state.wf(),
        0 <= i < state.ready.len(),
        state.ready[i].request.token == token,
    ensures
        state.is_ready(token),
        state.ready_index(token) == i,
        !state.is_pending(token),
{
    let j = state.ready_index(token);
    if i < j {
        assert(state.ready[i].request.token != state.ready[j].request.token);
    }
    if j < i {
        assert(state.ready[j].request.token != state.ready[i].request.token);
    }
    if state.is_pending(token) {
        let p = state.pending_index(token);
        assert(state.pending[p].token != state.ready[i].request.token);
    }
}

impl Completion {
    /// Classifies the completion of a transfer of one page of `page_size` bytes.
    pub fn outcome(&self, page_size: usize) -> (r: Result<(), PoolError>)
        ensures
            r == transfer_outcome(*self, page_size as nat),
    {
        if self.result < 0 {
            Err(
                PoolError::IoFailure {
                    page_id: self.request.page_id,
                    cause: IoCause::Device { code: self.result },
                },
            )
        } else if self.byte_count < page_size {
            Err(
                PoolError::IoFailure {
                    page_id: self.request.page_id,
                    cause: IoCause::ShortTransfer {
                        transferred: self.byte_count,
                        expected: page_size,
                    },
                },
            )
        } else {
            Ok(())
        }
    }
}

impl View for IoEngine {
    type V = EngineView;

    closed spec fn view(&self) -> EngineView {
        EngineView {
            depth: self.depth as nat,
            next_token: self.next_token,
            pending: self.pending@,
            ready: self.ready@,
        }
    }
}

impl IoEngine {
    /// See [`EngineView::wf`].
    pub open spec fn wf(&self) -> bool {
        self@.wf()
    }

    /// An idle engine whose queue holds up to `queue_depth` requests.
    pub fn new(queue_depth: usize) -> (engine: IoEngine)
        ensures
            engine.wf(),
            engine@ == (EngineView {
                depth: queue_depth as nat,
                next_token: 0,
                pending: Seq::empty(),
                ready: Seq::empty(),
            }),
    {
        IoEngine { depth: queue_depth, next_token: 0, pending: Vec::new(), ready: Vec::new() }
    }

    /// The configured queue depth.
    pub fn queue_depth(&self) -> (n: usize)
        ensures
            n == self@.depth,
    {
        self.depth
    }

    /// Number of requests that occupy a slot: pending ones and those whose
    /// completion has not been taken.
    pub fn in_flight(&self) -> (n: usize)
        requires
            self.wf(),
        ensures
            n == self@.in_flight(),
    {
        self.pending.len() + self.ready.len()
    }

    /// Whether another request would be refused.
    pub fn is_saturated(&self) -> (full: bool)
        requires
            self.wf(),
        ensures
            full == self@.saturated(),
    {
        self.pending.len() + self.ready.len() >= self.depth || self.next_token == u64::MAX
    }

    fn submit(&mut self, op: IoOp, page_id: u64, frame_index: usize) -> (token: Result<
        u64,
        PoolError,
    >)
        requires
            old(self).wf(),
        ensures
            final(self).wf(),
            token.is_err() == old(self)@.saturated(),
            token.is_err() ==> token == Err::<u64, PoolError>(PoolError::QueueSaturated)
                && final(self)@ == old(self)@,
            token.is_ok() ==> token.unwrap() == old(self)@.next_token && final(self)@ == old(
                self,
            )@.accept(op, page_id, frame_index),
            final(self)@ == old(self)@.after(EngineEvent::Submit { op, page_id, frame_index }),
    {
        if self.pending.len() + self.ready.len() >= self.depth || self.next_token == u64::MAX {
            Err(PoolError::QueueSaturated)
        } else {
            let token: u64 = self.next_token;
            self.pending.push(Request { token, op, page_id, frame_index });
            self.next_token = token + 1;
            Ok(token)
        }
    }

    /// Queues a read of `page_id` into frame `frame_index`.
    pub fn submit_read(&mut self, page_id: u64, frame_index: usize) -> (token: Result<
        u64,
        PoolError,
    >)
        requires
            old(self).wf(),
        ensures
            final(self).wf(),
            token.is_err() == old(self)@.saturated(),
            token.is_err() ==> token == Err::<u64, PoolError>(PoolError::QueueSaturated)
                && final(self)@ == old(self)@,
            token.is_ok() ==> token.unwrap() == old(self)@.next_token && final(self)@ == old(
                self,
            )@.accept(IoOp::Read, page_id, frame_index),
            final(self)@ == old(self)@.after(
                EngineEvent::Submit { op: IoOp::Read, page_id, frame_index },
            ),
    {
        self.submit(IoOp::Read, page_id, frame_index)
    }

    /// Queues a write of frame `frame_index` to `page_id`.
    pub fn submit_write(&mut self, page_id: u64, frame_index: usize) -> (token: Result<
        u64,
        PoolError,
    >)
        requires
            old(self).wf(),
        ensures
            final(self).wf(),
            token.is_err() == old(self)@.saturated(),
            token.is_err() ==> token == Err::<u64, PoolError>(PoolError::QueueSaturated)
                && final(self)@ == old(self)@,
            token.is_ok() ==> token.unwrap() == old(self)@.next_token && final(self)@ == old(
                self,
            )@.accept(IoOp::Write, page_id, frame_index),
            final(self)@ == old(self)@.after(
                EngineEvent::Submit { op: IoOp::Write, page_id, frame_index },
            ),
    {
        self.submit(IoOp::Write, page_id, frame_index)
    }

    /// Index of the pending request with `token`.
    fn find_pending(&self, token: u64) -> (at: Option<usize>)
        ensures
            at.is_some() == self@.is_pending(token),
            at.is_some() ==> at.unwrap() < self@.pending.len()
                && self@.pending[at.unwrap() as int].token == token,
    {
        let mut i: usize = 0;
        while i < self.pending.len()
            invariant
                i <= self.pending@.len(),
                forall|j: int| 0 <= j < i ==> (#[trigger] self.pending@[j]).token != token,
            decreases self.pending.len() - i,
        {
            if self.pending[i].token == token {
                return Some(i);
            }
            i = i + 1;
        }
        None
    }

    /// Index of the ready completion for `token`.
    fn find_ready(&self, token: u64) -> (at: Option<usize>)
        ensures
            at.is_some() == self@.is_ready(token),
            at.is_some() ==> at.unwrap() < self@.ready.len()
                && self@.ready[at.unwrap() as int].request.token == token,
    {
        let mut i: usize = 0;
        while i < self.ready.len()
            invariant
                i <= self.ready@.len(),
                forall|j: int| 0 <= j < i ==> (#[trigger] self.ready@[j]).request.token != token,
            decreases self.ready.len() - i,
        {
            if self.ready[i].request.token == token {
                return Some(i);
            }
            i = i + 1;
        }
        None
    }

    /// The pending request that carries `token`, if there is one.
    pub fn pending_request(&self, token: u64) -> (found: Option<Request>)
        requires
            self.wf(),
        ensures
            found.is_some() == self@.is_pending(token),
            found.is_some() ==> found.unwrap() == self@.pending[self@.pending_index(token)],
    {
        match self.find_pending(token) {
            Some(i) => {
                proof {
                    lemma_token_is_pending_once(self@, token, i as int);
                }
                Some(self.pending[i])
            },
            None => None,
        }
    }

    /// Files the device's report for `token`. A token that is not pending
    /// (never issued, or completed before) is refused, so that no request
    /// completes twice.
    pub fn complete(&mut self, token: u64, byte_count: usize, result: i32) -> (accepted: bool)
        requires
            old(self).wf(),
        ensures
            final(self).wf(),
            accepted == old(self)@.is_pending(token),
            !accepted ==> final(self)@ == old(self)@,
            accepted ==> final(self)@ == old(self)@.deliver(
                old(self)@.pending_index(token),
                byte_count,
                result,
            ),
            final(self)@ == old(self)@.after(EngineEvent::Complete { token, byte_count, result }),
    {
        match self.find_pending(token) {
            None => false,
            Some(i) => {
                let request = self.pending.remove(i);
                self.ready.push(Completion { request, byte_count, result });
                proof {
                    lemma_token_is_pending_once(old(self)@, token, i as int);
                    assert(self@ == old(self)@.deliver(i as int, byte_count, result));
                }
                true
            },
        }
    }

    /// Hands over every completion that has arrived, in order of arrival,
    /// and frees their slots. Never blocks.
    pub fn poll_completions(&mut self) -> (drained: Vec<Completion>)
        requires
            old(self).wf(),
        ensures
            final(self).wf(),
            drained@ == old(self)@.ready,
            final(self)@ == old(self)@.drained(),
            final(self)@ == old(self)@.after(EngineEvent::Drain),
    {
        let mut drained: Vec<Completion> = Vec::new();
        std::mem::swap(&mut self.ready, &mut drained);
        drained
    }

    /// Takes the completion for `token` if it has arrived.
    pub fn wait_for(&mut self, token: u64) -> (waited: Waited)
        requires
            old(self).wf(),
        ensures
            final(self).wf(),
            match waited {
                Waited::Ready(c) => old(self)@.is_ready(token) && c == old(self)@.ready[old(
                    self,
                )@.ready_index(token)],
                Waited::Pending => !old(self)@.is_ready(token) && old(self)@.is_pending(token),
                Waited::Unknown => !old(self)@.is_ready(token) && !old(self)@.is_pending(token),
            },
            final(self)@ == old(self)@.after(EngineEvent::Take { token }),
    {
        match self.find_ready(token) {
            Some(i) => {
                let c = self.ready.remove(i);
                proof {
                    lemma_token_is_ready_once(old(self)@, token, i as int);
                    assert(self@ == old(self)@.taken(i as int));
                }
                Waited::Ready(c)
            },
            None => {
                if self.find_pending(token).is_some() {
                    Waited::Pending
                } else {
                    Waited::Unknown
                }
            },
        }
    }
}

} // verus!
