//! The decisions of the resilient session: when to open a channel, send the
//! metrics query, read again, give up or resurrect the channel.
//!
//! The session does no I/O itself. Its owner performs each `Action` on the
//! transport channel and hands back the `Event` that came of it. One call
//! (one logical exchange) starts with `begin` and runs until the session
//! answers `Deliver` or `Fail`; the session takes `&mut self` throughout, so
//! no two calls can interleave on it.

use vstd::prelude::*;

verus! {

/// How many times one call may discard a dead channel and open a new one.
pub const MAX_RESURRECTIONS: u32 = 3;

/// How many `Processing` replies one exchange may wait through before it
/// counts as failed.
pub const MAX_PROCESSING_WAITS: u32 = 64;

/// The state of the shared channel between calls.
#[derive(Clone, Copy, Debug, PartialEq, Eq, Structural)]
pub enum ChannelState {
    /// No channel is open.
    Disconnected,
    /// A channel is open and can be reused.
    Connected,
    /// The last call used up its resurrections; the next one starts afresh.
    Failed,
}

/// Where the running call stands.
#[derive(Clone, Copy, Debug, PartialEq, Eq, Structural)]
pub enum Stage {
    /// No call is running.
    Idle,
    /// The call's first opening of a channel.
    Opening,
    /// Opening a new channel in place of a dead one.
    Reopening,
    /// Sending the metrics query.
    Sending,
    /// Waiting for the reply.
    Receiving,
}

/// The status of one reply read from the channel.
#[derive(Clone, Copy, Debug, PartialEq, Eq, Structural)]
pub enum Reply {
    /// The proxy is still computing: read again without sending.
    Processing,
    /// The proxy reported a failure.
    Failure,
    /// A success carrying the metrics.
    Metrics,
    /// A success carrying anything but metrics.
    Unexpected,
}

/// What came of the last action.
#[derive(Clone, Copy, Debug, PartialEq, Eq, Structural)]
pub enum Event {
    Opened,
    OpenFailed,
    Sent,
    SendFailed,
    Received(Reply),
    ReceiveFailed,
}

/// Why a call failed.
#[derive(Clone, Copy, Debug, PartialEq, Eq, Structural)]
pub enum SessionError {
    /// The call could not open its first channel.
    Connect,
    /// Every resurrection was used and the exchange still failed.
    Exhausted,
}

/// What the session's owner is to do next.
#[derive(Clone, Copy, Debug, PartialEq, Eq, Structural)]
pub enum Action {
    /// Open a channel.
    Open,
    /// Discard the current channel and open a new one.
    Reopen,
    /// Send the metrics query.
    Send,
    /// Read one reply, with the read timeout.
    Receive,
    /// Hand the metrics of the last reply to the caller; the call is over.
    Deliver,
    /// Report the error; the call is over.
    Fail(SessionError),
}

/// The resilient session: the channel's state between calls, and the
/// progress of the running call.
#[derive(Clone, Copy, Debug, PartialEq, Eq, Structural)]
pub struct Session {
    pub channel: ChannelState,
    pub stage: Stage,
    /// Resurrections used by the running (or the last) call.
    pub resurrections: u32,
    /// `Processing` replies waited through in the current exchange.
    pub waits: u32,
}

impl Session {
    /// The counters stay within their bounds.
    pub open spec fn wf(self) -> bool {
        self.resurrections <= MAX_RESURRECTIONS && self.waits <= MAX_PROCESSING_WAITS
    }
}

/// What a failed attempt leads to: a resurrection while some are left,
/// else the end of the call with `Exhausted`.
pub open spec fn after_failure(s: Session) -> (Session, Action) {
    if s.resurrections < MAX_RESURRECTIONS {
        (
            Session {
                channel: ChannelState::Disconnected,
                stage: Stage::Reopening,
                resurrections: (s.resurrections + 1) as u32,
                waits: 0,
            },
            Action::Reopen,
        )
    } else {
        (
            Session { channel: ChannelState::Failed, stage: Stage::Idle, waits: 0, ..s },
            Action::Fail(SessionError::Exhausted),
        )
    }
}

/// How a call starts: it sends at once on a channel that is open, and opens
/// one first otherwise.
pub open spec fn begin_call(s: Session) -> (Session, Action) {
    if s.channel == ChannelState::Connected {
        (Session { stage: Stage::Sending, resurrections: 0, waits: 0, ..s }, Action::Send)
    } else {
        (Session { stage: Stage::Opening, resurrections: 0, waits: 0, ..s }, Action::Open)
    }
}

/// One decision: the next state and action, given what came of the last
/// action. A failed first opening ends the call with `Connect`; metrics end
/// it with `Deliver`; `Processing` is read through up to the bound; any other
/// outcome (a transport error, a failure reply, a reply without metrics, too
/// many `Processing` replies, an event that does not answer the stage) is a
/// failed attempt.
pub open spec fn next_step(s: Session, e: Event) -> (Session, Action) {
    match (s.stage, e) {
        (Stage::Opening, Event::Opened) | (Stage::Reopening, Event::Opened) => (
            Session { channel: ChannelState::Connected, stage: Stage::Sending, ..s },
            Action::Send,
        ),
        (Stage::Opening, Event::OpenFailed) => (
            Session { channel: ChannelState::Disconnected, stage: Stage::Idle, ..s },
            Action::Fail(SessionError::Connect),
        ),
        (Stage::Sending, Event::Sent) => (
            Session { stage: Stage::Receiving, waits: 0, ..s },
            Action::Receive,
        ),
        (Stage::Receiving, Event::Received(Reply::Metrics)) => (
            Session { stage: Stage::Idle, waits: 0, ..s },
            Action::Deliver,
        ),
        (Stage::Receiving, Event::Received(Reply::Processing)) => if s.waits
            < MAX_PROCESSING_WAITS {
            (Session { waits: (s.waits + 1) as u32, ..s }, Action::Receive)
        } else {
            after_failure(s)
        },
        _ => after_failure(s),
    }
}

impl Session {
    /// A session with no channel and no call running.
    pub fn new() -> (r: Session)
        ensures
            r == (Session {
                channel: ChannelState::Disconnected,
                stage: Stage::Idle,
                resurrections: 0,
                waits: 0,
            }),
            r.wf(),
    {
        Session { channel: ChannelState::Disconnected, stage: Stage::Idle, resurrections: 0, waits: 0 }
    }

    /// Whether no call is running.
    pub fn is_idle(&self) -> (r: bool)
        ensures
            r == (self.stage == Stage::Idle),
    {
        match self.stage {
            Stage::Idle => true,
            _ => false,
        }
    }

    /// Starts a call; only one call runs at a time.
    pub fn begin(&mut self) -> (r: Action)
        requires
            old(self).wf(),
            old(self).stage == Stage::Idle,
        ensures
            (*final(self), r) == begin_call(*old(self)),
            final(self).wf(),
    {
        self.resurrections = 0;
        self.waits = 0;
        match self.channel {
            ChannelState::Connected => {
                self.stage = Stage::Sending;
                Action::Send
            },
            _ => {
                self.stage = Stage::Opening;
                Action::Open
            },
        }
    }

    /// Takes what came of the last action and decides the next one.
    pub fn step(&mut self, event: Event) -> (r: Action)
        requires
            old(self).wf(),
            old(self).stage != Stage::Idle,
        ensures
            (*final(self), r) == next_step(*old(self), event),
            final(self).wf(),
    {
        match (self.stage, event) {
            (Stage::Opening, Event::Opened) | (Stage::Reopening, Event::Opened) => {
                self.channel = ChannelState::Connected;
                self.stage = Stage::Sending;
                Action::Send
            },
            (Stage::Opening, Event::OpenFailed) => {
                self.channel = ChannelState::Disconnected;
                self.stage = Stage::Idle;
                Action::Fail(SessionError::Connect)
            },
            (Stage::Sending, Event::Sent) => {
                self.stage = Stage::Receiving;
                self.waits = 0;
                Action::Receive
            },
            (Stage::Receiving, Event::Received(Reply::Metrics)) => {
                self.stage = Stage::Idle;
                self.waits = 0;
                Action::Deliver
            },
            (Stage::Receiving, Event::Received(Reply::Processing)) => {
                if self.waits < MAX_PROCESSING_WAITS {
                    self.waits = self.waits + 1;
                    Action::Receive
                } else {
                    self.fail_attempt()
                }
            },
            _ => self.fail_attempt(),
        }
    }

    /// A failed attempt: resurrect the channel while resurrections are left.
    fn fail_attempt(&mut self) -> (r: Action)
        requires
            old(self).wf(),
        ensures
            (*final(self), r) == after_failure(*old(self)),
            final(self).wf(),
    {
        if self.resurrections < MAX_RESURRECTIONS {
            self.channel = ChannelState::Disconnected;
            self.stage = Stage::Reopening;
            self.resurrections = self.resurrections + 1;
            self.waits = 0;
            Action::Reopen
        } else {
            self.channel = ChannelState::Failed;
            self.stage = Stage::Idle;
            self.waits = 0;
            Action::Fail(SessionError::Exhausted)
        }
    }
}

/// The actions taken while feeding `events` to a running call, one event per
/// action, until the call ends; and the state it ends in.
pub open spec fn run(s: Session, events: Seq<Event>) -> (Session, Seq<Action>)
    decreases events.len(),
{
    if events.len() == 0 || s.stage == Stage::Idle {
        (s, Seq::empty())
    } else {
        let (s1, a) = next_step(s, events[0]);
        let (s2, rest) = run(s1, events.drop_first());
        (s2, seq![a] + rest)
    }
}

/// How many `Reopen` actions are among `actions`.
pub open spec fn reopens(actions: Seq<Action>) -> nat
    decreases actions.len(),
{
    if actions.len() == 0 {
        0
    } else {
        (if actions[0] == Action::Reopen {
            1nat
        } else {
            0nat
        }) + reopens(actions.drop_first())
    }
}

proof fn lemma_run_budget(s: Session, events: Seq<Event>)
    requires
        s.wf(),
    ensures
        run(s, events).0.wf(),
        run(s, events).0.resurrections == s.resurrections + reopens(run(s, events).1),
        run(s, events).1.contains(Action::Fail(SessionError::Exhausted)) ==> run(
            s,
            events,
        ).0.resurrections == MAX_RESURRECTIONS,
    decreases events.len(),
{
    if events.len() == 0 || s.stage == Stage::Idle {
        assert(run(s, events).1 =~= Seq::<Action>::empty());
    } else {
        let (s1, a) = next_step(s, events[0]);
        lemma_run_budget(s1, events.drop_first());
        let (s2, rest) = run(s1, events.drop_first());
        let acts = seq![a] + rest;
        assert(acts.drop_first() =~= rest);
        assert(acts[0] == a);
        if a == Action::Fail(SessionError::Exhausted) {
            assert(s1.stage == Stage::Idle);
            assert(rest =~= Seq::<Action>::empty());
        }
        if acts.contains(Action::Fail(SessionError::Exhausted)) && a != Action::Fail(
            SessionError::Exhausted,
        ) {
            let k = choose|k: int| 0 <= k < acts.len() && acts[k] == Action::Fail(
                SessionError::Exhausted,
            );
            assert(rest[k - 1] == acts[k]);
        }
    }
}

/// One call never resurrects the channel more than `MAX_RESURRECTIONS`
/// times, whatever the transport does, and it fails with `Exhausted` only
/// after exactly that many resurrections.
pub proof fn lemma_call_resurrections_are_bounded(s: Session, events: Seq<Event>)
    requires
        s.wf(),
        s.stage == Stage::Idle,
    ensures
        reopens(run(begin_call(s).0, events).1) <= MAX_RESURRECTIONS,
        run(begin_call(s).0, events).1.contains(Action::Fail(SessionError::Exhausted)) ==> reopens(
            run(begin_call(s).0, events).1,
        ) == MAX_RESURRECTIONS,
{
    lemma_run_budget(begin_call(s).0, events);
}

} // verus!
