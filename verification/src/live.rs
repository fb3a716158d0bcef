//! The live orchestrator's pure core: the connection-lifecycle state
//! machine (connect, subscribe, reconnect with exponential backoff, stop on
//! cancellation) and the small trailing window that absorbs the
//! two-events-per-market pattern arriving close together.
//!
//! The machine is pure: the surrounding runtime opens connections, waits
//! out backoff timers and reads the subscription, feeds each happening to
//! `on_event`, and performs the action handed back.

use vstd::prelude::*;
use vstd::arithmetic::power2::{pow2, lemma_pow2_strictly_increases};
use vstd::arithmetic::mul::lemma_mul_inequality;
use crate::enrich::backoff_delay_ms;
use crate::util::{bytes_eq, clone_bytes};

verus! {

/// Where the live session stands.
#[derive(Clone, Copy, Debug, PartialEq, Eq, Structural)]
pub enum LiveState {
    /// Not yet started.
    Disconnected,
    /// A connection attempt is in flight.
    Connecting,
    /// The subscription is live and logs are being handled.
    Subscribed,
    /// Waiting out a backoff delay before connecting again.
    Reconnecting,
    /// Cancelled; the subscription has been released. Terminal.
    Stopped,
}

/// What the runtime reports to the session.
#[derive(Clone, Copy, Debug, PartialEq, Eq, Structural)]
pub enum LiveEvent {
    /// The session is asked to begin.
    Start,
    /// The connection attempt succeeded and the subscription is live.
    Connected,
    /// The connection attempt failed.
    ConnectFailed,
    /// The live subscription dropped.
    StreamDropped,
    /// The backoff delay has elapsed.
    BackoffElapsed,
    /// External cancellation (shutdown signal).
    CancelRequested,
}

/// What the session asks the runtime to do next.
#[derive(Clone, Copy, Debug, PartialEq, Eq, Structural)]
pub enum LiveAction {
    /// Open the connection and subscribe, then report how it went.
    Connect,
    /// Wait this many milliseconds, then report `BackoffElapsed`.
    Wait(u64),
    /// Release the subscription and stop.
    Release,
    /// Nothing to do.
    Idle,
}

/// Whether this state reacts to this event (cancellation aside).
pub open spec fn handles(s: LiveState, ev: LiveEvent) -> bool {
    ||| (s == LiveState::Disconnected && ev == LiveEvent::Start)
    ||| (s == LiveState::Connecting && (ev == LiveEvent::Connected || ev
        == LiveEvent::ConnectFailed))
    ||| (s == LiveState::Subscribed && ev == LiveEvent::StreamDropped)
    ||| (s == LiveState::Reconnecting && ev == LiveEvent::BackoffElapsed)
}

/// Connection-lifecycle state for one live session.
pub struct LiveSession {
    /// Where the session stands.
    pub state: LiveState,
    /// Consecutive reconnect attempts since the last successful connect,
    /// saturated at `max_backoff_exp`.
    pub reconnect_attempt: u32,
    /// Base backoff delay in milliseconds.
    pub base_delay_ms: u64,
    /// Cap on the backoff exponent.
    pub max_backoff_exp: u32,
}

impl LiveSession {
    /// The session's invariant: the backoff exponent is capped and every
    /// delay it can ask for fits in a `u64`.
    pub open spec fn wf(self) -> bool {
        self.reconnect_attempt <= self.max_backoff_exp && self.base_delay_ms * pow2(
            self.max_backoff_exp as nat,
        ) <= u64::MAX
    }

    /// A fresh, not yet started session.
    pub fn new(base_delay_ms: u64, max_backoff_exp: u32) -> (r: LiveSession)
        requires
            base_delay_ms * pow2(max_backoff_exp as nat) <= u64::MAX,
        ensures
            r.wf(),
            r == (LiveSession {
                state: LiveState::Disconnected,
                reconnect_attempt: 0,
                base_delay_ms,
                max_backoff_exp,
            }),
    {
        LiveSession {
            state: LiveState::Disconnected,
            reconnect_attempt: 0,
            base_delay_ms,
            max_backoff_exp,
        }
    }

    /// The next saturated reconnect attempt count.
    pub open spec fn bumped_attempt(self) -> u32 {
        if self.reconnect_attempt < self.max_backoff_exp {
            (self.reconnect_attempt + 1) as u32
        } else {
            self.reconnect_attempt
        }
    }

    /// Feeds one happening to the session.
    ///
    /// Cancellation wins from every state and releases the subscription;
    /// a failed connect or a dropped stream moves through a backoff wait
    /// whose delay doubles per consecutive attempt; a successful connect
    /// resets the backoff. Events that cannot occur in the current state
    /// change nothing.
    pub fn on_event(&mut self, ev: LiveEvent) -> (a: LiveAction)
        requires
            old(self).wf(),
        ensures
            final(self).wf(),
            final(self).base_delay_ms == old(self).base_delay_ms,
            final(self).max_backoff_exp == old(self).max_backoff_exp,
            ev == LiveEvent::CancelRequested && old(self).state != LiveState::Stopped ==> {
                &&& final(self).state == LiveState::Stopped
                &&& a == LiveAction::Release
            },
            ev == LiveEvent::CancelRequested && old(self).state == LiveState::Stopped ==> {
                &&& final(self).state == LiveState::Stopped
                &&& a == LiveAction::Idle
            },
            old(self).state == LiveState::Disconnected && ev == LiveEvent::Start ==> {
                &&& final(self).state == LiveState::Connecting
                &&& a == LiveAction::Connect
            },
            old(self).state == LiveState::Connecting && ev == LiveEvent::Connected ==> {
                &&& final(self).state == LiveState::Subscribed
                &&& final(self).reconnect_attempt == 0
                &&& a == LiveAction::Idle
            },
            old(self).state == LiveState::Connecting && ev == LiveEvent::ConnectFailed ==> {
                &&& final(self).state == LiveState::Reconnecting
                &&& final(self).reconnect_attempt == old(self).bumped_attempt()
                &&& a == LiveAction::Wait(
                    (old(self).base_delay_ms * pow2(old(self).reconnect_attempt as nat)) as u64,
                )
            },
            old(self).state == LiveState::Subscribed && ev == LiveEvent::StreamDropped ==> {
                &&& final(self).state == LiveState::Reconnecting
                &&& final(self).reconnect_attempt == old(self).bumped_attempt()
                &&& a == LiveAction::Wait(
                    (old(self).base_delay_ms * pow2(old(self).reconnect_attempt as nat)) as u64,
                )
            },
            old(self).state == LiveState::Reconnecting && ev == LiveEvent::BackoffElapsed ==> {
                &&& final(self).state == LiveState::Connecting
                &&& a == LiveAction::Connect
            },
            ev != LiveEvent::CancelRequested && !handles(old(self).state, ev) ==> {
                &&& *final(self) == *old(self)
                &&& a == LiveAction::Idle
            },
    {
        if matches!(ev, LiveEvent::CancelRequested) {
            let was_stopped = matches!(self.state, LiveState::Stopped);
            self.state = LiveState::Stopped;
            if was_stopped {
                return LiveAction::Idle;
            }
            return LiveAction::Release;
        }
        match (self.state, ev) {
            (LiveState::Disconnected, LiveEvent::Start) => {
                self.state = LiveState::Connecting;
                LiveAction::Connect
            },
            (LiveState::Connecting, LiveEvent::Connected) => {
                self.state = LiveState::Subscribed;
                self.reconnect_attempt = 0;
                LiveAction::Idle
            },
            (LiveState::Connecting, LiveEvent::ConnectFailed) => {
                self.state = LiveState::Reconnecting;
                let ms = self.next_delay();
                if self.reconnect_attempt < self.max_backoff_exp {
                    self.reconnect_attempt = self.reconnect_attempt + 1;
                }
                LiveAction::Wait(ms)
            },
            (LiveState::Subscribed, LiveEvent::StreamDropped) => {
                self.state = LiveState::Reconnecting;
                let ms = self.next_delay();
                if self.reconnect_attempt < self.max_backoff_exp {
                    self.reconnect_attempt = self.reconnect_attempt + 1;
                }
                LiveAction::Wait(ms)
            },
            (LiveState::Reconnecting, LiveEvent::BackoffElapsed) => {
                self.state = LiveState::Connecting;
                LiveAction::Connect
            },
            _ => LiveAction::Idle,
        }
    }

    /// The backoff delay owed before the next reconnect.
    fn next_delay(&self) -> (r: u64)
        requires
            self.wf(),
        ensures
            r == self.base_delay_ms * pow2(self.reconnect_attempt as nat),
    {
        proof {
            if self.reconnect_attempt < self.max_backoff_exp {
                lemma_pow2_strictly_increases(
                    self.reconnect_attempt as nat,
                    self.max_backoff_exp as nat,
                );
                lemma_mul_inequality(
                    pow2(self.reconnect_attempt as nat) as int,
                    pow2(self.max_backoff_exp as nat) as int,
                    self.base_delay_ms as int,
                );
                assert(self.base_delay_ms * pow2(self.reconnect_attempt as nat)
                    <= self.base_delay_ms * pow2(self.max_backoff_exp as nat)) by (nonlinear_arith)
                    requires
                        pow2(self.reconnect_attempt as nat) * self.base_delay_ms <= pow2(
                            self.max_backoff_exp as nat,
                        ) * self.base_delay_ms,
                ;
            }
        }
        backoff_delay_ms(self.base_delay_ms, self.reconnect_attempt)
    }
}

/// Whether the window already saw this condition identifier.
pub open spec fn window_has(w: Seq<Seq<u8>>, id: Seq<u8>) -> bool {
    exists|i: int| 0 <= i < w.len() && w[i] == id
}

/// The window after noting an identifier: a fresh one is appended and the
/// oldest entry beyond the capacity falls out; a seen one changes nothing.
pub open spec fn window_note(w: Seq<Seq<u8>>, id: Seq<u8>, cap: usize) -> Seq<Seq<u8>> {
    if window_has(w, id) {
        w
    } else {
        let grown = w.push(id);
        if grown.len() > cap {
            grown.drop_first()
        } else {
            grown
        }
    }
}

/// A small trailing window of recently seen condition identifiers, used
/// to absorb the two-event-per-market pattern in live mode.
pub struct DedupWindow {
    ids: Vec<Vec<u8>>,
    cap: usize,
}

impl View for DedupWindow {
    type V = Seq<Seq<u8>>;

    closed spec fn view(&self) -> Seq<Seq<u8>> {
        self.ids.deep_view()
    }
}

impl DedupWindow {
    /// The window's capacity.
    pub closed spec fn spec_cap(&self) -> usize {
        self.cap
    }

    /// An empty window holding at most `cap` identifiers.
    pub fn new(cap: usize) -> (r: DedupWindow)
        requires
            cap >= 1,
        ensures
            r@.len() == 0,
            r.spec_cap() == cap,
    {
        DedupWindow { ids: Vec::new(), cap }
    }

    /// Notes one identifier: reports whether it is fresh, and remembers it
    /// exactly as `window_note` describes.
    pub fn note(&mut self, condition_id: &Vec<u8>) -> (fresh: bool)
        ensures
            fresh == !window_has(old(self)@, condition_id@),
            final(self)@ == window_note(old(self)@, condition_id@, old(self).spec_cap()),
            final(self).spec_cap() == old(self).spec_cap(),
    {
        let ghost w = self@;
        let n: usize = self.ids.len();
        let mut i: usize = 0;
        while i < n
            invariant
                n == self.ids@.len(),
                w == self@,
                w.len() == n,
                0 <= i <= n,
                forall|j: int| 0 <= j < i ==> w[j] != condition_id@,
            decreases n - i,
        {
            proof {
                assert(w[i as int] == self.ids@[i as int]@);
            }
            if bytes_eq(&self.ids[i], condition_id) {
                return false;
            }
            i = i + 1;
        }
        let ghost ids0 = self.ids@;
        self.ids.push(clone_bytes(condition_id));
        proof {
            assert forall|j: int| 0 <= j < w.len() implies self@[j] == w[j] by {
                assert(self.ids@[j] == ids0[j]);
                assert(w[j] == ids0[j].deep_view());
            }
            assert(self@[w.len() as int] =~= condition_id@);
            assert(self@ =~= w.push(condition_id@));
        }
        if self.ids.len() > self.cap {
            let ghost grown = self@;
            let ghost grown_ids = self.ids@;
            self.ids.remove(0);
            proof {
                assert forall|j: int| 0 <= j < self.ids@.len() implies self@[j] == grown[j + 1] by {
                    assert(self.ids@[j] == grown_ids[j + 1]);
                    assert(grown[j + 1] == grown_ids[j + 1].deep_view());
                }
                assert(self@ =~= grown.drop_first());
            }
        }
        true
    }
}

} // verus!
