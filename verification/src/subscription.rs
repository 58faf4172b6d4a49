//! The log subscription: the WebSocket endpoint it connects to, the subscription task's
//! decisions, and its reconnection policy, how long to wait before each new attempt to connect
//! and subscribe.
use vstd::prelude::*;
use vstd::arithmetic::power2::{pow2, lemma_pow2_unfold, lemma_pow2_pos};
use crate::text::{lemma_replace_absent, lemma_replace_leading, replace_all, spec_contains, spec_replace};

verus! {

/// Failed attempts after which the wait starts to double.
pub const MAX_RECONNECT_ATTEMPTS: u32 = 5;

/// The wait before a new attempt, after a success or at the start.
pub const INITIAL_RECONNECT_DELAY_MS: u64 = 1000;

/// The longest wait before a new attempt.
pub const MAX_RECONNECT_DELAY_MS: u64 = 60000;

/// Counts the attempts to connect and subscribe that have failed in a row, and holds the wait
/// before the next one.
pub struct ReconnectBackoff {
    reconnect_attempts: u32,
    current_reconnect_delay_ms: u64,
}

pub ghost struct ReconnectBackoffView {
    pub attempts: u32,
    pub delay_ms: u64,
}

impl View for ReconnectBackoff {
    type V = ReconnectBackoffView;

    closed spec fn view(&self) -> ReconnectBackoffView {
        ReconnectBackoffView { attempts: self.reconnect_attempts, delay_ms: self.current_reconnect_delay_ms }
    }
}

impl ReconnectBackoffView {
    /// The wait lies between the initial wait and the longest one.
    pub open spec fn wf(self) -> bool {
        INITIAL_RECONNECT_DELAY_MS <= self.delay_ms <= MAX_RECONNECT_DELAY_MS
    }
}

/// The state after a success: no failure counted, the initial wait.
pub open spec fn spec_backoff_reset() -> ReconnectBackoffView {
    ReconnectBackoffView { attempts: 0, delay_ms: INITIAL_RECONNECT_DELAY_MS }
}

/// The state after one more failure: the failure is counted, and once
/// `MAX_RECONNECT_ATTEMPTS` failures are counted the wait doubles, up to the longest wait.
pub open spec fn spec_backoff_failure(v: ReconnectBackoffView) -> ReconnectBackoffView {
    let attempts = (v.attempts + 1) as u32;
    ReconnectBackoffView {
        attempts,
        delay_ms: if attempts >= MAX_RECONNECT_ATTEMPTS {
            if v.delay_ms * 2 <= MAX_RECONNECT_DELAY_MS {
                (v.delay_ms * 2) as u64
            } else {
                MAX_RECONNECT_DELAY_MS
            }
        } else {
            v.delay_ms
        },
    }
}

/// The state after `n` failures in a row from the reset state.
pub open spec fn spec_backoff_after_failures(n: nat) -> ReconnectBackoffView
    decreases n,
{
    if n == 0 {
        spec_backoff_reset()
    } else {
        spec_backoff_failure(spec_backoff_after_failures((n - 1) as nat))
    }
}

impl ReconnectBackoff {
    #[verifier::type_invariant]
    closed spec fn inv(self) -> bool {
        INITIAL_RECONNECT_DELAY_MS <= self.current_reconnect_delay_ms <= MAX_RECONNECT_DELAY_MS
    }

    /// No failure counted, the initial wait.
    pub fn new() -> (b: ReconnectBackoff)
        ensures
            b@ == spec_backoff_reset(),
    {
        ReconnectBackoff { reconnect_attempts: 0, current_reconnect_delay_ms: INITIAL_RECONNECT_DELAY_MS }
    }

    /// The number of failures in a row counted.
    pub fn reconnect_attempts(&self) -> (n: u32)
        ensures
            n == self@.attempts,
    {
        self.reconnect_attempts
    }

    /// The wait before the next attempt, in milliseconds.
    pub fn current_delay_ms(&self) -> (ms: u64)
        ensures
            ms == self@.delay_ms,
            self@.wf(),
    {
        proof {
            use_type_invariant(self);
        }
        self.current_reconnect_delay_ms
    }

    /// A subscription succeeded: the failure count and the wait start over.
    pub fn on_subscribed(&mut self)
        ensures
            final(self)@ == spec_backoff_reset(),
    {
        proof {
            use_type_invariant(&*self);
        }
        self.reconnect_attempts = 0;
        self.current_reconnect_delay_ms = INITIAL_RECONNECT_DELAY_MS;
    }

    /// An attempt failed, or there is no subscription: returns how long to wait before the next
    /// attempt, and counts the failure (which may double the following wait). The waits never
    /// shrink between successes and stay within the initial and the longest wait.
    pub fn on_failure(&mut self) -> (wait_ms: u64)
        requires
            old(self)@.attempts < u32::MAX,
        ensures
            wait_ms == old(self)@.delay_ms,
            final(self)@ == spec_backoff_failure(old(self)@),
            old(self)@.wf(),
            final(self)@.wf(),
            final(self)@.delay_ms >= old(self)@.delay_ms,
            final(self)@.attempts == old(self)@.attempts + 1,
            old(self)@.attempts + 1 < MAX_RECONNECT_ATTEMPTS ==> final(self)@.delay_ms == old(self)@.delay_ms,
            old(self)@.attempts + 1 >= MAX_RECONNECT_ATTEMPTS ==> final(self)@.delay_ms == if old(self)@.delay_ms * 2
                <= MAX_RECONNECT_DELAY_MS {
                old(self)@.delay_ms * 2
            } else {
                MAX_RECONNECT_DELAY_MS as int
            },
    {
        proof {
            use_type_invariant(&*self);
        }
        let wait_ms = self.current_reconnect_delay_ms;
        self.reconnect_attempts = self.reconnect_attempts + 1;
        if self.reconnect_attempts >= MAX_RECONNECT_ATTEMPTS {
            let doubled = self.current_reconnect_delay_ms * 2;
            self.current_reconnect_delay_ms = if doubled <= MAX_RECONNECT_DELAY_MS {
                doubled
            } else {
                MAX_RECONNECT_DELAY_MS
            };
        }
        wait_ms
    }
}

/// After `n` failures in a row the wait is the initial one while fewer than
/// `MAX_RECONNECT_ATTEMPTS` failures are counted, and from then on it doubles with each failure
/// until it reaches the longest wait.
pub proof fn lemma_backoff_after_failures(n: nat)
    requires
        n < u32::MAX,
    ensures
        spec_backoff_after_failures(n).attempts == n,
        spec_backoff_after_failures(n).wf(),
        n < MAX_RECONNECT_ATTEMPTS ==> spec_backoff_after_failures(n).delay_ms == INITIAL_RECONNECT_DELAY_MS,
        n >= MAX_RECONNECT_ATTEMPTS ==> spec_backoff_after_failures(n).delay_ms == if INITIAL_RECONNECT_DELAY_MS
            * pow2((n - 4) as nat) <= MAX_RECONNECT_DELAY_MS {
            INITIAL_RECONNECT_DELAY_MS * pow2((n - 4) as nat)
        } else {
            MAX_RECONNECT_DELAY_MS as int
        },
    decreases n,
{
    if n > 0 {
        lemma_backoff_after_failures((n - 1) as nat);
        if n >= MAX_RECONNECT_ATTEMPTS {
            let e = (n - 4) as nat;
            lemma_pow2_unfold(e);
            lemma_pow2_pos((e - 1) as nat);
            if n == MAX_RECONNECT_ATTEMPTS {
                assert(pow2(0) == 1) by {
                    vstd::arithmetic::power2::lemma2_to64();
                }
            }
        }
    }
}

/// What the log stream gave while waiting for the next message.
#[derive(Clone, Copy, Debug, PartialEq, Eq, Structural)]
pub enum StreamEvent {
    /// A log message arrived.
    Message,
    /// The stream ended.
    Ended,
    /// No message came in time: the connection is taken to be stalled.
    TimedOut,
}

/// What to do with the subscription after a stream event.
#[derive(Clone, Copy, Debug, PartialEq, Eq, Structural)]
pub enum StreamAction {
    /// Hand the message on and keep the subscription.
    Forward,
    /// Close the subscription and connect again.
    CloseAndReconnect,
}

/// The log subscription task's state: whether a subscription is active, and the reconnection
/// back-off.
pub struct LogSubscription {
    active: bool,
    backoff: ReconnectBackoff,
}

pub ghost struct LogSubscriptionView {
    pub active: bool,
    pub backoff: ReconnectBackoffView,
}

impl View for LogSubscription {
    type V = LogSubscriptionView;

    closed spec fn view(&self) -> LogSubscriptionView {
        LogSubscriptionView { active: self.active, backoff: self.backoff@ }
    }
}

impl LogSubscription {
    /// No subscription yet, the back-off at its start.
    pub fn new() -> (s: LogSubscription)
        ensures
            s@ == (LogSubscriptionView { active: false, backoff: spec_backoff_reset() }),
    {
        LogSubscription { active: false, backoff: ReconnectBackoff::new() }
    }

    /// Whether a subscription is active.
    pub fn is_active(&self) -> (b: bool)
        ensures
            b == self@.active,
    {
        self.active
    }

    /// The number of failed attempts in a row.
    pub fn reconnect_attempts(&self) -> (n: u32)
        ensures
            n == self@.backoff.attempts,
    {
        self.backoff.reconnect_attempts()
    }

    /// Shutdown was asked for: the task stops, closing the active subscription if there is one.
    /// Returns whether there was one to close.
    pub fn on_shutdown(&mut self) -> (close_active: bool)
        ensures
            close_active == old(self)@.active,
            close_active == closes_subscription(old(self)@, SubscriptionEvent::Shutdown),
            final(self)@ == (LogSubscriptionView { active: false, backoff: old(self)@.backoff }),
            final(self)@ == spec_subscription_step(old(self)@, SubscriptionEvent::Shutdown),
    {
        let close_active = self.active;
        self.active = false;
        close_active
    }

    /// The result of an attempt to connect and subscribe, made while no subscription is active:
    /// a success makes the subscription active and starts the back-off over; a failure changes
    /// nothing yet.
    pub fn on_subscribe_result(&mut self, subscribed: bool)
        requires
            !old(self)@.active,
        ensures
            subscribed ==> final(self)@ == (LogSubscriptionView { active: true, backoff: spec_backoff_reset() }),
            !subscribed ==> final(self)@ == old(self)@,
            final(self)@ == spec_subscription_step(old(self)@, SubscriptionEvent::SubscribeResult(subscribed)),
    {
        if subscribed {
            self.active = true;
            self.backoff.on_subscribed();
        }
    }

    /// What the active subscription's stream gave: a message is handed on; an ended or stalled
    /// stream is closed and connected again, which does not count as a failed attempt.
    pub fn on_stream_event(&mut self, event: StreamEvent) -> (action: StreamAction)
        requires
            old(self)@.active,
        ensures
            event == StreamEvent::Message ==> action == StreamAction::Forward && final(self)@ == old(self)@,
            event != StreamEvent::Message ==> action == StreamAction::CloseAndReconnect && final(self)@ == (
            LogSubscriptionView { active: false, backoff: old(self)@.backoff }),
            (action == StreamAction::CloseAndReconnect) == closes_subscription(old(self)@, SubscriptionEvent::Stream(event)),
            final(self)@ == spec_subscription_step(old(self)@, SubscriptionEvent::Stream(event)),
    {
        match event {
            StreamEvent::Message => StreamAction::Forward,
            _ => {
                self.active = false;
                StreamAction::CloseAndReconnect
            },
        }
    }

    /// No subscription is active after an attempt: counts a failed attempt and returns how long
    /// to wait before the next one.
    pub fn on_no_subscription(&mut self) -> (wait_ms: u64)
        requires
            !old(self)@.active,
            old(self)@.backoff.attempts < u32::MAX,
        ensures
            wait_ms == old(self)@.backoff.delay_ms,
            final(self)@ == (LogSubscriptionView { active: false, backoff: spec_backoff_failure(old(self)@.backoff) }),
            final(self)@ == spec_subscription_step(old(self)@, SubscriptionEvent::NoSubscription),
            final(self)@.backoff.wf(),
    {
        self.backoff.on_failure()
    }
}

/// One step of the subscription task, as its methods take them.
pub ghost enum SubscriptionEvent {
    /// `on_shutdown`.
    Shutdown,
    /// `on_subscribe_result`, with whether the attempt subscribed.
    SubscribeResult(bool),
    /// `on_stream_event`.
    Stream(StreamEvent),
    /// `on_no_subscription`.
    NoSubscription,
}

/// The step may be taken in this state: an attempt to subscribe, or a wait after one, only
/// without an active subscription; a stream event only with one.
pub open spec fn subscription_event_allowed(v: LogSubscriptionView, e: SubscriptionEvent) -> bool {
    match e {
        SubscriptionEvent::Shutdown => true,
        SubscriptionEvent::SubscribeResult(_) => !v.active,
        SubscriptionEvent::Stream(_) => v.active,
        SubscriptionEvent::NoSubscription => !v.active,
    }
}

/// The state after a step.
pub open spec fn spec_subscription_step(v: LogSubscriptionView, e: SubscriptionEvent) -> LogSubscriptionView {
    match e {
        SubscriptionEvent::Shutdown => LogSubscriptionView { active: false, backoff: v.backoff },
        SubscriptionEvent::SubscribeResult(ok) => if ok {
            LogSubscriptionView { active: true, backoff: spec_backoff_reset() }
        } else {
            v
        },
        SubscriptionEvent::Stream(ev) => if ev == StreamEvent::Message {
            v
        } else {
            LogSubscriptionView { active: false, backoff: v.backoff }
        },
        SubscriptionEvent::NoSubscription => LogSubscriptionView {
            active: false,
            backoff: spec_backoff_failure(v.backoff),
        },
    }
}

/// The step obtains a subscription.
pub open spec fn opens_subscription(e: SubscriptionEvent) -> bool {
    e == SubscriptionEvent::SubscribeResult(true)
}

/// The step closes the active subscription (unsubscribes).
pub open spec fn closes_subscription(v: LogSubscriptionView, e: SubscriptionEvent) -> bool {
    v.active && match e {
        SubscriptionEvent::Shutdown => true,
        SubscriptionEvent::Stream(ev) => ev != StreamEvent::Message,
        _ => false,
    }
}

/// The state after a run of steps.
pub open spec fn spec_subscription_run(v: LogSubscriptionView, evs: Seq<SubscriptionEvent>) -> LogSubscriptionView
    decreases evs.len(),
{
    if evs.len() == 0 {
        v
    } else {
        spec_subscription_step(spec_subscription_run(v, evs.drop_last()), evs.last())
    }
}

/// Every step of the run may be taken in the state it is taken in.
pub open spec fn subscription_run_allowed(v: LogSubscriptionView, evs: Seq<SubscriptionEvent>) -> bool
    decreases evs.len(),
{
    evs.len() == 0 || (subscription_run_allowed(v, evs.drop_last()) && subscription_event_allowed(
        spec_subscription_run(v, evs.drop_last()),
        evs.last(),
    ))
}

/// The number of subscriptions obtained in a run.
pub open spec fn subscriptions_opened(v: LogSubscriptionView, evs: Seq<SubscriptionEvent>) -> nat
    decreases evs.len(),
{
    if evs.len() == 0 {
        0
    } else {
        subscriptions_opened(v, evs.drop_last()) + if opens_subscription(evs.last()) {
            1nat
        } else {
            0nat
        }
    }
}

/// The number of subscriptions closed in a run.
pub open spec fn subscriptions_closed(v: LogSubscriptionView, evs: Seq<SubscriptionEvent>) -> nat
    decreases evs.len(),
{
    if evs.len() == 0 {
        0
    } else {
        subscriptions_closed(v, evs.drop_last()) + if closes_subscription(
            spec_subscription_run(v, evs.drop_last()),
            evs.last(),
        ) {
            1nat
        } else {
            0nat
        }
    }
}

/// In a run of the task from no subscription, at most one subscription is active at a time:
/// the subscriptions obtained are those closed, plus the active one if there is one. So each
/// subscription is closed at most once, every subscription is closed before another is
/// obtained, and after a shutdown every subscription obtained has been closed.
pub proof fn lemma_one_subscription_at_a_time(v: LogSubscriptionView, evs: Seq<SubscriptionEvent>)
    requires
        !v.active,
        subscription_run_allowed(v, evs),
    ensures
        subscriptions_opened(v, evs) == subscriptions_closed(v, evs) + if spec_subscription_run(
            v,
            evs,
        ).active {
            1nat
        } else {
            0nat
        },
        forall|k: int|
            0 <= k < evs.len() && opens_subscription(#[trigger] evs[k]) ==> subscriptions_opened(v, evs.take(k))
                == subscriptions_closed(v, evs.take(k)),
        evs.len() > 0 && evs.last() == SubscriptionEvent::Shutdown ==> subscriptions_opened(v, evs)
            == subscriptions_closed(v, evs),
    decreases evs.len(),
{
    if evs.len() > 0 {
        lemma_one_subscription_at_a_time(v, evs.drop_last());
        assert forall|k: int| 0 <= k < evs.len() && opens_subscription(#[trigger] evs[k]) implies subscriptions_opened(
            v,
            evs.take(k),
        ) == subscriptions_closed(v, evs.take(k)) by {
            if k < evs.len() - 1 {
                assert(evs.drop_last()[k] == evs[k]);
                assert(evs.drop_last().take(k) =~= evs.take(k));
            } else {
                assert(evs.take(k) =~= evs.drop_last());
            }
        }
    }
}

/// The WebSocket endpoint that goes with an RPC endpoint: every `https` in the URL becomes `wss`.
pub fn websocket_url(rpc_url: &str) -> (ws_url: String)
    ensures
        ws_url@ == spec_replace(rpc_url@, "https"@, "wss"@),
        !spec_contains(rpc_url@, "https"@) ==> ws_url@ == rpc_url@,
        rpc_url@.len() >= 5 && rpc_url@.take(5) == "https"@ ==> ws_url@ == "wss"@ + spec_replace(
            rpc_url@.skip(5),
            "https"@,
            "wss"@,
        ),
{
    proof {
        reveal_strlit("https");
        if !spec_contains(rpc_url@, "https"@) {
            lemma_replace_absent(rpc_url@, "https"@, "wss"@);
        }
        if rpc_url@.len() >= 5 && rpc_url@.take(5) == "https"@ {
            lemma_replace_leading("https"@, "wss"@, rpc_url@.skip(5));
            assert("https"@ + rpc_url@.skip(5) =~= rpc_url@);
        }
    }
    replace_all(rpc_url, "https", "wss")
}

} // verus!
