//! The decisions of the periodic dispatch loop.
//!
//! The loop itself waits for a timer and talks to the network; neither
//! happens here. This module holds what the loop decides: given where it
//! stands and what just happened, where it stands next and what is to be done.

use vstd::prelude::*;
use vstd::string::StringSliceAdditionalSpecFns;
use vstd::string::StrSliceExecFns;
use crate::address::decimal_value;

verus! {

/// Time between two ticks, in milliseconds.
pub const TICK_PERIOD_MS: u64 = 1000;

/// Time before the first tick, in nanoseconds.
pub const START_OFFSET_NS: u64 = 1000;

/// The mailbox is drained after every send whose count is a multiple of this.
pub const RETRIEVE_EVERY: u64 = 3;

/// Where the loop stands.
#[derive(Clone, Copy, Debug, PartialEq, Eq, Structural)]
pub enum Phase {
    /// Waiting for the next tick.
    Idle,
    /// A tick fired; payload, route, destination and delays are being made.
    Building,
    /// The packet is being built and sent to the first hop.
    Sending,
    /// A mailbox drain is due: first one more tick is waited for (`waited` is
    /// false), then the provider is asked (`waited` is true).
    MaybeRetrieving { waited: bool },
}

/// What happened outside.
#[derive(Clone, Copy, Debug, PartialEq, Eq, Structural)]
pub enum Event {
    /// The timer fired.
    Tick,
    /// Payload, route, destination and delays are there.
    Prepared,
    /// No route could be built.
    RouteFailed,
    /// The packet could not be built.
    PacketFailed,
    /// The send to the first hop ended.
    SendDone { delivered: bool },
    /// The mailbox retrieval ended.
    RetrieveDone { retrieved: bool },
}

/// What is to be done next.
#[derive(Clone, Copy, Debug, PartialEq, Eq, Structural)]
pub enum Action {
    /// Wait for the timer.
    AwaitTick,
    /// Make the payload of this index, a route, the destination and delays.
    Build { index: u64 },
    /// Build the packet and send it to the first hop of its route.
    Send,
    /// Drain the mailbox at the provider.
    Retrieve,
    /// The event does not belong to the phase; nothing changes.
    Ignore,
}

/// A failure that is reported while the loop goes on.
#[derive(Clone, Copy, Debug, PartialEq, Eq, Structural)]
pub enum Failure {
    Route,
    Packet,
    Send,
    Retrieve,
}

/// The answer to one event.
#[derive(Clone, Copy, Debug, PartialEq, Eq, Structural)]
pub struct Decision {
    pub action: Action,
    pub report: Option<Failure>,
}

/// The state of the loop: its phase and the number of sends that have ended.
#[derive(Clone, Copy, Debug, PartialEq, Eq, Structural)]
pub struct Dispatcher {
    pub phase: Phase,
    pub sent: u64,
}

/// The phase that follows a send after which `sent` sends have ended.
pub open spec fn phase_after_send(sent: u64) -> Phase {
    if sent % 3 == 0 {
        Phase::MaybeRetrieving { waited: false }
    } else {
        Phase::Idle
    }
}

/// The state that follows `d` on `event`, and what is to be done.
pub open spec fn next(d: Dispatcher, event: Event) -> (Dispatcher, Decision) {
    match (d.phase, event) {
        (Phase::Idle, Event::Tick) => (
            Dispatcher { phase: Phase::Building, sent: d.sent },
            Decision { action: Action::Build { index: d.sent }, report: None },
        ),
        (Phase::Building, Event::Prepared) => (
            Dispatcher { phase: Phase::Sending, sent: d.sent },
            Decision { action: Action::Send, report: None },
        ),
        (Phase::Building, Event::RouteFailed) => (
            Dispatcher { phase: Phase::Idle, sent: d.sent },
            Decision { action: Action::AwaitTick, report: Some(Failure::Route) },
        ),
        (Phase::Sending, Event::PacketFailed) => (
            Dispatcher { phase: Phase::Idle, sent: d.sent },
            Decision { action: Action::AwaitTick, report: Some(Failure::Packet) },
        ),
        (Phase::Sending, Event::SendDone { delivered }) => (
            Dispatcher {
                phase: phase_after_send((d.sent + 1) as u64),
                sent: (d.sent + 1) as u64,
            },
            Decision {
                action: Action::AwaitTick,
                report: if delivered {
                    None
                } else {
                    Some(Failure::Send)
                },
            },
        ),
        (Phase::MaybeRetrieving { waited: false }, Event::Tick) => (
            Dispatcher { phase: Phase::MaybeRetrieving { waited: true }, sent: d.sent },
            Decision { action: Action::Retrieve, report: None },
        ),
        (Phase::MaybeRetrieving { waited: true }, Event::RetrieveDone { retrieved }) => (
            Dispatcher { phase: Phase::Idle, sent: d.sent },
            Decision {
                action: Action::AwaitTick,
                report: if retrieved {
                    None
                } else {
                    Some(Failure::Retrieve)
                },
            },
        ),
        _ => (d, Decision { action: Action::Ignore, report: None }),
    }
}

/// The state after a run of events.
pub open spec fn run(d: Dispatcher, events: Seq<Event>) -> Dispatcher
    decreases events.len(),
{
    if events.len() == 0 {
        d
    } else {
        next(run(d, events.drop_last()), events.last()).0
    }
}

/// The number of mailbox drains that a run of events asks for.
pub open spec fn retrievals(d: Dispatcher, events: Seq<Event>) -> nat
    decreases events.len(),
{
    if events.len() == 0 {
        0
    } else {
        let before = run(d, events.drop_last());
        retrievals(d, events.drop_last()) + if next(before, events.last()).1.action
            == Action::Retrieve {
            1nat
        } else {
            0nat
        }
    }
}

impl Dispatcher {
    /// The loop before its first tick: idle, nothing sent.
    pub fn new() -> (d: Dispatcher)
        ensures
            d == (Dispatcher { phase: Phase::Idle, sent: 0 }),
    {
        Dispatcher { phase: Phase::Idle, sent: 0 }
    }

    /// Takes one event and says what is to be done.
    ///
    /// A failure to find a route, to build the packet, to send it or to drain
    /// the mailbox is reported and the loop goes on with the next tick. The
    /// count of sends grows with every send that ended, delivered or not; when
    /// it reaches a multiple of three, one more tick is waited for and the
    /// mailbox is drained. A tick that got no packet out is not counted.
    pub fn step(&mut self, event: Event) -> (decision: Decision)
        requires
            old(self).phase == Phase::Sending && event is SendDone ==> old(self).sent < u64::MAX,
        ensures
            *final(self) == next(*old(self), event).0,
            decision == next(*old(self), event).1,
    {
        match (self.phase, event) {
            (Phase::Idle, Event::Tick) => {
                self.phase = Phase::Building;
                Decision { action: Action::Build { index: self.sent }, report: None }
            },
            (Phase::Building, Event::Prepared) => {
                self.phase = Phase::Sending;
                Decision { action: Action::Send, report: None }
            },
            (Phase::Building, Event::RouteFailed) => {
                self.phase = Phase::Idle;
                Decision { action: Action::AwaitTick, report: Some(Failure::Route) }
            },
            (Phase::Sending, Event::PacketFailed) => {
                self.phase = Phase::Idle;
                Decision { action: Action::AwaitTick, report: Some(Failure::Packet) }
            },
            (Phase::Sending, Event::SendDone { delivered }) => {
                self.sent = self.sent + 1;
                self.phase = if self.sent % RETRIEVE_EVERY == 0 {
                    Phase::MaybeRetrieving { waited: false }
                } else {
                    Phase::Idle
                };
                Decision {
                    action: Action::AwaitTick,
                    report: if delivered {
                        None
                    } else {
                        Some(Failure::Send)
                    },
                }
            },
            (Phase::MaybeRetrieving { waited: false }, Event::Tick) => {
                self.phase = Phase::MaybeRetrieving { waited: true };
                Decision { action: Action::Retrieve, report: None }
            },
            (Phase::MaybeRetrieving { waited: true }, Event::RetrieveDone { retrieved }) => {
                self.phase = Phase::Idle;
                Decision {
                    action: Action::AwaitTick,
                    report: if retrieved {
                        None
                    } else {
                        Some(Failure::Retrieve)
                    },
                }
            },
            _ => Decision { action: Action::Ignore, report: None },
        }
    }
}

/// The decimal digits of a number, as text.
pub open spec fn decimal_text(n: nat) -> Seq<u8>
    decreases n,
{
    if n < 10 {
        seq![(48 + n) as u8]
    } else {
        decimal_text(n / 10).push((48 + n % 10) as u8)
    }
}

/// The payload of the packet with this index: a greeting and the index.
pub open spec fn payload_bytes(index: nat) -> Seq<u8> {
    "Hello, Sphinx ".spec_bytes() + decimal_text(index)
}

fn push_decimal(out: &mut Vec<u8>, n: u64)
    ensures
        final(out)@ == old(out)@ + decimal_text(n as nat),
    decreases n,
{
    if n >= 10 {
        push_decimal(out, n / 10);
    }
    out.push(48 + (n % 10) as u8);
    assert(final(out)@ =~= old(out)@ + decimal_text(n as nat));
}

/// Builds the payload of the packet with this index.
pub fn payload(index: u64) -> (r: Vec<u8>)
    ensures
        r@ == payload_bytes(index as nat),
{
    let mut out: Vec<u8> = "Hello, Sphinx ".as_bytes_vec();
    push_decimal(&mut out, index);
    out
}

/// Reading the decimal text of a number gives the number back.
pub proof fn law_decimal_text_reads_back(n: nat)
    ensures
        decimal_value(decimal_text(n)) == n,
    decreases n,
{
    if n < 10 {
        assert(decimal_text(n).drop_last() =~= Seq::<u8>::empty());
        assert(decimal_value(Seq::<u8>::empty()) == 0);
    } else {
        law_decimal_text_reads_back(n / 10);
        assert(decimal_text(n).drop_last() =~= decimal_text(n / 10));
    }
}

/// One if a drain is due and its tick has not come yet, else zero.
pub open spec fn drain_pending(d: Dispatcher) -> nat {
    if d.phase == (Phase::MaybeRetrieving { waited: false }) {
        1
    } else {
        0
    }
}

/// Whatever events arrive, in whatever order, the drains asked for so far are
/// one for every third send that ended, the one still waiting for its tick
/// left out; and a drain is only ever due right after such a send.
pub proof fn law_one_drain_per_three_sends(events: Seq<Event>)
    requires
        events.len() < u64::MAX,
    ensures
        run(Dispatcher { phase: Phase::Idle, sent: 0 }, events).sent <= events.len(),
        retrievals(Dispatcher { phase: Phase::Idle, sent: 0 }, events) + drain_pending(
            run(Dispatcher { phase: Phase::Idle, sent: 0 }, events),
        ) == run(Dispatcher { phase: Phase::Idle, sent: 0 }, events).sent / 3,
        run(Dispatcher { phase: Phase::Idle, sent: 0 }, events).phase is MaybeRetrieving ==> run(
            Dispatcher { phase: Phase::Idle, sent: 0 },
            events,
        ).sent % 3 == 0,
    decreases events.len(),
{
    if events.len() > 0 {
        law_one_drain_per_three_sends(events.drop_last());
    }
}

/// A send that failed moves the loop on exactly as one that was delivered:
/// the count grows, the next tick is waited for, and only the report differs.
pub proof fn law_failed_send_goes_on(d: Dispatcher)
    requires
        d.phase == Phase::Sending,
    ensures
        next(d, Event::SendDone { delivered: false }).0 == next(
            d,
            Event::SendDone { delivered: true },
        ).0,
        next(d, Event::SendDone { delivered: false }).1.action == Action::AwaitTick,
        next(d, Event::SendDone { delivered: false }).1.report == Some(Failure::Send),
{
}

/// Whatever is reported, the loop waits for the next tick: no failure ends it.
pub proof fn law_failures_are_survived(d: Dispatcher, event: Event)
    requires
        next(d, event).1.report is Some,
    ensures
        next(d, event).1.action == Action::AwaitTick,
        next(d, event).0.phase == Phase::Idle || next(d, event).0.phase == (Phase::MaybeRetrieving {
            waited: false,
        }),
{
}

/// No state is terminal: in every state some event moves the loop on.
pub proof fn law_no_terminal_state(d: Dispatcher)
    ensures
        exists|event: Event| #[trigger] next(d, event).1.action != Action::Ignore,
{
    match d.phase {
        Phase::Idle => {
            assert(next(d, Event::Tick).1.action != Action::Ignore);
        },
        Phase::Building => {
            assert(next(d, Event::Prepared).1.action != Action::Ignore);
        },
        Phase::Sending => {
            assert(next(d, Event::SendDone { delivered: true }).1.action != Action::Ignore);
        },
        Phase::MaybeRetrieving { waited: false } => {
            assert(next(d, Event::Tick).1.action != Action::Ignore);
        },
        Phase::MaybeRetrieving { waited: true } => {
            assert(next(d, Event::RetrieveDone { retrieved: true }).1.action != Action::Ignore);
        },
    }
}

} // verus!
