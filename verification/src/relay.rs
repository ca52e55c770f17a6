//! The decisions of the relay loop.
//!
//! The loop itself waits on a transport, a timer, a cancellation signal and
//! a request handler, and belongs to the caller. After each of these it asks
//! the engine what follows. One round of the loop is: [`Relay::housekeeping`],
//! then the wait and [`Relay::on_event`], then, where a request was
//! dispatched, the handler and [`Relay::on_handled`], then
//! [`Relay::discovery_frame`], then the pacing pause.

use crate::protocol::{
    originated, padded_payload, wire_bytes, Command, PFPRequest, RequestView, FRAME_SIZE,
};
use crate::protocol_parser::{decoded, lemma_decode_encode, parse, DecodeError};
use crate::registry::{expired_addrs, swept, DeviceRegistry};
use vstd::prelude::*;

verus! {

/// Time between two sweeps of the liveness table, in milliseconds.
pub const SWEEP_INTERVAL_MS: u64 = 60_000;

/// Silence after which a device is evicted, in milliseconds.
pub const LIVENESS_WINDOW_MS: u64 = 60_000;

/// Period of the tick that ends a wait without a frame, in milliseconds.
pub const TICK_INTERVAL_MS: u64 = 1_000;

/// Pause at the end of each round, in milliseconds.
pub const PACING_INTERVAL_MS: u64 = 1_000;

/// What ended the wait of a round, or went wrong on the transport.
#[derive(Debug, PartialEq, Eq)]
pub enum RelayEvent {
    /// The cancellation signal fired, or its channel was closed.
    Cancelled,
    /// The tick fired before a frame arrived.
    Tick,
    /// A frame arrived, delimiter included.
    Frame(Vec<u8>),
    /// A read or a write of the transport failed.
    TransportFailed,
}

/// What the loop does after an event.
#[derive(Debug, PartialEq, Eq)]
pub enum Reaction {
    /// Ends the loop without an error.
    Stop,
    /// Ends the loop with the error of the transport.
    Fail,
    /// Hands the request to the handler and reports back how that went.
    Dispatch(PFPRequest),
    /// Drops the frame, which is no request, and goes on with the round.
    Discard(DecodeError),
    /// Goes on with the round.
    Proceed,
}

/// Model of a [`RelayEvent`].
pub enum EventView {
    Cancelled,
    Tick,
    Frame(Seq<u8>),
    TransportFailed,
}

/// Model of a [`Reaction`].
pub enum ReactionView {
    Stop,
    Fail,
    Dispatch(RequestView),
    Discard(DecodeError),
    Proceed,
}

impl View for RelayEvent {
    type V = EventView;

    open spec fn view(&self) -> EventView {
        match self {
            RelayEvent::Cancelled => EventView::Cancelled,
            RelayEvent::Tick => EventView::Tick,
            RelayEvent::Frame(bytes) => EventView::Frame(bytes@),
            RelayEvent::TransportFailed => EventView::TransportFailed,
        }
    }
}

impl View for Reaction {
    type V = ReactionView;

    open spec fn view(&self) -> ReactionView {
        match self {
            Reaction::Stop => ReactionView::Stop,
            Reaction::Fail => ReactionView::Fail,
            Reaction::Dispatch(request) => ReactionView::Dispatch(request@),
            Reaction::Discard(error) => ReactionView::Discard(*error),
            Reaction::Proceed => ReactionView::Proceed,
        }
    }
}

/// Model of the engine.
pub struct RelayView {
    /// Address under which the bridge sends its own requests.
    pub id: u32,
    /// False once the loop has ended.
    pub running: bool,
    /// The liveness table.
    pub devices: Map<u32, u64>,
    /// Time of the last sweep, or of the start where none was made yet.
    pub last_sweep: u64,
}

impl RelayView {
    /// A sweep is due at `now`.
    pub open spec fn sweep_due(self, now: u64) -> bool {
        self.running && now - self.last_sweep >= SWEEP_INTERVAL_MS
    }

    /// The engine after the housekeeping of a round that starts at `now`.
    pub open spec fn after_housekeeping(self, now: u64) -> RelayView {
        if self.sweep_due(now) {
            RelayView {
                devices: swept(self.devices, now, LIVENESS_WINDOW_MS),
                last_sweep: now,
                ..self
            }
        } else {
            self
        }
    }

    /// The addresses that the housekeeping of a round that starts at `now`
    /// evicts.
    pub open spec fn evicted_by_housekeeping(self, now: u64) -> Set<u32> {
        if self.sweep_due(now) {
            expired_addrs(self.devices, now, LIVENESS_WINDOW_MS)
        } else {
            Set::empty()
        }
    }

    /// What the loop does after `event`.
    pub open spec fn reaction_to(self, event: EventView) -> ReactionView {
        if !self.running {
            ReactionView::Stop
        } else {
            match event {
                EventView::Cancelled => ReactionView::Stop,
                EventView::TransportFailed => ReactionView::Fail,
                EventView::Tick => ReactionView::Proceed,
                EventView::Frame(bytes) => match decoded(bytes) {
                    Ok((request, _)) => ReactionView::Dispatch(request),
                    Err(error) => ReactionView::Discard(error),
                },
            }
        }
    }

    /// The engine after `event`: cancellation and a failed transport end
    /// the loop, nothing else changes anything.
    pub open spec fn after_event(self, event: EventView) -> RelayView {
        match event {
            EventView::Cancelled | EventView::TransportFailed => RelayView {
                running: false,
                ..self
            },
            _ => self,
        }
    }

    /// The engine after the handler is done with a request from
    /// `source_addr`: its success refreshes the device, its failure ends the
    /// loop.
    pub open spec fn after_handled(self, source_addr: u32, succeeded: bool, now: u64) -> RelayView {
        if !self.running {
            self
        } else if succeeded {
            RelayView { devices: self.devices.insert(source_addr, now), ..self }
        } else {
            RelayView { running: false, ..self }
        }
    }

    /// The frame that a round ends with: a discovery request, sent while the
    /// loop runs and no device is known.
    pub open spec fn discovery(self) -> Option<Seq<u8>> {
        if self.running && self.devices.dom() == Set::<u32>::empty() {
            Some(wire_bytes(originated(Command::HeloP, self.id, padded_payload(Seq::empty()))))
        } else {
            None
        }
    }
}

/// A frame that is no request stops nothing: the engine is left as it was,
/// and the next frame that holds a request is dispatched as that request.
pub proof fn lemma_bad_frame_is_dropped(relay: RelayView, bad: Seq<u8>, good: Seq<u8>)
    requires
        relay.running,
        decoded(bad) is Err,
        decoded(good) is Ok,
    ensures
        relay.reaction_to(EventView::Frame(bad)) == ReactionView::Discard(decoded(bad)->Err_0),
        relay.after_event(EventView::Frame(bad)) == relay,
        relay.after_event(EventView::Frame(bad)).reaction_to(EventView::Frame(good))
            == ReactionView::Dispatch(decoded(good)->Ok_0.0),
{
}

/// A round ends with a discovery frame exactly while the loop runs and no
/// device is known, and the frame is the encoded discovery request of the
/// bridge.
pub proof fn lemma_discovery_while_alone(relay: RelayView)
    ensures
        relay.discovery() is Some <==> relay.running && relay.devices.dom() == Set::<u32>::empty(),
        relay.discovery() matches Some(frame) ==> frame.len() == FRAME_SIZE && decoded(frame)
            == Ok::<(RequestView, Seq<u8>), DecodeError>(
            (originated(Command::HeloP, relay.id, padded_payload(Seq::empty())), Seq::empty()),
        ),
{
    let request = originated(Command::HeloP, relay.id, padded_payload(Seq::empty()));
    lemma_decode_encode(request, Seq::empty());
    assert(wire_bytes(request) + Seq::<u8>::empty() =~= wire_bytes(request));
}

/// Once a handler has succeeded, the device it heard from is known and no
/// discovery frame is sent, until a sweep has emptied the table again.
pub proof fn lemma_no_discovery_after_touch(relay: RelayView, source_addr: u32, now: u64)
    requires
        relay.running,
    ensures
        relay.after_handled(source_addr, true, now).devices.contains_key(source_addr),
        relay.after_handled(source_addr, true, now).discovery() is None,
        forall|event: EventView| #[trigger]
            relay.after_handled(source_addr, true, now).after_event(event).discovery() is None,
        forall|later: u64| #[trigger]
            relay.after_handled(source_addr, true, now).after_housekeeping(later).discovery()
                is Some ==> later - now > LIVENESS_WINDOW_MS,
{
    let touched = relay.after_handled(source_addr, true, now);
    assert(touched.devices.dom().contains(source_addr));
    assert forall|event: EventView| #[trigger] touched.after_event(event).discovery() is None by {
        assert(touched.after_event(event).devices.dom().contains(source_addr));
    }
    assert forall|later: u64| #[trigger]
        touched.after_housekeeping(later).discovery() is Some implies later - now
        > LIVENESS_WINDOW_MS by {
        if later - now <= LIVENESS_WINDOW_MS {
            assert(touched.after_housekeeping(later).devices.dom().contains(source_addr));
        }
    }
}

/// Cancellation ends the loop without an error, whatever the engine was
/// doing.
pub proof fn lemma_cancellation_stops(relay: RelayView)
    ensures
        relay.reaction_to(EventView::Cancelled) == ReactionView::Stop,
        !relay.after_event(EventView::Cancelled).running,
{
}

/// An engine that has stopped stays stopped: it sweeps nothing, dispatches
/// nothing, takes in no handler result and sends no discovery frame.
pub proof fn lemma_stopped_is_final(
    relay: RelayView,
    event: EventView,
    source_addr: u32,
    succeeded: bool,
    now: u64,
)
    requires
        !relay.running,
    ensures
        relay.after_housekeeping(now) == relay,
        relay.evicted_by_housekeeping(now) == Set::<u32>::empty(),
        relay.reaction_to(event) == ReactionView::Stop,
        !relay.after_event(event).running,
        relay.after_handled(source_addr, succeeded, now) == relay,
        relay.discovery() is None,
{
}

/// A handler that fails ends the loop and leaves the liveness table alone.
pub proof fn lemma_handler_failure_stops(relay: RelayView, source_addr: u32, now: u64)
    ensures
        !relay.after_handled(source_addr, false, now).running,
        relay.after_handled(source_addr, false, now).devices == relay.devices,
{
}

/// The engine of one relay loop: whether it runs, which devices are alive,
/// and when the liveness table was last swept.
pub struct Relay {
    id: u32,
    running: bool,
    devices: DeviceRegistry,
    last_sweep: u64,
}

impl View for Relay {
    type V = RelayView;

    closed spec fn view(&self) -> RelayView {
        RelayView {
            id: self.id,
            running: self.running,
            devices: self.devices@,
            last_sweep: self.last_sweep,
        }
    }
}

impl Relay {
    /// A running engine for the bridge with address `id`, started at `now`,
    /// that knows no device.
    pub fn new(id: u32, now: u64) -> (relay: Self)
        ensures
            relay@ == (RelayView {
                id,
                running: true,
                devices: Map::<u32, u64>::empty(),
                last_sweep: now,
            }),
    {
        Relay { id, running: true, devices: DeviceRegistry::new(), last_sweep: now }
    }

    /// The address under which the bridge sends its own requests.
    pub fn id(&self) -> (id: u32)
        ensures
            id == self@.id,
    {
        self.id
    }

    /// Whether the loop goes on.
    pub fn is_running(&self) -> (running: bool)
        ensures
            running == self@.running,
    {
        self.running
    }

    /// The liveness table.
    pub fn devices(&self) -> (devices: &DeviceRegistry)
        ensures
            devices@ == self@.devices,
    {
        &self.devices
    }

    /// Opens a round at `now`: once the sweep interval has passed since the
    /// last sweep, evicts the devices that have been silent for longer than
    /// the liveness window. Returns the addresses evicted.
    pub fn housekeeping(&mut self, now: u64) -> (evicted: Vec<u32>)
        ensures
            final(self)@ == old(self)@.after_housekeeping(now),
            evicted@.to_set() == old(self)@.evicted_by_housekeeping(now),
            evicted@.no_duplicates(),
    {
        if self.running && now >= self.last_sweep && now - self.last_sweep >= SWEEP_INTERVAL_MS {
            self.last_sweep = now;
            self.devices.sweep(now, LIVENESS_WINDOW_MS)
        } else {
            let evicted: Vec<u32> = Vec::new();
            assert(evicted@.to_set() =~= Set::<u32>::empty());
            evicted
        }
    }

    /// Takes in what ended the wait of a round and says what follows.
    pub fn on_event(&mut self, event: RelayEvent) -> (reaction: Reaction)
        ensures
            reaction@ == old(self)@.reaction_to(event@),
            final(self)@ == old(self)@.after_event(event@),
    {
        let running = self.running;
        match event {
            RelayEvent::Cancelled => {
                self.running = false;
                Reaction::Stop
            },
            RelayEvent::TransportFailed => {
                self.running = false;
                if running {
                    Reaction::Fail
                } else {
                    Reaction::Stop
                }
            },
            RelayEvent::Tick => {
                if running {
                    Reaction::Proceed
                } else {
                    Reaction::Stop
                }
            },
            RelayEvent::Frame(bytes) => {
                if !running {
                    Reaction::Stop
                } else {
                    match parse(bytes.as_slice()) {
                        Ok((request, _)) => Reaction::Dispatch(request),
                        Err(error) => Reaction::Discard(error),
                    }
                }
            },
        }
    }

    /// Takes in how the handler fared with `request` at `now`. Returns
    /// whether the loop goes on.
    pub fn on_handled(&mut self, request: &PFPRequest, succeeded: bool, now: u64) -> (goes_on:
        bool)
        ensures
            final(self)@ == old(self)@.after_handled(request.source_addr, succeeded, now),
            goes_on == final(self)@.running,
    {
        if self.running {
            if succeeded {
                self.devices.touch(request.source_addr, now);
            } else {
                self.running = false;
            }
        }
        self.running
    }

    /// The frame to write at the end of a round, if any.
    pub fn discovery_frame(&self) -> (frame: Option<[u8; FRAME_SIZE]>)
        ensures
            frame is Some <==> self@.discovery() is Some,
            frame matches Some(bytes) ==> self@.discovery() == Some(bytes@),
    {
        if self.running && self.devices.is_empty() {
            Some(PFPRequest::new_helop(self.id).encode())
        } else {
            None
        }
    }
}

} // verus!
