//! The ingestion loop as a state machine: what each event of the loop does
//! to the state of the source, and which broker disposition it calls for.
//! The caller awaits the events and carries out the dispositions.

use crate::config::{AmqpSourceConfig, LogNamespace};
use crate::decode::{answers, decoded_events, event_stream, fields_of_each, DecodeOutcome};
use crate::delivery::{FinalizerEntry, RawDelivery};
use crate::enrich::{enriched, populate_event, Keys, Provenance};
use crate::event::{Datum, LogEvent, Slot};
use crate::finalizer::{
    lemma_registry_stays_well_formed, BatchStatus, Registry, UnorderedFinalizer,
};
use crate::timestamp::{broker_instant, reinterpret_signed, to_signed, Timestamp};
use vstd::prelude::*;

verus! {

/// The disposition to signal to the broker, with the handle to signal it on.
/// The handle is moved in, so a disposition can be carried out once.
#[derive(Debug, PartialEq, Eq)]
pub enum AckAction<H> {
    /// Acknowledge the message: it was delivered.
    Ack(H),
    /// Reject the message: it was not delivered.
    Reject(H),
}

impl<H> AckAction<H> {
    /// The handle that the disposition is to be signalled on.
    pub open spec fn handle(self) -> H {
        match self {
            AckAction::Ack(handle) => handle,
            AckAction::Reject(handle) => handle,
        }
    }
}

/// The disposition that the outcome of a batch calls for: an acknowledgement
/// where the batch was delivered, a rejection in every other case.
pub open spec fn disposition<H>(status: BatchStatus, entry: FinalizerEntry<H>) -> AckAction<H> {
    match status {
        BatchStatus::Delivered => AckAction::Ack(entry.acker),
        BatchStatus::Errored => AckAction::Reject(entry.acker),
        BatchStatus::Rejected => AckAction::Reject(entry.acker),
    }
}

/// Decides how the message behind `entry` is resolved, now that its batch
/// ended with `status`.
pub fn handle_ack<H>(status: BatchStatus, entry: FinalizerEntry<H>) -> (r: AckAction<H>)
    ensures
        r == disposition(status, entry),
{
    match status {
        BatchStatus::Delivered => AckAction::Ack(entry.acker),
        BatchStatus::Errored => AckAction::Reject(entry.acker),
        BatchStatus::Rejected => AckAction::Reject(entry.acker),
    }
}

/// What a delivery contributes to its records under a configuration.
pub open spec fn provenance<H>(config: AmqpSourceConfig, msg: RawDelivery<H>) -> Provenance {
    Provenance {
        routing_key_field: config.routing_key_field@,
        routing: msg.routing_key@,
        exchange_key: config.exchange_key@,
        exchange: msg.exchange@,
        offset_key: config.offset_key@,
        delivery_tag: reinterpret_signed(msg.delivery_tag),
    }
}

/// Whether `after` is `before` enriched at some instant.
pub open spec fn enriched_at_some_instant(
    before: Map<Slot, Datum>,
    after: Map<Slot, Datum>,
    timestamp: Option<Timestamp>,
    keys: Provenance,
    log_namespace: LogNamespace,
) -> bool {
    exists|now: Timestamp| after == #[trigger] enriched(before, timestamp, keys, log_namespace, now)
}

/// Turns what the decoder answered for the payload of `msg` into the records
/// to forward: the records of the decode stream, in decode order, each
/// enriched with the provenance of `msg` at the instant it passes through.
pub fn receive_event<H>(
    config: &AmqpSourceConfig,
    log_namespace: LogNamespace,
    decoded: Vec<DecodeOutcome>,
    msg: &RawDelivery<H>,
) -> (events: Vec<LogEvent>)
    ensures
        events@.len() == decoded_events(answers(decoded@)).len(),
        forall|i: int|
            0 <= i < events@.len() ==> enriched_at_some_instant(
                decoded_events(answers(decoded@))[i],
                (#[trigger] events@[i])@,
                broker_instant(msg.timestamp),
                provenance(*config, *msg),
                log_namespace,
            ),
{
    let timestamp = Timestamp::from_broker(msg.timestamp);
    let keys = Keys {
        routing_key_field: config.routing_key_field.as_str(),
        routing: msg.routing_key.as_str(),
        exchange_key: config.exchange_key.as_str(),
        exchange: msg.exchange.as_str(),
        offset_key: config.offset_key.as_str(),
        delivery_tag: to_signed(msg.delivery_tag),
    };
    let plain = event_stream(decoded);
    let ghost source = fields_of_each(plain@);
    let mut events: Vec<LogEvent> = Vec::new();
    for event in it: plain
        invariant
            it.seq() == plain@,
            source == fields_of_each(plain@),
            keys@ == provenance(*config, *msg),
            timestamp == broker_instant(msg.timestamp),
            events@.len() == it.index(),
            forall|i: int|
                0 <= i < events@.len() ==> enriched_at_some_instant(
                    source[i],
                    (#[trigger] events@[i])@,
                    timestamp,
                    keys@,
                    log_namespace,
                ),
    {
        let mut event = event;
        populate_event(&mut event, timestamp, &keys, log_namespace);
        events.push(event);
    }
    events
}

/// Where the ingestion loop stands.
#[derive(Clone, Copy, Debug, PartialEq, Eq, Structural)]
pub enum LoopState {
    /// The loop awaits the shutdown signal, completions and deliveries.
    Running,
    /// The loop saw the shutdown signal and lets go of what is in flight.
    ShuttingDown,
    /// The loop has exited.
    Terminated,
}

/// What became of the handle of a delivery after its records were handed
/// downstream.
#[derive(Debug, PartialEq, Eq)]
pub enum Forwarded<H> {
    /// The handle waits in the finalizer for the outcome of the batch with
    /// this identity.
    Registered(u64),
    /// Outcomes are not tracked: the message is to be acknowledged now.
    Acknowledge(H),
    /// The records did not get through, or the loop was not running: the
    /// message stays unacknowledged.
    Unacknowledged,
}

/// The source as a mathematical value.
pub struct Source<H> {
    pub state: LoopState,
    /// Whether the loop has ended in failure.
    pub failed: bool,
    /// The batches in flight, where outcomes are tracked.
    pub tracking: Option<Registry<FinalizerEntry<H>>>,
}

impl<H> Source<H> {
    /// The source before its first event.
    pub open spec fn start(acknowledgements: bool) -> Source<H> {
        Source {
            state: LoopState::Running,
            failed: false,
            tracking: if acknowledgements {
                Some(Registry::empty())
            } else {
                None
            },
        }
    }

    /// Whether the loop takes events.
    pub open spec fn running(self) -> bool {
        self.state == LoopState::Running
    }

    /// Whether the batch `id` is in flight.
    pub open spec fn outstanding(self, id: u64) -> bool {
        match self.tracking {
            Some(registry) => registry.outstanding(id),
            None => false,
        }
    }

    /// The number of batches in flight.
    pub open spec fn in_flight(self) -> nat {
        match self.tracking {
            Some(registry) => registry.entries.dom().len(),
            None => 0,
        }
    }

    /// Whether another delivery can be taken on.
    pub open spec fn has_capacity(self) -> bool {
        match self.tracking {
            Some(registry) => registry.issued < u64::MAX,
            None => true,
        }
    }

    /// What holds of every state that the source can be in.
    pub open spec fn well_formed(self) -> bool {
        match self.tracking {
            Some(registry) => registry.well_formed(),
            None => true,
        }
    }

    /// The source after its loop has exited: every entry in flight is let go.
    pub open spec fn exited(self, failed: bool) -> Source<H> {
        Source {
            state: LoopState::Terminated,
            failed,
            tracking: match self.tracking {
                Some(registry) => Some(registry.abandon()),
                None => None,
            },
        }
    }

    /// The shutdown signal fired.
    pub open spec fn on_shutdown(self) -> Source<H> {
        if self.state == LoopState::Terminated {
            self
        } else {
            self.exited(false)
        }
    }

    /// The broker closed the consumer.
    pub open spec fn on_consumer_closed(self) -> Source<H> {
        if self.running() {
            self.exited(false)
        } else {
            self
        }
    }

    /// The broker reported a failure to consume.
    pub open spec fn on_consume_error(self) -> Source<H> {
        if self.running() {
            self.exited(true)
        } else {
            self
        }
    }

    /// Downstream reported `status` for the batch `id`.
    pub open spec fn on_completion(self, id: u64, status: BatchStatus) -> (
        Source<H>,
        Option<AckAction<H>>,
    ) {
        if self.running() && self.outstanding(id) {
            let registry = self.tracking->Some_0;
            (
                Source { tracking: Some(registry.complete(id)), ..self },
                Some(disposition(status, registry.entries[id])),
            )
        } else {
            (self, None)
        }
    }

    /// The records of a delivery were handed downstream, with success or
    /// without; `handle` is the handle of that delivery.
    pub open spec fn on_forwarded(self, sent: bool, handle: H) -> (Source<H>, Forwarded<H>) {
        if !self.running() {
            (self, Forwarded::Unacknowledged)
        } else if !sent {
            (self.exited(true), Forwarded::Unacknowledged)
        } else {
            match self.tracking {
                Some(registry) => (
                    Source {
                        tracking: Some(registry.add(FinalizerEntry { acker: handle })),
                        ..self
                    },
                    Forwarded::Registered(registry.next_id()),
                ),
                None => (self, Forwarded::Acknowledge(handle)),
            }
        }
    }
}

/// The state of the ingestion loop of one source.
pub struct AmqpSource<H> {
    state: LoopState,
    failed: bool,
    finalizer: Option<UnorderedFinalizer<FinalizerEntry<H>>>,
}

impl<H> View for AmqpSource<H> {
    type V = Source<H>;

    closed spec fn view(&self) -> Source<H> {
        Source {
            state: self.state,
            failed: self.failed,
            tracking: match self.finalizer {
                Some(finalizer) => Some(finalizer@),
                None => None,
            },
        }
    }
}

impl<H> AmqpSource<H> {
    /// A source about to enter its loop, with or without the tracking of
    /// batch outcomes.
    pub fn new(acknowledgements: bool) -> (r: AmqpSource<H>)
        ensures
            r@ == Source::<H>::start(acknowledgements),
    {
        AmqpSource {
            state: LoopState::Running,
            failed: false,
            finalizer: UnorderedFinalizer::maybe_new(acknowledgements),
        }
    }

    /// Where the loop stands.
    pub fn state(&self) -> (r: LoopState)
        ensures
            r == self@.state,
    {
        self.state
    }

    /// Whether the loop still takes events.
    pub fn is_running(&self) -> (r: bool)
        ensures
            r == self@.running(),
    {
        match self.state {
            LoopState::Running => true,
            _ => false,
        }
    }

    /// Whether the outcomes of batches are tracked.
    pub fn tracks_acknowledgements(&self) -> (r: bool)
        ensures
            r == self@.tracking is Some,
    {
        self.finalizer.is_some()
    }

    /// The number of batches in flight.
    pub fn in_flight(&self) -> (r: usize)
        ensures
            r == self@.in_flight(),
            self@.well_formed(),
    {
        match &self.finalizer {
            Some(finalizer) => finalizer.len(),
            None => 0,
        }
    }

    /// Whether the records of another delivery can be forwarded: the
    /// identities of batches are not used up.
    pub fn has_capacity(&self) -> (r: bool)
        ensures
            r == self@.has_capacity(),
    {
        match &self.finalizer {
            Some(finalizer) => finalizer.has_capacity(),
            None => true,
        }
    }

    /// How the loop ended: nothing while it has not, `Ok` after a clean exit,
    /// `Err` after a failure.
    pub fn result(&self) -> (r: Option<Result<(), ()>>)
        ensures
            r == match self@.state {
                LoopState::Terminated => Some(
                    if self@.failed {
                        Err::<(), ()>(())
                    } else {
                        Ok::<(), ()>(())
                    },
                ),
                _ => None::<Result<(), ()>>,
            },
    {
        match self.state {
            LoopState::Terminated => if self.failed {
                Some(Err(()))
            } else {
                Some(Ok(()))
            },
            _ => None,
        }
    }

    /// Ends the loop and lets go of every entry in flight, unresolved.
    fn exit(&mut self, failed: bool) -> (dropped: usize)
        ensures
            final(self)@ == old(self)@.exited(failed),
            dropped == old(self)@.in_flight(),
    {
        self.state = LoopState::ShuttingDown;
        let mut dropped: usize = 0;
        match self.finalizer.take() {
            Some(finalizer) => {
                let mut finalizer = finalizer;
                dropped = finalizer.abandon();
                self.finalizer = Some(finalizer);
            },
            None => {},
        }
        self.failed = failed;
        self.state = LoopState::Terminated;
        dropped
    }

    /// The shutdown signal fired: the loop exits cleanly. The entries in
    /// flight are let go without a disposition; their number is returned.
    pub fn on_shutdown(&mut self) -> (dropped: usize)
        ensures
            final(self)@ == old(self)@.on_shutdown(),
            old(self)@.state != LoopState::Terminated ==> dropped == old(self)@.in_flight(),
            old(self)@.state == LoopState::Terminated ==> dropped == 0,
    {
        match self.state {
            LoopState::Terminated => 0,
            _ => self.exit(false),
        }
    }

    /// The broker closed the consumer: the loop exits cleanly.
    pub fn on_consumer_closed(&mut self)
        ensures
            final(self)@ == old(self)@.on_consumer_closed(),
    {
        if self.is_running() {
            self.exit(false);
        }
    }

    /// The broker reported a failure to consume: the loop exits in failure.
    pub fn on_consume_error(&mut self)
        ensures
            final(self)@ == old(self)@.on_consume_error(),
    {
        if self.is_running() {
            self.exit(true);
        }
    }

    /// Downstream reported `status` for the batch `id`. Where that batch is
    /// in flight its entry leaves the finalizer and its disposition is
    /// returned; otherwise nothing is to be done.
    pub fn on_completion(&mut self, id: u64, status: BatchStatus) -> (r: Option<AckAction<H>>)
        ensures
            (final(self)@, r) == old(self)@.on_completion(id, status),
    {
        if !self.is_running() {
            return None;
        }
        match self.finalizer.take() {
            Some(finalizer) => {
                let mut finalizer = finalizer;
                let completed = finalizer.complete(id, status);
                self.finalizer = Some(finalizer);
                match completed {
                    Some((status, entry)) => Some(handle_ack(status, entry)),
                    None => None,
                }
            },
            None => None,
        }
    }

    /// Settles a delivery whose records were handed downstream; `sent` says
    /// whether downstream took them. With tracking the handle is registered
    /// with the finalizer; without, the message is to be acknowledged at
    /// once. A failed send ends the loop in failure and leaves the message
    /// unacknowledged.
    pub fn finalize_event_stream(&mut self, sent: bool, msg: RawDelivery<H>) -> (r: Forwarded<H>)
        requires
            old(self)@.has_capacity(),
        ensures
            (final(self)@, r) == old(self)@.on_forwarded(sent, msg.acker),
    {
        if !self.is_running() {
            return Forwarded::Unacknowledged;
        }
        if !sent {
            self.exit(true);
            return Forwarded::Unacknowledged;
        }
        match self.finalizer.take() {
            Some(finalizer) => {
                let mut finalizer = finalizer;
                let id = finalizer.add(FinalizerEntry::from(msg));
                self.finalizer = Some(finalizer);
                Forwarded::Registered(id)
            },
            None => Forwarded::Acknowledge(msg.acker),
        }
    }
}

/// A delivery whose records got through while outcomes are tracked is
/// resolved exactly once. Its handle is registered under a batch identity;
/// the completion of that batch yields one disposition, on that very handle,
/// an acknowledgement where the batch was delivered and a rejection
/// otherwise; and a second completion of the same batch yields nothing.
pub proof fn lemma_single_disposition<H>(
    source: Source<H>,
    handle: H,
    status: BatchStatus,
    again: BatchStatus,
)
    requires
        source.well_formed(),
        source.running(),
        source.tracking is Some,
        source.has_capacity(),
    ensures
        ({
            let id = source.tracking->Some_0.next_id();
            let (registered, forwarded) = source.on_forwarded(true, handle);
            let (resolved, action) = registered.on_completion(id, status);
            &&& forwarded == Forwarded::<H>::Registered(id)
            &&& !source.outstanding(id)
            &&& registered.outstanding(id)
            &&& action == Some(disposition(status, FinalizerEntry { acker: handle }))
            &&& action->Some_0.handle() == handle
            &&& (action->Some_0 is Ack) == (status == BatchStatus::Delivered)
            &&& !resolved.outstanding(id)
            &&& resolved.on_completion(id, again) == (resolved, None::<AckAction<H>>)
        }),
{
    let registry = source.tracking->Some_0;
    let id = registry.next_id();
    assert(!registry.entries.contains_key(id)) by {
        if registry.entries.contains_key(id) {
            assert(id < registry.issued);
        }
    }
}

/// An entry in flight waits for its own outcome: neither the completion of
/// another batch nor the forwarding of another delivery takes it out of the
/// finalizer or changes the handle it holds.
pub proof fn lemma_entry_waits_for_its_outcome<H>(
    source: Source<H>,
    id: u64,
    other: u64,
    status: BatchStatus,
    handle: H,
)
    requires
        source.well_formed(),
        source.running(),
        source.has_capacity(),
        source.outstanding(id),
        other != id,
    ensures
        ({
            let after_completion = source.on_completion(other, status).0;
            let after_delivery = source.on_forwarded(true, handle).0;
            let entry = source.tracking->Some_0.entries[id];
            &&& after_completion.outstanding(id)
            &&& after_completion.tracking->Some_0.entries[id] == entry
            &&& after_delivery.outstanding(id)
            &&& after_delivery.tracking->Some_0.entries[id] == entry
        }),
{
    let registry = source.tracking->Some_0;
    assert(id < registry.issued);
}

/// Without tracking, a delivery whose records got through is to be
/// acknowledged at once, on its own handle, and the source is as before: no
/// finalizer comes into being.
pub proof fn lemma_untracked_delivery_is_acknowledged_at_once<H>(source: Source<H>, handle: H)
    requires
        source.running(),
        source.tracking is None,
    ensures
        source.on_forwarded(true, handle) == (source, Forwarded::Acknowledge(handle)),
{
}

/// A delivery whose records did not get through ends the loop in failure
/// and is never acknowledged: no disposition is returned for it, and it is
/// not in flight afterwards.
pub proof fn lemma_failed_send_is_fatal<H>(source: Source<H>, handle: H)
    requires
        source.running(),
    ensures
        ({
            let (after, forwarded) = source.on_forwarded(false, handle);
            &&& forwarded == Forwarded::<H>::Unacknowledged
            &&& after.state == LoopState::Terminated
            &&& after.failed
            &&& after.in_flight() == 0
        }),
{
}

/// Shutdown resolves nothing. The loop is over at once, whatever was in
/// flight is in flight no more, and no later completion or delivery yields a
/// disposition.
pub proof fn lemma_shutdown_resolves_nothing<H>(
    source: Source<H>,
    id: u64,
    status: BatchStatus,
    sent: bool,
    handle: H,
)
    ensures
        ({
            let after = source.on_shutdown();
            &&& after.state == LoopState::Terminated
            &&& source.running() ==> !after.failed && after.in_flight() == 0
            &&& source.running() ==> !after.outstanding(id)
            &&& after.on_completion(id, status) == (after, None::<AckAction<H>>)
            &&& after.on_forwarded(sent, handle) == (after, Forwarded::<H>::Unacknowledged)
            &&& after.on_shutdown() == after
        }),
{
}

/// No outcome of a batch stops the loop: whatever downstream reports, and
/// for whichever batch, the loop stands afterwards where it stood, and has
/// not failed unless it had before.
pub proof fn lemma_completion_never_stops_the_loop<H>(
    source: Source<H>,
    id: u64,
    status: BatchStatus,
)
    ensures
        source.on_completion(id, status).0.state == source.state,
        source.on_completion(id, status).0.failed == source.failed,
{
}

/// Once the loop has exited, no event changes the source or calls for a
/// disposition.
pub proof fn lemma_exit_is_final<H>(
    source: Source<H>,
    id: u64,
    status: BatchStatus,
    sent: bool,
    handle: H,
)
    requires
        source.state == LoopState::Terminated,
    ensures
        source.on_shutdown() == source,
        source.on_consumer_closed() == source,
        source.on_consume_error() == source,
        source.on_completion(id, status) == (source, None::<AckAction<H>>),
        source.on_forwarded(sent, handle) == (source, Forwarded::<H>::Unacknowledged),
{
}

/// Every event leaves a well-formed source well-formed.
pub proof fn lemma_source_stays_well_formed<H>(
    source: Source<H>,
    id: u64,
    status: BatchStatus,
    sent: bool,
    handle: H,
)
    requires
        source.well_formed(),
        source.has_capacity(),
    ensures
        Source::<H>::start(true).well_formed(),
        Source::<H>::start(false).well_formed(),
        source.on_shutdown().well_formed(),
        source.on_consumer_closed().well_formed(),
        source.on_consume_error().well_formed(),
        source.on_completion(id, status).0.well_formed(),
        source.on_forwarded(sent, handle).0.well_formed(),
{
    match source.tracking {
        Some(registry) => {
            lemma_registry_stays_well_formed(registry, FinalizerEntry { acker: handle }, id);
        },
        None => {},
    }
    lemma_registry_stays_well_formed(
        Registry::<FinalizerEntry<H>>::empty(),
        FinalizerEntry { acker: handle },
        id,
    );
}

} // verus!
