//! A message as the broker hands it over, and what is kept of it while its
//! batch is in flight.

use vstd::prelude::*;
use vstd::std_specs::convert::FromSpecImpl;

verus! {

/// One message as received from the broker. `H` is the broker's
/// acknowledgement handle for it: a capability that this crate only ever
/// moves, so that it reaches exactly one place.
#[derive(Debug)]
pub struct RawDelivery<H> {
    /// The body of the message.
    pub payload: Vec<u8>,
    /// The routing key the message was published with.
    pub routing_key: String,
    /// The exchange the message was published to.
    pub exchange: String,
    /// The sequence number that the broker gave the message on its channel.
    pub delivery_tag: u64,
    /// The timestamp property of the message, if it has one.
    pub timestamp: Option<u64>,
    /// The handle by which the message is acknowledged or rejected.
    pub acker: H,
}

/// What the finalizer keeps for a batch in flight: the handle of the message
/// that the batch was decoded from.
#[derive(Debug)]
pub struct FinalizerEntry<H> {
    pub acker: H,
}

impl<H> From<RawDelivery<H>> for FinalizerEntry<H> {
    fn from(delivery: RawDelivery<H>) -> (r: FinalizerEntry<H>) {
        FinalizerEntry { acker: delivery.acker }
    }
}

impl<H> FromSpecImpl<RawDelivery<H>> for FinalizerEntry<H> {
    open spec fn obeys_from_spec() -> bool {
        true
    }

    open spec fn from_spec(delivery: RawDelivery<H>) -> FinalizerEntry<H> {
        FinalizerEntry { acker: delivery.acker }
    }
}

} // verus!
