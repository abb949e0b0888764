//! Acknowledgement-tracking ingestion core of an AMQP 0.9.1 source.
//!
//! The crate holds the decisions of the source: how a delivery's records are
//! enriched with provenance, where a decode stream stops, which broker
//! disposition a batch outcome calls for, and how the ingestion loop moves
//! between its states. Network and broker I/O stay with the caller, which
//! feeds events in and carries out the actions that come back.

pub mod config;
pub mod decode;
pub mod delivery;
pub mod enrich;
pub mod event;
pub mod finalizer;
pub mod source;
pub mod timestamp;

pub use config::{
    default_consumer, default_exchange_key, default_offset_key, default_queue,
    default_routing_key_field, AmqpSourceConfig, LogNamespace,
};
pub use decode::{event_stream, DecodeOutcome};
pub use delivery::{FinalizerEntry, RawDelivery};
pub use enrich::{populate_event, populate_event_at, Keys};
pub use event::{FieldPath, LogEvent, Value};
pub use finalizer::{BatchStatus, UnorderedFinalizer};
pub use source::{handle_ack, receive_event, AckAction, AmqpSource, Forwarded, LoopState};
pub use timestamp::{Timestamp, MAX_UTC_MILLIS, MIN_UTC_MILLIS};
