//! Metadata enrichment: the provenance fields that every record of a
//! delivery receives, placed as the namespace in force demands.

use crate::config::LogNamespace;
use crate::event::{absent_insert, Datum, FieldPath, LogEvent, Slot, Value};
use crate::timestamp::{utc_now, Timestamp};
use vstd::prelude::*;
use vstd::string::*;
use vstd::utf8::encode_utf8;

verus! {

/// What one delivery contributes to each of its records, and the names of
/// the record fields that receive it in the legacy namespace.
#[derive(Clone, Copy, Debug)]
pub struct Keys<'a> {
    pub routing_key_field: &'a str,
    pub routing: &'a str,
    pub exchange_key: &'a str,
    pub exchange: &'a str,
    pub offset_key: &'a str,
    pub delivery_tag: i64,
}

/// The contribution of a delivery as a mathematical value.
pub struct Provenance {
    pub routing_key_field: Seq<char>,
    pub routing: Seq<char>,
    pub exchange_key: Seq<char>,
    pub exchange: Seq<char>,
    pub offset_key: Seq<char>,
    pub delivery_tag: i64,
}

impl<'a> View for Keys<'a> {
    type V = Provenance;

    open spec fn view(&self) -> Provenance {
        Provenance {
            routing_key_field: self.routing_key_field@,
            routing: self.routing@,
            exchange_key: self.exchange_key@,
            exchange: self.exchange@,
            offset_key: self.offset_key@,
            delivery_tag: self.delivery_tag,
        }
    }
}

/// A text as the bytes of a field.
pub open spec fn text(chars: Seq<char>) -> Datum {
    Datum::Bytes(encode_utf8(chars))
}

/// The metadata slot `name` of `namespace`.
pub open spec fn metadata_slot(namespace: &str, name: &str) -> Slot {
    Slot::Metadata(namespace@, name@)
}

/// The top-level slot `name`.
pub open spec fn event_slot(name: &str) -> Slot {
    Slot::Event(name@)
}

/// The instant that legacy placement records: the broker's, or the ingest
/// time where the broker gave none.
pub open spec fn legacy_instant(timestamp: Option<Timestamp>, now: Timestamp) -> Timestamp {
    match timestamp {
        Some(at) => at,
        None => now,
    }
}

/// Legacy placement: each field goes to the top level of the record, under
/// its configured name, and only where the record has nothing yet. The
/// timestamp is the broker's, or the ingest time where the broker gave none.
pub open spec fn enriched_legacy(
    fields: Map<Slot, Datum>,
    timestamp: Option<Timestamp>,
    keys: Provenance,
    now: Timestamp,
) -> Map<Slot, Datum> {
    let with_routing = absent_insert(
        fields,
        Slot::Event(keys.routing_key_field),
        text(keys.routing),
    );
    let with_exchange = absent_insert(
        with_routing,
        Slot::Event(keys.exchange_key),
        text(keys.exchange),
    );
    let with_offset = absent_insert(
        with_exchange,
        Slot::Event(keys.offset_key),
        Datum::Integer(keys.delivery_tag),
    );
    let with_source = absent_insert(with_offset, event_slot("source_type"), text("amqp"@));
    absent_insert(
        with_source,
        event_slot("timestamp"),
        Datum::Timestamp(legacy_instant(timestamp, now)),
    )
}

/// Structured placement: each field goes to the metadata of the record,
/// whatever was there. The broker's timestamp is recorded only where the
/// broker gave one; the ingest time is always recorded, in a slot of its own.
pub open spec fn enriched_vector(
    fields: Map<Slot, Datum>,
    timestamp: Option<Timestamp>,
    keys: Provenance,
    now: Timestamp,
) -> Map<Slot, Datum> {
    let with_source = fields.insert(metadata_slot("amqp", "routing"), text(keys.routing)).insert(
        metadata_slot("amqp", "exchange"),
        text(keys.exchange),
    ).insert(metadata_slot("amqp", "offset"), Datum::Integer(keys.delivery_tag)).insert(
        metadata_slot("vector", "source_type"),
        text("amqp"@),
    );
    let with_broker_time = match timestamp {
        Some(at) => with_source.insert(metadata_slot("amqp", "timestamp"), Datum::Timestamp(at)),
        None => with_source,
    };
    with_broker_time.insert(metadata_slot("vector", "ingest_timestamp"), Datum::Timestamp(now))
}

/// The fields of a record after enrichment at the instant `now`.
pub open spec fn enriched(
    fields: Map<Slot, Datum>,
    timestamp: Option<Timestamp>,
    keys: Provenance,
    log_namespace: LogNamespace,
    now: Timestamp,
) -> Map<Slot, Datum> {
    match log_namespace {
        LogNamespace::Legacy => enriched_legacy(fields, timestamp, keys, now),
        LogNamespace::Vector => enriched_vector(fields, timestamp, keys, now),
    }
}

/// The bytes of a text, as a field value.
fn text_value(chars: &str) -> (r: Value)
    ensures
        r@ == text(chars@),
{
    Value::Bytes(chars.as_bytes_vec())
}

/// Populates the decoded event with extra metadata, taking `now` for the
/// ingest time.
pub fn populate_event_at(
    event: &mut LogEvent,
    timestamp: Option<Timestamp>,
    keys: &Keys<'_>,
    log_namespace: LogNamespace,
    now: Timestamp,
)
    ensures
        final(event)@ == enriched(old(event)@, timestamp, keys@, log_namespace, now),
{
    match log_namespace {
        LogNamespace::Legacy => {
            event.try_insert(FieldPath::event(keys.routing_key_field), text_value(keys.routing));
            event.try_insert(FieldPath::event(keys.exchange_key), text_value(keys.exchange));
            event.try_insert(FieldPath::event(keys.offset_key), Value::Integer(keys.delivery_tag));
            event.try_insert(FieldPath::event("source_type"), text_value("amqp"));
            let at = match timestamp {
                Some(at) => at,
                None => now,
            };
            event.try_insert(FieldPath::event("timestamp"), Value::Timestamp(at));
        },
        LogNamespace::Vector => {
            event.insert(FieldPath::metadata("amqp", "routing"), text_value(keys.routing));
            event.insert(FieldPath::metadata("amqp", "exchange"), text_value(keys.exchange));
            event.insert(FieldPath::metadata("amqp", "offset"), Value::Integer(keys.delivery_tag));
            event.insert(FieldPath::metadata("vector", "source_type"), text_value("amqp"));
            if let Some(at) = timestamp {
                event.insert(FieldPath::metadata("amqp", "timestamp"), Value::Timestamp(at));
            }
            event.insert(FieldPath::metadata("vector", "ingest_timestamp"), Value::Timestamp(now));
        },
    }
}

/// Populates the decoded event with extra metadata. The ingest time is read
/// from the system clock.
pub fn populate_event(
    event: &mut LogEvent,
    timestamp: Option<Timestamp>,
    keys: &Keys<'_>,
    log_namespace: LogNamespace,
)
    ensures
        exists|now: Timestamp|
            final(event)@ == #[trigger] enriched(
                old(event)@,
                timestamp,
                keys@,
                log_namespace,
                now,
            ),
{
    let now = utc_now();
    populate_event_at(event, timestamp, keys, log_namespace, now);
}

/// Whether the five names that legacy placement writes under are five
/// different names.
pub open spec fn legacy_names_differ(keys: Provenance) -> bool {
    &&& keys.routing_key_field != keys.exchange_key
    &&& keys.routing_key_field != keys.offset_key
    &&& keys.exchange_key != keys.offset_key
    &&& keys.routing_key_field != "source_type"@
    &&& keys.exchange_key != "source_type"@
    &&& keys.offset_key != "source_type"@
    &&& keys.routing_key_field != "timestamp"@
    &&& keys.exchange_key != "timestamp"@
    &&& keys.offset_key != "timestamp"@
}

/// Legacy placement never overwrites: a field that the record had before
/// enrichment is there afterwards, with the value it had.
pub proof fn lemma_legacy_keeps_what_is_there(
    fields: Map<Slot, Datum>,
    timestamp: Option<Timestamp>,
    keys: Provenance,
    now: Timestamp,
    slot: Slot,
)
    requires
        fields.contains_key(slot),
    ensures
        enriched_legacy(fields, timestamp, keys, now).contains_key(slot),
        enriched_legacy(fields, timestamp, keys, now)[slot] == fields[slot],
{
}

/// Legacy placement touches the top level only, and only under its five
/// names: every other slot is after enrichment what it was before.
pub proof fn lemma_legacy_touches_its_names_only(
    fields: Map<Slot, Datum>,
    timestamp: Option<Timestamp>,
    keys: Provenance,
    now: Timestamp,
    slot: Slot,
)
    requires
        slot != Slot::Event(keys.routing_key_field),
        slot != Slot::Event(keys.exchange_key),
        slot != Slot::Event(keys.offset_key),
        slot != event_slot("source_type"),
        slot != event_slot("timestamp"),
    ensures
        enriched_legacy(fields, timestamp, keys, now).contains_key(slot) == fields.contains_key(
            slot,
        ),
        enriched_legacy(fields, timestamp, keys, now)[slot] == fields[slot],
{
}

/// Legacy placement fills what is missing: where the record has none of the
/// five fields, and their names differ, it has all five afterwards, with the
/// routing key, the exchange, the delivery tag, the source type and the
/// instant of the message.
pub proof fn lemma_legacy_fills_what_is_missing(
    fields: Map<Slot, Datum>,
    timestamp: Option<Timestamp>,
    keys: Provenance,
    now: Timestamp,
)
    requires
        legacy_names_differ(keys),
        !fields.contains_key(Slot::Event(keys.routing_key_field)),
        !fields.contains_key(Slot::Event(keys.exchange_key)),
        !fields.contains_key(Slot::Event(keys.offset_key)),
        !fields.contains_key(event_slot("source_type")),
        !fields.contains_key(event_slot("timestamp")),
    ensures
        ({
            let after = enriched_legacy(fields, timestamp, keys, now);
            &&& after.contains_key(Slot::Event(keys.routing_key_field))
            &&& after[Slot::Event(keys.routing_key_field)] == text(keys.routing)
            &&& after.contains_key(Slot::Event(keys.exchange_key))
            &&& after[Slot::Event(keys.exchange_key)] == text(keys.exchange)
            &&& after.contains_key(Slot::Event(keys.offset_key))
            &&& after[Slot::Event(keys.offset_key)] == Datum::Integer(keys.delivery_tag)
            &&& after.contains_key(event_slot("source_type"))
            &&& after[event_slot("source_type")] == text("amqp"@)
            &&& after.contains_key(event_slot("timestamp"))
            &&& after[event_slot("timestamp")] == Datum::Timestamp(
                legacy_instant(timestamp, now),
            )
        }),
{
    reveal_strlit("source_type");
    reveal_strlit("timestamp");
    assert("source_type"@ != "timestamp"@) by {
        assert("source_type"@.len() != "timestamp"@.len());
    }
}

/// Structured placement writes to the metadata unconditionally: afterwards
/// the source's namespace holds the routing key, the exchange and the
/// delivery tag, and the common namespace holds the source type and the
/// ingest time, whatever the record held before. The broker's timestamp is
/// there exactly where the broker gave one or the record had that field
/// already, and its slot is not the slot of the ingest time.
pub proof fn lemma_vector_places_metadata(
    fields: Map<Slot, Datum>,
    timestamp: Option<Timestamp>,
    keys: Provenance,
    now: Timestamp,
)
    ensures
        ({
            let after = enriched_vector(fields, timestamp, keys, now);
            &&& after.contains_key(metadata_slot("amqp", "routing"))
            &&& after[metadata_slot("amqp", "routing")] == text(keys.routing)
            &&& after.contains_key(metadata_slot("amqp", "exchange"))
            &&& after[metadata_slot("amqp", "exchange")] == text(keys.exchange)
            &&& after.contains_key(metadata_slot("amqp", "offset"))
            &&& after[metadata_slot("amqp", "offset")] == Datum::Integer(keys.delivery_tag)
            &&& after.contains_key(metadata_slot("vector", "source_type"))
            &&& after[metadata_slot("vector", "source_type")] == text("amqp"@)
            &&& after.contains_key(metadata_slot("vector", "ingest_timestamp"))
            &&& after[metadata_slot("vector", "ingest_timestamp")] == Datum::Timestamp(now)
            &&& metadata_slot("vector", "ingest_timestamp") != metadata_slot("amqp", "timestamp")
            &&& timestamp matches Some(at) ==> after.contains_key(
                metadata_slot("amqp", "timestamp"),
            ) && after[metadata_slot("amqp", "timestamp")] == Datum::Timestamp(at)
            &&& timestamp is None ==> after.contains_key(metadata_slot("amqp", "timestamp"))
                == fields.contains_key(metadata_slot("amqp", "timestamp"))
        }),
{
    reveal_strlit("amqp");
    reveal_strlit("vector");
    reveal_strlit("routing");
    reveal_strlit("exchange");
    reveal_strlit("offset");
    reveal_strlit("timestamp");
    reveal_strlit("source_type");
    reveal_strlit("ingest_timestamp");
    assert("amqp"@ != "vector"@) by {
        assert("amqp"@.len() != "vector"@.len());
    }
    assert("routing"@ != "exchange"@) by {
        assert("routing"@.len() != "exchange"@.len());
    }
    assert("routing"@ != "offset"@) by {
        assert("routing"@.len() != "offset"@.len());
    }
    assert("routing"@ != "timestamp"@) by {
        assert("routing"@.len() != "timestamp"@.len());
    }
    assert("exchange"@ != "offset"@) by {
        assert("exchange"@.len() != "offset"@.len());
    }
    assert("exchange"@ != "timestamp"@) by {
        assert("exchange"@.len() != "timestamp"@.len());
    }
    assert("offset"@ != "timestamp"@) by {
        assert("offset"@.len() != "timestamp"@.len());
    }
    assert("source_type"@ != "ingest_timestamp"@) by {
        assert("source_type"@.len() != "ingest_timestamp"@.len());
    }
    let with_source = fields.insert(metadata_slot("amqp", "routing"), text(keys.routing)).insert(
        metadata_slot("amqp", "exchange"),
        text(keys.exchange),
    ).insert(metadata_slot("amqp", "offset"), Datum::Integer(keys.delivery_tag)).insert(
        metadata_slot("vector", "source_type"),
        text("amqp"@),
    );
    assert(with_source.contains_key(metadata_slot("amqp", "timestamp")) == fields.contains_key(
        metadata_slot("amqp", "timestamp"),
    ));
}

/// Structured placement leaves the record itself alone: every top-level
/// field is after enrichment what it was before.
pub proof fn lemma_vector_keeps_event_fields(
    fields: Map<Slot, Datum>,
    timestamp: Option<Timestamp>,
    keys: Provenance,
    now: Timestamp,
    name: Seq<char>,
)
    ensures
        enriched_vector(fields, timestamp, keys, now).contains_key(Slot::Event(name))
            == fields.contains_key(Slot::Event(name)),
        enriched_vector(fields, timestamp, keys, now)[Slot::Event(name)] == fields[Slot::Event(
            name,
        )],
{
}

} // verus!
