//! Configuration surface of the source and its defaults.

use vstd::prelude::*;

verus! {

/// Schema convention that decides where enrichment fields are placed.
#[derive(Clone, Copy, Debug, PartialEq, Eq, Structural)]
pub enum LogNamespace {
    /// Fields are merged into the top level of the record, if absent there.
    Legacy,
    /// Fields are placed in the metadata namespace, unconditionally.
    Vector,
}

impl LogNamespace {
    /// The namespace that a boolean setting selects: `true` is `Vector`.
    pub open spec fn of_flag(flag: bool) -> LogNamespace {
        if flag {
            LogNamespace::Vector
        } else {
            LogNamespace::Legacy
        }
    }

    /// The namespace in force when `self` is the global setting and
    /// `overriding` is what a component asks for.
    pub open spec fn merged(self, overriding: Option<bool>) -> LogNamespace {
        match overriding {
            Some(flag) => Self::of_flag(flag),
            None => self,
        }
    }

    /// Converts a boolean setting to a namespace.
    pub fn from_flag(flag: bool) -> (r: LogNamespace)
        ensures
            r == Self::of_flag(flag),
    {
        if flag {
            LogNamespace::Vector
        } else {
            LogNamespace::Legacy
        }
    }

    /// Applies a component's override, if it has one, to the global setting.
    pub fn merge(self, overriding: Option<bool>) -> (r: LogNamespace)
        ensures
            r == self.merged(overriding),
    {
        match overriding {
            Some(flag) => Self::from_flag(flag),
            None => self,
        }
    }
}

/// Name of the queue that is consumed when none is configured.
pub fn default_queue() -> (r: String)
    ensures
        r@ == "vector"@,
{
    "vector".to_owned()
}

/// Consumer identifier that is used when none is configured.
pub fn default_consumer() -> (r: String)
    ensures
        r@ == "vector"@,
{
    "vector".to_owned()
}

/// Record field that receives the routing key when none is configured.
pub fn default_routing_key_field() -> (r: String)
    ensures
        r@ == "routing"@,
{
    "routing".to_owned()
}

/// Record field that receives the exchange when none is configured.
pub fn default_exchange_key() -> (r: String)
    ensures
        r@ == "exchange"@,
{
    "exchange".to_owned()
}

/// Record field that receives the delivery tag when none is configured.
pub fn default_offset_key() -> (r: String)
    ensures
        r@ == "offset"@,
{
    "offset".to_owned()
}

/// Configuration for the `amqp` source. Supports AMQP version 0.9.1.
#[derive(Clone, Debug)]
pub struct AmqpSourceConfig {
    /// The name of the queue to consume.
    pub queue: String,
    /// The identifier for the consumer.
    pub consumer: String,
    /// URI of the broker to connect to.
    pub connection_string: String,
    /// Record field for the routing key (legacy namespace).
    pub routing_key_field: String,
    /// Record field for the exchange (legacy namespace).
    pub exchange_key: String,
    /// Record field for the delivery tag (legacy namespace).
    pub offset_key: String,
    /// The namespace to use for logs. This overrides the global setting.
    pub log_namespace: Option<bool>,
    /// Whether end-to-end acknowledgements are asked for by this source.
    pub acknowledgements: Option<bool>,
}

impl AmqpSourceConfig {
    /// Whether `self` holds the default of every field.
    pub open spec fn is_default(&self) -> bool {
        &&& self.queue@ == "vector"@
        &&& self.consumer@ == "vector"@
        &&& self.connection_string@ == Seq::<char>::empty()
        &&& self.routing_key_field@ == "routing"@
        &&& self.exchange_key@ == "exchange"@
        &&& self.offset_key@ == "offset"@
        &&& self.log_namespace is None
        &&& self.acknowledgements is None
    }

    /// The source can always acknowledge what it consumed.
    pub fn can_acknowledge(&self) -> (r: bool)
        ensures
            r,
    {
        true
    }

    /// The namespace this source writes in under the given global setting.
    pub fn log_namespace(&self, global: LogNamespace) -> (r: LogNamespace)
        ensures
            r == global.merged(self.log_namespace),
    {
        global.merge(self.log_namespace)
    }

    /// Whether acknowledgements are tracked: the source's own setting where it
    /// has one, else the global one.
    pub fn do_acknowledgements(&self, global: bool) -> (r: bool)
        ensures
            r == match self.acknowledgements {
                Some(enabled) => enabled,
                None => global,
            },
    {
        match self.acknowledgements {
            Some(enabled) => enabled,
            None => global,
        }
    }
}

impl Default for AmqpSourceConfig {
    fn default() -> (r: Self)
        ensures
            r.is_default(),
    {
        AmqpSourceConfig {
            queue: default_queue(),
            consumer: default_consumer(),
            connection_string: String::new(),
            routing_key_field: default_routing_key_field(),
            exchange_key: default_exchange_key(),
            offset_key: default_offset_key(),
            log_namespace: None,
            acknowledgements: None,
        }
    }
}

} // verus!
