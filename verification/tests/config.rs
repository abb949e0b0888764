use amqp_source::{
    default_consumer, default_exchange_key, default_offset_key, default_queue,
    default_routing_key_field, AmqpSourceConfig, LogNamespace,
};

#[test]
fn amqp_generate_config() {
    let config = AmqpSourceConfig::default();
    assert_eq!(config.queue, "vector");
    assert_eq!(config.consumer, "vector");
    assert_eq!(config.connection_string, "");
    assert_eq!(config.routing_key_field, "routing");
    assert_eq!(config.exchange_key, "exchange");
    assert_eq!(config.offset_key, "offset");
    assert_eq!(config.log_namespace, None);
    assert_eq!(config.acknowledgements, None);
}

#[test]
fn defaults_are_the_documented_names() {
    assert_eq!(default_queue(), "vector");
    assert_eq!(default_consumer(), "vector");
    assert_eq!(default_routing_key_field(), "routing");
    assert_eq!(default_exchange_key(), "exchange");
    assert_eq!(default_offset_key(), "offset");
}

#[test]
fn source_can_acknowledge() {
    assert!(AmqpSourceConfig::default().can_acknowledge());
}

#[test]
fn namespace_override_wins_over_global() {
    assert_eq!(LogNamespace::Legacy.merge(None), LogNamespace::Legacy);
    assert_eq!(LogNamespace::Vector.merge(None), LogNamespace::Vector);
    assert_eq!(LogNamespace::Legacy.merge(Some(true)), LogNamespace::Vector);
    assert_eq!(LogNamespace::Vector.merge(Some(false)), LogNamespace::Legacy);
    assert_eq!(LogNamespace::from_flag(true), LogNamespace::Vector);
    assert_eq!(LogNamespace::from_flag(false), LogNamespace::Legacy);
}

#[test]
fn config_namespace_follows_its_own_setting() {
    let mut config = AmqpSourceConfig::default();
    assert_eq!(config.log_namespace(LogNamespace::Legacy), LogNamespace::Legacy);
    assert_eq!(config.log_namespace(LogNamespace::Vector), LogNamespace::Vector);
    config.log_namespace = Some(true);
    assert_eq!(config.log_namespace(LogNamespace::Legacy), LogNamespace::Vector);
    config.log_namespace = Some(false);
    assert_eq!(config.log_namespace(LogNamespace::Vector), LogNamespace::Legacy);
}

#[test]
fn acknowledgements_follow_own_setting_then_global() {
    let mut config = AmqpSourceConfig::default();
    assert!(!config.do_acknowledgements(false));
    assert!(config.do_acknowledgements(true));
    config.acknowledgements = Some(true);
    assert!(config.do_acknowledgements(false));
    config.acknowledgements = Some(false);
    assert!(!config.do_acknowledgements(true));
}
