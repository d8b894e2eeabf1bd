use flooder::ConnectionConfig;

#[test]
fn connection_config_keeps_its_fields() {
    let cfg = ConnectionConfig::new("ws://127.0.0.1:9944".to_string(), "//Alice".to_string());
    assert_eq!(cfg.node_endpoint, "ws://127.0.0.1:9944");
    assert_eq!(cfg.signer_seed, "//Alice");
}
