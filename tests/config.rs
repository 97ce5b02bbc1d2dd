use sozu_prometheus_connector::config::ConnectorConfig;

#[test]
fn sozu_config_path_is_the_configured_one() {
    let config = ConnectorConfig {
        sozu_configuration_path: "/etc/sozu/config.toml".to_string(),
        listening_address: "127.0.0.1:3000".to_string(),
    };
    assert_eq!(config.parse_sozu_config_path(), "/etc/sozu/config.toml");
}
