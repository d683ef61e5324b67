use miurbot::config::{decimal_string, ConfigData};

fn config(port: u16) -> ConfigData {
    ConfigData {
        database_url: "data/miur.db".to_string(),
        jwt_secret: "SECRET-REDACTED".to_string(),
        server_host: "0.0.0.0".to_string(),
        server_port: port,
        model: "deepseek-chat".to_string(),
        openai_api_key: "sk-test".to_string(),
        openai_base_url: "https://api.deepseek.com/v1".to_string(),
    }
}

#[test]
fn decimal_string_matches_display() {
    for n in [0u16, 7, 10, 99, 100, 3000, 8080, 65535] {
        assert_eq!(decimal_string(n), n.to_string());
    }
}

#[test]
fn server_addr_is_host_colon_port() {
    assert_eq!(config(8080).server_addr(), "0.0.0.0:8080");
    assert_eq!(config(0).server_addr(), "0.0.0.0:0");
}

#[test]
fn sqlite_url_creates_missing_databases() {
    assert_eq!(config(1).sqlite_url(), "sqlite://data/miur.db?mode=rwc");
}

#[test]
fn model_server_endpoint_and_authorization() {
    assert_eq!(config(1).completions_url(), "https://api.deepseek.com/v1/chat/completions");
    assert_eq!(config(1).authorization(), "Bearer sk-test");
}
