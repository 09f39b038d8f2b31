use flexsync::config::{IBCredentials, TWSConfig};
use flexsync::gateway::{trades_url, IB_GATEWAY_URL, MAX_RETRIES, RETRY_DELAY_MS};

#[test]
fn test_basic_auth_encoding() {
    let creds = IBCredentials {
        username: "user".to_string(),
        password: "pass".to_string(),
    };
    let header = creds.to_basic_auth_header();
    assert!(header.starts_with("Basic "));
    // dXNlcjpwYXNz = base64("user:pass")
    assert_eq!(header, "Basic dXNlcjpwYXNz");
}

#[test]
fn test_url_construction() {
    let expected = "http://localhost:7496/api/iserver/account/U123456/trades";
    let actual = format!("{}/api/iserver/account/{}/trades", IB_GATEWAY_URL, "U123456");
    assert_eq!(actual, expected);
    assert_eq!(trades_url("U123456"), expected);
}

#[test]
#[allow(clippy::assertions_on_constants)]
fn test_retry_logic_constants() {
    assert!(MAX_RETRIES > 0);
    assert!(RETRY_DELAY_MS > 0);
}

#[test]
fn test_default_config() {
    let config = TWSConfig::default();
    assert_eq!(config.host, "127.0.0.1");
    assert_eq!(config.port, 7497);
    assert_eq!(config.client_id, 42);
}
