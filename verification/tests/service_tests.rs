use parser::api::{
    default_pool, default_timeout, order_email_is_valid, password_is_valid, user_email_is_valid,
    ApiResponse,
};
use parser::config::{Config, ConfigError};
use parser::quotes::{split_stream_command, stream_companies};

fn s(x: &str) -> Option<String> {
    Some(x.to_string())
}

#[test]
fn config_defaults_and_trimming() {
    let c = Config::from_values(s("postgres://db"), None, None, s("k"), s("  http://x  ")).unwrap();
    assert_eq!(c.host, "127.0.0.1");
    assert_eq!(c.port, 8080);
    assert_eq!(c.cors_origin, "http://x");
    let c = Config::from_values(s("d"), s("0.0.0.0"), s("+65535"), s("k"), s("o")).unwrap();
    assert_eq!(c.host, "0.0.0.0");
    assert_eq!(c.port, 65535);
}

#[test]
fn config_errors_in_order() {
    assert_eq!(
        Config::from_values(None, None, s("bad"), None, None).unwrap_err(),
        ConfigError::MissingDatabaseUrl
    );
    assert_eq!(
        Config::from_values(s("d"), None, s("65536"), None, None).unwrap_err(),
        ConfigError::InvalidPort
    );
    assert_eq!(
        Config::from_values(s("d"), None, None, None, None).unwrap_err(),
        ConfigError::MissingJwtSecret
    );
    assert_eq!(
        Config::from_values(s("d"), None, None, s("k"), None).unwrap_err(),
        ConfigError::MissingCorsOrigin
    );
    assert_eq!(ConfigError::InvalidPort.message(), "PORT must be a valid number");
}

#[test]
fn api_responses() {
    let ok = ApiResponse::success(5u32);
    assert!(ok.success);
    assert_eq!(ok.data, Some(5));
    assert_eq!(ok.error, None);
    let err: ApiResponse<u32> = ApiResponse::error("boom".to_string());
    assert!(!err.success);
    assert_eq!(err.data, None);
    assert_eq!(err.error, Some("boom".to_string()));
    assert_eq!(default_pool(), 10);
    assert_eq!(default_timeout(), 30);
}

#[test]
fn input_checks() {
    assert!(user_email_is_valid("a@b.cd"));
    assert!(!user_email_is_valid("a@b.c"));
    assert!(user_email_is_valid("ab@cdef"));
    assert!(!order_email_is_valid("ab@cdef"));
    assert!(order_email_is_valid("user@example.com"));
    assert!(!order_email_is_valid("invalid"));
    assert!(password_is_valid("12345678"));
    assert!(!password_is_valid("1234567"));
}

#[test]
fn stream_command_parts() {
    assert_eq!(
        split_stream_command("  stream udp://127.0.0.1:9000 aapl,msft \n"),
        Ok(("127.0.0.1:9000".to_string(), "aapl,msft".to_string()))
    );
    assert_eq!(
        split_stream_command("STREAM udp://h:1"),
        Err("ERROR: Неверный формат команды: STREAM udp://host:port TICKER1,TICKER2".to_string())
    );
    assert_eq!(
        split_stream_command("PING a b"),
        Err("ERROR: Неверный формат команды: STREAM udp://host:port TICKER1,TICKER2".to_string())
    );
    assert_eq!(
        split_stream_command("STREAM tcp://h:1 A"),
        Err("ERROR: Принимаем только UDP: в адресе нет префикса udp://".to_string())
    );
}

#[test]
fn stream_companies_list() {
    assert_eq!(
        stream_companies(" aapl, ,msft,"),
        Ok(vec!["AAPL".to_string(), "MSFT".to_string()])
    );
    assert_eq!(
        stream_companies(",,"),
        Err("ERROR: Не указано ни одной компании".to_string())
    );
}
