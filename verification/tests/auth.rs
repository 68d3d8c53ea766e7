use alexa_cli::auth::{
    auth_code_from_url, authorize_url, cached_access_token, is_expired, redirect_uri,
    tokens_from_reply, tokens_from_reply_text, urlencode, AuthError, Tokens,
};
use alexa_cli::config::Config;

#[test]
fn expiry_at_one_hour() {
    assert!(!is_expired(1000, 1000 + 3599));
    assert!(is_expired(1000, 1000 + 3600));
    assert!(is_expired(1000, 1000 + 9999));
}

#[test]
fn expiry_is_monotone_in_time() {
    // once stale, later instants stay stale
    assert!(is_expired(50, 3650));
    assert!(is_expired(50, 3651));
    assert!(is_expired(50, u64::MAX));
    // a clock that runs behind the stamp never reports staleness
    assert!(!is_expired(5000, 10));
}

#[test]
fn authorize_url_contains_scope_and_product() {
    let cfg = Config {
        client_id: "cid".into(),
        product_id: "prod".into(),
        device_serial_number: "dsn".into(),
        ..Default::default()
    };
    let url = authorize_url(&cfg, "http://localhost:8086/auth");
    assert!(url.contains("client_id=cid"));
    assert!(url.contains("scope=alexa%3Aall") || url.contains("alexa:all"));
    assert!(url.contains("prod"));
    assert!(url.contains("dsn"));
    assert!(url.contains("response_type=code"));
    assert!(url.contains("redirect_uri="));
}

#[test]
fn authorize_url_exact() {
    let cfg = Config {
        client_id: "cid".into(),
        product_id: "prod".into(),
        device_serial_number: "dsn".into(),
        ..Default::default()
    };
    let url = authorize_url(&cfg, "http://localhost:8086/auth");
    assert_eq!(
        url,
        "https://www.amazon.com/ap/oa?client_id=cid&scope=alexa%3Aall&scope_data=%7B%22alexa%3Aall%22%3A%7B%22productID%22%3A%22prod%22%2C%22productInstanceAttributes%22%3A%7B%22deviceSerialNumber%22%3A%22dsn%22%7D%7D%7D&response_type=code&redirect_uri=http%3A%2F%2Flocalhost%3A8086%2Fauth"
    );
}

#[test]
fn urlencode_keeps_unreserved_and_escapes_the_rest() {
    assert_eq!(urlencode("aZ09-_.~"), "aZ09-_.~");
    assert_eq!(urlencode("a b/c:d"), "a%20b%2Fc%3Ad");
    assert_eq!(urlencode("é"), "%C3%A9");
}

#[test]
fn redirect_uri_for_port() {
    assert_eq!(redirect_uri(8086), "http://localhost:8086/auth");
}

#[test]
fn auth_code_is_read_from_the_redirect() {
    assert_eq!(auth_code_from_url("/auth?code=ABC&scope=x"), Some("ABC".to_string()));
    assert_eq!(auth_code_from_url("/auth?code=XYZ"), Some("XYZ".to_string()));
    assert_eq!(auth_code_from_url("/auth?code=&x=1"), None);
    assert_eq!(auth_code_from_url("/favicon.ico"), None);
}

#[test]
fn tokens_from_reply_reads_both_tokens() {
    let v: serde_json::Value =
        serde_json::from_str(r#"{"access_token":"A","refresh_token":"R","expires_in":3600}"#)
            .unwrap();
    match tokens_from_reply(&v, 77) {
        Ok(t) => {
            assert_eq!(t.access_token, "A");
            assert_eq!(t.refresh_token, "R");
            assert_eq!(t.obtained_at, 77);
        }
        Err(_) => panic!("expected tokens"),
    }
}

#[test]
fn tokens_from_reply_errors() {
    let v: serde_json::Value =
        serde_json::from_str(r#"{"error":"invalid_grant","error_description":"bad code"}"#)
            .unwrap();
    match tokens_from_reply(&v, 1) {
        Err(e @ AuthError::ExchangeFailed { .. }) => {
            assert_eq!(e.message(), "token exchange failed: bad code")
        }
        _ => panic!("expected ExchangeFailed"),
    }
    let v: serde_json::Value = serde_json::from_str(r#"{"refresh_token":"R"}"#).unwrap();
    match tokens_from_reply(&v, 1) {
        Err(e @ AuthError::NoAccessToken) => assert_eq!(e.message(), "no access_token"),
        _ => panic!("expected NoAccessToken"),
    }
    let v: serde_json::Value = serde_json::from_str(r#"{"access_token":"A"}"#).unwrap();
    match tokens_from_reply(&v, 1) {
        Err(e @ AuthError::NoRefreshToken) => assert_eq!(e.message(), "no refresh_token"),
        _ => panic!("expected NoRefreshToken"),
    }
}

#[test]
fn cached_token_used_until_stale_or_forced() {
    let t = Tokens { access_token: "A".into(), refresh_token: "R".into(), obtained_at: 100 };
    assert_eq!(cached_access_token(&t, false, 100 + 3599), Some("A".to_string()));
    assert_eq!(cached_access_token(&t, false, 100 + 3600), None);
    assert_eq!(cached_access_token(&t, true, 100), None);
}

#[test]
fn tokens_from_reply_text_reads_json() {
    match tokens_from_reply_text(r#"{"access_token":"A","refresh_token":"R"}"#, 5) {
        Ok(t) => {
            assert_eq!(t.access_token, "A");
            assert_eq!(t.refresh_token, "R");
            assert_eq!(t.obtained_at, 5);
        }
        Err(_) => panic!("expected tokens"),
    }
    match tokens_from_reply_text("<html>", 5) {
        Err(e @ AuthError::NotJson) => assert_eq!(e.message(), "token endpoint reply is not JSON"),
        _ => panic!("expected NotJson"),
    }
}
