use pi_dash::auth::{
    choose_secret, extract_token, parse_i64_text, percent_decode, signature_matches,
    AuthConfig, SecretSource,
};

fn config(secret: &str) -> AuthConfig {
    AuthConfig::with_defaults(None, None, secret.to_string())
}

#[test]
fn defaults_and_credentials() {
    let c = config("s");
    assert_eq!(c.username, "admin");
    assert_eq!(c.password, "CHANGEME");
    assert!(c.credentials_match("admin", "CHANGEME"));
    assert!(!c.credentials_match("admin", "changeme"));
    let c = AuthConfig::with_defaults(Some("u".to_string()), Some("p".to_string()), "s".to_string());
    assert!(c.credentials_match("u", "p"));
}

#[test]
fn token_layout() {
    let c = config("secret");
    let t = c.create_access_token_at(1000);
    let parts: Vec<&str> = t.splitn(4, ':').collect();
    assert_eq!(parts.len(), 4);
    assert_eq!(parts[0], "pi-dash");
    assert_eq!(parts[1], "access");
    assert_eq!(parts[2], "87400");
    assert_eq!(parts[3].len(), 64);
    assert!(parts[3].chars().all(|ch| ch.is_ascii_digit() || ('a'..='f').contains(&ch)));
    let r = c.create_refresh_token_at(-5);
    assert!(r.starts_with("pi-dash:refresh:2591995:"));
}

#[test]
fn known_hmac_signature() {
    // HMAC-SHA256 of "pi-dash:access:86400" under the key "key"
    let c = config("key");
    let t = c.create_access_token_at(0);
    assert_eq!(
        t,
        "pi-dash:access:86400:05a28a4ca711773f2b23a3f85db898004b4dc19600f529bd1025409d94adf65a"
    );
    let sig = t.rsplit(':').next().unwrap().to_string();
    assert_eq!(c.validate_token_at(&format!("pi-dash:access:86400:{}", sig), 0), Some("access".to_string()));
}

#[test]
fn tokens_validate() {
    let c = config("secret");
    let a = c.create_access_token_at(1000);
    let r = c.create_refresh_token_at(1000);
    assert_eq!(c.validate_token_at(&a, 1000), Some("access".to_string()));
    assert_eq!(c.validate_token_at(&a, 87400), Some("access".to_string()));
    assert_eq!(c.validate_token_at(&a, 87401), None);
    assert!(c.validate_access_token_at(&a, 2000));
    assert!(!c.validate_refresh_token_at(&a, 2000));
    assert!(c.validate_refresh_token_at(&r, 2000));
    assert!(!c.validate_access_token_at(&r, 2000));
    assert_eq!(config("other").validate_token_at(&a, 1000), None);
}

#[test]
fn fresh_tokens_check_out_now() {
    let c = config("secret");
    let a = c.create_access_token();
    let r = c.create_refresh_token();
    assert!(c.validate_access_token(&a));
    assert!(c.validate_refresh_token(&r));
    assert!(!c.validate_access_token(&r));
    assert_eq!(c.validate_token(&a), Some("access".to_string()));
}

#[test]
fn malformed_tokens() {
    let c = config("secret");
    let a = c.create_access_token_at(1000);
    assert_eq!(c.validate_token_at("", 0), None);
    assert_eq!(c.validate_token_at("pi-dash:access:99", 0), None);
    assert_eq!(c.validate_token_at(&a.replacen("pi-dash", "pi-dosh", 1), 0), None);
    assert_eq!(c.validate_token_at(&a.replacen("87400", "87401", 1), 0), None);
    assert_eq!(c.validate_token_at(&a.replacen("87400", "x", 1), 0), None);
    let mut tampered = a.clone();
    tampered.push('0');
    assert_eq!(c.validate_token_at(&tampered, 0), None);
}

#[test]
fn integer_parsing() {
    assert_eq!(parse_i64_text("0"), Some(0));
    assert_eq!(parse_i64_text("+42"), Some(42));
    assert_eq!(parse_i64_text("-42"), Some(-42));
    assert_eq!(parse_i64_text("007"), Some(7));
    assert_eq!(parse_i64_text("9223372036854775807"), Some(i64::MAX));
    assert_eq!(parse_i64_text("-9223372036854775808"), Some(i64::MIN));
    assert_eq!(parse_i64_text("9223372036854775808"), None);
    assert_eq!(parse_i64_text("-9223372036854775809"), None);
    assert_eq!(parse_i64_text("99999999999999999999999"), None);
    assert_eq!(parse_i64_text(""), None);
    assert_eq!(parse_i64_text("-"), None);
    assert_eq!(parse_i64_text("+"), None);
    assert_eq!(parse_i64_text("1a"), None);
    assert_eq!(parse_i64_text(" 1"), None);
}

#[test]
fn percent_decoding() {
    assert_eq!(percent_decode("pi-dash%3Aaccess%3a1"), "pi-dash:access:1");
    assert_eq!(percent_decode("a+b"), "a b");
    assert_eq!(percent_decode("100%"), "100%");
    assert_eq!(percent_decode("%4"), "%4");
    assert_eq!(percent_decode("%zz"), "%zz");
    assert_eq!(percent_decode("%+5x"), "\u{5}x");
    assert_eq!(percent_decode("%41"), "%41".replace("%41", "A"));
    assert_eq!(percent_decode(""), "");
}

#[test]
fn token_from_request() {
    assert_eq!(extract_token(Some("Bearer abc"), Some("token=zzz")), Some("abc".to_string()));
    assert_eq!(extract_token(Some("Basic abc"), Some("x=1&token=a%3Ab")), Some("a:b".to_string()));
    assert_eq!(extract_token(None, Some("token=&token=b")), Some("".to_string()));
    assert_eq!(extract_token(None, Some("x=1&y=2")), None);
    assert_eq!(extract_token(None, Some("x=1&")), None);
    assert_eq!(extract_token(None, None), None);
    assert_eq!(extract_token(Some("bearer abc"), None), None);
}

#[test]
fn signature_is_lowercase_hex_of_the_tag() {
    assert!(signature_matches("00ff1a", &vec![0x00, 0xff, 0x1a]));
    assert!(!signature_matches("00FF1A", &vec![0x00, 0xff, 0x1a]));
    assert!(!signature_matches("00ff1", &vec![0x00, 0xff, 0x1a]));
    assert!(signature_matches("", &vec![]));
}

#[test]
fn secret_choice() {
    let random = vec![0xde, 0xad, 0x01];
    assert_eq!(
        choose_secret(Some("env".to_string()), Some("file".to_string()), &random),
        ("env".to_string(), SecretSource::Environment)
    );
    assert_eq!(
        choose_secret(None, Some("  stored\n".to_string()), &random),
        ("stored".to_string(), SecretSource::File)
    );
    assert_eq!(
        choose_secret(None, Some(" \n\t".to_string()), &random),
        ("dead01".to_string(), SecretSource::Generated)
    );
    assert_eq!(choose_secret(None, None, &random), ("dead01".to_string(), SecretSource::Generated));
    assert_eq!(choose_secret(None, Some(String::new()), &vec![]), (String::new(), SecretSource::Generated));
    assert_eq!(
        choose_secret(None, Some("\u{3000}\u{85}k e y\u{2029}\t".to_string()), &random),
        ("k e y".to_string(), SecretSource::File)
    );
    assert_eq!(
        choose_secret(None, Some("\u{200b}k".to_string()), &random),
        ("\u{200b}k".to_string(), SecretSource::File)
    );
}
