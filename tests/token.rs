use large_scale_redirects::token::{
    token_config_from_query, AkamaiTokenGenerator, TokenConfig, TokenError,
};

const KEY: &str = "0123456789abcdef0123456789abcdef";

fn sample_config() -> TokenConfig {
    TokenConfig {
        window_seconds: Some(3600),
        start_time: Some(1718483200),
        url: "https://example.com/video/sample.mp4".to_string(),
        ip: Some("203.0.113.1".to_string()),
        session_id: Some("user123".to_string()),
        verbose: false,
    }
}

#[test]
fn test_token_generation() {
    // The hmac field is HMAC-SHA256 of the fields before it, under the key
    // decoded from hex, written as lower-case hex; any HMAC-SHA256
    // implementation gives the same digits for these inputs.
    let g = AkamaiTokenGenerator::new(KEY, "SHA-256", "hdnts").unwrap();
    let token = g.generate_url_token(&sample_config()).unwrap();
    let expected = "hdnts=exp=1718486800~st=1718483200~url=https%3A%2F%2Fexample.com%2Fvideo%2Fsample.mp4~ip=203.0.113.1~id=user123~hmac=a12b92382ba02a75f11c383bd761a9d297af8f7168b3b9ebee0cdd47da8259f4";
    assert_eq!(token, expected);
}

#[test]
fn start_equal_to_now_is_left_out() {
    let g = AkamaiTokenGenerator::new(KEY, "SHA-256", "hdnts").unwrap();
    let config = TokenConfig {
        window_seconds: None,
        start_time: Some(1700000000),
        url: "https://a.example/x y/é".to_string(),
        ip: None,
        session_id: Some("s1".to_string()),
        verbose: true,
    };
    let token = g.generate_url_token_at(&config, 1700000000).unwrap();
    assert_eq!(
        token,
        "hdnts=exp=1700003600~url=https%3A%2F%2Fa.example%2Fx%20y%2F%C3%A9~id=s1~hmac=9e96fbea0815bbe61686719a616ef6e56e96590e7d0736ada8ad28fc5760f052"
    );
}

#[test]
fn missing_start_uses_now() {
    let g = AkamaiTokenGenerator::new(KEY, "SHA-256", "tok").unwrap();
    let mut config = sample_config();
    config.start_time = None;
    config.window_seconds = Some(-10);
    let token = g.generate_url_token_at(&config, 100).unwrap();
    assert!(token.starts_with("tok=exp=90~url=https%3A%2F%2Fexample.com"));
}

#[test]
fn empty_url_is_refused() {
    let g = AkamaiTokenGenerator::new(KEY, "SHA-256", "hdnts").unwrap();
    let mut config = sample_config();
    config.url = String::new();
    assert_eq!(g.generate_url_token_at(&config, 0), Err(TokenError::UrlRequired));
    assert_eq!(g.generate_url_token(&config), Err(TokenError::UrlRequired));
}

#[test]
fn expiry_overflow_is_refused() {
    let g = AkamaiTokenGenerator::new(KEY, "SHA-256", "hdnts").unwrap();
    let mut config = sample_config();
    config.start_time = Some(i64::MAX);
    assert_eq!(g.generate_url_token_at(&config, 0), Err(TokenError::TimeOverflow));
}

#[test]
fn key_is_required_and_must_be_hex() {
    assert!(matches!(
        AkamaiTokenGenerator::new("", "SHA-256", "hdnts"),
        Err(TokenError::KeyRequired)
    ));
    assert!(matches!(
        AkamaiTokenGenerator::new("0xzz", "SHA-256", "hdnts"),
        Err(TokenError::InvalidHexKey(_))
    ));
    assert!(matches!(
        AkamaiTokenGenerator::new("abc", "SHA-256", "hdnts"),
        Err(TokenError::InvalidHexKey(_))
    ));
}

#[test]
fn hex_marker_is_taken_off_and_case_is_ignored() {
    let plain = AkamaiTokenGenerator::new("0a0b", "SHA-256", "n").unwrap();
    let marked = AkamaiTokenGenerator::new("0x0x0A0B", "SHA-256", "n").unwrap();
    let expected = "c97287ef2d0276ad26cced7e851bd3b23c6de663c47abf3b6d7c99df9391884d";
    assert_eq!(plain.generate_hmac("hello").unwrap(), expected);
    assert_eq!(marked.generate_hmac("hello").unwrap(), expected);
    assert_eq!(marked.get_token_name(), "n");
    let sig = plain.generate_hmac("").unwrap();
    assert_eq!(sig.len(), 64);
    assert!(sig.chars().all(|c| c.is_ascii_digit() || ('a'..='f').contains(&c)));
}

fn pairs(items: &[(&str, &str)]) -> Vec<(String, String)> {
    items.iter().map(|(k, v)| (k.to_string(), v.to_string())).collect()
}

#[test]
fn query_gives_token_settings() {
    let c = token_config_from_query(&pairs(&[
        ("url", "https://example.com/a"),
        ("window", "60"),
        ("start_time", "-5"),
        ("ip", "10.0.0.1"),
        ("session_id", "abc"),
        ("url", "https://ignored.example"),
    ]))
    .unwrap();
    assert_eq!(c.url, "https://example.com/a");
    assert_eq!(c.window_seconds, Some(60));
    assert_eq!(c.start_time, Some(-5));
    assert_eq!(c.ip, Some("10.0.0.1".to_string()));
    assert_eq!(c.session_id, Some("abc".to_string()));
    assert!(c.verbose);
}

#[test]
fn unparsable_numbers_fall_back() {
    let c = token_config_from_query(&pairs(&[
        ("window", "soon"),
        ("start_time", "+12x"),
        ("url", "u"),
    ]))
    .unwrap();
    assert_eq!(c.window_seconds, Some(3600));
    assert_eq!(c.start_time, None);
    assert_eq!(c.ip, None);
    assert_eq!(c.session_id, None);
    let c = token_config_from_query(&pairs(&[("url", "u"), ("start_time", "+12")])).unwrap();
    assert_eq!(c.window_seconds, None);
    assert_eq!(c.start_time, Some(12));
}

#[test]
fn query_without_url_is_refused() {
    assert!(matches!(
        token_config_from_query(&pairs(&[("window", "5")])),
        Err(TokenError::MissingUrl)
    ));
}

#[test]
fn clock_past_signed_range_is_refused() {
    let g = AkamaiTokenGenerator::new(KEY, "SHA-256", "hdnts").unwrap();
    assert!(matches!(
        g.generate_url_token_at_seconds(&sample_config(), u64::MAX),
        Err(TokenError::Clock(_))
    ));
    assert_eq!(
        g.generate_url_token_at_seconds(&sample_config(), 5),
        g.generate_url_token_at(&sample_config(), 5)
    );
}
