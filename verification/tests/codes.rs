use connector::client::{is_silent, validate_code, websocket_endpoint, LinkEnd, Retry};
use connector::config::Config;
use connector::crypto::{
    code_from, connection_code, decode_standard, hash, hex, normalize_code, pkce_s256, random_token, token_from,
    verify_hash,
};

const CROCKFORD: &str = "0123456789ABCDEFGHJKMNPQRSTVWXYZ";

#[test]
fn codes_are_crockford_and_case_insensitive() {
    for _ in 0..100 {
        let code = connection_code();
        assert_eq!(code.len(), 8);
        assert!(code.chars().all(|c| CROCKFORD.contains(c)));
        assert_eq!(normalize_code(&code.to_ascii_lowercase()), code);
    }
    assert_eq!(normalize_code("oil-"), "011-");
}

#[test]
fn pkce_matches_rfc_example() {
    let verifier = "dBjftJeZ4CVP-mB92K27uhbUJU1p1r_wW1gFWFOEjXk";
    assert_eq!(pkce_s256(verifier), "E9Melhoa2OwvFrEMTJguCHaoeK1t8URWbuGJSstw-cM");
}

#[test]
fn codes_spell_forty_bits() {
    assert_eq!(code_from(&vec![0, 0, 0, 0, 0]), "00000000");
    assert_eq!(code_from(&vec![255, 255, 255, 255, 255]), "ZZZZZZZZ");
    assert_eq!(code_from(&vec![0, 0, 0, 0, 31]), "0000000Z");
    assert_eq!(code_from(&vec![8, 0, 0, 0, 0]), "10000000");
}

#[test]
fn tokens_are_url_safe_and_unlike() {
    let token = token_from(&vec![255; 32]);
    assert_eq!(token, "__________________________________________8");
    let a = random_token();
    assert_eq!(a.len(), 43);
    assert!(a.chars().all(|c| c.is_ascii_alphanumeric() || c == '-' || c == '_'));
    assert_ne!(a, random_token());
    assert_ne!(connection_code() + &connection_code(), connection_code() + &connection_code());
}

#[test]
fn hashes_are_sha256() {
    assert_eq!(
        hex(&hash("abc")),
        "ba7816bf8f01cfea414140de5dae2223b00361a396177a9cb410ff61f20015ad"
    );
    assert!(verify_hash("abc", &hash("abc")));
    assert!(!verify_hash("abd", &hash("abc")));
    assert!(!verify_hash("abc", &vec![1, 2, 3]));
}

#[test]
fn converts_gateway_url() {
    assert_eq!(websocket_endpoint("https://example.com/").unwrap(), "wss://example.com/link");
    assert_eq!(
        websocket_endpoint("http://127.0.0.1:3000").unwrap(),
        "ws://127.0.0.1:3000/link"
    );
}

#[test]
fn refuses_other_gateway_urls() {
    assert_eq!(
        websocket_endpoint("ftp://example.com").unwrap_err(),
        "gateway URL must begin with http:// or https://"
    );
    assert_eq!(websocket_endpoint("https://example.com///").unwrap(), "wss://example.com/link");
}

#[test]
fn validates_supplied_connection_codes() {
    assert_eq!(validate_code("oil23456").unwrap(), "01123456");
    assert!(validate_code("short").is_err());
}

#[test]
fn issued_codes_are_accepted() {
    for _ in 0..20 {
        let code = connection_code();
        assert_eq!(validate_code(&code).unwrap(), code);
        assert_eq!(validate_code(&format!(" {}\n", code.to_ascii_lowercase())).unwrap(), code);
    }
    assert_eq!(
        validate_code("123456789").unwrap_err(),
        "connection code must contain 8 characters"
    );
}

#[test]
fn waits_longer_each_time_and_stops_when_refused() {
    let mut retry = Retry::new();
    let mut waits: Vec<u64> = Vec::new();
    for _ in 0..7 {
        waits.push(retry.next(LinkEnd::Unreachable).unwrap());
    }
    assert_eq!(waits, [1, 2, 4, 8, 16, 30, 30]);
    assert_eq!(retry.next(LinkEnd::Closed), Some(1));
    assert_eq!(retry.next(LinkEnd::Unreachable), Some(2));
    assert_eq!(retry.next(LinkEnd::Answered(401)), None);
}

#[test]
fn silence_ends_a_link() {
    assert!(!is_silent(45_000_000_000));
    assert!(is_silent(45_000_000_001));
}

#[test]
fn the_secret_comes_from_the_environment() {
    assert_eq!(Config::from_value(Ok("s".to_string())).unwrap().oauth_client_secret, "s");
    let failure = Config::from_value(Err("environment variable not found".to_string())).unwrap_err();
    assert_eq!(
        failure.chain(),
        "CONNECTOR_OAUTH_CLIENT_SECRET is required: environment variable not found"
    );
}

#[test]
fn stored_codes_are_kept_and_differ() {
    let once = normalize_code("  oil-lazy ");
    assert_eq!(once, "011-1AZY");
    assert_eq!(normalize_code(&once), once);
    assert_ne!(code_from(&vec![1, 2, 3, 4, 5]), code_from(&vec![1, 2, 3, 4, 6]));
    assert_ne!(code_from(&vec![0, 2, 3, 4, 5]), code_from(&vec![1, 2, 3, 4, 5]));
}

#[test]
fn only_padded_encodings_are_decoded() {
    assert_eq!(decode_standard("AQID").unwrap(), vec![1, 2, 3]);
    assert_eq!(decode_standard("/w==").unwrap(), vec![255]);
    assert_eq!(decode_standard("").unwrap(), Vec::<u8>::new());
    for refused in ["/w", "/w=", "/x==", "/w===", "AQ=D", "AQI\n", "_w==", "="] {
        assert!(decode_standard(refused).is_none(), "{refused}");
    }
}
