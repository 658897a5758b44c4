use setlist_jwt::b64::base64url;
use setlist_jwt::errors::MintError;
use setlist_jwt::jwt::create_jwt;
use setlist_jwt::jwt::create_jwt_at;
use setlist_jwt::jwt::AppleApi;
use setlist_jwt::jwt::Claims;
use setlist_jwt::jwt::EXPIRY_WINDOW_MS;

fn test_api() -> AppleApi {
    AppleApi::new(
        "TEAM123".to_string(),
        "KEY456".to_string(),
        "/tmp/unused.p8".to_string(),
        "https://api.example.invalid".to_string(),
    )
}

fn gen_pem(alg: &'static ring::signature::EcdsaSigningAlgorithm) -> Vec<u8> {
    let rng = ring::rand::SystemRandom::new();
    let doc = ring::signature::EcdsaKeyPair::generate_pkcs8(alg, &rng).unwrap();
    pem::encode(&pem::Pem::new("PRIVATE KEY", doc.as_ref().to_vec())).into_bytes()
}

fn p256_pem() -> Vec<u8> {
    gen_pem(&ring::signature::ECDSA_P256_SHA256_FIXED_SIGNING)
}

fn b64s(input: &[u8]) -> String {
    String::from_utf8(base64url(&input.to_vec())).unwrap()
}

#[test]
fn claims_expire_one_hour_after_issue() {
    let t: i64 = 1_716_283_625_000;
    let c = Claims::new("TEAM123".to_string(), t);
    assert_eq!(c.iat, t);
    assert_eq!(c.exp, t + 3_600_000);
    assert_eq!(EXPIRY_WINDOW_MS, 3_600_000);
    assert_eq!(c.iss, "TEAM123");
}

#[test]
fn token_has_expected_header_and_claims_segments() {
    let api = test_api();
    let pem = p256_pem();
    let t: i64 = 1_716_283_625_000;
    let token = create_jwt_at(&api, &pem, t).unwrap();
    let parts: Vec<&str> = token.split('.').collect();
    assert_eq!(parts.len(), 3);
    let expected_header = b64s(b"{\"typ\":\"JWT\",\"alg\":\"ES256\",\"kid\":\"KEY456\"}");
    let expected_claims = b64s(
        format!(
            "{{\"iss\":\"TEAM123\",\"exp\":{},\"iat\":{}}}",
            t + 3_600_000,
            t
        )
        .as_bytes(),
    );
    assert_eq!(parts[0], expected_header);
    assert_eq!(parts[1], expected_claims);
    // A fixed-size P-256 signature is 64 bytes, 86 base64url characters.
    assert_eq!(parts[2].len(), 86);
    assert!(parts[2]
        .bytes()
        .all(|b| b.is_ascii_alphanumeric() || b == b'-' || b == b'_'));
}

#[test]
fn same_inputs_fix_everything_but_the_signature() {
    let api = test_api();
    let pem = p256_pem();
    let t: i64 = 1_700_000_000_123;
    let tok1 = create_jwt_at(&api, &pem, t).unwrap();
    let tok2 = create_jwt_at(&api, &pem, t).unwrap();
    let p1: Vec<&str> = tok1.split('.').collect();
    let p2: Vec<&str> = tok2.split('.').collect();
    assert_eq!(p1.len(), 3);
    assert_eq!(p2.len(), 3);
    assert_eq!(p1[0], p2[0]);
    assert_eq!(p1[1], p2[1]);
}

#[test]
fn different_timestamps_give_distinct_tokens() {
    let api = test_api();
    let pem = p256_pem();
    let tok1 = create_jwt_at(&api, &pem, 1_700_000_000_000).unwrap();
    let tok2 = create_jwt_at(&api, &pem, 1_700_000_001_000).unwrap();
    assert_ne!(tok1, tok2);
    let p1: Vec<&str> = tok1.split('.').collect();
    let p2: Vec<&str> = tok2.split('.').collect();
    assert_eq!(p1[0], p2[0]);
    assert_ne!(p1[1], p2[1]);
}

#[test]
fn negative_issue_time_renders_signed_decimals() {
    let api = test_api();
    let pem = p256_pem();
    let t: i64 = -1_000;
    let token = create_jwt_at(&api, &pem, t).unwrap();
    let parts: Vec<&str> = token.split('.').collect();
    let expected_claims = b64s(b"{\"iss\":\"TEAM123\",\"exp\":3599000,\"iat\":-1000}");
    assert_eq!(parts[1], expected_claims);
}

#[test]
fn malformed_key_material_is_a_parse_error() {
    let api = test_api();
    let pem = b"not a pem at all".to_vec();
    assert_eq!(create_jwt_at(&api, &pem, 0), Err(MintError::KeyParse));
}

#[test]
fn wrong_curve_is_a_signing_error() {
    let api = test_api();
    let pem = gen_pem(&ring::signature::ECDSA_P384_SHA384_FIXED_SIGNING);
    assert_eq!(create_jwt_at(&api, &pem, 0), Err(MintError::Signing));
}

#[test]
fn minting_now_yields_a_three_segment_token() {
    let api = test_api();
    let pem = p256_pem();
    let token = create_jwt(&api, &pem).unwrap();
    let parts: Vec<&str> = token.split('.').collect();
    assert_eq!(parts.len(), 3);
    assert!(parts.iter().all(|p| !p.is_empty()));
}

#[test]
fn key_id_is_escaped_into_the_header() {
    let api = AppleApi::new(
        "TEAM123".to_string(),
        "K\"EY".to_string(),
        "/tmp/unused.p8".to_string(),
        "https://api.example.invalid".to_string(),
    );
    let pem = p256_pem();
    let token = create_jwt_at(&api, &pem, 0).unwrap();
    let parts: Vec<&str> = token.split('.').collect();
    let expected_header = b64s(b"{\"typ\":\"JWT\",\"alg\":\"ES256\",\"kid\":\"K\\\"EY\"}");
    assert_eq!(parts[0], expected_header);
}
