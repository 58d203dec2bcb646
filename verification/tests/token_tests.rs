use base64::engine::general_purpose::URL_SAFE_NO_PAD;
use base64::Engine;
use hmac::{Hmac, Mac};
use ms::token::{check_claims, open_token, secret, verify, verify_any, Claims, TokenError};
use sha2::Sha256;

const KEY: &str = "dev-secret-change-me-1234567890";
const NOW: u64 = 1_700_000_000;

fn sign(payload: &str, key: &str) -> String {
    let encoded = URL_SAFE_NO_PAD.encode(payload.as_bytes());
    let mut mac = Hmac::<Sha256>::new_from_slice(key.as_bytes()).unwrap();
    mac.update(encoded.as_bytes());
    let sig = URL_SAFE_NO_PAD.encode(mac.finalize().into_bytes());
    format!("{encoded}.{sig}")
}

fn text(value: &serde_json::Value, key: &str) -> Option<String> {
    value.get(key).and_then(|v| v.as_str()).map(|s| s.to_string())
}

fn parse_claims(bytes: &[u8]) -> Option<Claims> {
    let value: serde_json::Value = serde_json::from_slice(bytes).ok()?;
    Some(Claims {
        sub: text(&value, "sub")?,
        name: text(&value, "name").unwrap_or_default(),
        image: text(&value, "image"),
        pid: text(&value, "pid")?,
        role: text(&value, "role").unwrap_or_default(),
        exp: value.get("exp")?.as_u64()?,
    })
}

fn payload(pid: &str, role: &str, exp: u64) -> String {
    format!(r#"{{"sub":"user-1","name":"Ada","image":null,"pid":"{pid}","role":"{role}","iat":1,"exp":{exp}}}"#)
}

fn shared() -> Option<String> {
    Some(KEY.to_string())
}

#[test]
fn secrets_need_sixteen_bytes() {
    assert_eq!(secret(None), None);
    assert_eq!(secret(Some("short".to_string())), None);
    assert_eq!(secret(Some("x".repeat(15))), None);
    assert_eq!(secret(Some("x".repeat(16))), Some("x".repeat(16)));
    // Eight two-byte characters are sixteen bytes.
    assert_eq!(secret(Some("\u{e9}".repeat(8))), Some("\u{e9}".repeat(8)));
}

#[test]
fn a_valid_token_gives_its_claims() {
    let token = sign(&payload("room-1", "editor", NOW + 60), KEY);
    let claims = verify(&token, "room-1", shared(), NOW, parse_claims).unwrap();
    assert_eq!(claims.sub, "user-1");
    assert_eq!(claims.name, "Ada");
    assert_eq!(claims.image, None);
    assert_eq!(claims.pid, "room-1");
    assert_eq!(claims.role, "editor");
    assert_eq!(claims.exp, NOW + 60);
}

#[test]
fn a_token_for_another_project_is_refused() {
    let token = sign(&payload("room-1", "owner", NOW + 60), KEY);
    assert_eq!(verify(&token, "room-2", shared(), NOW, parse_claims).unwrap_err(), TokenError::WrongProject);
    // Checking signature and expiry alone accepts it.
    assert_eq!(verify_any(&token, shared(), NOW, parse_claims).unwrap().pid, "room-1");
}

#[test]
fn expired_tokens_are_refused() {
    let token = sign(&payload("room-1", "owner", NOW), KEY);
    assert_eq!(verify(&token, "room-1", shared(), NOW, parse_claims).unwrap_err(), TokenError::Expired);
    assert!(verify(&token, "room-1", shared(), NOW - 1, parse_claims).is_ok());
}

#[test]
fn forged_tokens_are_refused() {
    let token = sign(&payload("room-1", "owner", NOW + 60), "another-secret-of-some-length");
    assert_eq!(verify(&token, "room-1", shared(), NOW, parse_claims).unwrap_err(), TokenError::BadSignature);

    let good = sign(&payload("room-1", "viewer", NOW + 60), KEY);
    let (_, sig) = good.split_once('.').unwrap();
    let tampered = format!("{}.{sig}", URL_SAFE_NO_PAD.encode(payload("room-1", "owner", NOW + 60)));
    assert_eq!(verify(&tampered, "room-1", shared(), NOW, parse_claims).unwrap_err(), TokenError::BadSignature);
}

#[test]
fn malformed_tokens_are_refused() {
    assert_eq!(verify("no-dot-here", "room-1", shared(), NOW, parse_claims).unwrap_err(), TokenError::Malformed);
    assert_eq!(verify("abc.!!!", "room-1", shared(), NOW, parse_claims).unwrap_err(), TokenError::Malformed);
    let not_json = sign("not json", KEY);
    assert_eq!(verify(&not_json, "room-1", shared(), NOW, parse_claims).unwrap_err(), TokenError::Malformed);
    let no_pid = sign(r#"{"sub":"u","exp":99999999999}"#, KEY);
    assert_eq!(verify_any(&no_pid, shared(), NOW, parse_claims).unwrap_err(), TokenError::Malformed);
}

#[test]
fn tokens_need_a_configured_secret() {
    let token = sign(&payload("room-1", "owner", NOW + 60), KEY);
    assert_eq!(verify(&token, "room-1", None, NOW, parse_claims).unwrap_err(), TokenError::NotConfigured);
    assert_eq!(
        verify_any(&token, Some("too-short".to_string()), NOW, parse_claims).unwrap_err(),
        TokenError::NotConfigured
    );
}

#[test]
fn opening_a_token_gives_its_payload() {
    let text = payload("p", "owner", 5);
    let token = sign(&text, KEY);
    assert_eq!(open_token(&token, KEY).unwrap(), text.as_bytes().to_vec());
    assert_eq!(open_token(&token, "wrong-key-wrong-key").unwrap_err(), TokenError::BadSignature);
    let unsigned = format!("{}.", URL_SAFE_NO_PAD.encode(text.as_bytes()));
    assert_eq!(open_token(&unsigned, KEY).unwrap_err(), TokenError::BadSignature);
}

#[test]
fn claims_are_checked_for_expiry() {
    assert_eq!(check_claims(None, NOW).unwrap_err(), TokenError::Malformed);
    let claims = parse_claims(payload("p", "owner", NOW).as_bytes()).unwrap();
    assert_eq!(check_claims(Some(claims.clone()), NOW).unwrap_err(), TokenError::Expired);
    assert_eq!(check_claims(Some(claims), NOW - 1).unwrap().exp, NOW);
}
