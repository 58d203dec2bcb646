use base64::engine::general_purpose::URL_SAFE_NO_PAD;
use base64::Engine;
use hmac::{Hmac, Mac};
use ms::requests::{may_read, may_upload, may_write, sample_files, store_sample, UploadError, MAX_SAMPLE_BYTES};
use ms::token::Claims;
use sha2::Sha256;

const KEY: &str = "dev-secret-change-me-1234567890";
const NOW: u64 = 1_700_000_000;

fn header(pid: &str, role: &str) -> String {
    let payload = format!(r#"{{"sub":"u1","pid":"{pid}","role":"{role}","exp":{}}}"#, NOW + 100);
    let encoded = URL_SAFE_NO_PAD.encode(payload.as_bytes());
    let mut mac = Hmac::<Sha256>::new_from_slice(KEY.as_bytes()).unwrap();
    mac.update(encoded.as_bytes());
    format!("Bearer {encoded}.{}", URL_SAFE_NO_PAD.encode(mac.finalize().into_bytes()))
}

fn parse_claims(bytes: &[u8]) -> Option<Claims> {
    let value: serde_json::Value = serde_json::from_slice(bytes).ok()?;
    let text = |key: &str| value.get(key).and_then(|v| v.as_str()).map(|s| s.to_string());
    Some(Claims {
        sub: text("sub")?,
        name: text("name").unwrap_or_default(),
        image: text("image"),
        pid: text("pid")?,
        role: text("role").unwrap_or_default(),
        exp: value.get("exp")?.as_u64()?,
    })
}

fn secret() -> Option<String> {
    Some(KEY.to_string())
}

#[test]
fn public_projects_are_readable_by_anyone() {
    assert!(may_read(true, None, "room-1", secret(), NOW, parse_claims));
    assert!(may_read(true, Some("Basic x"), "room-1", None, NOW, parse_claims));
}

#[test]
fn private_projects_need_a_token_for_them() {
    assert!(!may_read(false, None, "room-1", secret(), NOW, parse_claims));
    let viewer = header("room-1", "viewer");
    assert!(may_read(false, Some(&viewer), "room-1", secret(), NOW, parse_claims));
    assert!(!may_read(false, Some(&viewer), "room-2", secret(), NOW, parse_claims));
    assert!(!may_read(false, Some(&viewer), "room-1", None, NOW, parse_claims));
    assert!(!may_read(false, Some(&viewer), "room-1", secret(), NOW + 100, parse_claims));
    let lower = viewer.replacen("Bearer", "bearer", 1);
    assert!(may_read(false, Some(&lower), "room-1", secret(), NOW, parse_claims));
}

#[test]
fn replacing_needs_an_editing_role() {
    assert!(may_write(Some(&header("room-1", "editor")), "room-1", secret(), NOW, parse_claims));
    assert!(may_write(Some(&header("room-1", "owner")), "room-1", secret(), NOW, parse_claims));
    assert!(!may_write(Some(&header("room-1", "viewer")), "room-1", secret(), NOW, parse_claims));
    assert!(!may_write(Some(&header("room-2", "owner")), "room-1", secret(), NOW, parse_claims));
    assert!(!may_write(None, "room-1", secret(), NOW, parse_claims));
}

#[test]
fn uploads_need_any_valid_token() {
    assert!(may_upload(Some(&header("elsewhere", "viewer")), secret(), NOW, parse_claims));
    assert!(!may_upload(None, secret(), NOW, parse_claims));
    assert!(!may_upload(Some("Bearer nonsense"), secret(), NOW, parse_claims));
    assert!(!may_upload(Some(&header("p", "owner")), None, NOW, parse_claims));
}

#[test]
fn sample_naming() {
    let stored = sample_files(" My Kick\u{0}.WAV ", "wav", 1700000000123, 7);
    assert_eq!(stored.file_name, "1700000000123-7.wav");
    assert_eq!(stored.asset.id, "sample-1700000000123-7");
    assert_eq!(stored.asset.name, "My Kick.WAV");
    assert_eq!(stored.asset.url, "/samples/1700000000123-7.wav");
}

#[test]
fn stored_samples() {
    let stored = store_sample(Some("Loop.MP3"), 1024, 5, 1).unwrap();
    assert_eq!(stored.file_name, "5-1.mp3");
    assert_eq!(stored.asset.id, "sample-5-1");
    assert_eq!(stored.asset.name, "Loop.MP3");
    assert_eq!(stored.asset.url, "/samples/5-1.mp3");

    let unnamed = store_sample(None, 0, 9, 2).unwrap();
    assert_eq!(unnamed.file_name, "9-2.wav");
    assert_eq!(unnamed.asset.name, "sample.wav");

    let last = store_sample(Some("take.wav.mp3"), 10, 3, 5).unwrap();
    assert_eq!(last.file_name, "3-5.mp3");

    let odd = store_sample(Some("script.sh"), 10, 3, 4).unwrap();
    assert_eq!(odd.file_name, "3-4.bin");
    assert_eq!(odd.asset.url, "/samples/3-4.bin");
}

#[test]
fn oversized_samples_are_refused() {
    assert_eq!(MAX_SAMPLE_BYTES, 25 * 1024 * 1024);
    assert!(store_sample(Some("a.wav"), MAX_SAMPLE_BYTES, 1, 1).is_ok());
    assert_eq!(store_sample(Some("a.wav"), MAX_SAMPLE_BYTES + 1, 1, 1).unwrap_err(), UploadError::TooLarge);
}
