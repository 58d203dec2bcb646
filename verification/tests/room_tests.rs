use std::collections::HashMap;

use base64::engine::general_purpose::URL_SAFE_NO_PAD;
use base64::Engine;
use hmac::{Hmac, Mac};
use ms::operation::ProjectOperation;
use ms::room::{accept_join, display_name, identity_of, join, leave, may_apply, presence, Identity, JoinRefusal};
use ms::token::{Claims, TokenError};
use sha2::Sha256;

const KEY: &str = "dev-secret-change-me-1234567890";
const NOW: u64 = 1_700_000_000;

fn who(user: &str, name: &str, role: &str) -> Identity {
    Identity { user_id: user.to_string(), name: name.to_string(), image: None, role: role.to_string() }
}

fn ids(users: &[ms::room::UserPresence]) -> Vec<u64> {
    users.iter().map(|u| u.client_id).collect()
}

fn sign(payload: &str) -> String {
    let encoded = URL_SAFE_NO_PAD.encode(payload.as_bytes());
    let mut mac = Hmac::<Sha256>::new_from_slice(KEY.as_bytes()).unwrap();
    mac.update(encoded.as_bytes());
    format!("{encoded}.{}", URL_SAFE_NO_PAD.encode(mac.finalize().into_bytes()))
}

fn parse_claims(bytes: &[u8]) -> Option<Claims> {
    let value: serde_json::Value = serde_json::from_slice(bytes).ok()?;
    let text = |key: &str| value.get(key).and_then(|v| v.as_str()).map(|s| s.to_string());
    Some(Claims {
        sub: text("sub")?,
        name: text("name").unwrap_or_default(),
        image: text("image"),
        pid: text("pid")?,
        role: text("role").unwrap_or_default(),
        exp: value.get("exp")?.as_u64()?,
    })
}

#[test]
fn presence_is_ordered_by_client_id() {
    let mut clients = HashMap::new();
    clients.insert(5, who("u5", "Eve", "viewer"));
    clients.insert(1, Identity { image: Some("a.png".to_string()), ..who("u1", "Ann", "owner") });
    clients.insert(3, who("u3", "Cat", "editor"));
    let users = presence(&clients);
    assert_eq!(ids(&users), vec![1, 3, 5]);
    assert_eq!(users[0].user_id, "u1");
    assert_eq!(users[0].name, "Ann");
    assert_eq!(users[0].image, Some("a.png".to_string()));
    assert_eq!(users[2].name, "Eve");
    assert!(presence(&HashMap::new()).is_empty());
}

#[test]
fn joining_lists_the_new_member() {
    let mut clients = HashMap::new();
    let users = join(&mut clients, 7, who("u7", "Gus", "editor"));
    assert_eq!(ids(&users), vec![7]);
    let users = join(&mut clients, 2, who("u2", "Bo", "viewer"));
    assert_eq!(ids(&users), vec![2, 7]);
    assert_eq!(users[0].name, "Bo");
    assert_eq!(clients.len(), 2);
}

#[test]
fn leaving_unlists_the_member_and_empties_the_room() {
    let mut clients = HashMap::new();
    join(&mut clients, 1, who("u1", "A", "owner"));
    join(&mut clients, 2, who("u2", "B", "viewer"));
    let (users, empty) = leave(&mut clients, 1);
    assert_eq!(ids(&users), vec![2]);
    assert!(!empty);
    let (users, empty) = leave(&mut clients, 2);
    assert!(users.is_empty());
    assert!(empty);
    let (users, empty) = leave(&mut clients, 9);
    assert!(users.is_empty());
    assert!(empty);
}

#[test]
fn display_names() {
    assert_eq!(display_name("  Ada\u{7} "), "Ada");
    assert_eq!(display_name("   "), "Producer");
    assert_eq!(display_name(""), "Producer");
    assert_eq!(display_name(&"n".repeat(50)), "n".repeat(40));
}

#[test]
fn identities_come_from_claims() {
    let claims = Claims {
        sub: "user-9".to_string(),
        name: "\u{1}".to_string(),
        image: Some("me.png".to_string()),
        pid: "room".to_string(),
        role: "editor".to_string(),
        exp: 1,
    };
    let id = identity_of(claims);
    assert_eq!(id.user_id, "user-9");
    assert_eq!(id.name, "Producer");
    assert_eq!(id.image, Some("me.png".to_string()));
    assert_eq!(id.role, "editor");
}

#[test]
fn editing_permissions() {
    let bpm = ProjectOperation::SetBpm { bpm: 120 };
    let public = ProjectOperation::SetPublic { is_public: true };
    assert!(!may_apply("viewer", &bpm));
    assert!(may_apply("editor", &bpm));
    assert!(may_apply("owner", &bpm));
    assert!(!may_apply("editor", &public));
    assert!(may_apply("owner", &public));
    assert!(!may_apply("", &public));
}

#[test]
fn joins_are_checked() {
    let token = sign(&format!(
        r#"{{"sub":"u1","name":"  Ada ","pid":"room-1","role":"owner","exp":{}}}"#,
        NOW + 10
    ));
    let secret = Some(KEY.to_string());

    let refused = accept_join("room 1", &token, secret.clone(), NOW, parse_claims).unwrap_err();
    assert_eq!(refused, JoinRefusal::NotAJoin);
    assert_eq!(refused.message(), "first message must be a valid join");

    let refused = accept_join("room-2", &token, secret.clone(), NOW, parse_claims).unwrap_err();
    assert_eq!(refused, JoinRefusal::BadToken(TokenError::WrongProject));
    assert_eq!(refused.message(), "invalid or expired invite token");

    let refused = accept_join("room-1", &token, secret.clone(), NOW + 10, parse_claims).unwrap_err();
    assert_eq!(refused, JoinRefusal::BadToken(TokenError::Expired));

    let id = accept_join("room-1", &token, secret, NOW, parse_claims).unwrap();
    assert_eq!(id.user_id, "u1");
    assert_eq!(id.name, "Ada");
    assert_eq!(id.role, "owner");
}
