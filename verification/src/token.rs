//! The short-lived HMAC tokens minted by the web app:
//! `base64url(payload JSON) "." base64url(hmacSha256(payload base64))`,
//! signed with the shared secret.
use base64::engine::general_purpose::URL_SAFE_NO_PAD;
use base64::Engine;
use hmac::{Hmac, Mac};
use sha2::Sha256;
use vstd::prelude::*;
use vstd::string::StringSliceAdditionalSpecFns;
use vstd::utf8::encode_utf8;

use crate::text::str_eq;

verus! {

/// The identity and permissions a token grants.
#[derive(Debug, Clone)]
pub struct Claims {
    pub sub: String,
    pub name: String,
    pub image: Option<String>,
    pub pid: String,
    pub role: String,
    pub exp: u64,
}

/// Why a token was refused.
#[derive(Debug, Clone, Copy, PartialEq, Eq, Structural)]
pub enum TokenError {
    NotConfigured,
    Malformed,
    BadSignature,
    Expired,
    WrongProject,
}

/// The HMAC-SHA256 tag of `message` under `key`.
pub uninterp spec fn hmac_sha256(key: Seq<u8>, message: Seq<u8>) -> Seq<u8>;

/// The bytes that URL-safe base64 without padding decodes `input` to, or
/// `None` where `input` is no such encoding.
pub uninterp spec fn base64url_decode(input: Seq<u8>) -> Option<Seq<u8>>;

/// Checks an HMAC-SHA256 tag (hmac 0.12: `Hmac::<Sha256>::new_from_slice`,
/// `chain_update`, `verify_slice`). The claim is that the check succeeds
/// exactly when `tag` equals the tag of `message` under `key`; HMAC takes a
/// key of any length, so `new_from_slice` does not fail, and `verify_slice`
/// fails on a tag of another length than the 32 bytes of the output.
#[verifier::external_body]
fn hmac_sha256_verify(key: &[u8], message: &[u8], tag: &[u8]) -> (valid: bool)
    ensures
        valid == (tag@ == hmac_sha256(key@, message@)),
{
    match <Hmac<Sha256> as Mac>::new_from_slice(key) {
        Ok(mac) => mac.chain_update(message).verify_slice(tag).is_ok(),
        Err(_) => false,
    }
}

/// Decodes URL-safe base64 without padding (base64 0.22:
/// `URL_SAFE_NO_PAD.decode`). The claim is only that the result is the
/// decoding of the input, `None` where the engine reports an error.
#[verifier::external_body]
fn decode_base64url(input: &[u8]) -> (decoded: Option<Vec<u8>>)
    ensures
        match decoded {
            Some(v) => base64url_decode(input@) == Some(v@),
            None => base64url_decode(input@) is None,
        },
{
    URL_SAFE_NO_PAD.decode(input).ok()
}

/// The shared secret, if one is configured: a value of at least 16 bytes.
pub open spec fn spec_secret(value: Option<String>) -> Option<String> {
    match value {
        Some(v) => if (encode_utf8(v@).len() as usize) >= 16 { Some(v) } else { None },
        None => None,
    }
}

/// Keeps the configured shared secret only when it is at least 16 bytes long.
pub fn secret(value: Option<String>) -> (key: Option<String>)
    ensures
        key == spec_secret(value),
{
    match value {
        Some(v) => if v.as_str().len() >= 16 { Some(v) } else { None },
        None => None,
    }
}

/// `i` is the position of the first `.` of `b`.
pub open spec fn is_first_dot(b: Seq<u8>, i: int) -> bool {
    0 <= i < b.len() && b[i] == 46 && forall|j: int| 0 <= j < i ==> b[j] != 46
}

/// A token split at its first `.`: the encoded payload and the encoded
/// signature.
pub open spec fn spec_split_token(b: Seq<u8>) -> Option<(Seq<u8>, Seq<u8>)> {
    if exists|i: int| is_first_dot(b, i) {
        let i = choose|i: int| is_first_dot(b, i);
        Some((b.take(i), b.skip(i + 1)))
    } else {
        None
    }
}

/// The payload bytes of a token signed with `key`, or why there are none.
pub open spec fn spec_open_token(raw: Seq<u8>, key: Seq<u8>) -> Result<Seq<u8>, TokenError> {
    match spec_split_token(raw) {
        None => Err(TokenError::Malformed),
        Some((payload_b64, sig_b64)) => match base64url_decode(sig_b64) {
            None => Err(TokenError::Malformed),
            Some(sig) => if sig != hmac_sha256(key, payload_b64) {
                Err(TokenError::BadSignature)
            } else {
                match base64url_decode(payload_b64) {
                    None => Err(TokenError::Malformed),
                    Some(payload) => Ok(payload),
                }
            },
        },
    }
}

/// The claims a checked payload yields at time `now` (seconds since the
/// epoch): refused when they could not be read or have expired.
pub open spec fn spec_check_claims(parsed: Option<Claims>, now: u64) -> Result<Claims, TokenError> {
    match parsed {
        None => Err(TokenError::Malformed),
        Some(c) => if c.exp <= now { Err(TokenError::Expired) } else { Ok(c) },
    }
}

/// The position of the first `.` of `b`, if any.
fn find_dot(b: &[u8]) -> (pos: Option<usize>)
    ensures
        match pos {
            Some(i) => is_first_dot(b@, i as int),
            None => !exists|i: int| is_first_dot(b@, i),
        },
{
    let mut i: usize = 0;
    while i < b.len()
        invariant
            i <= b@.len(),
            forall|j: int| 0 <= j < i ==> b@[j] != 46,
        decreases b@.len() - i,
    {
        if b[i] == 46 {
            return Some(i);
        }
        i = i + 1;
    }
    assert forall|k: int| !is_first_dot(b@, k) by {
        if 0 <= k < b@.len() {
            assert(b@[k] != 46);
        }
    }
    None
}

/// Checks the signature of a token against `key` and decodes its payload.
pub fn open_token(raw: &str, key: &str) -> (res: Result<Vec<u8>, TokenError>)
    ensures
        match res {
            Ok(payload) => spec_open_token(raw.spec_bytes(), key.spec_bytes()) == Ok::<Seq<u8>, TokenError>(payload@),
            Err(e) => spec_open_token(raw.spec_bytes(), key.spec_bytes()) == Err::<Seq<u8>, TokenError>(e),
        },
{
    let bytes = raw.as_bytes();
    let n = bytes.len();
    let dot = match find_dot(bytes) {
        Some(i) => i,
        None => return Err(TokenError::Malformed),
    };
    let payload_b64 = vstd::slice::slice_subrange(bytes, 0, dot);
    let sig_b64 = vstd::slice::slice_subrange(bytes, dot + 1, n);
    proof {
        assert(payload_b64@ =~= bytes@.take(dot as int));
        assert(sig_b64@ =~= bytes@.skip(dot + 1));
        let i = choose|i: int| is_first_dot(bytes@, i);
        if i < dot {
        } else if dot < i {
            assert(bytes@[dot as int] != 46);
        }
    }
    let sig = match decode_base64url(sig_b64) {
        Some(s) => s,
        None => return Err(TokenError::Malformed),
    };
    if !hmac_sha256_verify(key.as_bytes(), payload_b64, sig.as_slice()) {
        return Err(TokenError::BadSignature);
    }
    match decode_base64url(payload_b64) {
        Some(payload) => Ok(payload),
        None => Err(TokenError::Malformed),
    }
}

/// Turns the result of reading a verified payload into the token's claims:
/// unreadable claims are malformed, claims whose expiry is not after `now`
/// have expired.
pub fn check_claims(parsed: Option<Claims>, now: u64) -> (res: Result<Claims, TokenError>)
    ensures
        res == spec_check_claims(parsed, now),
{
    match parsed {
        None => Err(TokenError::Malformed),
        Some(c) => if c.exp <= now { Err(TokenError::Expired) } else { Ok(c) },
    }
}

/// `res` is a result that verifying the token `raw` may give: for the
/// project `expected_pid`, or for any project where it is `None`. The
/// token's signature is checked against the configured secret, its payload
/// is read by `parse_claims`, and its claims are checked for expiry at `now`
/// and for their project.
pub open spec fn verify_result<F: Fn(&[u8]) -> Option<Claims>>(
    raw: Seq<u8>,
    expected_pid: Option<Seq<char>>,
    shared_secret: Option<String>,
    now: u64,
    parse_claims: F,
    res: Result<Claims, TokenError>,
) -> bool {
    match spec_secret(shared_secret) {
        None => res == Err::<Claims, TokenError>(TokenError::NotConfigured),
        Some(key) => match spec_open_token(raw, encode_utf8(key@)) {
            Err(e) => res == Err::<Claims, TokenError>(e),
            Ok(payload) => exists|b: &[u8], parsed: Option<Claims>|
                b@ == payload && #[trigger] parse_claims.ensures((b,), parsed) && res == match expected_pid {
                    None => spec_check_claims(parsed, now),
                    Some(pid) => spec_check_project(spec_check_claims(parsed, now), pid),
                },
        },
    }
}

/// Verifies a token's signature and expiry, but not which project it is
/// for. `shared_secret` is the configured secret, `now` the time in seconds
/// since the epoch, and `parse_claims` reads the claims from the payload
/// JSON.
pub fn verify_any<F: Fn(&[u8]) -> Option<Claims>>(
    raw: &str,
    shared_secret: Option<String>,
    now: u64,
    parse_claims: F,
) -> (res: Result<Claims, TokenError>)
    requires
        forall|b: &[u8]| #[trigger] parse_claims.requires((b,)),
    ensures
        verify_result(raw.spec_bytes(), None, shared_secret, now, parse_claims, res),
{
    let key = match secret(shared_secret) {
        Some(k) => k,
        None => return Err(TokenError::NotConfigured),
    };
    let payload = match open_token(raw, key.as_str()) {
        Ok(p) => p,
        Err(e) => return Err(e),
    };
    let parsed = parse_claims(payload.as_slice());
    check_claims(parsed, now)
}

/// What `verify` gives once the signature and expiry have been checked:
/// claims for another project than `expected_pid` are refused.
pub open spec fn spec_check_project(checked: Result<Claims, TokenError>, expected_pid: Seq<char>) -> Result<Claims, TokenError> {
    match checked {
        Err(e) => Err(e),
        Ok(c) => if c.pid@ != expected_pid { Err(TokenError::WrongProject) } else { Ok(c) },
    }
}

/// Verifies a token for the project `expected_pid`: its signature, its
/// expiry, and that it was issued for that project.
pub fn verify<F: Fn(&[u8]) -> Option<Claims>>(
    raw: &str,
    expected_pid: &str,
    shared_secret: Option<String>,
    now: u64,
    parse_claims: F,
) -> (res: Result<Claims, TokenError>)
    requires
        forall|b: &[u8]| #[trigger] parse_claims.requires((b,)),
    ensures
        verify_result(raw.spec_bytes(), Some(expected_pid@), shared_secret, now, parse_claims, res),
{
    let claims = match verify_any(raw, shared_secret, now, parse_claims) {
        Ok(c) => c,
        Err(e) => return Err(e),
    };
    if !str_eq(claims.pid.as_str(), expected_pid) {
        return Err(TokenError::WrongProject);
    }
    Ok(claims)
}

/// A token that is accepted carries claims that have not expired at `now`,
/// and, when it was checked for a project, were issued for that project.
pub proof fn lemma_accepted_claims<F: Fn(&[u8]) -> Option<Claims>>(
    raw: Seq<u8>,
    expected_pid: Option<Seq<char>>,
    shared_secret: Option<String>,
    now: u64,
    parse_claims: F,
    claims: Claims,
)
    requires
        verify_result(raw, expected_pid, shared_secret, now, parse_claims, Ok(claims)),
    ensures
        claims.exp > now,
        expected_pid matches Some(pid) ==> claims.pid@ == pid,
        spec_secret(shared_secret) is Some,
{
}

} // verus!
