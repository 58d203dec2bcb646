//! What the HTTP endpoints decide: who may read or replace a project
//! document, who may upload a sample, and under which names an upload is
//! stored and listed.
use vstd::prelude::*;
use vstd::string::StringSliceAdditionalSpecFns;
use vstd::utf8::encode_utf8;

use crate::project::{AssetView, SampleAsset};
use crate::text::{
    ascii_lowercase, bearer_token, can_edit, clean_name, decimal, is_plain_file_name, is_sample_extension, push_decimal,
    safe_extension, spec_bearer_token, spec_clean_name, spec_file_extension, spec_sample_extension,
};
use crate::token::{verify, verify_any, verify_result, Claims, TokenError};

verus! {

/// The largest sample upload that is stored, in bytes.
pub const MAX_SAMPLE_BYTES: usize = 25 * 1024 * 1024;

/// The value of an `Authorization` header, if the request has one that is
/// text.
pub open spec fn header_text(authorization: Option<&str>) -> Option<Seq<char>> {
    match authorization {
        Some(h) => Some(h@),
        None => None,
    }
}

/// `allowed` is an answer that checking the bearer token of `authorization`
/// may give: refused without a bearer token; otherwise the token is verified
/// (for `project`, or for any project where it is `None`) and the answer is
/// whether it was accepted and, where `editing`, grants a role that may edit.
pub open spec fn token_answer<F: Fn(&[u8]) -> Option<Claims>>(
    allowed: bool,
    authorization: Option<Seq<char>>,
    project: Option<Seq<char>>,
    editing: bool,
    shared_secret: Option<String>,
    now: u64,
    parse_claims: F,
) -> bool {
    match authorization {
        None => !allowed,
        Some(h) => match spec_bearer_token(h) {
            None => !allowed,
            Some(t) => token_accepts(allowed, t, project, editing, shared_secret, now, parse_claims),
        },
    }
}

/// `allowed` is an answer that verifying the bearer token `t` may give.
pub open spec fn token_accepts<F: Fn(&[u8]) -> Option<Claims>>(
    allowed: bool,
    t: Seq<char>,
    project: Option<Seq<char>>,
    editing: bool,
    shared_secret: Option<String>,
    now: u64,
    parse_claims: F,
) -> bool {
    exists|checked: Result<Claims, TokenError>|
        #[trigger] verify_result(encode_utf8(t), project, shared_secret, now, parse_claims, checked) && allowed
            == match checked {
            Ok(c) => !editing || c.role@ == "owner"@ || c.role@ == "editor"@,
            Err(_) => false,
        }
}

fn check_bearer<F: Fn(&[u8]) -> Option<Claims>>(
    authorization: Option<&str>,
    project: Option<&str>,
    editing: bool,
    shared_secret: Option<String>,
    now: u64,
    parse_claims: F,
) -> (allowed: bool)
    requires
        forall|b: &[u8]| #[trigger] parse_claims.requires((b,)),
    ensures
        token_answer(
            allowed,
            header_text(authorization),
            header_text(project),
            editing,
            shared_secret,
            now,
            parse_claims,
        ),
{
    let header = match authorization {
        Some(h) => h,
        None => return false,
    };
    let raw = match bearer_token(header) {
        Some(t) => t,
        None => return false,
    };
    let raw_str = raw.as_str();
    let checked = match project {
        Some(pid) => verify(raw_str, pid, shared_secret, now, parse_claims),
        None => verify_any(raw_str, shared_secret, now, parse_claims),
    };
    let allowed = match &checked {
        Ok(claims) => !editing || can_edit(claims.role.as_str()),
        Err(_) => false,
    };
    assert(raw_str.spec_bytes() == encode_utf8(raw@));
    assert(verify_result(encode_utf8(raw@), header_text(project), shared_secret, now, parse_claims, checked));
    allowed
}

/// Whether a request may read a project document: anyone may read a public
/// project; a private one needs a bearer token verified for that project.
pub fn may_read<F: Fn(&[u8]) -> Option<Claims>>(
    is_public: bool,
    authorization: Option<&str>,
    project_id: &str,
    shared_secret: Option<String>,
    now: u64,
    parse_claims: F,
) -> (allowed: bool)
    requires
        forall|b: &[u8]| #[trigger] parse_claims.requires((b,)),
    ensures
        is_public ==> allowed,
        !is_public ==> token_answer(
            allowed,
            header_text(authorization),
            Some(project_id@),
            false,
            shared_secret,
            now,
            parse_claims,
        ),
{
    if is_public {
        return true;
    }
    check_bearer(authorization, Some(project_id), false, shared_secret, now, parse_claims)
}

/// Whether a request may replace a project document: it needs a bearer
/// token verified for that project whose role may edit.
pub fn may_write<F: Fn(&[u8]) -> Option<Claims>>(
    authorization: Option<&str>,
    project_id: &str,
    shared_secret: Option<String>,
    now: u64,
    parse_claims: F,
) -> (allowed: bool)
    requires
        forall|b: &[u8]| #[trigger] parse_claims.requires((b,)),
    ensures
        token_answer(allowed, header_text(authorization), Some(project_id@), true, shared_secret, now, parse_claims),
{
    check_bearer(authorization, Some(project_id), true, shared_secret, now, parse_claims)
}

/// Whether a request may upload a sample: any signed, unexpired token will
/// do, whatever project it was issued for.
pub fn may_upload<F: Fn(&[u8]) -> Option<Claims>>(
    authorization: Option<&str>,
    shared_secret: Option<String>,
    now: u64,
    parse_claims: F,
) -> (allowed: bool)
    requires
        forall|b: &[u8]| #[trigger] parse_claims.requires((b,)),
    ensures
        token_answer(allowed, header_text(authorization), None, false, shared_secret, now, parse_claims),
{
    check_bearer(authorization, None, false, shared_secret, now, parse_claims)
}

/// A stored sample: the name of its file in the samples directory, and the
/// asset that lists it in a project.
#[derive(Debug)]
pub struct StoredSample {
    pub file_name: String,
    pub asset: SampleAsset,
}

/// Why an upload was not stored.
#[derive(Debug, Clone, Copy, PartialEq, Eq, Structural)]
pub enum UploadError {
    /// The file is larger than `MAX_SAMPLE_BYTES`.
    TooLarge,
}

/// `stamp-serial`, the part shared by a stored sample's file name and id.
pub open spec fn upload_key(stamp: u128, serial: u64) -> Seq<char> {
    decimal(stamp as nat) + "-"@ + decimal(serial as nat)
}

/// The file name of an upload stored with extension `extension`.
pub open spec fn spec_sample_file(stamp: u128, serial: u64, extension: Seq<char>) -> Seq<char> {
    upload_key(stamp, serial) + "."@ + extension
}

/// The asset listing an upload named `original_name` and stored as
/// `file_name`: id `sample-stamp-serial`, the original name cleaned to 120
/// characters, and the URL under `/samples/`.
pub open spec fn spec_sample_asset(original_name: Seq<char>, stamp: u128, serial: u64, file_name: Seq<char>) -> AssetView {
    AssetView {
        id: "sample-"@ + upload_key(stamp, serial),
        name: spec_clean_name(original_name, 120),
        url: "/samples/"@ + file_name,
    }
}

/// Names an upload: its file is `stamp-serial.extension` and its asset
/// lists it under the cleaned original name.
pub fn sample_files(original_name: &str, extension: &str, stamp: u128, serial: u64) -> (stored: StoredSample)
    ensures
        stored.file_name@ == spec_sample_file(stamp, serial, extension@),
        stored.asset@ == spec_sample_asset(original_name@, stamp, serial, stored.file_name@),
{
    let mut key = String::new();
    push_decimal(&mut key, stamp);
    key.append("-");
    push_decimal(&mut key, serial as u128);
    assert(key@ =~= upload_key(stamp, serial));

    let mut file_name = key.clone();
    file_name.append(".");
    file_name.append(extension);

    let mut id = "sample-".to_owned();
    id.append(key.as_str());

    let mut url = "/samples/".to_owned();
    url.append(file_name.as_str());

    let asset = SampleAsset { id, name: clean_name(original_name, 120), url };
    StoredSample { file_name, asset }
}

/// `file_name` and `asset` name an upload of a file named `name`: by
/// `sample_files`, with an extension that `safe_extension` may give for the
/// name (an accepted audio type found after a `.` of the name, or `bin`).
pub open spec fn stored_as(file_name: Seq<char>, asset: AssetView, name: Seq<char>, stamp: u128, serial: u64) -> bool {
    exists|ext: Seq<char>|
        (is_sample_extension(ext) || ext == "bin"@) && (is_sample_extension(ext) ==> exists|i: int|
            1 <= i && i + ext.len() <= name.len() && name[i - 1] == '.' && ascii_lowercase(
                #[trigger] name.subrange(i, i + ext.len()),
            ) == ext) && file_name == #[trigger] spec_sample_file(stamp, serial, ext) && asset
            == spec_sample_asset(name, stamp, serial, file_name)
}

/// The file name of an upload: the one it came with, `sample.wav` where it
/// came with none.
pub open spec fn upload_name(original_name: Option<&str>) -> Seq<char> {
    match original_name {
        Some(n) => n@,
        None => "sample.wav"@,
    }
}

/// Stores an upload of `size` bytes whose file name is `original_name`
/// (`sample.wav` when the upload gave none), at time `stamp` (milliseconds
/// since the epoch) as the `serial`-th upload: refused when it is larger
/// than `MAX_SAMPLE_BYTES`; else named by `sample_files` with the extension
/// that `safe_extension` gives for the file name: for a plain file name,
/// the accepted audio type after its last `.`, lowercased, else `bin`.
pub fn store_sample(original_name: Option<&str>, size: usize, stamp: u128, serial: u64) -> (res: Result<
    StoredSample,
    UploadError,
>)
    ensures
        size > MAX_SAMPLE_BYTES <==> res is Err,
        res matches Err(e) ==> e == UploadError::TooLarge,
        res matches Ok(stored) ==> stored_as(stored.file_name@, stored.asset@, upload_name(original_name), stamp, serial),
        is_plain_file_name(upload_name(original_name)) ==> (res matches Ok(stored) ==> stored.file_name@
            == spec_sample_file(stamp, serial, spec_sample_extension(spec_file_extension(upload_name(original_name))))),
{
    if size > MAX_SAMPLE_BYTES {
        return Err(UploadError::TooLarge);
    }
    let name = match original_name {
        Some(n) => n,
        None => "sample.wav",
    };
    let extension = safe_extension(name);
    let stored = sample_files(name, extension.as_str(), stamp, serial);
    assert(stored_as(stored.file_name@, stored.asset@, name@, stamp, serial)) by {
        assert(stored.file_name@ == spec_sample_file(stamp, serial, extension@));
    }
    Ok(stored)
}

} // verus!
