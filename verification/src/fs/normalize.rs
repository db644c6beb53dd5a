//! Metadata normalization: the contract every backend adapter honors when it
//! translates native metadata into a [`FileMeta`] — default content type,
//! default permission tag, and clock fallback for missing timestamps.

use vstd::prelude::*;

use crate::fs::utils::now;
use crate::fs::FileMeta;

verus! {

/// The MIME type guessed from a path's extension, if the extension is known.
pub uninterp spec fn mime_of(path: Seq<char>) -> Option<Seq<char>>;

/// Relies on `mime_guess::from_path(..).first_raw()`: the guess is a pure
/// function of the path's extension; a missing or unknown extension yields
/// no guess.
#[verifier::external_body]
fn guess_mime(path: &str) -> (r: Option<String>)
    ensures
        match r {
            Some(s) => mime_of(path@) matches Some(t) && s@ == t,
            None => mime_of(path@) is None,
        },
{
    mime_guess::from_path(path).first_raw().map(|s| s.to_owned())
}

/// The content type reported for a stored object: the explicit one when
/// given, else a guess from the path's extension, else the generic binary
/// type.
pub fn resolve_content_type(path: &str, explicit: Option<String>) -> (r: String)
    ensures
        match explicit {
            Some(ct) => r@ == ct@,
            None => match mime_of(path@) {
                Some(t) => r@ == t,
                None => r@ == "application/octet-stream"@,
            },
        },
{
    match explicit {
        Some(ct) => ct,
        None => match guess_mime(path) {
            Some(g) => g,
            None => "application/octet-stream".to_owned(),
        },
    }
}

/// A timestamp fallback: the explicit value when given, else the clock.
pub fn resolve_timestamp(explicit: Option<u64>) -> (r: u64)
    ensures
        explicit matches Some(t) ==> r == t,
{
    match explicit {
        Some(t) => t,
        None => now(),
    }
}

/// The normalized descriptor for an object held by a writable storage
/// backend: named by its path, tagged read-write, content type resolved from
/// the native value or the path, timestamps falling back to the clock.
pub fn storage_file_meta(
    path: &str,
    created: Option<u64>,
    content_type: Option<String>,
    last_modified: Option<u64>,
    size: u64,
) -> (r: FileMeta)
    ensures
        r@.name == path@,
        r@.perm == "rw"@,
        r@.size == size,
        created matches Some(c) ==> r@.created == c,
        last_modified matches Some(l) ==> r@.last_modified == l,
        match content_type {
            Some(ct) => r@.content_type == ct@,
            None => match mime_of(path@) {
                Some(t) => r@.content_type == t,
                None => r@.content_type == "application/octet-stream"@,
            },
        },
{
    FileMeta {
        name: path.to_owned(),
        created: resolve_timestamp(created),
        perm: "rw".to_owned(),
        content_type: resolve_content_type(path, content_type),
        last_modified: resolve_timestamp(last_modified),
        size,
    }
}

/// The normalized descriptor for an embedded, strictly read-only asset: the
/// bundle reports second-precision timestamps, scaled here to milliseconds,
/// and always knows its MIME type and size.
pub fn embedded_file_meta(
    name: &str,
    created_secs: Option<u64>,
    last_modified_secs: Option<u64>,
    mimetype: String,
    size: u64,
) -> (r: FileMeta)
    requires
        created_secs matches Some(c) ==> c <= u64::MAX / 1000,
        last_modified_secs matches Some(l) ==> l <= u64::MAX / 1000,
    ensures
        r@.name == name@,
        r@.perm == "ro"@,
        r@.content_type == mimetype@,
        r@.size == size,
        created_secs matches Some(c) ==> r@.created == c * 1000,
        last_modified_secs matches Some(l) ==> r@.last_modified == l * 1000,
{
    let created = match created_secs {
        Some(c) => c * 1000,
        None => now(),
    };
    let last_modified = match last_modified_secs {
        Some(l) => l * 1000,
        None => now(),
    };
    FileMeta { name: name.to_owned(), created, perm: "ro".to_owned(), content_type: mimetype, last_modified, size }
}

} // verus!
