//! Content-type classification from the first bytes of a file.

use vstd::prelude::*;

verus! {

/// How many bytes of a file are read to classify it. Only this prefix is
/// ever read, whatever the size of the file.
pub const SNIFF_LIMIT: usize = 8192;

/// What `infer` makes of a byte prefix: the MIME type of its first built-in
/// matcher that accepts the bytes, if any does.
pub uninterp spec fn inferred_mime(bytes: Seq<u8>) -> Option<Seq<char>>;

/// Relies on `infer::get` and `Type::mime_type`: the result depends on the
/// bytes alone, through infer's fixed table of signatures.
#[verifier::external_body]
fn infer_mime(buf: &[u8]) -> (r: Option<String>)
    ensures
        r is Some == inferred_mime(buf@) is Some,
        r is Some ==> r.unwrap()@ == inferred_mime(buf@).unwrap(),
{
    match infer::get(buf) {
        Some(kind) => Some(kind.mime_type().to_string()),
        None => None,
    }
}

/// The label given to content that no signature matches.
pub open spec fn fallback_label() -> Seq<char> {
    "application/octet-stream"@
}

/// The label for what a signature lookup found.
pub open spec fn label_of(found: Option<Seq<char>>) -> Seq<char> {
    match found {
        Some(m) => m,
        None => fallback_label(),
    }
}

/// The content-type label of a byte prefix.
pub open spec fn content_label(bytes: Seq<u8>) -> Seq<char> {
    label_of(inferred_mime(bytes))
}

/// The label for what a signature lookup found: the MIME type it found, or
/// the fallback label where it found none.
pub fn mime_or_default(found: Option<String>) -> (r: String)
    ensures
        r@ == label_of(
            match found {
                Some(m) => Some(m@),
                None => None,
            },
        ),
{
    match found {
        Some(m) => m,
        None => {
            proof { reveal_strlit("application/octet-stream"); }
            String::from_str("application/octet-stream")
        },
    }
}

/// Classifies a file by the prefix of it that was read (at most
/// `SNIFF_LIMIT` bytes), independently of the file's name.
pub fn content_type(prefix: &[u8]) -> (r: String)
    ensures
        r@ == content_label(prefix@),
{
    let found = infer_mime(prefix);
    mime_or_default(found)
}

} // verus!
