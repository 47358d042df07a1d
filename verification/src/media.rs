//! The fixed media tables: file extension for an image mime type, and the
//! content type served back for a stored file's extension.

use vstd::prelude::*;
use crate::text::str_eq;

verus! {

/// The extension stored for an uploaded image of the given mime type;
/// unknown types fall back to `png`.
pub open spec fn ext_for_mime(m: Seq<char>) -> Seq<char> {
    if m == "image/png"@ {
        "png"@
    } else if m == "image/jpeg"@ || m == "image/jpg"@ {
        "jpg"@
    } else if m == "image/gif"@ {
        "gif"@
    } else if m == "image/webp"@ {
        "webp"@
    } else if m == "image/svg+xml"@ {
        "svg"@
    } else {
        "png"@
    }
}

/// The content type served for a stored file's extension; unknown extensions
/// are served as opaque bytes.
pub open spec fn mime_for_ext(e: Seq<char>) -> Seq<char> {
    if e == "png"@ {
        "image/png"@
    } else if e == "jpg"@ || e == "jpeg"@ {
        "image/jpeg"@
    } else if e == "gif"@ {
        "image/gif"@
    } else if e == "webp"@ {
        "image/webp"@
    } else if e == "svg"@ {
        "image/svg+xml"@
    } else {
        "application/octet-stream"@
    }
}

/// The extension under which an image of the given mime type is stored.
pub fn extension_for(mime: &str) -> (r: &'static str)
    ensures
        r@ == ext_for_mime(mime@),
{
    if str_eq(mime, "image/png") {
        "png"
    } else if str_eq(mime, "image/jpeg") || str_eq(mime, "image/jpg") {
        "jpg"
    } else if str_eq(mime, "image/gif") {
        "gif"
    } else if str_eq(mime, "image/webp") {
        "webp"
    } else if str_eq(mime, "image/svg+xml") {
        "svg"
    } else {
        "png"
    }
}

/// The content type under which a stored media file is served back.
pub fn content_type_for(ext: &str) -> (r: &'static str)
    ensures
        r@ == mime_for_ext(ext@),
{
    if str_eq(ext, "png") {
        "image/png"
    } else if str_eq(ext, "jpg") || str_eq(ext, "jpeg") {
        "image/jpeg"
    } else if str_eq(ext, "gif") {
        "image/gif"
    } else if str_eq(ext, "webp") {
        "image/webp"
    } else if str_eq(ext, "svg") {
        "image/svg+xml"
    } else {
        "application/octet-stream"
    }
}

} // verus!
