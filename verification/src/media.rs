//! Helpers for the upload and preview collaborators: acceptance and
//! sanitization of uploaded filenames, content-type selection, and data-URL
//! assembly around base64 encoding.

use vstd::prelude::*;

use base64::Engine;

use crate::manifest::{
    eq_ignore_ascii_case, is_image_filename, is_image_filename_spec, last_dot, scan_last_dot,
    suffix_eq_ci,
};

verus! {

/// What `sanitize_filename` returns for a given name under the library's
/// fixed options; the result depends on the name alone.
pub uninterp spec fn sanitized_of(name: Seq<char>) -> Seq<char>;

/// Relies on `sanitize_filename::sanitize_with_options`: with fixed options
/// — the portable rules together with the Windows-specific ones, truncation
/// on, empty replacement — the result is a function of the name alone,
/// independent of the host platform.
#[verifier::external_body]
fn sanitize_fixed(name: &str) -> (r: String)
    ensures
        r@ == sanitized_of(name@),
{
    sanitize_filename::sanitize_with_options(
        name,
        sanitize_filename::Options { windows: true, truncate: true, replacement: "" },
    )
}

/// Decides whether an uploaded filename is kept: a name with a recognized
/// image extension is accepted and stored under its sanitized form, any
/// other is skipped.
pub fn accept_upload_filename(name: &str) -> (r: Option<String>)
    ensures
        match r {
            Some(stored) => is_image_filename_spec(name@) && stored@ == sanitized_of(name@),
            None => !is_image_filename_spec(name@),
        },
{
    if is_image_filename(name) {
        Some(sanitize_fixed(name))
    } else {
        None
    }
}

/// What base64 encoding of the standard padded alphabet returns for given
/// bytes; the result depends on the bytes alone.
pub uninterp spec fn base64_of(data: Seq<u8>) -> Seq<char>;

/// Relies on base64's `STANDARD` engine (`Engine::encode`): the encoding is
/// a function of the bytes alone, ASCII, four characters for every started
/// group of three bytes.  The length bound keeps the engine's output-size
/// computation from overflowing.
#[verifier::external_body]
fn base64_encode(data: &[u8]) -> (r: String)
    requires
        data@.len() <= usize::MAX as int / 2,
    ensures
        r@ == base64_of(data@),
        r@.len() == 4 * ((data@.len() + 2) / 3),
{
    base64::engine::general_purpose::STANDARD.encode(data)
}

/// Assembles the data URL for a payload: the scheme, the content type, the
/// base64 marker, then the encoded bytes.
pub fn make_data_url(mime: &str, data: &[u8]) -> (r: String)
    requires
        data@.len() <= usize::MAX as int / 2,
    ensures
        r@ == "data:"@ + mime@ + ";base64,"@ + base64_of(data@),
{
    let mut s = "data:".to_owned();
    s.append(mime);
    s.append(";base64,");
    let encoded = base64_encode(data);
    s.append(encoded.as_str());
    s
}

/// The content type served for a preview image, by extension: PNG and WebP
/// by name, anything else as JPEG.
pub open spec fn preview_mime_spec(name: Seq<char>) -> Seq<char> {
    let p = last_dot(name);
    if p > 0 && eq_ignore_ascii_case(name.skip(p + 1), "png"@) {
        "image/png"@
    } else if p > 0 && eq_ignore_ascii_case(name.skip(p + 1), "webp"@) {
        "image/webp"@
    } else {
        "image/jpeg"@
    }
}

/// Picks the content type for a preview image from its filename.
pub fn mime_for_filename(name: &str) -> (r: &'static str)
    ensures
        r@ == preview_mime_spec(name@),
{
    let k = scan_last_dot(name);
    if k > 1 {
        if suffix_eq_ci(name, k, "png") {
            return "image/png";
        }
        if suffix_eq_ci(name, k, "webp") {
            return "image/webp";
        }
    }
    "image/jpeg"
}

/// The content-disposition header value under which a finished video is
/// offered for download.
pub fn video_content_disposition(job_id: &str) -> (r: String)
    ensures
        r@ == "inline; filename=\"timelapse_"@ + job_id@ + ".mp4\""@,
{
    let mut s = "inline; filename=\"timelapse_".to_owned();
    s.append(job_id);
    s.append(".mp4\"");
    s
}

} // verus!
