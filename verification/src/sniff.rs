//! The content sniffer: classifies a raw byte buffer by media type.
//!
//! Classification is a pure best-effort function of the bytes. Content
//! that no matcher recognizes is tagged with a generic binary type rather
//! than rejected.

use vstd::prelude::*;
use vstd::string::{StrSliceExecFns, StringExecFns};

verus! {

/// The media type that content inference assigns to a byte buffer, if it
/// recognizes the buffer at all. The result depends on the bytes alone.
pub uninterp spec fn inferred_mime(bytes: Seq<u8>) -> Option<Seq<char>>;

/// Relies on `infer::get`: its matchers read only the buffer, so the
/// detected type — and so its `mime_type` string — depends on the bytes
/// alone.
#[verifier::external_body]
fn infer_mime(bytes: &Vec<u8>) -> (r: Option<String>)
    ensures
        r matches Some(m) ==> inferred_mime(bytes@) == Some(m@),
        r is None ==> inferred_mime(bytes@) is None,
{
    infer::get(bytes.as_slice()).map(|k| k.mime_type().to_string())
}

/// The media type the sniffer reports: what inference detected, or the
/// generic binary type.
pub open spec fn sniff_spec(bytes: Seq<u8>) -> Seq<char> {
    match inferred_mime(bytes) {
        Some(m) => m,
        None => "application/octet-stream"@,
    }
}

/// Classify a byte buffer: the detected media type, or the generic binary
/// type when nothing is recognized. Never fails.
pub fn sniff(bytes: &Vec<u8>) -> (r: String)
    ensures
        r@ == sniff_spec(bytes@),
{
    match infer_mime(bytes) {
        Some(m) => m,
        None => String::from_str("application/octet-stream"),
    }
}

/// Whether a media type is in the image category.
pub open spec fn is_image_mime(m: Seq<char>) -> bool {
    m.len() >= 6 && m.subrange(0, 6) == "image/"@
}

/// Whether a media type string is in the image category.
pub fn mime_is_image(m: &str) -> (r: bool)
    ensures
        r == is_image_mime(m@),
{
    proof {
        reveal_strlit("image/");
    }
    if m.unicode_len() < 6 {
        return false;
    }
    if m.get_char(0) != 'i' || m.get_char(1) != 'm' || m.get_char(2) != 'a' || m.get_char(3) != 'g'
        || m.get_char(4) != 'e' || m.get_char(5) != '/' {
        proof {
            assert(is_image_mime(m@) ==> m@.subrange(0, 6)[0] == 'i' && m@.subrange(0, 6)[1] == 'm'
                && m@.subrange(0, 6)[2] == 'a' && m@.subrange(0, 6)[3] == 'g' && m@.subrange(
                0,
                6,
            )[4] == 'e' && m@.subrange(0, 6)[5] == '/');
        }
        return false;
    }
    proof {
        assert(m@.subrange(0, 6) =~= "image/"@);
    }
    true
}

} // verus!
