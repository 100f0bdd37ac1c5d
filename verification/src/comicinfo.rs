//! Tolerant parser for the archive's embedded metadata sidecar.
//!
//! The sidecar is an XML-like byte stream. The parser scans it for the
//! three elements it knows — `Series`, `Title` and `Writer` — and records
//! their text; unknown elements are skipped. Parsing never fails: on a
//! malformed stream (an unclosed tag, a known element with no matching
//! close tag) it stops early and returns whatever fields were already
//! recovered.

use vstd::prelude::*;

use crate::assets::{ComicInfo, ComicInfoView};
use crate::scan::{
    bytes_eq, copy_range, find_byte, find_byte_from, find_sub, find_sub_from, match_at,
    match_at_exec, lemma_find_byte_from_bounds, lemma_find_sub_from_bounds,
};
use vstd::utf8::{decode_utf8, valid_utf8};

verus! {

/// ASCII `<`.
pub const LT: u8 = 60;

/// ASCII `>`.
pub const GT: u8 = 62;

/// ASCII `/`.
pub const SLASH: u8 = 47;

/// A descriptor with no field recovered.
pub open spec fn empty_info() -> ComicInfoView {
    ComicInfoView { title: None, writer: None, series: None }
}

/// The element name whose text becomes the series.
pub open spec fn series_tag() -> Seq<u8> {
    seq![83u8, 101u8, 114u8, 105u8, 101u8, 115u8]
}

/// The element name whose text becomes the title.
pub open spec fn title_tag() -> Seq<u8> {
    seq![84u8, 105u8, 116u8, 108u8, 101u8]
}

/// The element name whose text becomes the writer.
pub open spec fn writer_tag() -> Seq<u8> {
    seq![87u8, 114u8, 105u8, 116u8, 101u8, 114u8]
}

/// Whether `name` is one of the three recognized element names.
pub open spec fn is_known_tag(name: Seq<u8>) -> bool {
    name == series_tag() || name == title_tag() || name == writer_tag()
}

/// The closing tag `</name>` for an element name.
pub open spec fn close_tag(name: Seq<u8>) -> Seq<u8> {
    seq![LT, SLASH] + name + seq![GT]
}

/// The bytes `!--` that, after a `<`, open an XML comment.
pub open spec fn comment_open() -> Seq<u8> {
    seq![33u8, 45u8, 45u8]
}

/// The bytes `-->` that close an XML comment.
pub open spec fn comment_close() -> Seq<u8> {
    seq![45u8, 45u8, GT]
}

/// Whether a byte is XML whitespace, which ends an element name inside
/// a start tag.
pub open spec fn is_space_byte(b: u8) -> bool {
    b == 32 || b == 9 || b == 10 || b == 13
}

/// The index of the first whitespace byte of `raw` at or after `from`,
/// or the end of `raw` when there is none.
pub open spec fn name_end(raw: Seq<u8>, from: int) -> int
    decreases raw.len() - from,
    when from >= 0
{
    if from >= raw.len() {
        raw.len() as int
    } else if is_space_byte(raw[from]) {
        from
    } else {
        name_end(raw, from + 1)
    }
}

/// The name end lies between `from` and the end of `raw`.
pub proof fn lemma_name_end_bounds(raw: Seq<u8>, from: int)
    requires
        0 <= from <= raw.len(),
    ensures
        from <= name_end(raw, from) <= raw.len(),
    decreases raw.len() - from,
{
    if from < raw.len() && !is_space_byte(raw[from]) {
        lemma_name_end_bounds(raw, from + 1);
    }
}

/// The element name inside a start tag: everything between `<` and `>`
/// up to the first whitespace, so that attributes after the name are
/// ignored.
pub open spec fn tag_name_of(raw: Seq<u8>) -> Seq<u8> {
    raw.take(name_end(raw, 0))
}

/// Record the text of a recognized element. Text that is not valid UTF-8
/// cannot become a string and leaves the descriptor unchanged; a repeated
/// element overwrites the earlier value.
pub open spec fn set_field(acc: ComicInfoView, name: Seq<u8>, text: Seq<u8>) -> ComicInfoView {
    if !valid_utf8(text) {
        acc
    } else if name == series_tag() {
        ComicInfoView { series: Some(decode_utf8(text)), ..acc }
    } else if name == title_tag() {
        ComicInfoView { title: Some(decode_utf8(text)), ..acc }
    } else if name == writer_tag() {
        ComicInfoView { writer: Some(decode_utf8(text)), ..acc }
    } else {
        acc
    }
}

/// What the parser recovers from `s` at and after `pos`, having already
/// recovered `acc`. Each step finds the next `<`; a `<!--` skips to past
/// the closing `-->` (comments are never read as markup); otherwise the
/// step finds the `>` that closes the tag, takes the element name up to
/// the first whitespace (attributes are ignored), and — for a recognized
/// name — finds the matching close tag. Anything missing ends the scan
/// with `acc` as it stands. CDATA sections are not recognized: their
/// contents are read as literal markup.
pub open spec fn parse_from(s: Seq<u8>, pos: int, acc: ComicInfoView) -> ComicInfoView
    decreases s.len() - pos,
    when pos >= 0
    via parse_from_dec
{
    match find_byte_from(s, LT, pos) {
        None => acc,
        Some(i) => {
            if match_at(s, comment_open(), i + 1) {
                match find_sub_from(s, comment_close(), i + 4) {
                    None => acc,
                    Some(c) => parse_from(s, c + 3, acc),
                }
            } else {
                match find_byte_from(s, GT, i + 1) {
                    None => acc,
                    Some(j) => {
                        let name = tag_name_of(s.subrange(i + 1, j));
                        if is_known_tag(name) {
                            match find_sub_from(s, close_tag(name), j + 1) {
                                None => acc,
                                Some(k) => parse_from(
                                    s,
                                    k + close_tag(name).len(),
                                    set_field(acc, name, s.subrange(j + 1, k)),
                                ),
                            }
                        } else {
                            parse_from(s, j + 1, acc)
                        }
                    },
                }
            }
        },
    }
}

#[via_fn]
proof fn parse_from_dec(s: Seq<u8>, pos: int, acc: ComicInfoView) {
    lemma_find_byte_from_bounds(s, LT, pos);
    if let Some(i) = find_byte_from(s, LT, pos) {
        lemma_find_sub_from_bounds(s, comment_close(), i + 4);
        lemma_find_byte_from_bounds(s, GT, i + 1);
        if let Some(j) = find_byte_from(s, GT, i + 1) {
            let name = tag_name_of(s.subrange(i + 1, j));
            lemma_find_sub_from_bounds(s, close_tag(name), j + 1);
        }
    }
}

/// The descriptor recovered from a full sidecar byte stream.
pub open spec fn parse_spec(s: Seq<u8>) -> ComicInfoView {
    parse_from(s, 0, empty_info())
}

/// Relies on `String::from_utf8`: it returns `Ok` exactly when the bytes
/// are valid UTF-8, and then decodes them.
#[verifier::external_body]
fn string_from_utf8(bytes: Vec<u8>) -> (r: Option<String>)
    ensures
        r is Some <==> valid_utf8(bytes@),
        r matches Some(t) ==> t@ == decode_utf8(bytes@),
{
    match String::from_utf8(bytes) {
        Ok(s) => Some(s),
        Err(_) => None,
    }
}

/// The bytes of the series element name.
fn series_tag_vec() -> (v: Vec<u8>)
    ensures
        v@ == series_tag(),
{
    let mut v: Vec<u8> = Vec::new();
    v.push(83);
    v.push(101);
    v.push(114);
    v.push(105);
    v.push(101);
    v.push(115);
    proof {
        assert(v@ =~= series_tag());
    }
    v
}

/// The bytes of the title element name.
fn title_tag_vec() -> (v: Vec<u8>)
    ensures
        v@ == title_tag(),
{
    let mut v: Vec<u8> = Vec::new();
    v.push(84);
    v.push(105);
    v.push(116);
    v.push(108);
    v.push(101);
    proof {
        assert(v@ =~= title_tag());
    }
    v
}

/// The bytes of the writer element name.
fn writer_tag_vec() -> (v: Vec<u8>)
    ensures
        v@ == writer_tag(),
{
    let mut v: Vec<u8> = Vec::new();
    v.push(87);
    v.push(114);
    v.push(105);
    v.push(116);
    v.push(101);
    v.push(114);
    proof {
        assert(v@ =~= writer_tag());
    }
    v
}

/// The bytes of the closing tag `</name>`.
fn close_tag_vec(name: &Vec<u8>) -> (v: Vec<u8>)
    ensures
        v@ == close_tag(name@),
{
    let mut v: Vec<u8> = Vec::new();
    v.push(LT);
    v.push(SLASH);
    let mut i: usize = 0;
    while i < name.len()
        invariant
            i <= name@.len(),
            v@ =~= seq![LT, SLASH] + name@.subrange(0, i as int),
        decreases name@.len() - i,
    {
        v.push(name[i]);
        proof {
            assert(v@ =~= seq![LT, SLASH] + name@.subrange(0, i + 1 as int));
        }
        i = i + 1;
    }
    v.push(GT);
    proof {
        assert(name@.subrange(0, name@.len() as int) =~= name@);
        assert(v@ =~= close_tag(name@));
    }
    v
}

/// The bytes that, after a `<`, open an XML comment.
fn comment_open_vec() -> (v: Vec<u8>)
    ensures
        v@ == comment_open(),
{
    let mut v: Vec<u8> = Vec::new();
    v.push(33);
    v.push(45);
    v.push(45);
    proof {
        assert(v@ =~= comment_open());
    }
    v
}

/// The bytes that close an XML comment.
fn comment_close_vec() -> (v: Vec<u8>)
    ensures
        v@ == comment_close(),
{
    let mut v: Vec<u8> = Vec::new();
    v.push(45);
    v.push(45);
    v.push(GT);
    proof {
        assert(v@ =~= comment_close());
    }
    v
}

/// Whether a byte is XML whitespace.
fn byte_is_space(b: u8) -> (r: bool)
    ensures
        r == is_space_byte(b),
{
    b == 32 || b == 9 || b == 10 || b == 13
}

/// The element name of a start tag's raw contents: the bytes up to the
/// first whitespace.
fn tag_name_vec(raw: &Vec<u8>) -> (name: Vec<u8>)
    ensures
        name@ == tag_name_of(raw@),
{
    let mut e: usize = 0;
    while e < raw.len()
        invariant
            e <= raw@.len(),
            name_end(raw@, 0) == name_end(raw@, e as int),
        decreases raw@.len() - e,
    {
        if byte_is_space(raw[e]) {
            proof {
                assert(name_end(raw@, e as int) == e);
            }
            let name = copy_range(raw, 0, e);
            proof {
                assert(name@ =~= tag_name_of(raw@));
            }
            return name;
        }
        e = e + 1;
    }
    proof {
        assert(name_end(raw@, e as int) == raw@.len());
    }
    let name = copy_range(raw, 0, raw.len());
    proof {
        assert(name@ =~= tag_name_of(raw@));
    }
    name
}

/// Parse a sidecar descriptor byte stream, tolerantly: the result holds
/// exactly the fields that [`parse_spec`] recovers before the stream ends
/// or turns malformed.
pub fn parse_comicinfo(xml_bytes: &Vec<u8>) -> (r: ComicInfo)
    ensures
        r@ == parse_spec(xml_bytes@),
{
    let s = xml_bytes;
    let mut acc = ComicInfo { title: None, writer: None, series: None };
    let mut pos: usize = 0;
    let n = s.len();
    proof {
        assert(acc@ == empty_info());
        assert(s@.len() == n);
    }
    loop
        invariant
            s == xml_bytes,
            pos <= s@.len() <= usize::MAX,
            parse_from(s@, pos as int, acc@) == parse_spec(s@),
        decreases s@.len() - pos,
    {
        let ghost pos0 = pos as int;
        let ghost acc0 = acc@;
        let i = match find_byte(s, LT, pos) {
            Some(i) => i,
            None => {
                return acc;
            },
        };
        let excl = comment_open_vec();
        if match_at_exec(s, &excl, i + 1) {
            let cc = comment_close_vec();
            let c = match find_sub(s, &cc, i + 4) {
                Some(c) => c,
                None => {
                    return acc;
                },
            };
            pos = c + 3;
            proof {
                assert(parse_from(s@, pos0, acc0) == parse_from(s@, pos as int, acc@));
            }
            continue;
        }
        let j = match find_byte(s, GT, i + 1) {
            Some(j) => j,
            None => {
                return acc;
            },
        };
        let raw = copy_range(s, i + 1, j);
        let name = tag_name_vec(&raw);
        let series_pat = series_tag_vec();
        let title_pat = title_tag_vec();
        let writer_pat = writer_tag_vec();
        let is_series = bytes_eq(&name, &series_pat);
        let is_title = bytes_eq(&name, &title_pat);
        let is_writer = bytes_eq(&name, &writer_pat);
        if is_series || is_title || is_writer {
            let close = close_tag_vec(&name);
            let k = match find_sub(s, &close, j + 1) {
                Some(k) => k,
                None => {
                    return acc;
                },
            };
            let text = copy_range(s, j + 1, k);
            let ghost text_view = text@;
            match string_from_utf8(text) {
                Some(t) => {
                    if is_series {
                        acc.series = Some(t);
                    } else if is_title {
                        acc.title = Some(t);
                    } else {
                        acc.writer = Some(t);
                    }
                },
                None => {},
            }
            proof {
                assert(acc@ == set_field(acc0, name@, text_view));
            }
            pos = k + close.len();
            proof {
                assert(parse_from(s@, pos0, acc0) == parse_from(s@, pos as int, acc@));
            }
        } else {
            pos = j + 1;
            proof {
                assert(parse_from(s@, pos0, acc0) == parse_from(s@, pos as int, acc@));
            }
        }
    }
}

} // verus!
