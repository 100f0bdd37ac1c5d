//! The package builder: assembles one ordered group of pages, with its
//! resolved title and author, into a single e-reader package.
//!
//! The package container is produced by the `epub-builder` crate behind
//! trusted wrappers. What the library proves is the content handed to the
//! builder: exactly one cover image, one page document per asset in plan
//! order, every asset embedded once, and the resolved metadata — the
//! whole sequence pinned down by [`plan_ops`]. Title resolution follows
//! the descriptor: its title, else the fallback; prefixed by the series
//! when one is present; suffixed with the part number when the archive
//! was split.

use vstd::prelude::*;
use vstd::string::StringExecFns;

use crate::assets::{images_view, ComicInfo, ComicInfoView, ImageView, PackagePlan};
use crate::comicinfo::empty_info;

verus! {

/// Holds the `epub-builder` crate's builder over its in-memory zip
/// backend. The builder's own type cannot be declared to the verifier —
/// the trait bound on its type parameter is private to that crate — so
/// this struct carries it opaquely.
#[verifier::external_body]
pub struct PackageBuilder {
    inner: epub_builder::EpubBuilder<epub_builder::ZipLibrary>,
}

/// The `epub-builder` crate's error type, opaque to verification.
#[verifier::external_type_specification]
#[verifier::external_body]
pub struct ExEpubError(epub_builder::Error);

/// One thing handed to the package builder, in order.
pub enum EpubOp {
    /// The cover image, as path, raw bytes and media type.
    CoverImage { path: Seq<char>, bytes: Seq<u8>, mime: Seq<char> },
    /// The cover page document, marked as the cover.
    CoverPage { href: Seq<char>, content: Seq<char>, title: Seq<char> },
    /// One further page document.
    Page { href: Seq<char>, content: Seq<char>, title: Seq<char> },
    /// One embedded resource, as path, raw bytes and media type.
    Resource { path: Seq<char>, bytes: Seq<u8>, mime: Seq<char> },
    /// One metadata entry.
    Meta { key: Seq<char>, value: Seq<char> },
}

/// Everything handed to a builder so far, in order.
pub uninterp spec fn builder_ops(b: PackageBuilder) -> Seq<EpubOp>;

/// The container path one addition writes, if it writes one.
pub open spec fn op_path(op: EpubOp) -> Option<Seq<char>> {
    match op {
        EpubOp::CoverImage { path, .. } => Some(path),
        EpubOp::CoverPage { href, .. } => Some(href),
        EpubOp::Page { href, .. } => Some(href),
        EpubOp::Resource { path, .. } => Some(path),
        EpubOp::Meta { .. } => None,
    }
}

/// Whether some addition already wrote path `p`: the zip writer behind
/// the builder refuses a second file under a name it already holds.
pub open spec fn writes_path(ops: Seq<EpubOp>, p: Seq<char>) -> bool {
    exists|i: int| 0 <= i < ops.len() && op_path(#[trigger] ops[i]) == Some(p)
}

/// The paths the final rendering step writes for itself; an addition
/// under one of these makes that step fail.
pub open spec fn is_reserved_path(p: Seq<char>) -> bool {
    ||| p == "content.opf"@
    ||| p == "toc.ncx"@
    ||| p == "nav.xhtml"@
    ||| p == "stylesheet.css"@
}

/// Whether no addition wrote a path the rendering step reserves.
pub open spec fn no_reserved_paths(ops: Seq<EpubOp>) -> bool {
    forall|i: int|
        0 <= i < ops.len() ==> !(op_path(#[trigger] ops[i]) matches Some(p) && is_reserved_path(p))
}

/// Relies on `EpubBuilder::new` and `ZipLibrary::new`: a fresh builder
/// over an in-memory zip, with nothing added yet. Both constructors only
/// write small fixed entries into the in-memory zip, which cannot
/// refuse them, so creation succeeds. The version is set to EPUB 3.0
/// through `EpubBuilder::epub_version`.
#[verifier::external_body]
fn epub_new() -> (r: Result<PackageBuilder, epub_builder::Error>)
    ensures
        r is Ok,
        r matches Ok(b) ==> builder_ops(b) == Seq::<EpubOp>::empty(),
{
    let mut b = epub_builder::EpubBuilder::new(epub_builder::ZipLibrary::new()?)?;
    b.epub_version(epub_builder::EpubVersion::V30);
    Ok(PackageBuilder { inner: b })
}

/// Relies on `EpubBuilder::metadata`: it records the value under the
/// key, failing — with the builder unchanged — only on a key it does not
/// know; `title` and `author` it always accepts.
#[verifier::external_body]
fn epub_metadata(
    b: &mut PackageBuilder,
    key: &String,
    value: &String,
) -> (r: Result<(), epub_builder::Error>)
    ensures
        r is Ok ==> builder_ops(*final(b)) == builder_ops(*old(b)).push(
            EpubOp::Meta { key: key@, value: value@ },
        ),
        r is Err ==> builder_ops(*final(b)) == builder_ops(*old(b)),
        key@ == "title"@ || key@ == "author"@ ==> r is Ok,
{
    match b.inner.metadata(key.as_str(), value.as_str()) {
        Ok(_) => Ok(()),
        Err(e) => Err(e),
    }
}

/// Relies on `EpubBuilder::add_cover_image`: on success the image stands
/// in the package under the path, flagged as the cover. The in-memory
/// write refuses an entry past the container format's per-entry cap and
/// a path it already holds, and nothing else, so a fresh path with a
/// buffer within [`ENTRY_BYTES_CAP`] is always accepted. The zip format
/// caps an entry name at 65535 bytes and the writer does not tolerate
/// more, so the path's length is bounded up front (UTF-8 takes at most
/// four bytes per character, and the builder adds a short prefix).
#[verifier::external_body]
fn epub_add_cover_image(
    b: &mut PackageBuilder,
    path: &String,
    bytes: &Vec<u8>,
    mime: &String,
) -> (r: Result<(), epub_builder::Error>)
    requires
        path@.len() <= 16000,
    ensures
        r is Ok ==> builder_ops(*final(b)) == builder_ops(*old(b)).push(
            EpubOp::CoverImage { path: path@, bytes: bytes@, mime: mime@ },
        ),
        (bytes@.len() <= ENTRY_BYTES_CAP && !writes_path(builder_ops(*old(b)), path@)) ==> r
            is Ok,
{
    match b.inner.add_cover_image(path.as_str(), bytes.as_slice(), mime.as_str()) {
        Ok(_) => Ok(()),
        Err(e) => Err(e),
    }
}

/// Relies on `EpubBuilder::add_content`, `EpubContent::new`,
/// `EpubContent::title` and `EpubContent::reftype`: on success the
/// document stands in the package under the href, titled, and marked as
/// the cover page. The write refuses a document past the per-entry cap
/// (UTF-8 takes at most four bytes per character) and an href already
/// written, and nothing else; the href's length is bounded up front to
/// stay under the format's 65535-byte name cap.
#[verifier::external_body]
fn epub_add_cover_page(
    b: &mut PackageBuilder,
    href: &String,
    content: &String,
    title: &String,
) -> (r: Result<(), epub_builder::Error>)
    requires
        href@.len() <= 16000,
    ensures
        r is Ok ==> builder_ops(*final(b)) == builder_ops(*old(b)).push(
            EpubOp::CoverPage { href: href@, content: content@, title: title@ },
        ),
        (content@.len() * 4 <= ENTRY_BYTES_CAP && !writes_path(builder_ops(*old(b)), href@))
            ==> r is Ok,
{
    let c = epub_builder::EpubContent::new(href.as_str(), content.as_str().as_bytes()).title(
        title.as_str(),
    ).reftype(epub_builder::ReferenceType::Cover);
    match b.inner.add_content(c) {
        Ok(_) => Ok(()),
        Err(e) => Err(e),
    }
}

/// Relies on `EpubBuilder::add_content`, `EpubContent::new` and
/// `EpubContent::title`: on success the document stands in the package
/// under the href, titled. The write refuses a document past the
/// per-entry cap (UTF-8 takes at most four bytes per character) and an
/// href already written, and nothing else; the href's length is bounded
/// up front to stay under the format's 65535-byte name cap.
#[verifier::external_body]
fn epub_add_page(
    b: &mut PackageBuilder,
    href: &String,
    content: &String,
    title: &String,
) -> (r: Result<(), epub_builder::Error>)
    requires
        href@.len() <= 16000,
    ensures
        r is Ok ==> builder_ops(*final(b)) == builder_ops(*old(b)).push(
            EpubOp::Page { href: href@, content: content@, title: title@ },
        ),
        (content@.len() * 4 <= ENTRY_BYTES_CAP && !writes_path(builder_ops(*old(b)), href@))
            ==> r is Ok,
{
    let c = epub_builder::EpubContent::new(href.as_str(), content.as_str().as_bytes()).title(
        title.as_str(),
    );
    match b.inner.add_content(c) {
        Ok(_) => Ok(()),
        Err(e) => Err(e),
    }
}

/// Relies on `EpubBuilder::add_resource`: on success the bytes stand in
/// the package under the path, with the media type. The write refuses
/// an entry past the per-entry cap and a path it already holds, and
/// nothing else; the path's length is bounded up front to stay under
/// the format's 65535-byte name cap.
#[verifier::external_body]
fn epub_add_resource(
    b: &mut PackageBuilder,
    path: &String,
    bytes: &Vec<u8>,
    mime: &String,
) -> (r: Result<(), epub_builder::Error>)
    requires
        path@.len() <= 16000,
    ensures
        r is Ok ==> builder_ops(*final(b)) == builder_ops(*old(b)).push(
            EpubOp::Resource { path: path@, bytes: bytes@, mime: mime@ },
        ),
        (bytes@.len() <= ENTRY_BYTES_CAP && !writes_path(builder_ops(*old(b)), path@)) ==> r
            is Ok,
{
    match b.inner.add_resource(path.as_str(), bytes.as_slice(), mime.as_str()) {
        Ok(_) => Ok(()),
        Err(e) => Err(e),
    }
}

/// Relies on `EpubBuilder::generate`: it renders what was added into one
/// package byte stream. The stream embeds the generation date and a
/// fresh identifier, so nothing is claimed of its bytes. The rendered
/// manifest, table of contents and navigation documents repeat only
/// paths, titles and metadata, each escaped with bounded expansion, so
/// when [`render_cost`] of everything added stays within
/// [`ENTRY_BYTES_CAP`], no rendered document can reach the per-entry
/// cap; rendering also writes its own four fixed documents, so it
/// succeeds when, in addition, no added path took a reserved name.
#[verifier::external_body]
fn epub_generate(b: PackageBuilder) -> (r: Result<Vec<u8>, epub_builder::Error>)
    ensures
        (65536 + render_cost(builder_ops(b)) <= ENTRY_BYTES_CAP && no_reserved_paths(
            builder_ops(b),
        )) ==> r is Ok,
{
    let mut out: Vec<u8> = Vec::new();
    b.inner.generate(&mut out)?;
    Ok(out)
}

/// A per-entry byte bound under which the in-memory container never
/// refuses a write: comfortably below the container format's four-GiB
/// per-entry limit, leaving room for incompressible data to expand
/// slightly under compression.
pub const ENTRY_BYTES_CAP: u64 = 0xF0000000;

/// An upper margin on the bytes the rendered container documents can
/// need on account of one addition: its textual fields, escaped (at
/// most six bytes per input byte, at most four bytes per character),
/// repeated in the manifest, spine, guide and tables of contents, plus
/// fixed markup around them.
pub open spec fn op_render_cost(op: EpubOp) -> nat {
    match op {
        EpubOp::CoverImage { path, mime, .. } => 32 * (path.len() + mime.len()) + 1024,
        EpubOp::CoverPage { href, title, .. } => 32 * (href.len() + title.len()) + 1024,
        EpubOp::Page { href, title, .. } => 32 * (href.len() + title.len()) + 1024,
        EpubOp::Resource { path, mime, .. } => 32 * (path.len() + mime.len()) + 1024,
        EpubOp::Meta { key, value } => 32 * (key.len() + value.len()) + 1024,
    }
}

/// The summed rendering margin of everything added to a builder.
pub open spec fn render_cost(ops: Seq<EpubOp>) -> nat
    decreases ops.len(),
{
    if ops.len() == 0 {
        0
    } else {
        render_cost(ops.drop_last()) + op_render_cost(ops.last())
    }
}

/// The rendering margin is additive over concatenation.
proof fn lemma_render_cost_concat(a: Seq<EpubOp>, b: Seq<EpubOp>)
    ensures
        render_cost(a + b) == render_cost(a) + render_cost(b),
    decreases b.len(),
{
    if b.len() == 0 {
        assert(a + b =~= a);
    } else {
        assert((a + b).drop_last() =~= a + b.drop_last());
        assert((a + b).last() == b.last());
        lemma_render_cost_concat(a, b.drop_last());
    }
}

/// A sequence of additions, each within a margin, is within the summed
/// margin.
proof fn lemma_render_cost_bounded(ops: Seq<EpubOp>, bound: nat)
    requires
        forall|i: int| 0 <= i < ops.len() ==> op_render_cost(#[trigger] ops[i]) <= bound,
    ensures
        render_cost(ops) <= ops.len() * bound,
    decreases ops.len(),
{
    if ops.len() > 0 {
        assert(forall|i: int|
            0 <= i < ops.drop_last().len() ==> op_render_cost(#[trigger] ops.drop_last()[i])
                <= bound) by {
            assert(forall|i: int|
                0 <= i < ops.drop_last().len() ==> ops.drop_last()[i] == ops[i]);
        }
        lemma_render_cost_bounded(ops.drop_last(), bound);
        assert((ops.len() - 1) * bound + bound == ops.len() * bound) by (nonlinear_arith);
    }
}

/// The decimal digit character for `d`.
pub open spec fn digit_char(d: nat) -> char {
    if d == 0 {
        '0'
    } else if d == 1 {
        '1'
    } else if d == 2 {
        '2'
    } else if d == 3 {
        '3'
    } else if d == 4 {
        '4'
    } else if d == 5 {
        '5'
    } else if d == 6 {
        '6'
    } else if d == 7 {
        '7'
    } else if d == 8 {
        '8'
    } else {
        '9'
    }
}

/// The decimal digits of `n`, most significant first, no leading zero.
pub open spec fn dec_str(n: nat) -> Seq<char>
    decreases n,
{
    if n < 10 {
        seq![digit_char(n)]
    } else {
        dec_str(n / 10) + seq![digit_char(n % 10)]
    }
}

/// The decimal digit string for `n < 10`.
fn digit_str(n: u64) -> (r: &'static str)
    requires
        n < 10,
    ensures
        r@ == seq![digit_char(n as nat)],
{
    proof {
        reveal_strlit("0");
        reveal_strlit("1");
        reveal_strlit("2");
        reveal_strlit("3");
        reveal_strlit("4");
        reveal_strlit("5");
        reveal_strlit("6");
        reveal_strlit("7");
        reveal_strlit("8");
        reveal_strlit("9");
    }
    let r = if n == 0 {
        "0"
    } else if n == 1 {
        "1"
    } else if n == 2 {
        "2"
    } else if n == 3 {
        "3"
    } else if n == 4 {
        "4"
    } else if n == 5 {
        "5"
    } else if n == 6 {
        "6"
    } else if n == 7 {
        "7"
    } else if n == 8 {
        "8"
    } else {
        "9"
    };
    proof {
        assert(r@ =~= seq![digit_char(n as nat)]);
    }
    r
}

/// Append the decimal digits of `n`.
fn push_dec(s: &mut String, n: u64)
    ensures
        final(s)@ == old(s)@ + dec_str(n as nat),
    decreases n,
{
    if n < 10 {
        s.append(digit_str(n));
    } else {
        push_dec(s, n / 10);
        s.append(digit_str(n % 10));
        proof {
            assert(old(s)@ + dec_str((n / 10) as nat) + seq![digit_char((n % 10) as nat)]
                =~= old(s)@ + dec_str(n as nat));
        }
    }
}

/// The decimal digit string of `n`.
pub fn u64_to_string(n: u64) -> (r: String)
    ensures
        r@ == dec_str(n as nat),
{
    let mut s = String::new();
    push_dec(&mut s, n);
    proof {
        assert(Seq::<char>::empty() + dec_str(n as nat) =~= dec_str(n as nat));
    }
    s
}

/// Every digit has one value.
proof fn lemma_digit_char_injective(a: nat, b: nat)
    requires
        a < 10,
        b < 10,
        a != b,
    ensures
        digit_char(a) != digit_char(b),
{
}

/// A number under ten renders as one digit; a larger one as at least two.
proof fn lemma_dec_str_len(n: nat)
    ensures
        dec_str(n).len() >= 1,
        n >= 10 ==> dec_str(n).len() >= 2,
    decreases n,
{
    if n >= 10 {
        lemma_dec_str_len(n / 10);
    }
}

/// Decimal rendering is injective: distinct numbers render as distinct
/// digit strings.
pub proof fn lemma_dec_str_injective(a: nat, b: nat)
    requires
        a != b,
    ensures
        dec_str(a) != dec_str(b),
    decreases a + b,
{
    lemma_dec_str_len(a);
    lemma_dec_str_len(b);
    if a < 10 && b < 10 {
        lemma_digit_char_injective(a, b);
        assert(dec_str(a)[0] == digit_char(a));
        assert(dec_str(b)[0] == digit_char(b));
    } else if a >= 10 && b >= 10 {
        if dec_str(a) == dec_str(b) {
            let da = dec_str(a / 10);
            let db = dec_str(b / 10);
            assert(dec_str(a).last() == digit_char(a % 10));
            assert(dec_str(b).last() == digit_char(b % 10));
            if a % 10 != b % 10 {
                lemma_digit_char_injective(a % 10, b % 10);
                assert(false);
            }
            assert((da + seq![digit_char(a % 10)]).drop_last() =~= da);
            assert((db + seq![digit_char(b % 10)]).drop_last() =~= db);
            assert(da == db);
            if a / 10 != b / 10 {
                lemma_dec_str_injective(a / 10, b / 10);
                assert(false);
            }
            assert(a == 10 * (a / 10) + a % 10) by (nonlinear_arith);
            assert(b == 10 * (b / 10) + b % 10) by (nonlinear_arith);
            assert(false);
        }
    }
}

/// Sibling parts never collide on name: two different part numbers give
/// a title two different part suffixes.
pub proof fn lemma_part_titles_distinct(t: Seq<char>, i: usize, j: usize, n: usize)
    requires
        i != j,
    ensures
        titled_with_part(t, Some((i, n))) != titled_with_part(t, Some((j, n))),
{
    let prefix = t + " - part "@;
    let ti = prefix + dec_str(i as nat);
    let tj = prefix + dec_str(j as nat);
    lemma_dec_str_injective(i as nat, j as nat);
    if ti == tj {
        assert(ti.skip(prefix.len() as int) =~= dec_str(i as nat));
        assert(tj.skip(prefix.len() as int) =~= dec_str(j as nat));
        assert(false);
    }
}

/// Ten to the `k`.
pub open spec fn pow10(k: nat) -> nat
    decreases k,
{
    if k == 0 {
        1
    } else {
        10 * pow10((k - 1) as nat)
    }
}

/// A number below ten-to-the-`k` renders in at most `k` digits.
pub proof fn lemma_dec_str_len_bound(n: nat, k: nat)
    requires
        k >= 1,
        n < pow10(k),
    ensures
        dec_str(n).len() <= k,
    decreases k,
{
    if n >= 10 {
        assert(pow10(k) == 10 * pow10((k - 1) as nat));
        if k == 1 {
            assert(pow10(0nat) == 1);
            assert(false);
        }
        assert(n / 10 < pow10((k - 1) as nat)) by (nonlinear_arith)
            requires
                n < 10 * pow10((k - 1) as nat),
        ;
        lemma_dec_str_len_bound(n / 10, (k - 1) as nat);
    }
}

/// A number below one hundred thousand renders in at most five digits.
proof fn lemma_dec_within_five(n: nat)
    requires
        n < 100000,
    ensures
        dec_str(n).len() <= 5,
{
    assert(pow10(5) == 100000) by {
        reveal_with_fuel(pow10, 6);
    }
    lemma_dec_str_len_bound(n, 5);
}

/// Any machine-word number renders in at most twenty digits.
proof fn lemma_dec_within_twenty(n: nat)
    requires
        n <= u64::MAX,
    ensures
        dec_str(n).len() <= 20,
{
    assert(pow10(20) > u64::MAX) by {
        reveal_with_fuel(pow10, 21);
    }
    lemma_dec_str_len_bound(n, 20);
}

/// Whether a character is a decimal digit.
pub open spec fn is_digit_char(c: char) -> bool {
    ||| c == '0'
    ||| c == '1'
    ||| c == '2'
    ||| c == '3'
    ||| c == '4'
    ||| c == '5'
    ||| c == '6'
    ||| c == '7'
    ||| c == '8'
    ||| c == '9'
}

/// A decimal rendering is non-empty and starts with a digit.
proof fn lemma_dec_str_first(n: nat)
    ensures
        dec_str(n).len() >= 1,
        is_digit_char(dec_str(n)[0]),
    decreases n,
{
    if n >= 10 {
        lemma_dec_str_first(n / 10);
        assert(dec_str(n)[0] == dec_str(n / 10)[0]);
    }
}

/// Page hrefs are distinct for distinct page numbers.
proof fn lemma_page_href_injective(a: nat, b: nat)
    requires
        a != b,
    ensures
        page_href(a) != page_href(b),
{
    lemma_dec_str_injective(a, b);
    reveal_strlit("s");
    reveal_strlit(".xhtml");
    if page_href(a) == page_href(b) {
        let da = dec_str(a);
        let db = dec_str(b);
        assert(page_href(a).len() == 1 + da.len() + 6);
        assert(page_href(b).len() == 1 + db.len() + 6);
        assert(da =~= page_href(a).subrange(1, 1 + da.len() as int));
        assert(db =~= page_href(b).subrange(1, 1 + db.len() as int));
        assert(false);
    }
}

/// Embedded image paths are distinct for distinct image numbers.
proof fn lemma_image_path_injective(a: nat, b: nat)
    requires
        a != b,
    ensures
        image_path(a) != image_path(b),
{
    lemma_dec_str_injective(a, b);
    reveal_strlit("images/i");
    if image_path(a) == image_path(b) {
        let da = dec_str(a);
        let db = dec_str(b);
        assert(image_path(a).len() == 8 + da.len());
        assert(image_path(b).len() == 8 + db.len());
        assert(da =~= image_path(a).subrange(8, 8 + da.len() as int));
        assert(db =~= image_path(b).subrange(8, 8 + db.len() as int));
        assert(false);
    }
}

/// Whether one asset is within the bounds the package backend always
/// accepts: its bytes within the per-entry cap and its media type of
/// modest length. Entry names do not flow into the container — every
/// embedded path is a canonical generated one — so they are unbounded.
pub open spec fn asset_fits(a: ImageView) -> bool {
    &&& a.bytes.len() <= ENTRY_BYTES_CAP
    &&& a.mime.len() <= 256
}

/// Whether a plan is within the bounds under which a package build is
/// owed success: a bounded number of pages, each within
/// [`asset_fits`].
pub open spec fn plan_fits(images: Seq<ImageView>) -> bool {
    &&& images.len() <= 16384
    &&& forall|i: int| 0 <= i < images.len() ==> asset_fits(#[trigger] images[i])
}

/// Whether an optional text is absent or of modest length.
pub open spec fn text_fits(t: Option<Seq<char>>) -> bool {
    t matches Some(s) ==> s.len() <= 4096
}

/// Whether a descriptor's fields are of modest length.
pub open spec fn info_fits(ci: ComicInfoView) -> bool {
    &&& text_fits(ci.title)
    &&& text_fits(ci.series)
    &&& text_fits(ci.writer)
}

/// The model of an optional descriptor: absent means every field absent.
pub open spec fn info_view(o: Option<ComicInfo>) -> ComicInfoView {
    match o {
        Some(ci) => ci@,
        None => empty_info(),
    }
}

/// The resolved base title: the descriptor's title, else the fallback;
/// prefixed with the series when one is present.
pub open spec fn resolved_title(info: ComicInfoView, fallback: Seq<char>) -> Seq<char> {
    let base = match info.title {
        Some(t) => t,
        None => fallback,
    };
    match info.series {
        Some(s) => s + " - "@ + base,
        None => base,
    }
}

/// The resolved author: the descriptor's writer, else a placeholder.
pub open spec fn resolved_author(info: ComicInfoView) -> Seq<char> {
    match info.writer {
        Some(w) => w,
        None => "Unknown"@,
    }
}

/// The title with the part number appended when the archive was split.
pub open spec fn titled_with_part(t: Seq<char>, part: Option<(usize, usize)>) -> Seq<char> {
    match part {
        None => t,
        Some(p) => t + " - part "@ + dec_str(p.0 as nat),
    }
}

/// The file name of the produced artifact.
pub open spec fn artifact_name(
    info: ComicInfoView,
    fallback: Seq<char>,
    part: Option<(usize, usize)>,
) -> Seq<char> {
    titled_with_part(resolved_title(info, fallback), part) + ".epub"@
}

/// Resolve the title from the descriptor and the fallback.
pub fn resolve_title(comic_info: &Option<ComicInfo>, fallback: &str) -> (t: String)
    ensures
        t@ == resolved_title(info_view(*comic_info), fallback@),
{
    let base = match comic_info {
        Some(ci) => match &ci.title {
            Some(t) => t.clone(),
            None => String::from_str(fallback),
        },
        None => String::from_str(fallback),
    };
    match comic_info {
        Some(ci) => match &ci.series {
            Some(s) => s.clone().concat(" - ").concat(base.as_str()),
            None => base,
        },
        None => base,
    }
}

/// Resolve the author from the descriptor.
pub fn resolve_author(comic_info: &Option<ComicInfo>) -> (a: String)
    ensures
        a@ == resolved_author(info_view(*comic_info)),
{
    match comic_info {
        Some(ci) => match &ci.writer {
            Some(w) => w.clone(),
            None => String::from_str("Unknown"),
        },
        None => String::from_str("Unknown"),
    }
}

/// Append the part number to the title when the archive was split, so
/// that sibling parts never collide on name.
pub fn title_with_part(title: String, part: Option<(usize, usize)>) -> (t: String)
    ensures
        t@ == titled_with_part(title@, part),
{
    match part {
        None => title,
        Some((i, _total)) => {
            let num = u64_to_string(i as u64);
            title.concat(" - part ").concat(num.as_str())
        },
    }
}

/// The href of page document `num` (1-based).
pub open spec fn page_href(num: nat) -> Seq<char> {
    "s"@ + dec_str(num) + ".xhtml"@
}

/// The page document for page `num` (1-based), showing the image
/// embedded for that page.
pub open spec fn page_xhtml(num: nat) -> Seq<char> {
    "<?xml version='1.0' encoding='utf-8'?><!DOCTYPE html><html xmlns='http://www.w3.org/1999/xhtml'><head><meta charset='utf-8'/><title>Manga</title></head><body><div id='s"@
        + dec_str(num) + "'><img src='images/i"@ + dec_str(num)
        + "' alt='Image'/></div></body></html>"@
}

/// The title of page `num` (1-based).
pub open spec fn page_title(num: nat) -> Seq<char> {
    "Page "@ + dec_str(num)
}

/// The embedded path of the cover image.
pub open spec fn cover_path() -> Seq<char> {
    "cover"@
}

/// The embedded path of image `num` (1-based). Paths are canonical
/// generated names, never the archive's entry names, so no two
/// additions ever collide on a path and no path collides with the
/// names the rendering step reserves.
pub open spec fn image_path(num: nat) -> Seq<char> {
    "images/i"@ + dec_str(num)
}

/// What page `i` (0-based) of the plan adds to the builder: the first
/// page is the cover page, the rest are numbered pages.
pub open spec fn page_op(i: int) -> EpubOp {
    if i == 0 {
        EpubOp::CoverPage { href: page_href(1), content: page_xhtml(1), title: "Cover"@ }
    } else {
        EpubOp::Page {
            href: page_href((i + 1) as nat),
            content: page_xhtml((i + 1) as nat),
            title: page_title((i + 1) as nat),
        }
    }
}

/// The page documents of a plan, in plan order.
pub open spec fn page_ops(images: Seq<ImageView>) -> Seq<EpubOp> {
    Seq::new(images.len(), |i: int| page_op(i))
}

/// The embedded resources of a plan, in plan order.
pub open spec fn resource_ops(images: Seq<ImageView>) -> Seq<EpubOp> {
    Seq::new(
        images.len(),
        |i: int|
            EpubOp::Resource {
                path: image_path((i + 1) as nat),
                bytes: images[i].bytes,
                mime: images[i].mime,
            },
    )
}

/// Everything a package build hands the builder, in order: the cover
/// image from the first asset, the title and author metadata, one page
/// document per asset in plan order, and every asset embedded once, in
/// plan order.
pub open spec fn plan_ops(images: Seq<ImageView>, title: Seq<char>, author: Seq<char>) -> Seq<
    EpubOp,
> {
    seq![
        EpubOp::CoverImage { path: cover_path(), bytes: images[0].bytes, mime: images[0].mime },
        EpubOp::Meta { key: "title"@, value: title },
        EpubOp::Meta { key: "author"@, value: author },
    ] + page_ops(images) + resource_ops(images)
}

/// Why a package build failed.
#[derive(Clone, Copy, Debug, PartialEq, Eq, Structural)]
pub enum PackagingError {
    /// The plan holds no asset: nothing to package is an error here,
    /// unlike at extraction.
    EmptyPlan,
    /// The package backend refused an addition or the final rendering.
    BuilderFailure,
}

/// Build the page document for page `num` (1-based).
fn make_page_xhtml(num: u64) -> (x: String)
    ensures
        x@ == page_xhtml(num as nat),
{
    let mut x = String::from_str(
        "<?xml version='1.0' encoding='utf-8'?><!DOCTYPE html><html xmlns='http://www.w3.org/1999/xhtml'><head><meta charset='utf-8'/><title>Manga</title></head><body><div id='s",
    );
    push_dec(&mut x, num);
    x.append("'><img src='images/i");
    push_dec(&mut x, num);
    x.append("' alt='Image'/></div></body></html>");
    proof {
        assert(x@ =~= page_xhtml(num as nat));
    }
    x
}

/// Build the embedded path of image `num` (1-based).
fn make_image_path(num: u64) -> (p: String)
    ensures
        p@ == image_path(num as nat),
{
    let mut p = String::from_str("images/i");
    push_dec(&mut p, num);
    proof {
        assert(p@ =~= image_path(num as nat));
    }
    p
}

/// Build the href of page document `num` (1-based).
fn make_page_href(num: u64) -> (h: String)
    ensures
        h@ == page_href(num as nat),
{
    let mut h = String::from_str("s");
    push_dec(&mut h, num);
    h.append(".xhtml");
    proof {
        assert(h@ =~= page_href(num as nat));
    }
    h
}

/// Under the plan and text bounds, the rendering margin of a whole
/// package stays within the per-entry cap.
proof fn lemma_plan_render_cost(images: Seq<ImageView>, title: Seq<char>, author: Seq<char>)
    requires
        images.len() > 0,
        plan_fits(images),
        title.len() <= 8223,
        author.len() <= 4096,
    ensures
        65536 + render_cost(plan_ops(images, title, author)) <= ENTRY_BYTES_CAP,
{
    reveal_strlit("title");
    reveal_strlit("author");
    reveal_strlit("s");
    reveal_strlit(".xhtml");
    reveal_strlit("Page ");
    reveal_strlit("Cover");
    reveal_strlit("cover");
    reveal_strlit("images/i");
    let h = seq![
        EpubOp::CoverImage { path: cover_path(), bytes: images[0].bytes, mime: images[0].mime },
        EpubOp::Meta { key: "title"@, value: title },
        EpubOp::Meta { key: "author"@, value: author },
    ];
    let p = page_ops(images);
    let rs = resource_ops(images);
    assert(plan_ops(images, title, author) == h + p + rs);
    lemma_render_cost_concat(h + p, rs);
    lemma_render_cost_concat(h, p);
    assert(h.drop_last() =~= seq![h[0], h[1]]);
    assert(seq![h[0], h[1]].drop_last() =~= seq![h[0]]);
    assert(seq![h[0]].drop_last() =~= Seq::<EpubOp>::empty());
    assert(asset_fits(images[0]));
    assert(op_render_cost(h[0]) <= 32 * (5 + 256) + 1024);

    assert(op_render_cost(h[1]) <= 32 * (5 + 8223) + 1024);
    assert(op_render_cost(h[2]) <= 32 * (6 + 4096) + 1024);
    reveal_with_fuel(render_cost, 5);
    assert(render_cost(h) == render_cost(seq![h[0], h[1]]) + op_render_cost(h[2]));
    assert(render_cost(seq![h[0], h[1]]) == render_cost(seq![h[0]]) + op_render_cost(h[1]));
    assert(render_cost(seq![h[0]]) == op_render_cost(h[0]));
    assert(render_cost(h) <= 3 * 1024 + 32 * (5 + 256) + 32 * (5 + 8223) + 32 * (6 + 4096));
    assert forall|i: int| 0 <= i < p.len() implies op_render_cost(#[trigger] p[i]) <= 4096 by {
        assert(p[i] == page_op(i));
        lemma_dec_within_five((i + 1) as nat);
        assert(dec_str(1) == seq![digit_char(1)]);
    }
    lemma_render_cost_bounded(p, 4096);
    assert forall|i: int| 0 <= i < rs.len() implies op_render_cost(#[trigger] rs[i]) <= 65536 by {
        assert(asset_fits(images[i]));
        lemma_dec_within_five((i + 1) as nat);
    }
    lemma_render_cost_bounded(rs, 65536);
    assert(images.len() * 4096 <= 16384 * 4096) by (nonlinear_arith)
        requires
            images.len() <= 16384,
    ;
    assert(images.len() * 65536 <= 16384 * 65536) by (nonlinear_arith)
        requires
            images.len() <= 16384,
    ;
}

/// In a journal holding the package head and the first `k` page
/// documents, page `k + 1`'s href is fresh.
proof fn lemma_page_href_fresh(iv: Seq<ImageView>, head: Seq<EpubOp>, k: int, num: nat)
    requires
        0 <= k <= iv.len(),
        head.len() == 3,
        op_path(head[0]) == Some(cover_path()),
        op_path(head[1]) is None,
        op_path(head[2]) is None,
        num == k + 1,
    ensures
        !writes_path(head + page_ops(iv).take(k), page_href(num)),
{
    reveal_strlit("s");
    reveal_strlit("cover");
    lemma_dec_str_first(num);
    let jn = head + page_ops(iv).take(k);
    assert forall|t: int| 0 <= t < jn.len() implies op_path(#[trigger] jn[t]) != Some(
        page_href(num),
    ) by {
        if t == 0 {
            assert(page_href(num)[0] == 's');
            assert(cover_path()[0] == 'c');
        } else if t >= 3 {
            let j = t - 3;
            assert(jn[t] == page_op(j));
            lemma_page_href_injective((j + 1) as nat, num);
        }
    }
}

/// In a journal holding the head, every page document and the first
/// `k` embedded images, image `k + 1`'s path is fresh.
proof fn lemma_image_path_fresh(iv: Seq<ImageView>, head: Seq<EpubOp>, k: int, num: nat)
    requires
        0 <= k <= iv.len(),
        head.len() == 3,
        op_path(head[0]) == Some(cover_path()),
        op_path(head[1]) is None,
        op_path(head[2]) is None,
        num == k + 1,
    ensures
        !writes_path(head + page_ops(iv) + resource_ops(iv).take(k), image_path(num)),
{
    reveal_strlit("s");
    reveal_strlit("cover");
    reveal_strlit("images/i");
    lemma_dec_str_first(num);
    let n = iv.len() as int;
    let jn = head + page_ops(iv) + resource_ops(iv).take(k);
    assert forall|t: int| 0 <= t < jn.len() implies op_path(#[trigger] jn[t]) != Some(
        image_path(num),
    ) by {
        assert(image_path(num)[0] == 'i');
        if t == 0 {
            assert(cover_path()[0] == 'c');
        } else if 3 <= t < 3 + n {
            let j = t - 3;
            assert(jn[t] == page_op(j));
            lemma_dec_str_first((j + 1) as nat);
            assert(page_href((j + 1) as nat)[0] == 's');
        } else if t >= 3 + n {
            let j = t - 3 - n;
            assert(jn[t] == resource_ops(iv)[j]);
            lemma_image_path_injective((j + 1) as nat, num);
        }
    }
}

/// No canonical path of a package plan is one the rendering step
/// reserves for itself.
proof fn lemma_plan_paths_unreserved(images: Seq<ImageView>, title: Seq<char>, author: Seq<char>)
    ensures
        no_reserved_paths(plan_ops(images, title, author)),
{
    reveal_strlit("cover");
    reveal_strlit("s");
    reveal_strlit("images/i");
    reveal_strlit("content.opf");
    reveal_strlit("toc.ncx");
    reveal_strlit("nav.xhtml");
    reveal_strlit("stylesheet.css");
    assert("cover"@.len() == 5);
    assert("content.opf"@.len() == 11);
    assert("toc.ncx"@.len() == 7);
    assert("nav.xhtml"@.len() == 9);
    assert("stylesheet.css"@.len() == 14);
    let ops = plan_ops(images, title, author);
    let n = images.len() as int;
    assert forall|t: int|
        0 <= t < ops.len() implies !(op_path(#[trigger] ops[t]) matches Some(p)
        && is_reserved_path(p)) by {
        if t == 0 {
            assert(ops[t] == (EpubOp::CoverImage {
                path: cover_path(),
                bytes: images[0].bytes,
                mime: images[0].mime,
            }));
            assert(cover_path() != "content.opf"@);
            assert(cover_path() != "toc.ncx"@);
            assert(cover_path() != "nav.xhtml"@);
            assert(cover_path() != "stylesheet.css"@);
        } else if t == 1 {
            assert(ops[t] == (EpubOp::Meta { key: "title"@, value: title }));
        } else if t == 2 {
            assert(ops[t] == (EpubOp::Meta { key: "author"@, value: author }));
        } else if 3 <= t < 3 + n {
            let j = t - 3;
            assert(ops[t] == page_op(j));
            lemma_dec_str_first((j + 1) as nat);
            assert(page_href((j + 1) as nat)[0] == 's');
            assert(page_href((j + 1) as nat)[1] == dec_str((j + 1) as nat)[0]);
            assert(page_href((j + 1) as nat) != "content.opf"@);
            assert(page_href((j + 1) as nat) != "toc.ncx"@);
            assert(page_href((j + 1) as nat) != "nav.xhtml"@);
            assert(page_href((j + 1) as nat) != "stylesheet.css"@);
        } else if t >= 3 + n {
            let j = t - 3 - n;
            assert(ops[t] == resource_ops(images)[j]);
            lemma_dec_str_first((j + 1) as nat);
            assert(image_path((j + 1) as nat)[0] == 'i');
            assert(image_path((j + 1) as nat) != "content.opf"@);
            assert(image_path((j + 1) as nat) != "toc.ncx"@);
            assert(image_path((j + 1) as nat) != "nav.xhtml"@);
            assert(image_path((j + 1) as nat) != "stylesheet.css"@);
        }
    }
}

/// A page addition within a fitting plan on a fresh builder cannot be
/// refused: the document is small and its href fresh.
proof fn lemma_page_add_accepted(iv: Seq<ImageView>, head: Seq<EpubOp>, k: int, num: nat)
    requires
        plan_fits(iv),
        0 <= k < iv.len(),
        head.len() == 3,
        op_path(head[0]) == Some(cover_path()),
        op_path(head[1]) is None,
        op_path(head[2]) is None,
        num == k + 1,
    ensures
        page_xhtml(num).len() * 4 <= ENTRY_BYTES_CAP,
        !writes_path(head + page_ops(iv).take(k), page_href(num)),
{
    reveal_strlit(
        "<?xml version='1.0' encoding='utf-8'?><!DOCTYPE html><html xmlns='http://www.w3.org/1999/xhtml'><head><meta charset='utf-8'/><title>Manga</title></head><body><div id='s",
    );
    reveal_strlit("'><img src='images/i");
    reveal_strlit("' alt='Image'/></div></body></html>");
    lemma_dec_within_five(num);
    lemma_page_href_fresh(iv, head, k, num);
}

/// Hand a plan's pages and metadata to a builder: afterwards the builder
/// holds exactly what it held before plus [`plan_ops`] for this plan, in
/// order. Every embedded path is a canonical generated name, pairwise
/// distinct and never reserved, so on a fresh builder a plan within
/// [`plan_fits`] is owed success.
pub fn assemble_package(
    b: &mut PackageBuilder,
    plan: &PackagePlan,
    title: &String,
    author: &String,
) -> (r: Result<(), PackagingError>)
    requires
        plan.images@.len() > 0,
    ensures
        r is Ok ==> builder_ops(*final(b)) == builder_ops(*old(b)) + plan_ops(
            images_view(plan.images@),
            title@,
            author@,
        ),
        r is Err ==> r == Err::<(), PackagingError>(PackagingError::BuilderFailure),
        (builder_ops(*old(b)) == Seq::<EpubOp>::empty() && plan_fits(images_view(plan.images@)))
            ==> r is Ok,
{
    let ghost base = builder_ops(*b);
    let ghost iv = images_view(plan.images@);
    let cover = String::from_str("cover");
    let first = &plan.images[0];
    proof {
        reveal_strlit("cover");
    }
    match epub_add_cover_image(b, &cover, &first.contents, &first.mime_type) {
        Ok(_) => (),
        Err(_) => {
            proof {
                if base == Seq::<EpubOp>::empty() && plan_fits(iv) {
                    assert(asset_fits(iv[0]));
                    assert(iv[0] == plan.images@[0]@);
                    assert(!writes_path(base, cover@));
                    assert(false);
                }
            }
            return Err(PackagingError::BuilderFailure);
        },
    }
    let title_key = String::from_str("title");
    let author_key = String::from_str("author");
    match epub_metadata(b, &title_key, title) {
        Ok(_) => (),
        Err(_) => {
            return Err(PackagingError::BuilderFailure);
        },
    }
    match epub_metadata(b, &author_key, author) {
        Ok(_) => (),
        Err(_) => {
            return Err(PackagingError::BuilderFailure);
        },
    }
    let ghost head = seq![
        EpubOp::CoverImage { path: cover_path(), bytes: iv[0].bytes, mime: iv[0].mime },
        EpubOp::Meta { key: "title"@, value: title@ },
        EpubOp::Meta { key: "author"@, value: author@ },
    ];
    proof {
        assert(builder_ops(*b) =~= base + head);
    }
    let n = plan.images.len();
    let mut i: usize = 0;
    proof {
        assert(page_ops(iv).take(0) =~= Seq::<EpubOp>::empty());
        assert(base + head + page_ops(iv).take(0) =~= base + head);
    }
    while i < n
        invariant
            i <= n == plan.images@.len() <= usize::MAX,
            iv == images_view(plan.images@),
            base == builder_ops(*old(b)),
            head.len() == 3,
            op_path(head[0]) == Some(cover_path()),
            op_path(head[1]) is None,
            op_path(head[2]) is None,
            builder_ops(*b) == base + head + page_ops(iv).take(i as int),
        decreases n - i,
    {
        let num: u64 = (i as u64) + 1;
        let href = make_page_href(num);
        let xhtml = make_page_xhtml(num);
        proof {
            reveal_strlit("s");
            reveal_strlit(".xhtml");
            lemma_dec_within_twenty(num as nat);
        }
        if i == 0 {
            let cover_title = String::from_str("Cover");
            match epub_add_cover_page(b, &href, &xhtml, &cover_title) {
                Ok(_) => (),
                Err(_) => {
                    proof {
                        if base == Seq::<EpubOp>::empty() && plan_fits(iv) {
                            lemma_page_add_accepted(iv, head, i as int, num as nat);
                            assert(base + head + page_ops(iv).take(i as int) =~= head + page_ops(
                                iv,
                            ).take(i as int));
                            assert(false);
                        }
                    }
                    return Err(PackagingError::BuilderFailure);
                },
            }
        } else {
            let mut pt = String::from_str("Page ");
            push_dec(&mut pt, num);
            match epub_add_page(b, &href, &xhtml, &pt) {
                Ok(_) => (),
                Err(_) => {
                    proof {
                        if base == Seq::<EpubOp>::empty() && plan_fits(iv) {
                            lemma_page_add_accepted(iv, head, i as int, num as nat);
                            assert(base + head + page_ops(iv).take(i as int) =~= head + page_ops(
                                iv,
                            ).take(i as int));
                            assert(false);
                        }
                    }
                    return Err(PackagingError::BuilderFailure);
                },
            }
        }
        proof {
            assert(page_ops(iv)[i as int] == page_op(i as int));
            assert(page_ops(iv).take(i + 1) =~= page_ops(iv).take(i as int).push(
                page_ops(iv)[i as int],
            ));
            assert(builder_ops(*b) =~= base + head + page_ops(iv).take(i + 1));
        }
        i = i + 1;
    }
    proof {
        assert(page_ops(iv).take(n as int) =~= page_ops(iv));
        assert(resource_ops(iv).take(0) =~= Seq::<EpubOp>::empty());
        assert(base + head + page_ops(iv) + resource_ops(iv).take(0) =~= base + head + page_ops(
            iv,
        ));
    }
    let mut j: usize = 0;
    while j < n
        invariant
            j <= n == plan.images@.len() <= usize::MAX,
            iv == images_view(plan.images@),
            base == builder_ops(*old(b)),
            head.len() == 3,
            op_path(head[0]) == Some(cover_path()),
            op_path(head[1]) is None,
            op_path(head[2]) is None,
            builder_ops(*b) == base + head + page_ops(iv) + resource_ops(iv).take(j as int),
        decreases n - j,
    {
        let num: u64 = (j as u64) + 1;
        let img = &plan.images[j];
        let path = make_image_path(num);
        proof {
            reveal_strlit("images/i");
            lemma_dec_within_twenty(num as nat);
        }
        match epub_add_resource(b, &path, &img.contents, &img.mime_type) {
            Ok(_) => (),
            Err(_) => {
                proof {
                    if base == Seq::<EpubOp>::empty() && plan_fits(iv) {
                        assert(asset_fits(iv[j as int]));
                        assert(iv[j as int] == plan.images@[j as int]@);
                        lemma_image_path_fresh(iv, head, j as int, num as nat);
                        assert(base + head + page_ops(iv) + resource_ops(iv).take(j as int)
                            =~= head + page_ops(iv) + resource_ops(iv).take(j as int));
                        assert(false);
                    }
                }
                return Err(PackagingError::BuilderFailure);
            },
        }
        proof {
            assert(iv[j as int] == plan.images@[j as int]@);
            assert(resource_ops(iv)[j as int] == (EpubOp::Resource {
                path: image_path((j + 1) as nat),
                bytes: iv[j as int].bytes,
                mime: iv[j as int].mime,
            }));
            assert(resource_ops(iv).take(j + 1) =~= resource_ops(iv).take(j as int).push(
                resource_ops(iv)[j as int],
            ));
            assert(builder_ops(*b) =~= base + head + page_ops(iv) + resource_ops(iv).take(j + 1));
        }
        j = j + 1;
    }
    proof {
        assert(resource_ops(iv).take(n as int) =~= resource_ops(iv));
        assert(base + head + page_ops(iv) + resource_ops(iv) =~= base + plan_ops(
            iv,
            title@,
            author@,
        ));
    }
    Ok(())
}

/// Build one package from a plan: resolve the title (descriptor title,
/// else the fallback; series-prefixed; part-suffixed when the plan is one
/// of several) and the author, assemble the pages, and render the
/// package. Returns the artifact's file name and its bytes. An empty
/// plan is exactly the [`PackagingError::EmptyPlan`] error; a non-empty
/// plan within [`plan_fits`], with descriptor fields and fallback of
/// modest length, is owed success.
pub fn build_epub_from_images(
    plan: &PackagePlan,
    comic_info: &Option<ComicInfo>,
    fallback_title: &str,
) -> (r: Result<(String, Vec<u8>), PackagingError>)
    ensures
        plan.images@.len() == 0 <==> r == Err::<(String, Vec<u8>), PackagingError>(
            PackagingError::EmptyPlan,
        ),
        r matches Ok(a) ==> a.0@ == artifact_name(
            info_view(*comic_info),
            fallback_title@,
            plan.part_index,
        ),
        (plan.images@.len() > 0 && plan_fits(images_view(plan.images@)) && info_fits(
            info_view(*comic_info),
        ) && fallback_title@.len() <= 4096) ==> r is Ok,
{
    if plan.images.len() == 0 {
        return Err(PackagingError::EmptyPlan);
    }
    let ghost iv = images_view(plan.images@);
    let ghost fits = plan_fits(iv) && info_fits(info_view(*comic_info)) && fallback_title@.len()
        <= 4096;
    let title = resolve_title(comic_info, fallback_title);
    let title = title_with_part(title, plan.part_index);
    let author = resolve_author(comic_info);
    proof {
        if fits {
            reveal_strlit(" - ");
            reveal_strlit(" - part ");
            reveal_strlit("Unknown");
            match plan.part_index {
                Some(pp) => lemma_dec_within_twenty(pp.0 as nat),
                None => (),
            }
            assert(title@.len() <= 8223);
            assert(author@.len() <= 4096);
        }
    }
    let mut b = match epub_new() {
        Ok(b) => b,
        Err(_) => {
            return Err(PackagingError::BuilderFailure);
        },
    };
    match assemble_package(&mut b, plan, &title, &author) {
        Ok(_) => (),
        Err(e) => {
            return Err(e);
        },
    }
    proof {
        assert(Seq::<EpubOp>::empty() + plan_ops(iv, title@, author@) =~= plan_ops(
            iv,
            title@,
            author@,
        ));
    }
    let bytes = match epub_generate(b) {
        Ok(v) => v,
        Err(_) => {
            proof {
                if fits {
                    lemma_plan_render_cost(iv, title@, author@);
                    lemma_plan_paths_unreserved(iv, title@, author@);
                    assert(false);
                }
            }
            return Err(PackagingError::BuilderFailure);
        },
    };
    let name = title.concat(".epub");
    Ok((name, bytes))
}

} // verus!
