//! The archive extractor: opens a comic-book container held in memory,
//! classifies every entry, routes the metadata sidecar to the sidecar
//! parser, keeps the image pages, and returns them sorted by name.
//!
//! The container format is read through the `zip` crate, behind trusted
//! wrappers; everything around those calls is verified.

use vstd::prelude::*;

use crate::assets::{images_view, ComicInfo, ImageFile, ImageView};
use crate::comicinfo::{parse_comicinfo, parse_spec};
use crate::ordering::{insert_by_name, insert_sorted, sort_by_name, sorted_by_name};
use crate::sniff::{is_image_mime, mime_is_image, sniff, sniff_spec};
use vstd::string::StringExecFns;

verus! {

/// The `zip` crate's archive reader, opaque to verification.
#[verifier::external_type_specification]
#[verifier::external_body]
#[verifier::reject_recursive_types(R)]
pub struct ExZipArchive<R>(zip::ZipArchive<R>);

/// The `zip` crate's error type, opaque to verification.
#[verifier::external_type_specification]
#[verifier::external_body]
pub struct ExZipError(zip::result::ZipError);

/// An in-memory byte cursor, opaque to verification.
#[verifier::external_type_specification]
#[verifier::external_body]
#[verifier::reject_recursive_types(T)]
pub struct ExCursor<T>(std::io::Cursor<T>);

/// The entry list — name and decompressed contents, in archive order —
/// that the `zip` crate recovers from a byte stream, or `None` when the
/// stream's central directory cannot be read. Parsing and decompression
/// read only the bytes, so the result depends on them alone.
pub uninterp spec fn zip_parse(bytes: Seq<u8>) -> Option<Seq<(Seq<char>, Seq<u8>)>>;

/// The entry list — name and decompressed contents, in archive order —
/// held by an open archive reader.
pub uninterp spec fn zip_entries(a: zip::ZipArchive<std::io::Cursor<Vec<u8>>>) -> Seq<
    (Seq<char>, Seq<u8>),
>;

/// The byte stream an open archive reader was opened over.
pub uninterp spec fn zip_source(a: zip::ZipArchive<std::io::Cursor<Vec<u8>>>) -> Seq<u8>;

/// Whether entry `i` of the archive in `bytes` can be fully read —
/// located, decompressed and checksummed. Reading an in-memory archive
/// works on the bytes alone, so this is a function of them.
pub uninterp spec fn zip_entry_ok(bytes: Seq<u8>, i: int) -> bool;

/// Whether a byte stream is a readable archive through and through: its
/// central directory parses and every listed entry can be read.
pub open spec fn all_entries_ok(bytes: Seq<u8>) -> bool {
    &&& zip_parse(bytes) is Some
    &&& forall|i: int|
        0 <= i < zip_parse(bytes)->Some_0.len() ==> zip_entry_ok(bytes, i)
}

/// Relies on `zip::ZipArchive::new`: it reads the central directory of
/// the byte stream, succeeding exactly when that directory is readable,
/// and then holds the entries that the stream describes.
#[verifier::external_body]
fn zip_open(bytes: &Vec<u8>) -> (r: Result<
    zip::ZipArchive<std::io::Cursor<Vec<u8>>>,
    zip::result::ZipError,
>)
    ensures
        r is Ok <==> zip_parse(bytes@) is Some,
        r matches Ok(a) ==> Some(zip_entries(a)) == zip_parse(bytes@),
        r matches Ok(a) ==> zip_source(a) == bytes@,
{
    zip::ZipArchive::new(std::io::Cursor::new(bytes.clone()))
}

/// Relies on `zip::ZipArchive::len`: the number of files in the archive.
#[verifier::external_body]
fn zip_len(a: &zip::ZipArchive<std::io::Cursor<Vec<u8>>>) -> (n: usize)
    ensures
        n == zip_entries(*a).len(),
{
    a.len()
}

/// Relies on `zip::ZipArchive::by_index`, `ZipFile::name` and
/// `Read::read_to_end`: entry `i` of the archive, as its name and its
/// decompressed contents. Reading an entry neither changes the entry
/// list nor the source bytes; it succeeds exactly when the entry is
/// readable in those bytes — a damaged, encrypted or unsupported entry
/// yields the error instead, deterministically.
#[verifier::external_body]
fn zip_entry(a: &mut zip::ZipArchive<std::io::Cursor<Vec<u8>>>, i: usize) -> (r: Result<
    (String, Vec<u8>),
    zip::result::ZipError,
>)
    requires
        i < zip_entries(*old(a)).len(),
    ensures
        zip_entries(*final(a)) == zip_entries(*old(a)),
        zip_source(*final(a)) == zip_source(*old(a)),
        r is Ok <==> zip_entry_ok(zip_source(*old(a)), i as int),
        r matches Ok(e) ==> (e.0@, e.1@) == zip_entries(*old(a))[i as int],
{
    let mut f = a.by_index(i)?;
    let name = f.name().to_string();
    let mut buf = Vec::new();
    match std::io::Read::read_to_end(&mut f, &mut buf) {
        Ok(_) => Ok((name, buf)),
        Err(e) => Err(zip::result::ZipError::Io(e)),
    }
}

/// Why extraction failed for an archive.
#[derive(Clone, Copy, Debug, PartialEq, Eq, Structural)]
pub enum ExtractionError {
    /// The container's central directory could not be read.
    Unopenable,
    /// One of the container's entries could not be read.
    EntryUnreadable,
}

/// The reserved name of the metadata sidecar entry.
pub open spec fn sidecar_name() -> Seq<char> {
    "ComicInfo.xml"@
}

/// Whether an entry is retained as a page image: it is not the sidecar,
/// and its sniffed media type is in the image category.
pub open spec fn keeps_entry(e: (Seq<char>, Seq<u8>)) -> bool {
    e.0 != sidecar_name() && is_image_mime(sniff_spec(e.1))
}

/// The page a retained entry becomes.
pub open spec fn image_asset_of(e: (Seq<char>, Seq<u8>)) -> ImageView {
    ImageView { name: e.0, bytes: e.1, mime: sniff_spec(e.1) }
}

/// The pages retained from an entry list, in archive order.
pub open spec fn retained_assets(entries: Seq<(Seq<char>, Seq<u8>)>) -> Seq<ImageView>
    decreases entries.len(),
{
    if entries.len() == 0 {
        Seq::empty()
    } else {
        let rest = retained_assets(entries.drop_last());
        if keeps_entry(entries.last()) {
            rest.push(image_asset_of(entries.last()))
        } else {
            rest
        }
    }
}

/// The contents of the first entry named as the sidecar, if any.
pub open spec fn first_sidecar(entries: Seq<(Seq<char>, Seq<u8>)>) -> Option<Seq<u8>>
    decreases entries.len(),
{
    if entries.len() == 0 {
        None
    } else if entries[0].0 == sidecar_name() {
        Some(entries[0].1)
    } else {
        first_sidecar(entries.drop_first())
    }
}

/// Extract the pages of an in-memory comic-book archive, sorted by name
/// ascending, together with the descriptor parsed from the first sidecar
/// entry, if one is present.
///
/// Succeeds exactly when the container's directory parses and every
/// listed entry can be read: it fails with
/// [`ExtractionError::Unopenable`] exactly when the container cannot be
/// opened, and with [`ExtractionError::EntryUnreadable`] exactly when an
/// entry of an opened container cannot be read. An archive with no
/// retained image is not an error: the page list is then empty.
pub fn extract_images_from_cbz(cbz_bytes: &Vec<u8>) -> (r: Result<
    (Vec<ImageFile>, Option<ComicInfo>),
    ExtractionError,
>)
    ensures
        r is Ok <==> all_entries_ok(cbz_bytes@),
        r == Err::<(Vec<ImageFile>, Option<ComicInfo>), ExtractionError>(
            ExtractionError::Unopenable,
        ) <==> zip_parse(cbz_bytes@) is None,
        r matches Ok(p) ==> {
            let entries = zip_parse(cbz_bytes@)->Some_0;
            &&& sorted_by_name(images_view(p.0@))
            &&& images_view(p.0@) == sort_by_name(retained_assets(entries))
            &&& images_view(p.0@).to_multiset() == retained_assets(entries).to_multiset()
            &&& match first_sidecar(entries) {
                None => p.1 is None,
                Some(b) => p.1 matches Some(ci) && ci@ == parse_spec(b),
            }
        },
{
    broadcast use vstd::seq_lib::group_to_multiset_ensures;

    let mut archive = match zip_open(cbz_bytes) {
        Ok(a) => a,
        Err(_) => {
            return Err(ExtractionError::Unopenable);
        },
    };
    let ghost entries = zip_entries(archive);
    let n = zip_len(&archive);
    let sidecar_str = String::from_str("ComicInfo.xml");
    let mut images: Vec<ImageFile> = Vec::new();
    let mut info: Option<ComicInfo> = None;
    let mut i: usize = 0;
    proof {
        assert(images_view(images@) =~= Seq::<ImageView>::empty());
        assert(entries.take(0) =~= Seq::<(Seq<char>, Seq<u8>)>::empty());
        assert(entries.skip(0) =~= entries);
        assert(sort_by_name(retained_assets(entries.take(0))) =~= Seq::<ImageView>::empty());
    }
    while i < n
        invariant
            i <= n == entries.len() <= usize::MAX,
            zip_entries(archive) == entries,
            zip_source(archive) == cbz_bytes@,
            Some(entries) == zip_parse(cbz_bytes@),
            forall|m: int| 0 <= m < i ==> zip_entry_ok(cbz_bytes@, m),
            sidecar_str@ == sidecar_name(),
            sorted_by_name(images_view(images@)),
            images_view(images@) == sort_by_name(retained_assets(entries.take(i as int))),
            images_view(images@).to_multiset() == retained_assets(
                entries.take(i as int),
            ).to_multiset(),
            match info {
                None => first_sidecar(entries) == first_sidecar(entries.skip(i as int)),
                Some(ci) => first_sidecar(entries) matches Some(b) && ci@ == parse_spec(b),
            },
        decreases n - i,
    {
        let ghost pre = entries.take(i as int);
        let (name, bytes) = match zip_entry(&mut archive, i) {
            Ok(e) => e,
            Err(_) => {
                return Err(ExtractionError::EntryUnreadable);
            },
        };
        proof {
            assert((name@, bytes@) == entries[i as int]);
            assert(entries.take(i + 1).drop_last() =~= pre);
            assert(entries.take(i + 1).last() == entries[i as int]);
            assert(entries.skip(i as int)[0] == entries[i as int]);
            assert(entries.skip(i as int).drop_first() =~= entries.skip(i + 1));
        }
        if name == sidecar_str {
            if info.is_none() {
                let ci = parse_comicinfo(&bytes);
                info = Some(ci);
            }
            proof {
                assert(!keeps_entry(entries[i as int]));
                assert(retained_assets(entries.take(i + 1)) == retained_assets(pre));
                assert(first_sidecar(entries.skip(i as int)) == Some(bytes@));
            }
        } else {
            let mime = sniff(&bytes);
            if mime_is_image(mime.as_str()) {
                proof {
                    assert(keeps_entry(entries[i as int]));
                }
                let asset = ImageFile { file_name: name, contents: bytes, mime_type: mime };
                proof {
                    assert(asset@ == image_asset_of(entries[i as int]));
                }
                insert_sorted(&mut images, asset);
                proof {
                    let e = entries[i as int];
                    assert(retained_assets(entries.take(i + 1)) == retained_assets(pre).push(
                        image_asset_of(e),
                    ));
                    vstd::seq_lib::to_multiset_build(retained_assets(pre), image_asset_of(e));
                    let r1 = retained_assets(pre).push(image_asset_of(e));
                    assert(r1.drop_last() =~= retained_assets(pre));
                    assert(r1.last() == image_asset_of(e));
                    assert(sort_by_name(r1) == insert_by_name(
                        sort_by_name(retained_assets(pre)),
                        image_asset_of(e),
                    ));
                }
            } else {
                proof {
                    assert(!keeps_entry(entries[i as int]));
                    assert(retained_assets(entries.take(i + 1)) == retained_assets(pre));
                }
            }
        }
        i = i + 1;
    }
    proof {
        assert(entries.take(n as int) =~= entries);
        if info is None {
            assert(entries.skip(n as int) =~= Seq::<(Seq<char>, Seq<u8>)>::empty());
        }
    }
    Ok((images, info))
}

} // verus!
