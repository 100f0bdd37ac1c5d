//! The pipeline: archive bytes in, packages out; and the driver's
//! decisions around it.
//!
//! One archive run extracts the pages, splits them under the size
//! budget, and builds one package per group. A package that fails to
//! build does not abort its sibling parts: every group yields its own
//! result. The driver decisions — is this filename an archive arrival,
//! and has it been processed before — stand here as pure functions over
//! the filename and the ledger.

use vstd::prelude::*;
use vstd::string::StrSliceExecFns;

use crate::archive::{
    all_entries_ok, extract_images_from_cbz, first_sidecar, retained_assets, zip_parse,
    ExtractionError,
};
use crate::assets::{images_view, ComicInfoView, ImageView};
use crate::comicinfo::{empty_info, parse_spec};
use crate::ledger::Ledger;
use crate::ordering::sort_by_name;
use crate::package::{
    artifact_name, build_epub_from_images, info_fits, info_view, plan_fits, PackagingError,
};
use crate::split::{lemma_split_rec_sizes, make_plans, split_by_size, split_spec};

verus! {

/// The descriptor an archive's entry list yields: the parse of the first
/// sidecar entry, or the empty descriptor when there is none.
pub open spec fn descriptor_spec(entries: Seq<(Seq<char>, Seq<u8>)>) -> ComicInfoView {
    match first_sidecar(entries) {
        Some(b) => parse_spec(b),
        None => empty_info(),
    }
}

/// The part index of group `k` (0-based) among `total` groups: absent
/// when the split produced exactly one group.
pub open spec fn part_of(k: int, total: int) -> Option<(usize, usize)> {
    if total == 1 {
        None
    } else {
        Some((((k + 1) as usize), (total as usize)))
    }
}

/// Run one archive through the pipeline: extract its pages, split them
/// under the byte budget, and build one package per group, in order.
///
/// Fails as a whole exactly as extraction fails: it succeeds exactly
/// when the container's directory parses and every listed entry can be
/// read. A group whose package cannot be rendered yields its own error
/// and leaves its siblings intact — and a group within the builder's
/// bounds, with descriptor fields and fallback of modest length, is
/// owed its artifact. Each produced artifact carries the resolved name
/// for its part.
pub fn process_archive(cbz_bytes: &Vec<u8>, fallback_title: &str, size_budget: usize) -> (r:
    Result<Vec<Result<(String, Vec<u8>), PackagingError>>, ExtractionError>)
    requires
        size_budget >= 1,
    ensures
        r is Ok <==> all_entries_ok(cbz_bytes@),
        r == Err::<Vec<Result<(String, Vec<u8>), PackagingError>>, ExtractionError>(
            ExtractionError::Unopenable,
        ) <==> zip_parse(cbz_bytes@) is None,
        r matches Ok(arts) ==> {
            let entries = zip_parse(cbz_bytes@)->Some_0;
            let assets = sort_by_name(retained_assets(entries));
            let groups = split_spec(assets, size_budget as int);
            &&& arts@.len() == groups.len()
            &&& forall|k: int|
                0 <= k < arts@.len() ==> match #[trigger] arts@[k] {
                    Ok(a) => a.0@ == artifact_name(
                        descriptor_spec(entries),
                        fallback_title@,
                        part_of(k, groups.len() as int),
                    ),
                    Err(e) => e == PackagingError::BuilderFailure,
                }
            &&& forall|k: int|
                0 <= k < arts@.len() ==> ((plan_fits(groups[k]) && info_fits(
                    descriptor_spec(entries),
                ) && fallback_title@.len() <= 4096) ==> #[trigger] arts@[k] is Ok)
        },
{
    let (images, info) = match extract_images_from_cbz(cbz_bytes) {
        Ok(p) => p,
        Err(e) => {
            return Err(e);
        },
    };
    let ghost entries = zip_parse(cbz_bytes@)->Some_0;
    let ghost assets = images_view(images@);
    proof {
        assert(info_view(info) == descriptor_spec(entries));
    }
    let groups = split_by_size(images, size_budget);
    proof {
        lemma_split_rec_sizes(assets, size_budget as int, Seq::<ImageView>::empty());
    }
    let plans = make_plans(groups);
    let ghost gv = split_spec(assets, size_budget as int);
    let total = plans.len();
    let mut arts: Vec<Result<(String, Vec<u8>), PackagingError>> = Vec::new();
    let mut k: usize = 0;
    while k < total
        invariant
            k <= total == plans@.len() == gv.len() <= usize::MAX,
            arts@.len() == k,
            info_view(info) == descriptor_spec(entries),
            forall|m: int|
                0 <= m < plans@.len() ==> images_view(#[trigger] plans@[m].images@) == gv[m],
            forall|m: int| 0 <= m < gv.len() ==> (#[trigger] gv[m]).len() >= 1,
            forall|m: int|
                0 <= m < plans@.len() ==> #[trigger] plans@[m].part_index == part_of(
                    m,
                    gv.len() as int,
                ),
            forall|m: int|
                0 <= m < k ==> match #[trigger] arts@[m] {
                    Ok(a) => a.0@ == artifact_name(
                        descriptor_spec(entries),
                        fallback_title@,
                        part_of(m, gv.len() as int),
                    ),
                    Err(e) => e == PackagingError::BuilderFailure,
                },
            forall|m: int|
                0 <= m < k ==> ((plan_fits(gv[m]) && info_fits(descriptor_spec(entries))
                    && fallback_title@.len() <= 4096) ==> #[trigger] arts@[m] is Ok),
        decreases total - k,
    {
        proof {
            assert(images_view(plans@[k as int].images@).len() == plans@[k as int].images@.len());
        }
        match build_epub_from_images(&plans[k], &info, fallback_title) {
            Ok(a) => {
                arts.push(Ok(a));
            },
            Err(e) => {
                proof {
                    assert(e != PackagingError::EmptyPlan);
                    if plan_fits(gv[k as int]) && info_fits(descriptor_spec(entries))
                        && fallback_title@.len() <= 4096 {
                        assert(images_view(plans@[k as int].images@) == gv[k as int]);
                        assert(false);
                    }
                }
                arts.push(Err(e));
            },
        }
        k = k + 1;
    }
    Ok(arts)
}

/// Whether a filename carries the recognized archive extension, the
/// case-sensitive `.cbz`, with a non-empty stem: a file whose whole name
/// is `.cbz` — after the last path separator — is no archive.
pub open spec fn has_cbz_extension(name: Seq<char>) -> bool {
    &&& name.len() >= 5
    &&& name.subrange(name.len() - 4, name.len() as int) == ".cbz"@
    &&& name[name.len() - 5] != '/'
}

/// Whether a filename carries the recognized archive extension.
pub fn is_archive_filename(name: &str) -> (r: bool)
    ensures
        r == has_cbz_extension(name@),
{
    proof {
        reveal_strlit(".cbz");
    }
    let n = name.unicode_len();
    if n < 5 {
        return false;
    }
    if name.get_char(n - 5) == '/' {
        return false;
    }
    if name.get_char(n - 4) != '.' || name.get_char(n - 3) != 'c' || name.get_char(n - 2) != 'b'
        || name.get_char(n - 1) != 'z' {
        proof {
            let tail = name@.subrange(name@.len() - 4, name@.len() as int);
            assert(has_cbz_extension(name@) ==> tail[0] == '.' && tail[1] == 'c' && tail[2] == 'b'
                && tail[3] == 'z');
        }
        return false;
    }
    proof {
        assert(name@.subrange(name@.len() - 4, name@.len() as int) =~= ".cbz"@);
    }
    true
}

/// The driver's gate for one created path: process it only when it is an
/// archive by extension and the ledger has not recorded it.
pub fn should_process(ledger: &Ledger, filename: &str) -> (r: bool)
    ensures
        r == (has_cbz_extension(filename@) && !ledger.contains_name(filename@)),
{
    if !is_archive_filename(filename) {
        return false;
    }
    !ledger.has_processed(filename)
}

} // verus!
