//! The data that flows through the pipeline: classified archive entries,
//! the parsed sidecar descriptor, and the plan handed to the package builder.

use vstd::prelude::*;

verus! {

/// One classified, retained archive entry: a page image.
pub struct ImageFile {
    /// Original entry name from the archive.
    pub file_name: String,
    /// Raw bytes of the entry.
    pub contents: Vec<u8>,
    /// Detected media type.
    pub mime_type: String,
}

/// Mathematical model of an [`ImageFile`].
pub struct ImageView {
    pub name: Seq<char>,
    pub bytes: Seq<u8>,
    pub mime: Seq<char>,
}

impl View for ImageFile {
    type V = ImageView;

    open spec fn view(&self) -> ImageView {
        ImageView { name: self.file_name@, bytes: self.contents@, mime: self.mime_type@ }
    }
}

/// Metadata recovered from the archive's sidecar descriptor entry.
/// Fields that the sidecar does not state, or that were lost to a
/// malformed byte stream, are `None`.
pub struct ComicInfo {
    pub title: Option<String>,
    pub writer: Option<String>,
    pub series: Option<String>,
}

/// Mathematical model of a [`ComicInfo`].
pub struct ComicInfoView {
    pub title: Option<Seq<char>>,
    pub writer: Option<Seq<char>>,
    pub series: Option<Seq<char>>,
}

impl View for ComicInfo {
    type V = ComicInfoView;

    open spec fn view(&self) -> ComicInfoView {
        ComicInfoView {
            title: match self.title {
                Some(ref t) => Some(t@),
                None => None,
            },
            writer: match self.writer {
                Some(ref w) => Some(w@),
                None => None,
            },
            series: match self.series {
                Some(ref s) => Some(s@),
                None => None,
            },
        }
    }
}

impl ComicInfo {
    /// A descriptor with every field absent, used when the archive holds no
    /// sidecar at all.
    pub fn empty() -> (r: ComicInfo)
        ensures
            r@.title is None,
            r@.writer is None,
            r@.series is None,
    {
        ComicInfo { title: None, writer: None, series: None }
    }
}

/// One unit of work for the package builder: an ordered group of pages and,
/// when the archive was split, this group's place among its siblings.
pub struct PackagePlan {
    /// The pages of this package, in canonical page order.
    pub images: Vec<ImageFile>,
    /// `None` when splitting produced exactly one group; otherwise
    /// `Some((i, total))` with `i` 1-indexed.
    pub part_index: Option<(usize, usize)>,
}

/// The byte size of one asset.
pub open spec fn asset_size(a: ImageView) -> nat {
    a.bytes.len()
}

/// The summed byte size of a group of assets.
pub open spec fn group_size(g: Seq<ImageView>) -> nat
    decreases g.len(),
{
    if g.len() == 0 {
        0
    } else {
        asset_size(g[0]) + group_size(g.drop_first())
    }
}

/// The views of a vector of images.
pub open spec fn images_view(v: Seq<ImageFile>) -> Seq<ImageView> {
    v.map_values(|a: ImageFile| a@)
}

} // verus!
