//! Where exported archives are placed. The archive assembly itself is a
//! collaborator outside the library; here live the pure parts: the archive
//! kinds and the export directory computation.

use vstd::prelude::*;

use crate::comic::ChapterInfo;
use crate::layout::{join_path, spec_join};

verus! {

/// The kinds of archive a chapter can be exported to.
#[derive(Debug, Clone, Copy, PartialEq, Eq, Structural)]
pub enum Archive {
    Cbz,
    Pdf,
}

impl Archive {
    /// The file extension of the archive kind.
    pub fn extension(&self) -> (r: &str)
        ensures
            *self == Archive::Cbz ==> r@ == "cbz"@,
            *self == Archive::Pdf ==> r@ == "pdf"@,
    {
        match self {
            Archive::Cbz => "cbz",
            Archive::Pdf => "pdf",
        }
    }

    /// The extension, in specifications.
    pub open spec fn spec_extension(&self) -> Seq<char> {
        match self {
            Archive::Cbz => "cbz"@,
            Archive::Pdf => "pdf"@,
        }
    }
}

/// The export directory of one archive kind for a comic:
/// `export_dir/comic_title/extension`.
pub open spec fn spec_group_export_dir(
    export_dir: Seq<char>,
    comic_title: Seq<char>,
    archive: Archive,
) -> Seq<char> {
    spec_join(spec_join(export_dir, comic_title), archive.spec_extension())
}

/// The export directory of one chapter's archive:
/// `export_dir/comic_title/extension/group_name`.
pub open spec fn spec_chapter_export_dir(
    export_dir: Seq<char>,
    c: ChapterInfo,
    archive: Archive,
) -> Seq<char> {
    spec_join(spec_group_export_dir(export_dir, c.comic_title@, archive), c.group_name@)
}

/// The export directory of one archive kind for a comic.
pub fn get_group_export_dir(export_dir: &str, comic_title: &str, archive: &Archive) -> (r: String)
    ensures
        r@ == spec_group_export_dir(export_dir@, comic_title@, *archive),
{
    let a = join_path(export_dir, comic_title);
    join_path(a.as_str(), archive.extension())
}

/// The export directory of one chapter's archive.
pub fn get_chapter_export_dir(export_dir: &str, chapter_info: &ChapterInfo, archive: &Archive) -> (r:
    String)
    ensures
        r@ == spec_chapter_export_dir(export_dir@, *chapter_info, *archive),
{
    let a = get_group_export_dir(export_dir, chapter_info.comic_title.as_str(), archive);
    join_path(a.as_str(), chapter_info.group_name.as_str())
}

} // verus!
