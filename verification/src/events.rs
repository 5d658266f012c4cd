//! The events the library hands to its observer. Delivery is the caller's
//! business and is best-effort; the terminal task event is the authoritative
//! completion signal.

use vstd::prelude::*;

use crate::comic::ChapterInfo;
use crate::download_manager::DownloadTaskState;

verus! {

/// Events about the download stream as a whole.
#[derive(Debug, Clone, PartialEq)]
pub enum DownloadEvent {
    /// Overall download speed, formatted once per second.
    Speed { speed: String },
    /// Post-chapter cool-down, one tick per second.
    Sleeping { chapter_id: i64, remaining_sec: u64 },
}

/// A snapshot of one download task: emitted on every state change and on
/// every successful image write.
#[derive(Debug, Clone)]
pub struct DownloadTaskEvent {
    /// The task's state at the time of the snapshot.
    pub state: DownloadTaskState,
    /// The chapter the task works on.
    pub chapter_info: ChapterInfo,
    /// Images written so far.
    pub downloaded_img_count: u32,
    /// Images expected in total; zero until the URL list is fetched.
    pub total_img_count: u32,
}

/// Progress of a comic's export to CBZ archives.
#[derive(Debug, Clone, PartialEq)]
pub enum ExportCbzEvent {
    Start { uuid: String, comic_title: String, total: u32 },
    Progress { uuid: String, current: u32 },
    End { uuid: String },
}

/// Progress of a comic's export to PDF files: per-chapter creation, then a
/// serial merge per group.
#[derive(Debug, Clone, PartialEq)]
pub enum ExportPdfEvent {
    CreateStart { uuid: String, comic_title: String, total: u32 },
    CreateProgress { uuid: String, current: u32 },
    CreateEnd { uuid: String },
    MergeStart { uuid: String, comic_title: String, total: u32 },
    MergeProgress { uuid: String, current: u32 },
    MergeEnd { uuid: String },
}

/// Progress of the bulk refresh of already-downloaded comics.
#[derive(Debug, Clone, Copy, PartialEq, Eq, Structural)]
pub enum UpdateDownloadedComicsEvent {
    GettingComics { total: i64 },
    ComicGot { current: i64, total: i64 },
    DownloadTaskCreated,
}

} // verus!
