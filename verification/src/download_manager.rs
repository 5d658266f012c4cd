//! The download scheduler: a registry of per-chapter tasks, two-level permit
//! accounting, atomic progress counters and the byte-rate meter.
//!
//! This is the decision core of the engine. The surrounding runtime performs
//! the long operations (HTTP fetches, file writes, semaphore waits, sleeps)
//! and reports each outcome here as one transition; every transition is a
//! plain function whose contract says exactly how the state changes. The
//! well-formedness predicate [`DownloadManager::wf`] carries the admission
//! invariants: one chapter downloading at a time, at most ten image permits
//! out, progress counters within bounds, and the byte meter equal to the sum
//! of the bytes reported since the last tick.

use vstd::prelude::*;

use vstd::pervasive::VecAdditionalExecFns;
use vstd::string::StringExecFns;

use crate::comic::ChapterInfo;
use crate::errors::CommandError;
use crate::events::{DownloadEvent, DownloadTaskEvent};
use crate::strutil::{spec_dec_digits, spec_digit_char, digit_char, u64_to_dec_string};

verus! {

/// How many chapters may download at once. Serial on purpose, to avoid
/// triggering the site's rate limits.
pub const CHAPTER_CONCURRENCY: u32 = 1;

/// How many images may download at once.
pub const IMG_CONCURRENCY: u32 = 10;

/// The lifecycle of one download task.
///
/// `Pending` tasks wait for the chapter permit; `Downloading` holds it;
/// `Paused` has given it back and waits to be resumed into `Pending`;
/// `Cancelled`, `Completed` and `Failed` are terminal.
#[derive(Debug, Clone, Copy, PartialEq, Eq, Structural)]
pub enum DownloadTaskState {
    Pending,
    Downloading,
    Paused,
    Cancelled,
    Completed,
    Failed,
}

/// Whether a state is terminal: no transition leaves it.
pub open spec fn spec_is_terminal(s: DownloadTaskState) -> bool {
    s == DownloadTaskState::Cancelled || s == DownloadTaskState::Completed || s
        == DownloadTaskState::Failed
}

/// Whether a state is terminal.
pub fn is_terminal(s: DownloadTaskState) -> (r: bool)
    ensures
        r == spec_is_terminal(s),
{
    match s {
        DownloadTaskState::Cancelled => true,
        DownloadTaskState::Completed => true,
        DownloadTaskState::Failed => true,
        _ => false,
    }
}

/// One download task: a chapter, its lifecycle state and its progress.
///
/// A task holds the chapter permit exactly while it is `Downloading`, and
/// `img_permits_held` of the image permits on behalf of its image workers.
#[derive(Debug)]
pub struct DownloadTask {
    /// The chapter being downloaded.
    pub chapter_info: ChapterInfo,
    /// Lifecycle state.
    pub state: DownloadTaskState,
    /// Images written so far.
    pub downloaded_img_count: u32,
    /// Images expected; zero until the URL list is fetched.
    pub total_img_count: u32,
    /// Image permits currently held by the chapter's image workers.
    pub img_permits_held: u32,
}

/// Whether one task's counters and permits are consistent.
pub open spec fn spec_task_ok(t: DownloadTask) -> bool {
    &&& t.downloaded_img_count <= t.total_img_count
    &&& (t.state == DownloadTaskState::Completed ==> t.downloaded_img_count == t.total_img_count)
    &&& (t.state != DownloadTaskState::Downloading ==> t.img_permits_held == 0)
}

/// How many tasks are in state `Downloading`.
pub open spec fn spec_count_downloading(ts: Seq<DownloadTask>) -> int
    decreases ts.len(),
{
    if ts.len() == 0 {
        0
    } else {
        (if ts[0].state == DownloadTaskState::Downloading {
            1int
        } else {
            0int
        }) + spec_count_downloading(ts.drop_first())
    }
}

/// How many image permits the tasks hold together.
pub open spec fn spec_sum_img_permits(ts: Seq<DownloadTask>) -> int
    decreases ts.len(),
{
    if ts.len() == 0 {
        0
    } else {
        ts[0].img_permits_held + spec_sum_img_permits(ts.drop_first())
    }
}

/// The sum of the byte counts reported since the last meter tick.
pub open spec fn spec_sum_bytes(s: Seq<u64>) -> int
    decreases s.len(),
{
    if s.len() == 0 {
        0
    } else {
        s[0] + spec_sum_bytes(s.drop_first())
    }
}

/// No two tasks share a chapter id.
pub open spec fn spec_ids_unique(ts: Seq<DownloadTask>) -> bool {
    forall|i: int, j: int|
        0 <= i < j < ts.len() ==> ts[i].chapter_info.chapter_id != ts[j].chapter_info.chapter_id
}

/// The index of the task for a chapter id, if any.
pub open spec fn spec_find_task(ts: Seq<DownloadTask>, chapter_id: i64, i: int) -> Option<int>
    recommends
        0 <= i <= ts.len(),
    decreases ts.len() - i,
{
    if i < 0 || i >= ts.len() {
        None
    } else if ts[i].chapter_info.chapter_id == chapter_id {
        Some(i)
    } else {
        spec_find_task(ts, chapter_id, i + 1)
    }
}

/// The download manager: the task registry, the free permits of the two
/// admission levels, and the byte meter.
///
/// `interval_bytes` is the meter's history since the last tick, kept as
/// ghost state so that the meter's reading can be pinned to the exact sum of
/// what the image workers reported.
pub struct DownloadManager {
    /// The tasks, in creation order, at most one per chapter id.
    pub tasks: Vec<DownloadTask>,
    /// Chapter permits not currently held.
    pub chapter_permits_free: u32,
    /// Image permits not currently held.
    pub img_permits_free: u32,
    /// Bytes downloaded since the last meter tick.
    pub byte_per_sec: u64,
    /// The byte counts reported since the last meter tick.
    pub interval_bytes: Ghost<Seq<u64>>,
}

impl DownloadManager {
    /// The admission and accounting invariants.
    pub open spec fn wf(&self) -> bool {
        &&& spec_ids_unique(self.tasks@)
        &&& forall|i: int| 0 <= i < self.tasks@.len() ==> spec_task_ok(#[trigger] self.tasks@[i])
        &&& self.chapter_permits_free + spec_count_downloading(self.tasks@)
            == CHAPTER_CONCURRENCY
        &&& self.img_permits_free + spec_sum_img_permits(self.tasks@) == IMG_CONCURRENCY
        &&& self.byte_per_sec == spec_sum_bytes(self.interval_bytes@)
    }

    /// A fresh manager: no tasks, all permits free, meter at zero.
    pub fn new() -> (r: DownloadManager)
        ensures
            r.wf(),
            r.tasks@.len() == 0,
            r.chapter_permits_free == CHAPTER_CONCURRENCY,
            r.img_permits_free == IMG_CONCURRENCY,
            r.byte_per_sec == 0,
            r.interval_bytes@ == Seq::<u64>::empty(),
    {
        let r = DownloadManager {
            tasks: Vec::new(),
            chapter_permits_free: CHAPTER_CONCURRENCY,
            img_permits_free: IMG_CONCURRENCY,
            byte_per_sec: 0,
            interval_bytes: Ghost(Seq::empty()),
        };
        proof {
            assert(spec_count_downloading(r.tasks@) == 0);
            assert(spec_sum_img_permits(r.tasks@) == 0);
            assert(spec_sum_bytes(r.interval_bytes@) == 0);
        }
        r
    }

    /// The index of the task for a chapter id.
    fn find_task(&self, chapter_id: i64) -> (r: Option<usize>)
        ensures
            match r {
                Some(k) => k < self.tasks@.len() && Some(k as int) == spec_find_task(
                    self.tasks@,
                    chapter_id,
                    0,
                ),
                None => spec_find_task(self.tasks@, chapter_id, 0) is None,
            },
    {
        let mut i: usize = 0;
        while i < self.tasks.len()
            invariant
                i <= self.tasks@.len(),
                spec_find_task(self.tasks@, chapter_id, 0) == spec_find_task(
                    self.tasks@,
                    chapter_id,
                    i as int,
                ),
            decreases self.tasks@.len() - i,
        {
            if self.tasks[i].chapter_info.chapter_id == chapter_id {
                return Some(i);
            }
            i = i + 1;
        }
        None
    }

    /// The state of the task for a chapter id.
    pub fn task_state(&self, chapter_id: i64) -> (r: Option<DownloadTaskState>)
        ensures
            match r {
                Some(s) => spec_find_task(self.tasks@, chapter_id, 0) matches Some(k)
                    && self.tasks@[k].state == s,
                None => spec_find_task(self.tasks@, chapter_id, 0) is None,
            },
    {
        match self.find_task(chapter_id) {
            Some(k) => Some(self.tasks[k].state),
            None => None,
        }
    }

    /// A snapshot event of the task for a chapter id.
    pub fn task_event(&self, chapter_id: i64) -> (r: Option<DownloadTaskEvent>)
        ensures
            match r {
                Some(ev) => spec_find_task(self.tasks@, chapter_id, 0) matches Some(k) && ev.state
                    == self.tasks@[k].state && ev.chapter_info == self.tasks@[k].chapter_info
                    && ev.downloaded_img_count == self.tasks@[k].downloaded_img_count
                    && ev.total_img_count == self.tasks@[k].total_img_count,
                None => spec_find_task(self.tasks@, chapter_id, 0) is None,
            },
    {
        match self.find_task(chapter_id) {
            Some(k) => {
                let t = &self.tasks[k];
                Some(
                    DownloadTaskEvent {
                        state: t.state,
                        chapter_info: t.chapter_info.clone(),
                        downloaded_img_count: t.downloaded_img_count,
                        total_img_count: t.total_img_count,
                    },
                )
            },
            None => None,
        }
    }
}

/// Counting is unchanged outside an updated slot and follows the slot's old
/// and new state at it.
proof fn lemma_count_downloading_update(ts: Seq<DownloadTask>, k: int, t: DownloadTask)
    requires
        0 <= k < ts.len(),
    ensures
        spec_count_downloading(ts.update(k, t)) == spec_count_downloading(ts) + (
        if t.state == DownloadTaskState::Downloading {
            1int
        } else {
            0int
        }) - (if ts[k].state == DownloadTaskState::Downloading {
            1int
        } else {
            0int
        }),
    decreases ts.len(),
{
    if k == 0 {
        assert(ts.update(0, t).drop_first() =~= ts.drop_first());
    } else {
        assert(ts.update(k, t).drop_first() =~= ts.drop_first().update(k - 1, t));
        lemma_count_downloading_update(ts.drop_first(), k - 1, t);
    }
}

/// The permit sum is unchanged outside an updated slot and follows the
/// slot's old and new holding at it.
proof fn lemma_sum_img_permits_update(ts: Seq<DownloadTask>, k: int, t: DownloadTask)
    requires
        0 <= k < ts.len(),
    ensures
        spec_sum_img_permits(ts.update(k, t)) == spec_sum_img_permits(ts) + t.img_permits_held
            - ts[k].img_permits_held,
    decreases ts.len(),
{
    if k == 0 {
        assert(ts.update(0, t).drop_first() =~= ts.drop_first());
    } else {
        assert(ts.update(k, t).drop_first() =~= ts.drop_first().update(k - 1, t));
        lemma_sum_img_permits_update(ts.drop_first(), k - 1, t);
    }
}

/// Appending a task adds its contribution to the count.
proof fn lemma_count_downloading_push(ts: Seq<DownloadTask>, t: DownloadTask)
    ensures
        spec_count_downloading(ts.push(t)) == spec_count_downloading(ts) + (
        if t.state == DownloadTaskState::Downloading {
            1int
        } else {
            0int
        }),
    decreases ts.len(),
{
    if ts.len() == 0 {
        assert(ts.push(t).drop_first() =~= Seq::<DownloadTask>::empty());
        assert(spec_count_downloading(Seq::<DownloadTask>::empty()) == 0);
        assert(ts.push(t)[0] == t);
    } else {
        assert(ts.push(t).drop_first() =~= ts.drop_first().push(t));
        assert(ts.push(t)[0] == ts[0]);
        lemma_count_downloading_push(ts.drop_first(), t);
    }
}

/// Appending a task adds its holding to the permit sum.
proof fn lemma_sum_img_permits_push(ts: Seq<DownloadTask>, t: DownloadTask)
    ensures
        spec_sum_img_permits(ts.push(t)) == spec_sum_img_permits(ts) + t.img_permits_held,
    decreases ts.len(),
{
    if ts.len() == 0 {
        assert(ts.push(t).drop_first() =~= Seq::<DownloadTask>::empty());
        assert(spec_sum_img_permits(Seq::<DownloadTask>::empty()) == 0);
        assert(ts.push(t)[0] == t);
    } else {
        assert(ts.push(t).drop_first() =~= ts.drop_first().push(t));
        assert(ts.push(t)[0] == ts[0]);
        lemma_sum_img_permits_push(ts.drop_first(), t);
    }
}

/// Appending a byte count adds it to the sum.
proof fn lemma_sum_bytes_push(s: Seq<u64>, b: u64)
    ensures
        spec_sum_bytes(s.push(b)) == spec_sum_bytes(s) + b,
    decreases s.len(),
{
    if s.len() == 0 {
        assert(s.push(b).drop_first() =~= Seq::<u64>::empty());
        assert(spec_sum_bytes(Seq::<u64>::empty()) == 0);
        assert(s.push(b)[0] == b);
    } else {
        assert(s.push(b).drop_first() =~= s.drop_first().push(b));
        assert(s.push(b)[0] == s[0]);
        lemma_sum_bytes_push(s.drop_first(), b);
    }
}

/// A found task index carries its chapter id.
proof fn lemma_find_task_sound(ts: Seq<DownloadTask>, chapter_id: i64, i: int, k: int)
    requires
        spec_find_task(ts, chapter_id, i) == Some(k),
    ensures
        i <= k < ts.len(),
        ts[k].chapter_info.chapter_id == chapter_id,
    decreases ts.len() - i,
{
    if i < 0 || i >= ts.len() {
    } else if ts[i].chapter_info.chapter_id == chapter_id {
    } else {
        lemma_find_task_sound(ts, chapter_id, i + 1, k);
    }
}

/// Every task's contribution to the count is at most the whole count, and
/// the count is non-negative; so a downloading task means a count of at
/// least one.
proof fn lemma_count_downloading_at(ts: Seq<DownloadTask>, k: int)
    requires
        0 <= k < ts.len(),
    ensures
        spec_count_downloading(ts) >= if ts[k].state == DownloadTaskState::Downloading {
            1int
        } else {
            0int
        },
        spec_count_downloading(ts) >= 0,
    decreases ts.len(),
{
    if ts.len() > 0 {
        if k == 0 {
            lemma_count_downloading_nonneg(ts.drop_first());
        } else {
            lemma_count_downloading_at(ts.drop_first(), k - 1);
        }
    }
}

proof fn lemma_count_downloading_nonneg(ts: Seq<DownloadTask>)
    ensures
        spec_count_downloading(ts) >= 0,
    decreases ts.len(),
{
    if ts.len() > 0 {
        lemma_count_downloading_nonneg(ts.drop_first());
    }
}

/// Every task's image permits are at most the permit sum, which is
/// non-negative.
proof fn lemma_sum_img_permits_at(ts: Seq<DownloadTask>, k: int)
    requires
        0 <= k < ts.len(),
    ensures
        spec_sum_img_permits(ts) >= ts[k].img_permits_held,
        spec_sum_img_permits(ts) >= 0,
    decreases ts.len(),
{
    if ts.len() > 0 {
        if k == 0 {
            lemma_sum_img_permits_nonneg(ts.drop_first());
        } else {
            lemma_sum_img_permits_at(ts.drop_first(), k - 1);
        }
    }
}

proof fn lemma_sum_img_permits_nonneg(ts: Seq<DownloadTask>)
    ensures
        spec_sum_img_permits(ts) >= 0,
    decreases ts.len(),
{
    if ts.len() > 0 {
        lemma_sum_img_permits_nonneg(ts.drop_first());
    }
}


/// A task record with a new state and no image permits held.
pub open spec fn spec_task_with(t: DownloadTask, s: DownloadTaskState) -> DownloadTask {
    DownloadTask { state: s, img_permits_held: 0, ..t }
}

/// A fresh record for a chapter: pending, nothing counted, nothing held.
pub open spec fn spec_fresh_task(chapter_info: ChapterInfo) -> DownloadTask {
    DownloadTask {
        chapter_info,
        state: DownloadTaskState::Pending,
        downloaded_img_count: 0,
        total_img_count: 0,
        img_permits_held: 0,
    }
}

/// When no task is found, no task carries the id.
proof fn lemma_find_task_none(ts: Seq<DownloadTask>, chapter_id: i64, i: int)
    requires
        0 <= i,
        spec_find_task(ts, chapter_id, i) is None,
    ensures
        forall|m: int| i <= m < ts.len() ==> ts[m].chapter_info.chapter_id != chapter_id,
    decreases ts.len() - i,
{
    if i < ts.len() {
        lemma_find_task_none(ts, chapter_id, i + 1);
    }
}

/// Two distinct downloading tasks force a count of at least two.
proof fn lemma_count_downloading_two(ts: Seq<DownloadTask>, k1: int, k2: int)
    requires
        0 <= k1 < k2 < ts.len(),
        ts[k1].state == DownloadTaskState::Downloading,
        ts[k2].state == DownloadTaskState::Downloading,
    ensures
        spec_count_downloading(ts) >= 2,
    decreases ts.len(),
{
    if k1 == 0 {
        lemma_count_downloading_at(ts.drop_first(), k2 - 1);
    } else {
        lemma_count_downloading_two(ts.drop_first(), k1 - 1, k2 - 1);
    }
}

impl DownloadManager {
    /// Registers a task for a chapter and reports whether one was created.
    ///
    /// A chapter already registered with a live (non-terminal) task is left
    /// alone; a terminal task for it is replaced by a fresh pending one;
    /// otherwise a fresh pending task is appended.
    pub fn create_download_task(&mut self, chapter_info: ChapterInfo) -> (created: bool)
        requires
            old(self).wf(),
        ensures
            final(self).wf(),
            final(self).chapter_permits_free == old(self).chapter_permits_free,
            final(self).img_permits_free == old(self).img_permits_free,
            final(self).byte_per_sec == old(self).byte_per_sec,
            final(self).interval_bytes@ == old(self).interval_bytes@,
            match spec_find_task(old(self).tasks@, chapter_info.chapter_id, 0) {
                None => created && final(self).tasks@ == old(self).tasks@.push(
                    spec_fresh_task(chapter_info),
                ),
                Some(k) => if spec_is_terminal(old(self).tasks@[k].state) {
                    created && final(self).tasks@ == old(self).tasks@.update(
                        k,
                        spec_fresh_task(chapter_info),
                    )
                } else {
                    !created && final(self).tasks@ == old(self).tasks@
                },
            },
    {
        let fresh = DownloadTask {
            chapter_info,
            state: DownloadTaskState::Pending,
            downloaded_img_count: 0,
            total_img_count: 0,
            img_permits_held: 0,
        };
        match self.find_task(fresh.chapter_info.chapter_id) {
            None => {
                proof {
                    lemma_find_task_none(self.tasks@, fresh.chapter_info.chapter_id, 0);
                    lemma_count_downloading_push(self.tasks@, fresh);
                    lemma_sum_img_permits_push(self.tasks@, fresh);
                }
                self.tasks.push(fresh);
                true
            },
            Some(k) => {
                proof {
                    lemma_find_task_sound(self.tasks@, fresh.chapter_info.chapter_id, 0, k as int);
                }
                if is_terminal(self.tasks[k].state) {
                    proof {
                        lemma_count_downloading_update(self.tasks@, k as int, fresh);
                        lemma_sum_img_permits_update(self.tasks@, k as int, fresh);
                    }
                    self.tasks.set(k, fresh);
                    true
                } else {
                    false
                }
            },
        }
    }

    /// Replaces the record at a known index with one in a new, non-running
    /// state that holds no image permits, and gives the freed permits back.
    fn release_task(&mut self, k: usize, s: DownloadTaskState) -> (released: (bool, u32))
        requires
            old(self).wf(),
            k < old(self).tasks@.len(),
            s != DownloadTaskState::Downloading,
            s == DownloadTaskState::Completed ==> old(self).tasks@[k as int].downloaded_img_count
                == old(self).tasks@[k as int].total_img_count,
        ensures
            final(self).wf(),
            final(self).tasks@ == old(self).tasks@.update(
                k as int,
                spec_task_with(old(self).tasks@[k as int], s),
            ),
            final(self).byte_per_sec == old(self).byte_per_sec,
            final(self).interval_bytes@ == old(self).interval_bytes@,
            released.0 == (old(self).tasks@[k as int].state
                == DownloadTaskState::Downloading),
            released.1 == old(self).tasks@[k as int].img_permits_held,
            final(self).chapter_permits_free == old(self).chapter_permits_free + (
            if released.0 {
                1int
            } else {
                0int
            }),
            final(self).img_permits_free == old(self).img_permits_free + released.1,
    {
        let was_downloading = self.tasks[k].state == DownloadTaskState::Downloading;
        let held = self.tasks[k].img_permits_held;
        let t = &self.tasks[k];
        let new_task = DownloadTask {
            chapter_info: t.chapter_info.clone(),
            state: s,
            downloaded_img_count: t.downloaded_img_count,
            total_img_count: t.total_img_count,
            img_permits_held: 0,
        };
        proof {
            lemma_count_downloading_update(self.tasks@, k as int, new_task);
            lemma_sum_img_permits_update(self.tasks@, k as int, new_task);
            lemma_count_downloading_at(self.tasks@, k as int);
            lemma_sum_img_permits_at(self.tasks@, k as int);
        }
        self.tasks.set(k, new_task);
        if was_downloading {
            self.chapter_permits_free = self.chapter_permits_free + 1;
        }
        self.img_permits_free = self.img_permits_free + held;
        (was_downloading, held)
    }
}


impl DownloadManager {
    /// Pauses the task for a chapter.
    ///
    /// A pending or downloading task becomes `Paused`; pausing a downloading
    /// task gives the chapter permit and the task's image permits back in
    /// the same step, so the next chapter can only be admitted after the
    /// release. Errs exactly when no task carries the id.
    pub fn pause_download_task(&mut self, chapter_id: i64) -> (r: Result<(), CommandError>)
        requires
            old(self).wf(),
        ensures
            final(self).wf(),
            final(self).byte_per_sec == old(self).byte_per_sec,
            final(self).interval_bytes@ == old(self).interval_bytes@,
            match spec_find_task(old(self).tasks@, chapter_id, 0) {
                None => r matches Err(e) && e.message@ == crate::errors::spec_not_found_message(
                    chapter_id as int,
                ) && *final(self) == *old(self),
                Some(k) => r is Ok && {
                    let t = old(self).tasks@[k];
                    if t.state == DownloadTaskState::Pending || t.state
                        == DownloadTaskState::Downloading {
                        &&& final(self).tasks@ == old(self).tasks@.update(
                            k,
                            spec_task_with(t, DownloadTaskState::Paused),
                        )
                        &&& final(self).chapter_permits_free == old(self).chapter_permits_free + (
                        if t.state == DownloadTaskState::Downloading {
                            1int
                        } else {
                            0int
                        })
                        &&& final(self).img_permits_free == old(self).img_permits_free
                            + t.img_permits_held
                    } else {
                        *final(self) == *old(self)
                    }
                },
            },
    {
        let k = match self.find_task(chapter_id) {
            Some(k) => k,
            None => {
                return Err(CommandError::not_found(chapter_id));
            },
        };
        let state = self.tasks[k].state;
        if state == DownloadTaskState::Pending || state == DownloadTaskState::Downloading {
            self.release_task(k, DownloadTaskState::Paused);
        }
        Ok(())
    }

    /// Resumes the task for a chapter.
    ///
    /// A paused task goes back to `Pending` and must pass admission again;
    /// it never re-enters `Downloading` directly. Errs exactly when no task
    /// carries the id.
    pub fn resume_download_task(&mut self, chapter_id: i64) -> (r: Result<(), CommandError>)
        requires
            old(self).wf(),
        ensures
            final(self).wf(),
            final(self).byte_per_sec == old(self).byte_per_sec,
            final(self).interval_bytes@ == old(self).interval_bytes@,
            final(self).chapter_permits_free == old(self).chapter_permits_free,
            final(self).img_permits_free == old(self).img_permits_free,
            match spec_find_task(old(self).tasks@, chapter_id, 0) {
                None => r matches Err(e) && e.message@ == crate::errors::spec_not_found_message(
                    chapter_id as int,
                ) && *final(self) == *old(self),
                Some(k) => r is Ok && {
                    let t = old(self).tasks@[k];
                    if t.state == DownloadTaskState::Paused {
                        final(self).tasks@ == old(self).tasks@.update(
                            k,
                            spec_task_with(t, DownloadTaskState::Pending),
                        )
                    } else {
                        *final(self) == *old(self)
                    }
                },
            },
    {
        let k = match self.find_task(chapter_id) {
            Some(k) => k,
            None => {
                return Err(CommandError::not_found(chapter_id));
            },
        };
        if self.tasks[k].state == DownloadTaskState::Paused {
            self.release_task(k, DownloadTaskState::Pending);
        }
        Ok(())
    }

    /// Cancels the task for a chapter.
    ///
    /// Any live task becomes `Cancelled`, a terminal state; a downloading
    /// task gives its permits back. Cancelling a pending task leaves every
    /// permit count unchanged: it never acquires the chapter permit. Errs
    /// exactly when no task carries the id.
    pub fn cancel_download_task(&mut self, chapter_id: i64) -> (r: Result<(), CommandError>)
        requires
            old(self).wf(),
        ensures
            final(self).wf(),
            final(self).byte_per_sec == old(self).byte_per_sec,
            final(self).interval_bytes@ == old(self).interval_bytes@,
            match spec_find_task(old(self).tasks@, chapter_id, 0) {
                None => r matches Err(e) && e.message@ == crate::errors::spec_not_found_message(
                    chapter_id as int,
                ) && *final(self) == *old(self),
                Some(k) => r is Ok && {
                    let t = old(self).tasks@[k];
                    if !spec_is_terminal(t.state) {
                        &&& final(self).tasks@ == old(self).tasks@.update(
                            k,
                            spec_task_with(t, DownloadTaskState::Cancelled),
                        )
                        &&& final(self).chapter_permits_free == old(self).chapter_permits_free + (
                        if t.state == DownloadTaskState::Downloading {
                            1int
                        } else {
                            0int
                        })
                        &&& final(self).img_permits_free == old(self).img_permits_free
                            + t.img_permits_held
                    } else {
                        *final(self) == *old(self)
                    }
                },
            },
    {
        let k = match self.find_task(chapter_id) {
            Some(k) => k,
            None => {
                return Err(CommandError::not_found(chapter_id));
            },
        };
        if !is_terminal(self.tasks[k].state) {
            self.release_task(k, DownloadTaskState::Cancelled);
        }
        Ok(())
    }

    /// Admits the task for a chapter: takes the chapter permit and enters
    /// `Downloading`.
    ///
    /// Admission succeeds exactly for a pending task while a chapter permit
    /// is free; any other task, and a cancelled one in particular, is left
    /// untouched.
    pub fn acquire_chapter_permit(&mut self, chapter_id: i64) -> (acquired: bool)
        requires
            old(self).wf(),
        ensures
            final(self).wf(),
            final(self).byte_per_sec == old(self).byte_per_sec,
            final(self).interval_bytes@ == old(self).interval_bytes@,
            final(self).img_permits_free == old(self).img_permits_free,
            match spec_find_task(old(self).tasks@, chapter_id, 0) {
                Some(k) => if old(self).tasks@[k].state == DownloadTaskState::Pending && old(
                    self,
                ).chapter_permits_free >= 1 {
                    &&& acquired
                    &&& final(self).tasks@ == old(self).tasks@.update(
                        k,
                        (DownloadTask {
                            state: DownloadTaskState::Downloading,
                            ..old(self).tasks@[k]
                        }),
                    )
                    &&& final(self).chapter_permits_free == old(self).chapter_permits_free - 1
                } else {
                    !acquired && *final(self) == *old(self)
                },
                None => !acquired && *final(self) == *old(self),
            },
    {
        let k = match self.find_task(chapter_id) {
            Some(k) => k,
            None => {
                return false;
            },
        };
        if !(self.tasks[k].state == DownloadTaskState::Pending && self.chapter_permits_free >= 1) {
            return false;
        }
        let t = &self.tasks[k];
        let new_task = DownloadTask {
            chapter_info: t.chapter_info.clone(),
            state: DownloadTaskState::Downloading,
            downloaded_img_count: t.downloaded_img_count,
            total_img_count: t.total_img_count,
            img_permits_held: t.img_permits_held,
        };
        proof {
            lemma_count_downloading_update(self.tasks@, k as int, new_task);
            lemma_sum_img_permits_update(self.tasks@, k as int, new_task);
        }
        self.tasks.set(k, new_task);
        self.chapter_permits_free = self.chapter_permits_free - 1;
        true
    }

    /// Records how many images the chapter has, once the URL list is
    /// fetched. Only a downloading task that has not counted anything yet
    /// accepts the total.
    pub fn set_total_img_count(&mut self, chapter_id: i64, total: u32) -> (set: bool)
        requires
            old(self).wf(),
        ensures
            final(self).wf(),
            final(self).byte_per_sec == old(self).byte_per_sec,
            final(self).interval_bytes@ == old(self).interval_bytes@,
            final(self).chapter_permits_free == old(self).chapter_permits_free,
            final(self).img_permits_free == old(self).img_permits_free,
            match spec_find_task(old(self).tasks@, chapter_id, 0) {
                Some(k) => if old(self).tasks@[k].state == DownloadTaskState::Downloading && old(
                    self,
                ).tasks@[k].total_img_count == 0 && old(self).tasks@[k].downloaded_img_count
                    == 0 {
                    &&& set
                    &&& final(self).tasks@ == old(self).tasks@.update(
                        k,
                        (DownloadTask { total_img_count: total, ..old(self).tasks@[k] }),
                    )
                } else {
                    !set && *final(self) == *old(self)
                },
                None => !set && *final(self) == *old(self),
            },
    {
        let k = match self.find_task(chapter_id) {
            Some(k) => k,
            None => {
                return false;
            },
        };
        let t = &self.tasks[k];
        if !(t.state == DownloadTaskState::Downloading && t.total_img_count == 0
            && t.downloaded_img_count == 0) {
            return false;
        }
        let new_task = DownloadTask {
            chapter_info: t.chapter_info.clone(),
            state: t.state,
            downloaded_img_count: t.downloaded_img_count,
            total_img_count: total,
            img_permits_held: t.img_permits_held,
        };
        proof {
            lemma_count_downloading_update(self.tasks@, k as int, new_task);
            lemma_sum_img_permits_update(self.tasks@, k as int, new_task);
        }
        self.tasks.set(k, new_task);
        true
    }

    /// Grants an image permit to one of the chapter's image workers.
    ///
    /// Succeeds exactly for a downloading task while an image permit is
    /// free.
    pub fn acquire_img_permit(&mut self, chapter_id: i64) -> (acquired: bool)
        requires
            old(self).wf(),
        ensures
            final(self).wf(),
            final(self).byte_per_sec == old(self).byte_per_sec,
            final(self).interval_bytes@ == old(self).interval_bytes@,
            final(self).chapter_permits_free == old(self).chapter_permits_free,
            match spec_find_task(old(self).tasks@, chapter_id, 0) {
                Some(k) => if old(self).tasks@[k].state == DownloadTaskState::Downloading && old(
                    self,
                ).img_permits_free >= 1 {
                    &&& acquired
                    &&& final(self).tasks@ == old(self).tasks@.update(
                        k,
                        (DownloadTask {
                            img_permits_held: (old(self).tasks@[k].img_permits_held + 1) as u32,
                            ..old(self).tasks@[k]
                        }),
                    )
                    &&& final(self).img_permits_free == old(self).img_permits_free - 1
                } else {
                    !acquired && *final(self) == *old(self)
                },
                None => !acquired && *final(self) == *old(self),
            },
    {
        let k = match self.find_task(chapter_id) {
            Some(k) => k,
            None => {
                return false;
            },
        };
        if !(self.tasks[k].state == DownloadTaskState::Downloading && self.img_permits_free >= 1) {
            return false;
        }
        proof {
            lemma_sum_img_permits_at(self.tasks@, k as int);
        }
        let t = &self.tasks[k];
        let new_task = DownloadTask {
            chapter_info: t.chapter_info.clone(),
            state: t.state,
            downloaded_img_count: t.downloaded_img_count,
            total_img_count: t.total_img_count,
            img_permits_held: t.img_permits_held + 1,
        };
        proof {
            lemma_count_downloading_update(self.tasks@, k as int, new_task);
            lemma_sum_img_permits_update(self.tasks@, k as int, new_task);
        }
        self.tasks.set(k, new_task);
        self.img_permits_free = self.img_permits_free - 1;
        true
    }

    /// Takes one image permit back from the chapter's workers, as happens
    /// when an image worker pauses, fails or finishes.
    pub fn release_img_permit(&mut self, chapter_id: i64) -> (released: bool)
        requires
            old(self).wf(),
        ensures
            final(self).wf(),
            final(self).byte_per_sec == old(self).byte_per_sec,
            final(self).interval_bytes@ == old(self).interval_bytes@,
            final(self).chapter_permits_free == old(self).chapter_permits_free,
            match spec_find_task(old(self).tasks@, chapter_id, 0) {
                Some(k) => if old(self).tasks@[k].img_permits_held >= 1 {
                    &&& released
                    &&& final(self).tasks@ == old(self).tasks@.update(
                        k,
                        (DownloadTask {
                            img_permits_held: (old(self).tasks@[k].img_permits_held - 1) as u32,
                            ..old(self).tasks@[k]
                        }),
                    )
                    &&& final(self).img_permits_free == old(self).img_permits_free + 1
                } else {
                    !released && *final(self) == *old(self)
                },
                None => !released && *final(self) == *old(self),
            },
    {
        let k = match self.find_task(chapter_id) {
            Some(k) => k,
            None => {
                return false;
            },
        };
        if !(self.tasks[k].img_permits_held >= 1) {
            return false;
        }
        proof {
            lemma_sum_img_permits_at(self.tasks@, k as int);
        }
        let t = &self.tasks[k];
        let new_task = DownloadTask {
            chapter_info: t.chapter_info.clone(),
            state: t.state,
            downloaded_img_count: t.downloaded_img_count,
            total_img_count: t.total_img_count,
            img_permits_held: t.img_permits_held - 1,
        };
        proof {
            lemma_count_downloading_update(self.tasks@, k as int, new_task);
            lemma_sum_img_permits_update(self.tasks@, k as int, new_task);
        }
        self.tasks.set(k, new_task);
        self.img_permits_free = self.img_permits_free + 1;
        true
    }

    /// Records one successfully written image: the progress counter rises
    /// by one, never past the total, the written bytes enter the byte
    /// meter, and a snapshot event with the new counters is handed back.
    pub fn on_img_downloaded(&mut self, chapter_id: i64, byte_len: u64) -> (r: Option<
        DownloadTaskEvent,
    >)
        requires
            old(self).wf(),
            old(self).byte_per_sec + byte_len <= u64::MAX,
        ensures
            final(self).wf(),
            final(self).chapter_permits_free == old(self).chapter_permits_free,
            final(self).img_permits_free == old(self).img_permits_free,
            match spec_find_task(old(self).tasks@, chapter_id, 0) {
                Some(k) => if old(self).tasks@[k].state == DownloadTaskState::Downloading && old(
                    self,
                ).tasks@[k].downloaded_img_count < old(self).tasks@[k].total_img_count {
                    &&& final(self).tasks@ == old(self).tasks@.update(
                        k,
                        (DownloadTask {
                            downloaded_img_count: (old(self).tasks@[k].downloaded_img_count
                                + 1) as u32,
                            ..old(self).tasks@[k]
                        }),
                    )
                    &&& final(self).byte_per_sec == old(self).byte_per_sec + byte_len
                    &&& final(self).interval_bytes@ == old(self).interval_bytes@.push(byte_len)
                    &&& r matches Some(ev) && ev.state == DownloadTaskState::Downloading
                        && ev.chapter_info == old(self).tasks@[k].chapter_info
                        && ev.downloaded_img_count == old(self).tasks@[k].downloaded_img_count + 1
                        && ev.downloaded_img_count <= ev.total_img_count && ev.total_img_count
                        == old(self).tasks@[k].total_img_count
                } else {
                    r is None && *final(self) == *old(self)
                },
                None => r is None && *final(self) == *old(self),
            },
    {
        let k = match self.find_task(chapter_id) {
            Some(k) => k,
            None => {
                return None;
            },
        };
        let t = &self.tasks[k];
        if !(t.state == DownloadTaskState::Downloading && t.downloaded_img_count
            < t.total_img_count) {
            return None;
        }
        let new_task = DownloadTask {
            chapter_info: t.chapter_info.clone(),
            state: t.state,
            downloaded_img_count: t.downloaded_img_count + 1,
            total_img_count: t.total_img_count,
            img_permits_held: t.img_permits_held,
        };
        let ev = DownloadTaskEvent {
            state: DownloadTaskState::Downloading,
            chapter_info: t.chapter_info.clone(),
            downloaded_img_count: t.downloaded_img_count + 1,
            total_img_count: t.total_img_count,
        };
        proof {
            lemma_count_downloading_update(self.tasks@, k as int, new_task);
            lemma_sum_img_permits_update(self.tasks@, k as int, new_task);
            lemma_sum_bytes_push(self.interval_bytes@, byte_len);
        }
        self.tasks.set(k, new_task);
        self.byte_per_sec = self.byte_per_sec + byte_len;
        self.interval_bytes = Ghost(self.interval_bytes@.push(byte_len));
        Some(ev)
    }

    /// Decides what follows once all image workers of a chapter have
    /// finished: a complete chapter proceeds to the commit, an incomplete
    /// one fails on the spot, giving its permits back.
    pub fn finish_images(&mut self, chapter_id: i64) -> (r: (bool, Option<DownloadTaskEvent>))
        requires
            old(self).wf(),
        ensures
            final(self).wf(),
            final(self).byte_per_sec == old(self).byte_per_sec,
            final(self).interval_bytes@ == old(self).interval_bytes@,
            match spec_find_task(old(self).tasks@, chapter_id, 0) {
                Some(k) => {
                    let t = old(self).tasks@[k];
                    if t.state == DownloadTaskState::Downloading {
                        if t.downloaded_img_count == t.total_img_count {
                            r.0 && r.1 is None && *final(self) == *old(self)
                        } else {
                            &&& !r.0
                            &&& final(self).tasks@ == old(self).tasks@.update(
                                k,
                                spec_task_with(t, DownloadTaskState::Failed),
                            )
                            &&& final(self).chapter_permits_free == old(
                                self,
                            ).chapter_permits_free + 1
                            &&& final(self).img_permits_free == old(self).img_permits_free
                                + t.img_permits_held
                            &&& r.1 matches Some(ev) && ev.state == DownloadTaskState::Failed
                                && ev.chapter_info == t.chapter_info && ev.downloaded_img_count
                                == t.downloaded_img_count && ev.total_img_count
                                == t.total_img_count
                        }
                    } else {
                        !r.0 && r.1 is None && *final(self) == *old(self)
                    }
                },
                None => !r.0 && r.1 is None && *final(self) == *old(self),
            },
    {
        let k = match self.find_task(chapter_id) {
            Some(k) => k,
            None => {
                return (false, None);
            },
        };
        let t = &self.tasks[k];
        if t.state != DownloadTaskState::Downloading {
            return (false, None);
        }
        if t.downloaded_img_count == t.total_img_count {
            return (true, None);
        }
        let ev = DownloadTaskEvent {
            state: DownloadTaskState::Failed,
            chapter_info: t.chapter_info.clone(),
            downloaded_img_count: t.downloaded_img_count,
            total_img_count: t.total_img_count,
        };
        self.release_task(k, DownloadTaskState::Failed);
        (false, Some(ev))
    }

    /// Fails a downloading chapter, as when its page fetch, decryption,
    /// directory creation or commit rename fails; its permits go back.
    pub fn fail_chapter(&mut self, chapter_id: i64) -> (r: Option<DownloadTaskEvent>)
        requires
            old(self).wf(),
        ensures
            final(self).wf(),
            final(self).byte_per_sec == old(self).byte_per_sec,
            final(self).interval_bytes@ == old(self).interval_bytes@,
            match spec_find_task(old(self).tasks@, chapter_id, 0) {
                Some(k) => {
                    let t = old(self).tasks@[k];
                    if t.state == DownloadTaskState::Downloading {
                        &&& final(self).tasks@ == old(self).tasks@.update(
                            k,
                            spec_task_with(t, DownloadTaskState::Failed),
                        )
                        &&& final(self).chapter_permits_free == old(self).chapter_permits_free + 1
                        &&& final(self).img_permits_free == old(self).img_permits_free
                            + t.img_permits_held
                        &&& r matches Some(ev) && ev.state == DownloadTaskState::Failed
                            && ev.chapter_info == t.chapter_info && ev.downloaded_img_count
                            == t.downloaded_img_count && ev.total_img_count == t.total_img_count
                    } else {
                        r is None && *final(self) == *old(self)
                    }
                },
                None => r is None && *final(self) == *old(self),
            },
    {
        let k = match self.find_task(chapter_id) {
            Some(k) => k,
            None => {
                return None;
            },
        };
        let t = &self.tasks[k];
        if t.state != DownloadTaskState::Downloading {
            return None;
        }
        let ev = DownloadTaskEvent {
            state: DownloadTaskState::Failed,
            chapter_info: t.chapter_info.clone(),
            downloaded_img_count: t.downloaded_img_count,
            total_img_count: t.total_img_count,
        };
        self.release_task(k, DownloadTaskState::Failed);
        Some(ev)
    }

    /// Completes a downloading chapter after its commit rename and
    /// cool-down: only a task whose counters agree can complete, its
    /// permits go back, and the terminal snapshot is handed back.
    pub fn complete_chapter(&mut self, chapter_id: i64) -> (r: Option<DownloadTaskEvent>)
        requires
            old(self).wf(),
        ensures
            final(self).wf(),
            final(self).byte_per_sec == old(self).byte_per_sec,
            final(self).interval_bytes@ == old(self).interval_bytes@,
            match spec_find_task(old(self).tasks@, chapter_id, 0) {
                Some(k) => {
                    let t = old(self).tasks@[k];
                    if t.state == DownloadTaskState::Downloading && t.downloaded_img_count
                        == t.total_img_count {
                        &&& final(self).tasks@ == old(self).tasks@.update(
                            k,
                            spec_task_with(t, DownloadTaskState::Completed),
                        )
                        &&& final(self).chapter_permits_free == old(self).chapter_permits_free + 1
                        &&& final(self).img_permits_free == old(self).img_permits_free
                            + t.img_permits_held
                        &&& r matches Some(ev) && ev.state == DownloadTaskState::Completed
                            && ev.chapter_info == t.chapter_info && ev.downloaded_img_count
                            == t.downloaded_img_count && ev.total_img_count == t.total_img_count
                            && ev.downloaded_img_count == ev.total_img_count
                    } else {
                        r is None && *final(self) == *old(self)
                    }
                },
                None => r is None && *final(self) == *old(self),
            },
    {
        let k = match self.find_task(chapter_id) {
            Some(k) => k,
            None => {
                return None;
            },
        };
        let t = &self.tasks[k];
        if !(t.state == DownloadTaskState::Downloading && t.downloaded_img_count
            == t.total_img_count) {
            return None;
        }
        let ev = DownloadTaskEvent {
            state: DownloadTaskState::Completed,
            chapter_info: t.chapter_info.clone(),
            downloaded_img_count: t.downloaded_img_count,
            total_img_count: t.total_img_count,
        };
        self.release_task(k, DownloadTaskState::Completed);
        Some(ev)
    }

    /// Reads and resets the byte meter. The reading is exactly the sum of
    /// the byte counts the image workers reported since the last tick.
    pub fn take_speed_bytes(&mut self) -> (bytes: u64)
        requires
            old(self).wf(),
        ensures
            final(self).wf(),
            bytes == old(self).byte_per_sec,
            bytes == spec_sum_bytes(old(self).interval_bytes@),
            final(self).byte_per_sec == 0,
            final(self).interval_bytes@ == Seq::<u64>::empty(),
            final(self).tasks@ == old(self).tasks@,
            final(self).chapter_permits_free == old(self).chapter_permits_free,
            final(self).img_permits_free == old(self).img_permits_free,
    {
        let bytes = self.byte_per_sec;
        self.byte_per_sec = 0;
        self.interval_bytes = Ghost(Seq::empty());
        proof {
            assert(spec_sum_bytes(Seq::<u64>::empty()) == 0);
        }
        bytes
    }

    /// One tick of the rate reporter: reads and resets the meter and wraps
    /// the formatted speed in an event.
    pub fn log_download_speed(&mut self) -> (ev: DownloadEvent)
        requires
            old(self).wf(),
        ensures
            final(self).wf(),
            ev matches DownloadEvent::Speed { speed } && speed@ == spec_speed_string(
                spec_sum_bytes(old(self).interval_bytes@) as u64,
            ) && spec_sum_bytes(old(self).interval_bytes@) == old(self).byte_per_sec,
            final(self).byte_per_sec == 0,
            final(self).interval_bytes@ == Seq::<u64>::empty(),
            final(self).tasks@ == old(self).tasks@,
            final(self).chapter_permits_free == old(self).chapter_permits_free,
            final(self).img_permits_free == old(self).img_permits_free,
    {
        let bytes = self.take_speed_bytes();
        DownloadEvent::Speed { speed: format_speed(bytes) }
    }
}

/// The meter reading in hundredths of a mebibyte, rounded half up.
pub open spec fn spec_speed_hundredths(bytes: u64) -> int {
    (bytes * 100 + 524288) / 1048576
}

/// The formatted meter reading: the mebibytes per second with two decimals,
/// then a unit.
pub open spec fn spec_speed_string(bytes: u64) -> Seq<char> {
    let h = spec_speed_hundredths(bytes);
    spec_dec_digits(h / 100) + seq!['.', spec_digit_char((h / 10) % 10), spec_digit_char(h % 10)]
        + " MB/s"@
}

/// Formats a byte count as mebibytes per second with two decimals.
pub fn format_speed(bytes: u64) -> (s: String)
    ensures
        s@ == spec_speed_string(bytes),
{
    let wide: u128 = (bytes as u128) * 100 + 524288;
    let h128: u128 = wide / 1048576;
    proof {
        assert(h128 <= wide);
    }
    let h: u64 = h128 as u64;
    let mut s = u64_to_dec_string(h / 100);
    crate::strutil::push_char(&mut s, '.');
    let d1 = digit_char(((h / 10) % 10) as u8);
    crate::strutil::push_char(&mut s, d1);
    let d2 = digit_char((h % 10) as u8);
    crate::strutil::push_char(&mut s, d2);
    s.append(" MB/s");
    proof {
        assert(s@ =~= spec_speed_string(bytes));
    }
    s
}

/// One tick of the post-chapter cool-down: the event to emit and the
/// seconds that remain after it.
pub fn sleeping_tick(chapter_id: i64, remaining_sec: u64) -> (r: (DownloadEvent, u64))
    requires
        remaining_sec >= 1,
    ensures
        r.0 == (DownloadEvent::Sleeping { chapter_id, remaining_sec }),
        r.1 == remaining_sec - 1,
{
    (DownloadEvent::Sleeping { chapter_id, remaining_sec }, remaining_sec - 1)
}

/// At most one task is downloading at any instant: the chapter permit has
/// capacity one, and a well-formed manager accounts for it exactly.
pub proof fn lemma_at_most_one_downloading(m: DownloadManager)
    requires
        m.wf(),
    ensures
        spec_count_downloading(m.tasks@) <= CHAPTER_CONCURRENCY,
        forall|k1: int, k2: int|
            0 <= k1 < m.tasks@.len() && 0 <= k2 < m.tasks@.len() && #[trigger] m.tasks@[k1].state
                == DownloadTaskState::Downloading && #[trigger] m.tasks@[k2].state
                == DownloadTaskState::Downloading ==> k1 == k2,
{
    assert forall|k1: int, k2: int|
        0 <= k1 < m.tasks@.len() && 0 <= k2 < m.tasks@.len() && #[trigger] m.tasks@[k1].state
            == DownloadTaskState::Downloading && #[trigger] m.tasks@[k2].state
            == DownloadTaskState::Downloading implies k1 == k2 by {
        if k1 < k2 {
            lemma_count_downloading_two(m.tasks@, k1, k2);
        }
        if k2 < k1 {
            lemma_count_downloading_two(m.tasks@, k2, k1);
        }
    }
}

/// At most ten image permits are out at any instant, over all tasks
/// together.
pub proof fn lemma_img_permits_bounded(m: DownloadManager)
    requires
        m.wf(),
    ensures
        spec_sum_img_permits(m.tasks@) <= IMG_CONCURRENCY,
        forall|k: int|
            0 <= k < m.tasks@.len() ==> #[trigger] m.tasks@[k].img_permits_held
                <= IMG_CONCURRENCY,
{
    assert forall|k: int|
        0 <= k < m.tasks@.len() implies #[trigger] m.tasks@[k].img_permits_held
        <= IMG_CONCURRENCY by {
        lemma_sum_img_permits_at(m.tasks@, k);
    }
    lemma_sum_img_permits_nonneg(m.tasks@);
}

/// A task's progress counter never exceeds its total.
pub proof fn lemma_progress_within_total(m: DownloadManager)
    requires
        m.wf(),
    ensures
        forall|k: int|
            0 <= k < m.tasks@.len() ==> #[trigger] m.tasks@[k].downloaded_img_count
                <= m.tasks@[k].total_img_count,
{
}

/// A completed task has written every expected image.
pub proof fn lemma_completed_is_complete(m: DownloadManager)
    requires
        m.wf(),
    ensures
        forall|k: int|
            0 <= k < m.tasks@.len() && #[trigger] m.tasks@[k].state
                == DownloadTaskState::Completed ==> m.tasks@[k].downloaded_img_count
                == m.tasks@[k].total_img_count,
{
}

/// A task in a terminal state holds nothing: no chapter permit (it is not
/// downloading) and no image permits. A cancelled task in particular can
/// never be holding or acquiring a permit.
pub proof fn lemma_terminal_holds_nothing(m: DownloadManager)
    requires
        m.wf(),
    ensures
        forall|k: int|
            0 <= k < m.tasks@.len() && spec_is_terminal(#[trigger] m.tasks@[k].state)
                ==> m.tasks@[k].state != DownloadTaskState::Downloading
                && m.tasks@[k].img_permits_held == 0,
{
}

/// The byte meter reads exactly the sum of the byte counts reported since
/// the last tick.
pub proof fn lemma_meter_is_exact(m: DownloadManager)
    requires
        m.wf(),
    ensures
        m.byte_per_sec == spec_sum_bytes(m.interval_bytes@),
{
}

} // verus!
