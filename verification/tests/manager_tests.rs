use manhuagui_downloader::comic::ChapterInfo;
use manhuagui_downloader::download_manager::{
    sleeping_tick, DownloadManager, DownloadTaskState, format_speed,
};
use manhuagui_downloader::events::DownloadEvent;

fn chapter(id: i64, title: &str) -> ChapterInfo {
    ChapterInfo {
        chapter_id: id,
        chapter_title: title.to_string(),
        chapter_size: 5,
        prefixed_chapter_title: format!("1 {title}"),
        comic_id: 99,
        comic_title: "某漫画".to_string(),
        group_name: "单话".to_string(),
        group_size: 10,
        order: "1".to_string(),
        comic_status: "连载中".to_string(),
        is_downloaded: None,
    }
}

fn state(m: &DownloadManager, id: i64) -> DownloadTaskState {
    m.task_state(id).expect("task must exist")
}

/// Runs one chapter from admission to completion, downloading `total`
/// images of `bytes` each.
fn run_chapter(m: &mut DownloadManager, id: i64, total: u32, bytes: u64) {
    assert!(m.acquire_chapter_permit(id));
    assert_eq!(state(m, id), DownloadTaskState::Downloading);
    assert!(m.set_total_img_count(id, total));
    for _ in 0..total {
        assert!(m.acquire_img_permit(id));
        let ev = m.on_img_downloaded(id, bytes).expect("image must count");
        assert_eq!(ev.state, DownloadTaskState::Downloading);
        assert!(m.release_img_permit(id));
    }
    let (complete, ev) = m.finish_images(id);
    assert!(complete);
    assert!(ev.is_none());
    let ev = m.complete_chapter(id).expect("chapter must complete");
    assert_eq!(ev.state, DownloadTaskState::Completed);
    assert_eq!(ev.downloaded_img_count, total);
    assert_eq!(ev.total_img_count, total);
    assert_eq!(state(m, id), DownloadTaskState::Completed);
}

#[test]
fn two_chapters_are_serialized() {
    let mut m = DownloadManager::new();
    assert!(m.create_download_task(chapter(1, "A")));
    assert!(m.create_download_task(chapter(2, "B")));
    assert_eq!(state(&m, 1), DownloadTaskState::Pending);
    assert_eq!(state(&m, 2), DownloadTaskState::Pending);
    // A is admitted; B must stay pending while A holds the only permit.
    assert!(m.acquire_chapter_permit(1));
    assert!(!m.acquire_chapter_permit(2));
    assert_eq!(state(&m, 2), DownloadTaskState::Pending);
    assert!(m.set_total_img_count(1, 2));
    for _ in 0..2 {
        assert!(m.acquire_img_permit(1));
        m.on_img_downloaded(1, 1024).unwrap();
        assert!(m.release_img_permit(1));
    }
    assert!(m.finish_images(1).0);
    m.complete_chapter(1).unwrap();
    // Only after A finished can B be admitted.
    assert!(m.acquire_chapter_permit(2));
    assert_eq!(state(&m, 2), DownloadTaskState::Downloading);
}

#[test]
fn create_is_idempotent_for_live_tasks() {
    let mut m = DownloadManager::new();
    assert!(m.create_download_task(chapter(1, "A")));
    assert!(!m.create_download_task(chapter(1, "A")));
    assert!(m.acquire_chapter_permit(1));
    assert!(!m.create_download_task(chapter(1, "A")));
    assert_eq!(state(&m, 1), DownloadTaskState::Downloading);
}

#[test]
fn completed_task_is_replaced_on_resubmit() {
    let mut m = DownloadManager::new();
    assert!(m.create_download_task(chapter(1, "A")));
    run_chapter(&mut m, 1, 1, 10);
    // Re-submitting a terminal chapter starts over from a fresh record.
    assert!(m.create_download_task(chapter(1, "A")));
    assert_eq!(state(&m, 1), DownloadTaskState::Pending);
    run_chapter(&mut m, 1, 1, 10);
}

#[test]
fn pause_releases_the_chapter_permit() {
    let mut m = DownloadManager::new();
    assert!(m.create_download_task(chapter(1, "A")));
    assert!(m.create_download_task(chapter(2, "B")));
    assert!(m.acquire_chapter_permit(1));
    assert!(m.set_total_img_count(1, 3));
    assert!(m.acquire_img_permit(1));
    m.on_img_downloaded(1, 500).unwrap();
    assert!(m.release_img_permit(1));
    // Pausing A frees the permit; B gets through admission.
    m.pause_download_task(1).unwrap();
    assert_eq!(state(&m, 1), DownloadTaskState::Paused);
    assert_eq!(m.chapter_permits_free, 1);
    assert!(m.acquire_chapter_permit(2));
    // Resuming A puts it back in line, not straight into downloading.
    m.resume_download_task(1).unwrap();
    assert_eq!(state(&m, 1), DownloadTaskState::Pending);
    assert!(!m.acquire_chapter_permit(1));
    // After B completes, A is admitted again and finishes.
    assert!(m.set_total_img_count(2, 0));
    assert!(m.finish_images(2).0);
    m.complete_chapter(2).unwrap();
    assert!(m.acquire_chapter_permit(1));
    for _ in 0..2 {
        assert!(m.acquire_img_permit(1));
        m.on_img_downloaded(1, 500).unwrap();
        assert!(m.release_img_permit(1));
    }
    assert!(m.finish_images(1).0);
    m.complete_chapter(1).unwrap();
    assert_eq!(state(&m, 1), DownloadTaskState::Completed);
}

#[test]
fn cancel_while_pending_never_takes_a_permit() {
    let mut m = DownloadManager::new();
    assert!(m.create_download_task(chapter(1, "A")));
    assert!(m.create_download_task(chapter(2, "B")));
    assert!(m.acquire_chapter_permit(1));
    let free_before = m.chapter_permits_free;
    m.cancel_download_task(2).unwrap();
    assert_eq!(state(&m, 2), DownloadTaskState::Cancelled);
    assert_eq!(m.chapter_permits_free, free_before);
    // A cancelled task cannot be admitted.
    assert!(!m.acquire_chapter_permit(2));
    assert_eq!(state(&m, 2), DownloadTaskState::Cancelled);
}

#[test]
fn incomplete_chapter_fails_and_keeps_no_permit() {
    let mut m = DownloadManager::new();
    assert!(m.create_download_task(chapter(1, "A")));
    assert!(m.acquire_chapter_permit(1));
    assert!(m.set_total_img_count(1, 5));
    // Four of five images succeed, one image worker fails silently.
    for _ in 0..4 {
        assert!(m.acquire_img_permit(1));
        m.on_img_downloaded(1, 100).unwrap();
        assert!(m.release_img_permit(1));
    }
    assert!(m.acquire_img_permit(1));
    assert!(m.release_img_permit(1));
    let (complete, ev) = m.finish_images(1);
    assert!(!complete);
    let ev = ev.expect("failure event");
    assert_eq!(ev.state, DownloadTaskState::Failed);
    assert_eq!(ev.downloaded_img_count, 4);
    assert_eq!(ev.total_img_count, 5);
    assert_eq!(state(&m, 1), DownloadTaskState::Failed);
    assert_eq!(m.chapter_permits_free, 1);
    // No rename: a failed chapter never completes.
    assert!(m.complete_chapter(1).is_none());
}

#[test]
fn empty_chapter_completes_directly() {
    let mut m = DownloadManager::new();
    assert!(m.create_download_task(chapter(1, "A")));
    run_chapter(&mut m, 1, 0, 0);
}

#[test]
fn single_image_chapter_completes() {
    let mut m = DownloadManager::new();
    assert!(m.create_download_task(chapter(1, "A")));
    run_chapter(&mut m, 1, 1, 2048);
}

#[test]
fn progress_is_monotone_and_bounded() {
    let mut m = DownloadManager::new();
    assert!(m.create_download_task(chapter(1, "A")));
    assert!(m.acquire_chapter_permit(1));
    assert!(m.set_total_img_count(1, 2));
    let ev1 = m.on_img_downloaded(1, 1).unwrap();
    assert_eq!(ev1.downloaded_img_count, 1);
    let ev2 = m.on_img_downloaded(1, 1).unwrap();
    assert_eq!(ev2.downloaded_img_count, 2);
    // The counter never exceeds the total: a surplus report is refused.
    assert!(m.on_img_downloaded(1, 1).is_none());
}

#[test]
fn at_most_ten_image_permits() {
    let mut m = DownloadManager::new();
    assert!(m.create_download_task(chapter(1, "A")));
    assert!(m.acquire_chapter_permit(1));
    assert!(m.set_total_img_count(1, 20));
    for _ in 0..10 {
        assert!(m.acquire_img_permit(1));
    }
    assert!(!m.acquire_img_permit(1));
    assert!(m.release_img_permit(1));
    assert!(m.acquire_img_permit(1));
}

#[test]
fn meter_reads_exactly_the_reported_bytes() {
    let mut m = DownloadManager::new();
    assert!(m.create_download_task(chapter(1, "A")));
    assert!(m.acquire_chapter_permit(1));
    assert!(m.set_total_img_count(1, 3));
    m.on_img_downloaded(1, 300_000).unwrap();
    m.on_img_downloaded(1, 400_000).unwrap();
    m.on_img_downloaded(1, 348_576).unwrap();
    assert_eq!(m.byte_per_sec, 1_048_576);
    let bytes = m.take_speed_bytes();
    assert_eq!(bytes, 1_048_576);
    assert_eq!(m.byte_per_sec, 0);
    assert_eq!(m.take_speed_bytes(), 0);
}

#[test]
fn speed_events_over_three_seconds_sum_to_the_download() {
    // Three megabytes over three one-second ticks: the three readings sum,
    // within rounding, to 3.00 MB.
    let mut m = DownloadManager::new();
    assert!(m.create_download_task(chapter(1, "A")));
    assert!(m.acquire_chapter_permit(1));
    assert!(m.set_total_img_count(1, 3));
    let mut speeds: Vec<String> = Vec::new();
    for _ in 0..3 {
        m.on_img_downloaded(1, 1_048_576).unwrap();
        match m.log_download_speed() {
            DownloadEvent::Speed { speed } => speeds.push(speed),
            _ => panic!("expected a speed event"),
        }
    }
    assert_eq!(speeds, vec!["1.00 MB/s", "1.00 MB/s", "1.00 MB/s"]);
}

#[test]
fn speed_formatting_rounds_to_hundredths() {
    assert_eq!(format_speed(0), "0.00 MB/s");
    assert_eq!(format_speed(1_048_576), "1.00 MB/s");
    assert_eq!(format_speed(1_572_864), "1.50 MB/s");
    assert_eq!(format_speed(123), "0.00 MB/s");
    assert_eq!(format_speed(10_485), "0.01 MB/s");
    assert_eq!(format_speed(26_214_400), "25.00 MB/s");
}

#[test]
fn controls_err_on_unknown_chapter() {
    let mut m = DownloadManager::new();
    let err = m.pause_download_task(7).unwrap_err();
    assert_eq!(err.message, "未找到章节ID为`7`的下载任务");
    assert!(m.resume_download_task(7).is_err());
    assert!(m.cancel_download_task(7).is_err());
}

#[test]
fn sleeping_ticks_count_down() {
    let (ev, rest) = sleeping_tick(5, 3);
    assert_eq!(
        ev,
        DownloadEvent::Sleeping { chapter_id: 5, remaining_sec: 3 }
    );
    assert_eq!(rest, 2);
    let (ev, rest) = sleeping_tick(5, 1);
    assert_eq!(
        ev,
        DownloadEvent::Sleeping { chapter_id: 5, remaining_sec: 1 }
    );
    assert_eq!(rest, 0);
}

#[test]
fn fail_chapter_on_commit_error() {
    let mut m = DownloadManager::new();
    assert!(m.create_download_task(chapter(1, "A")));
    assert!(m.acquire_chapter_permit(1));
    assert!(m.set_total_img_count(1, 1));
    m.on_img_downloaded(1, 10).unwrap();
    assert!(m.finish_images(1).0);
    // The rename fails: the chapter fails and frees its permit.
    let ev = m.fail_chapter(1).expect("failure event");
    assert_eq!(ev.state, DownloadTaskState::Failed);
    assert_eq!(m.chapter_permits_free, 1);
}
