use manhuagui_downloader::comic::{
    chapters_to_update, get_downloaded_chapters, ChapterInfo, Comic,
};
use manhuagui_downloader::comic_info::{join_comma, ComicInfo};
use manhuagui_downloader::config::Config;
use manhuagui_downloader::errors::CommandError;
use manhuagui_downloader::export::{get_chapter_export_dir, get_group_export_dir, Archive};
use manhuagui_downloader::layout::{
    get_chapter_download_dir, get_metadata_path, get_temp_download_dir, image_filename,
    image_filenames, image_save_path, img_url, join_path, prefixed_chapter_title,
};
use manhuagui_downloader::strutil::{i64_to_dec_string, u64_to_dec_string};

fn chapter(downloaded: Option<bool>) -> ChapterInfo {
    ChapterInfo {
        chapter_id: 1001,
        chapter_title: "第1话".to_string(),
        chapter_size: 2,
        prefixed_chapter_title: "1 第1话".to_string(),
        comic_id: 7,
        comic_title: "某漫画".to_string(),
        group_name: "单话".to_string(),
        group_size: 3,
        order: "1".to_string(),
        comic_status: "连载中".to_string(),
        is_downloaded: downloaded,
    }
}

#[test]
fn chapter_directories_follow_the_layout() {
    let c = chapter(None);
    assert_eq!(
        get_chapter_download_dir("/data/漫画下载", &c),
        "/data/漫画下载/某漫画/单话/1 第1话"
    );
    assert_eq!(
        get_temp_download_dir("/data/漫画下载", &c),
        "/data/漫画下载/某漫画/单话/.下载中-1 第1话"
    );
    assert_eq!(
        get_metadata_path("/data/漫画下载", "某漫画"),
        "/data/漫画下载/某漫画/元数据.json"
    );
}

#[test]
fn image_filenames_are_zero_padded() {
    assert_eq!(image_filename(1), "001.jpg");
    assert_eq!(image_filename(2), "002.jpg");
    assert_eq!(image_filename(12), "012.jpg");
    assert_eq!(image_filename(123), "123.jpg");
    assert_eq!(image_filename(999), "999.jpg");
    assert_eq!(image_filename(1000), "1000.jpg");
    assert_eq!(image_save_path("/tmp/ch", 1), "/tmp/ch/001.jpg");
}

#[test]
fn image_urls_strip_webp() {
    assert_eq!(
        img_url("/ps3/test/", "001.jpg.webp"),
        "https://i.hamreus.com/ps3/test/001.jpg"
    );
    assert_eq!(
        img_url("/ps3/test/", "001.jpg"),
        "https://i.hamreus.com/ps3/test/001.jpg"
    );
}

#[test]
fn prefixed_titles_join_order_and_title() {
    assert_eq!(prefixed_chapter_title("3", "第3话"), "3 第3话");
    assert_eq!(prefixed_chapter_title("3.5", "番外"), "3.5 番外");
    assert_eq!(join_path("a", "b"), "a/b");
}

#[test]
fn export_directories_follow_the_layout() {
    let c = chapter(Some(true));
    assert_eq!(Archive::Cbz.extension(), "cbz");
    assert_eq!(Archive::Pdf.extension(), "pdf");
    assert_eq!(
        get_group_export_dir("/out", "某漫画", &Archive::Pdf),
        "/out/某漫画/pdf"
    );
    assert_eq!(
        get_chapter_export_dir("/out", &c, &Archive::Cbz),
        "/out/某漫画/cbz/单话"
    );
}

#[test]
fn comic_info_for_ordinary_chapters() {
    let c = chapter(Some(true));
    let info = ComicInfo::from(
        c,
        &vec!["作者A".to_string(), "作者B".to_string()],
        &vec!["热血".to_string()],
        "简介".to_string(),
    );
    assert_eq!(info.manga, "Yes");
    assert_eq!(info.series, "某漫画");
    assert_eq!(info.publisher, "漫画柜");
    assert_eq!(info.writer, "作者A, 作者B");
    assert_eq!(info.genre, "热血");
    assert_eq!(info.summary, "简介");
    assert_eq!(info.title, "第1话");
    assert_eq!(info.number.as_deref(), Some("1"));
    assert_eq!(info.volume, None);
    assert_eq!(info.format, None);
    assert_eq!(info.page_count, 2);
    // Ongoing comics carry a zero count.
    assert_eq!(info.count, 0);
}

#[test]
fn comic_info_for_volumes_and_specials() {
    let mut vol = chapter(None);
    vol.group_name = "单行本".to_string();
    vol.comic_status = "已完结".to_string();
    let info = ComicInfo::from(vol, &Vec::new(), &Vec::new(), String::new());
    assert_eq!(info.number, None);
    assert_eq!(info.volume.as_deref(), Some("1"));
    assert_eq!(info.format, None);
    assert_eq!(info.count, 3);

    let mut special = chapter(None);
    special.group_name = "番外篇".to_string();
    let info = ComicInfo::from(special, &Vec::new(), &Vec::new(), String::new());
    assert_eq!(info.number.as_deref(), Some("1"));
    assert_eq!(info.volume, None);
    assert_eq!(info.format.as_deref(), Some("Special"));
    assert_eq!(info.count, 0);
}

#[test]
fn join_comma_handles_small_lists() {
    assert_eq!(join_comma(&Vec::new()), "");
    assert_eq!(join_comma(&vec!["a".to_string()]), "a");
    assert_eq!(
        join_comma(&vec!["a".to_string(), "b".to_string(), "c".to_string()]),
        "a, b, c"
    );
}

fn comic_with_groups(groups: Vec<(String, Vec<ChapterInfo>)>) -> Comic {
    Comic {
        id: 7,
        title: "某漫画".to_string(),
        subtitle: None,
        cover: "https://example/c.jpg".to_string(),
        status: "连载中".to_string(),
        update_time: "2024-12-13".to_string(),
        year: 2020,
        region: "日本".to_string(),
        genres: vec!["热血".to_string()],
        authors: vec!["作者A".to_string()],
        aliases: Vec::new(),
        intro: "简介".to_string(),
        groups,
    }
}

#[test]
fn downloaded_chapters_are_flattened_in_order() {
    let mut a = chapter(Some(true));
    a.chapter_id = 1;
    let mut b = chapter(Some(false));
    b.chapter_id = 2;
    let mut c = chapter(Some(true));
    c.chapter_id = 3;
    let groups = vec![
        ("单话".to_string(), vec![a, b]),
        ("单行本".to_string(), vec![c]),
    ];
    let downloaded = get_downloaded_chapters(&groups);
    assert_eq!(downloaded.len(), 2);
    assert_eq!(downloaded[0].chapter_id, 1);
    assert_eq!(downloaded[1].chapter_id, 3);
}

#[test]
fn refresh_selects_missing_chapters_of_started_groups() {
    let mut a = chapter(Some(true));
    a.chapter_id = 1;
    let mut b = chapter(Some(false));
    b.chapter_id = 2;
    let mut c = chapter(Some(false));
    c.chapter_id = 3;
    // The second group has nothing downloaded and is skipped whole.
    let comic = comic_with_groups(vec![
        ("单话".to_string(), vec![a, b]),
        ("单行本".to_string(), vec![c]),
    ]);
    let todo = chapters_to_update(&vec![comic]);
    assert_eq!(todo.len(), 1);
    assert_eq!(todo[0].chapter_id, 2);
}

#[test]
fn config_carries_plain_settings() {
    let cfg = Config {
        download_dir: "/data/漫画下载".to_string(),
        export_dir: "/data/导出".to_string(),
        cookie: String::new(),
        enable_file_logger: true,
        download_interval_sec: 2,
    };
    let copy = cfg.clone();
    assert_eq!(copy.download_dir, "/data/漫画下载");
    assert_eq!(copy.download_interval_sec, 2);
}

#[test]
fn numbers_format_in_decimal() {
    assert_eq!(u64_to_dec_string(0), "0");
    assert_eq!(u64_to_dec_string(305), "305");
    assert_eq!(i64_to_dec_string(-42), "-42");
    assert_eq!(i64_to_dec_string(i64::MIN), "-9223372036854775808");
    let err = CommandError::not_found(-5);
    assert_eq!(err.to_message(), "未找到章节ID为`-5`的下载任务");
}

#[test]
fn filename_lists_are_complete_and_distinct() {
    let names = image_filenames(4);
    assert_eq!(names, vec!["001.jpg", "002.jpg", "003.jpg", "004.jpg"]);
    let many = image_filenames(1200);
    assert_eq!(many.len(), 1200);
    for i in 0..many.len() {
        for j in (i + 1)..many.len() {
            assert_ne!(many[i], many[j]);
        }
    }
}

#[test]
fn img_urls_follow_file_order() {
    let payload = manhuagui_downloader::decrypt::DecryptResult {
        bid: 1,
        bname: String::new(),
        bpic: String::new(),
        cid: 2,
        cname: String::new(),
        files: vec!["a.jpg.webp".to_string(), "b.jpg".to_string()],
        finished: false,
        len: 2,
        path: "/p/".to_string(),
        status: 1,
        block_cc: String::new(),
        next_id: 0,
        prev_id: 0,
        sl: manhuagui_downloader::decrypt::Sl { e: 0, m: String::new() },
    };
    assert_eq!(
        manhuagui_downloader::layout::img_urls(&payload),
        vec![
            "https://i.hamreus.com/p/a.jpg",
            "https://i.hamreus.com/p/b.jpg"
        ]
    );
}
