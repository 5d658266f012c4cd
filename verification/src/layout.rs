//! The on-disk layout of downloaded chapters, as pure path computation.
//!
//! A chapter is downloaded into a hidden temporary directory and promoted to
//! its final directory by one atomic rename; the final directory's presence
//! is therefore the completeness signal. Everything here is string
//! computation over a configured root; no file is touched.

use vstd::prelude::*;

use vstd::string::StringExecFns;

use crate::comic::ChapterInfo;
use crate::decrypt::DecryptResult;
use crate::strutil::{
    push_char, spec_dec_digits, spec_digit_char, u64_to_dec_string, lemma_dec_digits_val,
    lemma_dec_digits_len, spec_digits_val_of,
};

verus! {

/// Two path fragments joined by one separator.
pub open spec fn spec_join(a: Seq<char>, b: Seq<char>) -> Seq<char> {
    a + seq!['/'] + b
}

/// Joins two path fragments.
pub fn join_path(a: &str, b: &str) -> (r: String)
    ensures
        r@ == spec_join(a@, b@),
{
    let mut s = String::from_str(a);
    push_char(&mut s, '/');
    s.append(b);
    proof {
        assert(s@ =~= spec_join(a@, b@));
    }
    s
}

/// The name of a chapter's transient download directory: a marker prefix in
/// front of the prefixed chapter title, so it is never taken for a finished
/// chapter.
pub open spec fn spec_temp_dir_name(prefixed_chapter_title: Seq<char>) -> Seq<char> {
    ".下载中-"@ + prefixed_chapter_title
}

/// The final directory of a chapter:
/// `download_dir/comic_title/group_name/prefixed_chapter_title`.
pub open spec fn spec_chapter_download_dir(download_dir: Seq<char>, c: ChapterInfo) -> Seq<char> {
    spec_join(spec_join(spec_join(download_dir, c.comic_title@), c.group_name@), c.prefixed_chapter_title@)
}

/// The transient directory of a chapter: its final directory's sibling with
/// the marker prefix.
pub open spec fn spec_temp_download_dir(download_dir: Seq<char>, c: ChapterInfo) -> Seq<char> {
    spec_join(
        spec_join(spec_join(download_dir, c.comic_title@), c.group_name@),
        spec_temp_dir_name(c.prefixed_chapter_title@),
    )
}

/// The final directory of a chapter.
pub fn get_chapter_download_dir(download_dir: &str, chapter_info: &ChapterInfo) -> (r: String)
    ensures
        r@ == spec_chapter_download_dir(download_dir@, *chapter_info),
{
    let a = join_path(download_dir, chapter_info.comic_title.as_str());
    let b = join_path(a.as_str(), chapter_info.group_name.as_str());
    join_path(b.as_str(), chapter_info.prefixed_chapter_title.as_str())
}

/// The transient download directory of a chapter.
pub fn get_temp_download_dir(download_dir: &str, chapter_info: &ChapterInfo) -> (r: String)
    ensures
        r@ == spec_temp_download_dir(download_dir@, *chapter_info),
{
    let a = join_path(download_dir, chapter_info.comic_title.as_str());
    let b = join_path(a.as_str(), chapter_info.group_name.as_str());
    let mut name = String::from_str(".下载中-");
    name.append(chapter_info.prefixed_chapter_title.as_str());
    let r = join_path(b.as_str(), name.as_str());
    proof {
        assert(r@ =~= spec_temp_download_dir(download_dir@, *chapter_info));
    }
    r
}

/// The metadata file of a comic: `download_dir/comic_title/元数据.json`.
pub open spec fn spec_metadata_path(download_dir: Seq<char>, comic_title: Seq<char>) -> Seq<char> {
    spec_join(spec_join(download_dir, comic_title), "元数据.json"@)
}

/// The metadata file of a comic.
pub fn get_metadata_path(download_dir: &str, comic_title: &str) -> (r: String)
    ensures
        r@ == spec_metadata_path(download_dir@, comic_title@),
{
    let a = join_path(download_dir, comic_title);
    join_path(a.as_str(), "元数据.json")
}

/// The prefixed chapter title: the order text, a space, and the title.
pub open spec fn spec_prefixed_chapter_title(order: Seq<char>, chapter_title: Seq<char>) -> Seq<
    char,
> {
    order + seq![' '] + chapter_title
}

/// Builds the prefixed chapter title out of the order text and the title.
pub fn prefixed_chapter_title(order: &str, chapter_title: &str) -> (r: String)
    ensures
        r@ == spec_prefixed_chapter_title(order@, chapter_title@),
{
    let mut s = String::from_str(order);
    push_char(&mut s, ' ');
    s.append(chapter_title);
    proof {
        assert(s@ =~= spec_prefixed_chapter_title(order@, chapter_title@));
    }
    s
}

/// A number as decimal digits, left-padded with zeros to at least three
/// places.
pub open spec fn spec_padded3(n: int) -> Seq<char> {
    if n < 10 {
        seq!['0', '0'] + spec_dec_digits(n)
    } else if n < 100 {
        seq!['0'] + spec_dec_digits(n)
    } else {
        spec_dec_digits(n)
    }
}

/// The name of the `i`-th image file (1-based): the zero-padded index and
/// the `.jpg` suffix.
pub open spec fn spec_image_filename(i: int) -> Seq<char> {
    spec_padded3(i) + ".jpg"@
}

/// The name of the `i`-th image file (1-based).
pub fn image_filename(i: u64) -> (r: String)
    requires
        i >= 1,
    ensures
        r@ == spec_image_filename(i as int),
{
    let mut s = String::new();
    if i < 10 {
        push_char(&mut s, '0');
        push_char(&mut s, '0');
    } else if i < 100 {
        push_char(&mut s, '0');
    }
    let digits = u64_to_dec_string(i);
    s.append(digits.as_str());
    s.append(".jpg");
    proof {
        assert(s@ =~= spec_image_filename(i as int));
    }
    s
}

/// The full save path of the `i`-th image inside a chapter directory.
pub fn image_save_path(dir: &str, i: u64) -> (r: String)
    requires
        i >= 1,
    ensures
        r@ == spec_join(dir@, spec_image_filename(i as int)),
{
    let name = image_filename(i);
    join_path(dir, name.as_str())
}

/// A value's decimal digits are read back as the value when a run of zeros
/// is put in front.
proof fn lemma_val_leading_zero(s: Seq<char>)
    ensures
        spec_digits_val_of(seq!['0'] + s) == spec_digits_val_of(s),
    decreases s.len(),
{
    if s.len() == 0 {
        assert((seq!['0'] + s) =~= seq!['0']);
        assert(seq!['0'].drop_last() =~= Seq::<char>::empty());
        assert(spec_digits_val_of(Seq::<char>::empty()) == 0);
        assert(spec_digits_val_of(seq!['0']) == ('0' as int) - 48);
    } else {
        assert((seq!['0'] + s).drop_last() =~= seq!['0'] + s.drop_last());
        assert((seq!['0'] + s).last() == s.last());
        lemma_val_leading_zero(s.drop_last());
    }
}

/// The padded digits still read back as the value.
proof fn lemma_padded3_val(n: int)
    requires
        n >= 0,
    ensures
        spec_digits_val_of(spec_padded3(n)) == n,
{
    lemma_dec_digits_val(n);
    if n < 10 {
        assert(seq!['0', '0'] + spec_dec_digits(n) =~= seq!['0'] + (seq!['0'] + spec_dec_digits(
            n,
        )));
        lemma_val_leading_zero(seq!['0'] + spec_dec_digits(n));
        lemma_val_leading_zero(spec_dec_digits(n));
    } else if n < 100 {
        lemma_val_leading_zero(spec_dec_digits(n));
    }
}

/// The padded digits are at least three characters, and exactly three for
/// values under a thousand.
proof fn lemma_padded3_len(n: int)
    requires
        0 <= n,
    ensures
        spec_padded3(n).len() >= 3,
        n < 1000 ==> spec_padded3(n).len() == 3,
{
    lemma_dec_digits_len(n);
}

/// Distinct image indexes give distinct image file names; together with the
/// count this pins the names `001.jpg` through the padded total down as
/// pairwise different.
pub proof fn lemma_image_filenames_distinct(i: int, j: int)
    requires
        1 <= i,
        1 <= j,
        i != j,
    ensures
        spec_image_filename(i) != spec_image_filename(j),
{
    lemma_padded3_val(i);
    lemma_padded3_val(j);
    if spec_image_filename(i) == spec_image_filename(j) {
        reveal_strlit(".jpg");
        lemma_padded3_len(i);
        lemma_padded3_len(j);
        let fi = spec_image_filename(i);
        let fj = spec_image_filename(j);
        assert(fi.len() == spec_padded3(i).len() + 4);
        assert(fj.len() == spec_padded3(j).len() + 4);
        assert(spec_padded3(i) =~= fi.subrange(0, fi.len() - 4));
        assert(spec_padded3(j) =~= fj.subrange(0, fj.len() - 4));
        assert(spec_padded3(i) == spec_padded3(j));
        assert(false);
    }
}

/// The image URL host.
pub open spec fn spec_img_host() -> Seq<char> {
    "https://i.hamreus.com"@
}

/// The URL of one image: the host, the payload's path fragment and the file
/// name, with a trailing `.webp` stripped.
pub open spec fn spec_img_url(path: Seq<char>, file: Seq<char>) -> Seq<char> {
    let full = spec_img_host() + path + file;
    if full.len() >= 5 && full.subrange(full.len() - 5, full.len() as int) =~= ".webp"@ {
        full.subrange(0, full.len() - 5)
    } else {
        full
    }
}

/// Builds the URL of one image from the payload's path fragment and file
/// name.
pub fn img_url(path: &str, file: &str) -> (r: String)
    ensures
        r@ == spec_img_url(path@, file@),
{
    let mut full = crate::strutil::str_chars("https://i.hamreus.com");
    let mut p = crate::strutil::str_chars(path);
    let mut f = crate::strutil::str_chars(file);
    full.append(&mut p);
    full.append(&mut f);
    let ghost fullv = full@;
    let n = full.len();
    let is_webp = if n >= 5 {
        full[n - 5] == '.' && full[n - 4] == 'w' && full[n - 3] == 'e' && full[n - 2] == 'b'
            && full[n - 1] == 'p'
    } else {
        false
    };
    proof {
        if n >= 5 {
            assert(is_webp == (fullv.subrange(n - 5, n as int) =~= ".webp"@)) by {
                reveal_strlit(".webp");
                if is_webp {
                    assert(fullv.subrange(n - 5, n as int) =~= ".webp"@);
                }
                if fullv.subrange(n - 5, n as int) =~= ".webp"@ {
                    assert(fullv.subrange(n - 5, n as int)[0] == fullv[n - 5]);
                    assert(fullv.subrange(n - 5, n as int)[1] == fullv[n - 4]);
                    assert(fullv.subrange(n - 5, n as int)[2] == fullv[n - 3]);
                    assert(fullv.subrange(n - 5, n as int)[3] == fullv[n - 2]);
                    assert(fullv.subrange(n - 5, n as int)[4] == fullv[n - 1]);
                }
            }
        }
    }
    if is_webp {
        full.truncate(n - 5);
    }
    let r = crate::strutil::chars_to_string(&full);
    proof {
        assert(r@ =~= spec_img_url(path@, file@));
    }
    r
}


/// The complete list of image file names a finished chapter of `total`
/// images holds: `001.jpg` up to the padded total, in order.
pub fn image_filenames(total: u64) -> (r: Vec<String>)
    ensures
        r@.len() == total,
        forall|k: int| 0 <= k < total ==> #[trigger] r@[k]@ == spec_image_filename(k + 1),
{
    let mut r: Vec<String> = Vec::new();
    let mut i: u64 = 0;
    while i < total
        invariant
            i <= total,
            r@.len() == i,
            forall|k: int| 0 <= k < i ==> #[trigger] r@[k]@ == spec_image_filename(k + 1),
        decreases total - i,
    {
        r.push(image_filename(i + 1));
        i = i + 1;
    }
    r
}

/// The download URLs of a payload's images, in file order: one URL per
/// file, each built from the payload's path fragment.
pub fn img_urls(payload: &DecryptResult) -> (r: Vec<String>)
    ensures
        r@.len() == payload.files@.len(),
        forall|k: int|
            0 <= k < r@.len() ==> #[trigger] r@[k]@ == spec_img_url(
                payload.path@,
                payload.files@[k]@,
            ),
{
    let mut r: Vec<String> = Vec::new();
    let mut i: usize = 0;
    while i < payload.files.len()
        invariant
            i <= payload.files@.len(),
            r@.len() == i,
            forall|k: int|
                0 <= k < i ==> #[trigger] r@[k]@ == spec_img_url(
                    payload.path@,
                    payload.files@[k]@,
                ),
        decreases payload.files@.len() - i,
    {
        r.push(img_url(payload.path.as_str(), payload.files[i].as_str()));
        i = i + 1;
    }
    r
}
} // verus!
