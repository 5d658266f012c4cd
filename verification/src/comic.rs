//! The data describing comics and chapters, as plain values.

use vstd::prelude::*;

verus! {

/// One chapter of a comic: the unit of download work.
///
/// `order` is the chapter's 1-based position within its group, kept as
/// decimal text (such as `3` or `3.5`) so that the prefixed title is a pure
/// function of it.
#[derive(Debug)]
pub struct ChapterInfo {
    /// Chapter id, unique within the site.
    pub chapter_id: i64,
    /// Chapter title, sanitized for use as a directory name.
    pub chapter_title: String,
    /// Number of images in the chapter.
    pub chapter_size: i64,
    /// The chapter title prefixed with `order`, used as a directory name.
    pub prefixed_chapter_title: String,
    /// Comic id.
    pub comic_id: i64,
    /// Comic title, sanitized for use as a directory name.
    pub comic_title: String,
    /// Group name, such as single chapters or bound volumes.
    pub group_name: String,
    /// Number of chapters in this chapter's group.
    pub group_size: i64,
    /// Position within the group, as decimal text.
    pub order: String,
    /// Comic status text: ongoing or ended.
    pub comic_status: String,
    /// Whether the chapter's final directory exists; unknown when `None`.
    pub is_downloaded: Option<bool>,
}

impl Clone for ChapterInfo {
    fn clone(&self) -> (r: ChapterInfo)
        ensures
            r == *self,
    {
        ChapterInfo {
            chapter_id: self.chapter_id,
            chapter_title: self.chapter_title.clone(),
            chapter_size: self.chapter_size,
            prefixed_chapter_title: self.prefixed_chapter_title.clone(),
            comic_id: self.comic_id,
            comic_title: self.comic_title.clone(),
            group_name: self.group_name.clone(),
            group_size: self.group_size,
            order: self.order.clone(),
            comic_status: self.comic_status.clone(),
            is_downloaded: match self.is_downloaded {
                Some(b) => Some(b),
                None => None,
            },
        }
    }
}

/// A comic: its site metadata and its chapters, grouped by group name.
///
/// The groups keep their order; group names are unique.
#[derive(Debug)]
pub struct Comic {
    /// Comic id.
    pub id: i64,
    /// Comic title, sanitized.
    pub title: String,
    /// Subtitle, when the site shows one.
    pub subtitle: Option<String>,
    /// Cover image URL.
    pub cover: String,
    /// Status text: ongoing or ended.
    pub status: String,
    /// Last update time text.
    pub update_time: String,
    /// Publication year.
    pub year: i64,
    /// Region text.
    pub region: String,
    /// Genre texts.
    pub genres: Vec<String>,
    /// Author names.
    pub authors: Vec<String>,
    /// Alternative titles.
    pub aliases: Vec<String>,
    /// Introduction text.
    pub intro: String,
    /// Group name to the group's chapters, in site order.
    pub groups: Vec<(String, Vec<ChapterInfo>)>,
}

/// Whether a chapter is marked as downloaded.
pub open spec fn spec_chapter_downloaded(c: ChapterInfo) -> bool {
    c.is_downloaded == Some(true)
}

/// Whether a chapter is marked as downloaded.
pub fn chapter_downloaded(c: &ChapterInfo) -> (r: bool)
    ensures
        r == spec_chapter_downloaded(*c),
{
    match c.is_downloaded {
        Some(b) => b,
        None => false,
    }
}

/// The chapters of one group that are marked downloaded, in order.
pub open spec fn spec_downloaded_of_group(chapters: Seq<ChapterInfo>) -> Seq<ChapterInfo>
    decreases chapters.len(),
{
    if chapters.len() == 0 {
        Seq::empty()
    } else if spec_chapter_downloaded(chapters[0]) {
        seq![chapters[0]] + spec_downloaded_of_group(chapters.drop_first())
    } else {
        spec_downloaded_of_group(chapters.drop_first())
    }
}

/// The downloaded chapters of all groups, flattened in group order.
pub open spec fn spec_downloaded_chapters(groups: Seq<(String, Vec<ChapterInfo>)>) -> Seq<
    ChapterInfo,
>
    decreases groups.len(),
{
    if groups.len() == 0 {
        Seq::empty()
    } else {
        spec_downloaded_of_group(groups[0].1@) + spec_downloaded_chapters(groups.drop_first())
    }
}

/// Flattens the downloaded chapters of all groups, in group order.
pub fn get_downloaded_chapters(groups: &Vec<(String, Vec<ChapterInfo>)>) -> (r: Vec<ChapterInfo>)
    ensures
        r@ == spec_downloaded_chapters(groups@),
{
    let mut r: Vec<ChapterInfo> = Vec::new();
    let mut g: usize = 0;
    while g < groups.len()
        invariant
            g <= groups@.len(),
            r@ == spec_downloaded_chapters(groups@.subrange(0, g as int)),
        decreases groups@.len() - g,
    {
        let chapters = &groups[g].1;
        let mut i: usize = 0;
        while i < chapters.len()
            invariant
                g < groups@.len(),
                chapters == &groups@[g as int].1,
                i <= chapters@.len(),
                r@ == spec_downloaded_chapters(groups@.subrange(0, g as int))
                    + spec_downloaded_of_group(chapters@.subrange(0, i as int)),
            decreases chapters@.len() - i,
        {
            proof {
                lemma_downloaded_of_group_step(chapters@, i as int);
            }
            if chapter_downloaded(&chapters[i]) {
                r.push(chapters[i].clone());
            }
            i = i + 1;
        }
        proof {
            assert(chapters@.subrange(0, chapters@.len() as int) =~= chapters@);
            lemma_downloaded_chapters_step(groups@, g as int);
        }
        g = g + 1;
    }
    proof {
        assert(groups@.subrange(0, groups@.len() as int) =~= groups@);
    }
    r
}

/// Filtering one more chapter extends the group's downloaded list by that
/// chapter exactly when it is marked downloaded.
proof fn lemma_downloaded_of_group_step(chapters: Seq<ChapterInfo>, i: int)
    requires
        0 <= i < chapters.len(),
    ensures
        spec_downloaded_of_group(chapters.subrange(0, i + 1)) == if spec_chapter_downloaded(
            chapters[i],
        ) {
            spec_downloaded_of_group(chapters.subrange(0, i)) + seq![chapters[i]]
        } else {
            spec_downloaded_of_group(chapters.subrange(0, i))
        },
    decreases i,
{
    if i == 0 {
        assert(chapters.subrange(0, 1) =~= seq![chapters[0]]);
        assert(chapters.subrange(0, 1).drop_first() =~= Seq::<ChapterInfo>::empty());
        assert(chapters.subrange(0, 0) =~= Seq::<ChapterInfo>::empty());
        assert(spec_downloaded_of_group(Seq::<ChapterInfo>::empty()) =~= Seq::<
            ChapterInfo,
        >::empty());
        if spec_chapter_downloaded(chapters[0]) {
            assert(spec_downloaded_of_group(chapters.subrange(0, 1)) =~= seq![chapters[0]]);
        }
    } else {
        let p1 = chapters.subrange(0, i + 1);
        let p0 = chapters.subrange(0, i);
        assert(p1.drop_first() =~= chapters.subrange(1, i + 1));
        assert(p0.drop_first() =~= chapters.subrange(1, i));
        lemma_downloaded_of_group_step(chapters.subrange(1, chapters.len() as int), i - 1);
        assert(chapters.subrange(1, chapters.len() as int).subrange(0, i) =~= chapters.subrange(
            1,
            i + 1,
        ));
        assert(chapters.subrange(1, chapters.len() as int).subrange(0, i - 1) =~= chapters.subrange(
            1,
            i,
        ));
        assert(chapters.subrange(1, chapters.len() as int)[i - 1] == chapters[i]);
    }
}

/// Appending one more group extends the flattened downloaded list by that
/// group's downloaded chapters.
proof fn lemma_downloaded_chapters_step(groups: Seq<(String, Vec<ChapterInfo>)>, g: int)
    requires
        0 <= g < groups.len(),
    ensures
        spec_downloaded_chapters(groups.subrange(0, g + 1)) == spec_downloaded_chapters(
            groups.subrange(0, g),
        ) + spec_downloaded_of_group(groups[g].1@),
    decreases g,
{
    if g == 0 {
        assert(groups.subrange(0, 1).drop_first() =~= Seq::<(String, Vec<ChapterInfo>)>::empty());
        assert(groups.subrange(0, 0) =~= Seq::<(String, Vec<ChapterInfo>)>::empty());
        assert(spec_downloaded_chapters(Seq::<(String, Vec<ChapterInfo>)>::empty()) =~= Seq::<
            ChapterInfo,
        >::empty());
        assert(spec_downloaded_chapters(groups.subrange(0, 1)) =~= spec_downloaded_of_group(
            groups[0].1@,
        ));
    } else {
        let p1 = groups.subrange(0, g + 1);
        let p0 = groups.subrange(0, g);
        assert(p1.drop_first() =~= groups.subrange(1, g + 1));
        assert(p0.drop_first() =~= groups.subrange(1, g));
        lemma_downloaded_chapters_step(groups.subrange(1, groups.len() as int), g - 1);
        assert(groups.subrange(1, groups.len() as int).subrange(0, g) =~= groups.subrange(
            1,
            g + 1,
        ));
        assert(groups.subrange(1, groups.len() as int).subrange(0, g - 1) =~= groups.subrange(
            1,
            g,
        ));
        assert(groups.subrange(1, groups.len() as int)[g - 1] == groups[g]);
    }
}


/// Whether a group has at least one chapter marked downloaded.
pub open spec fn spec_group_has_downloaded(chapters: Seq<ChapterInfo>) -> bool {
    exists|i: int| 0 <= i < chapters.len() && spec_chapter_downloaded(chapters[i])
}

/// The chapters of one group that are not marked downloaded, in order.
pub open spec fn spec_missing_of_group(chapters: Seq<ChapterInfo>) -> Seq<ChapterInfo>
    decreases chapters.len(),
{
    if chapters.len() == 0 {
        Seq::empty()
    } else if !spec_chapter_downloaded(chapters[0]) {
        seq![chapters[0]] + spec_missing_of_group(chapters.drop_first())
    } else {
        spec_missing_of_group(chapters.drop_first())
    }
}

/// The chapters a refresh should download for one comic: the not-downloaded
/// chapters of every group that already has a downloaded chapter.
pub open spec fn spec_chapters_to_update_of(groups: Seq<(String, Vec<ChapterInfo>)>) -> Seq<
    ChapterInfo,
>
    decreases groups.len(),
{
    if groups.len() == 0 {
        Seq::empty()
    } else {
        (if spec_group_has_downloaded(groups[0].1@) {
            spec_missing_of_group(groups[0].1@)
        } else {
            Seq::empty()
        }) + spec_chapters_to_update_of(groups.drop_first())
    }
}

/// The chapters a refresh should download over a list of comics, in order.
pub open spec fn spec_chapters_to_update(comics: Seq<Comic>) -> Seq<ChapterInfo>
    decreases comics.len(),
{
    if comics.len() == 0 {
        Seq::empty()
    } else {
        spec_chapters_to_update_of(comics[0].groups@) + spec_chapters_to_update(
            comics.drop_first(),
        )
    }
}

/// Whether a group has at least one chapter marked downloaded.
pub fn group_has_downloaded(chapters: &Vec<ChapterInfo>) -> (r: bool)
    ensures
        r == spec_group_has_downloaded(chapters@),
{
    let mut i: usize = 0;
    while i < chapters.len()
        invariant
            i <= chapters@.len(),
            forall|m: int| 0 <= m < i ==> !spec_chapter_downloaded(chapters@[m]),
        decreases chapters@.len() - i,
    {
        if chapter_downloaded(&chapters[i]) {
            return true;
        }
        i = i + 1;
    }
    false
}

/// Filtering one more chapter extends the missing list by that chapter
/// exactly when it is not marked downloaded.
proof fn lemma_missing_of_group_step(chapters: Seq<ChapterInfo>, i: int)
    requires
        0 <= i < chapters.len(),
    ensures
        spec_missing_of_group(chapters.subrange(0, i + 1)) == if !spec_chapter_downloaded(
            chapters[i],
        ) {
            spec_missing_of_group(chapters.subrange(0, i)) + seq![chapters[i]]
        } else {
            spec_missing_of_group(chapters.subrange(0, i))
        },
    decreases i,
{
    if i == 0 {
        assert(chapters.subrange(0, 1) =~= seq![chapters[0]]);
        assert(chapters.subrange(0, 1).drop_first() =~= Seq::<ChapterInfo>::empty());
        assert(chapters.subrange(0, 0) =~= Seq::<ChapterInfo>::empty());
        assert(spec_missing_of_group(Seq::<ChapterInfo>::empty()) =~= Seq::<ChapterInfo>::empty());
        if !spec_chapter_downloaded(chapters[0]) {
            assert(spec_missing_of_group(chapters.subrange(0, 1)) =~= seq![chapters[0]]);
        }
    } else {
        let p1 = chapters.subrange(0, i + 1);
        let p0 = chapters.subrange(0, i);
        assert(p1.drop_first() =~= chapters.subrange(1, i + 1));
        assert(p0.drop_first() =~= chapters.subrange(1, i));
        lemma_missing_of_group_step(chapters.subrange(1, chapters.len() as int), i - 1);
        assert(chapters.subrange(1, chapters.len() as int).subrange(0, i) =~= chapters.subrange(
            1,
            i + 1,
        ));
        assert(chapters.subrange(1, chapters.len() as int).subrange(0, i - 1) =~= chapters.subrange(
            1,
            i,
        ));
        assert(chapters.subrange(1, chapters.len() as int)[i - 1] == chapters[i]);
    }
}

/// The not-downloaded chapters of one group, in order.
pub fn missing_of_group(chapters: &Vec<ChapterInfo>) -> (r: Vec<ChapterInfo>)
    ensures
        r@ == spec_missing_of_group(chapters@),
{
    let mut r: Vec<ChapterInfo> = Vec::new();
    let mut i: usize = 0;
    while i < chapters.len()
        invariant
            i <= chapters@.len(),
            r@ == spec_missing_of_group(chapters@.subrange(0, i as int)),
        decreases chapters@.len() - i,
    {
        proof {
            lemma_missing_of_group_step(chapters@, i as int);
        }
        if !chapter_downloaded(&chapters[i]) {
            r.push(chapters[i].clone());
        }
        i = i + 1;
    }
    proof {
        assert(chapters@.subrange(0, chapters@.len() as int) =~= chapters@);
    }
    r
}

/// Appending one more group extends the per-comic update list by that
/// group's contribution.
proof fn lemma_chapters_to_update_of_step(groups: Seq<(String, Vec<ChapterInfo>)>, g: int)
    requires
        0 <= g < groups.len(),
    ensures
        spec_chapters_to_update_of(groups.subrange(0, g + 1)) == spec_chapters_to_update_of(
            groups.subrange(0, g),
        ) + (if spec_group_has_downloaded(groups[g].1@) {
            spec_missing_of_group(groups[g].1@)
        } else {
            Seq::<ChapterInfo>::empty()
        }),
    decreases g,
{
    if g == 0 {
        assert(groups.subrange(0, 1).drop_first() =~= Seq::<(String, Vec<ChapterInfo>)>::empty());
        assert(groups.subrange(0, 0) =~= Seq::<(String, Vec<ChapterInfo>)>::empty());
        assert(spec_chapters_to_update_of(Seq::<(String, Vec<ChapterInfo>)>::empty()) =~= Seq::<
            ChapterInfo,
        >::empty());
        assert(spec_chapters_to_update_of(groups.subrange(0, 1)) =~= (
        if spec_group_has_downloaded(groups[0].1@) {
            spec_missing_of_group(groups[0].1@)
        } else {
            Seq::<ChapterInfo>::empty()
        }));
    } else {
        let p1 = groups.subrange(0, g + 1);
        let p0 = groups.subrange(0, g);
        assert(p1.drop_first() =~= groups.subrange(1, g + 1));
        assert(p0.drop_first() =~= groups.subrange(1, g));
        lemma_chapters_to_update_of_step(groups.subrange(1, groups.len() as int), g - 1);
        assert(groups.subrange(1, groups.len() as int).subrange(0, g) =~= groups.subrange(
            1,
            g + 1,
        ));
        assert(groups.subrange(1, groups.len() as int).subrange(0, g - 1) =~= groups.subrange(
            1,
            g,
        ));
        assert(groups.subrange(1, groups.len() as int)[g - 1] == groups[g]);
    }
}

/// Appending one more comic extends the update list by that comic's
/// contribution.
proof fn lemma_chapters_to_update_step(comics: Seq<Comic>, c: int)
    requires
        0 <= c < comics.len(),
    ensures
        spec_chapters_to_update(comics.subrange(0, c + 1)) == spec_chapters_to_update(
            comics.subrange(0, c),
        ) + spec_chapters_to_update_of(comics[c].groups@),
    decreases c,
{
    if c == 0 {
        assert(comics.subrange(0, 1).drop_first() =~= Seq::<Comic>::empty());
        assert(comics.subrange(0, 0) =~= Seq::<Comic>::empty());
        assert(spec_chapters_to_update(Seq::<Comic>::empty()) =~= Seq::<ChapterInfo>::empty());
        assert(spec_chapters_to_update(comics.subrange(0, 1)) =~= spec_chapters_to_update_of(
            comics[0].groups@,
        ));
    } else {
        let p1 = comics.subrange(0, c + 1);
        let p0 = comics.subrange(0, c);
        assert(p1.drop_first() =~= comics.subrange(1, c + 1));
        assert(p0.drop_first() =~= comics.subrange(1, c));
        lemma_chapters_to_update_step(comics.subrange(1, comics.len() as int), c - 1);
        assert(comics.subrange(1, comics.len() as int).subrange(0, c) =~= comics.subrange(
            1,
            c + 1,
        ));
        assert(comics.subrange(1, comics.len() as int).subrange(0, c - 1) =~= comics.subrange(
            1,
            c,
        ));
        assert(comics.subrange(1, comics.len() as int)[c - 1] == comics[c]);
    }
}

/// The chapters a refresh of already-downloaded comics should enqueue: for
/// every group that already has a downloaded chapter, the chapters of that
/// group that are still missing, in order.
pub fn chapters_to_update(comics: &Vec<Comic>) -> (r: Vec<ChapterInfo>)
    ensures
        r@ == spec_chapters_to_update(comics@),
{
    let mut r: Vec<ChapterInfo> = Vec::new();
    let mut c: usize = 0;
    while c < comics.len()
        invariant
            c <= comics@.len(),
            r@ == spec_chapters_to_update(comics@.subrange(0, c as int)),
        decreases comics@.len() - c,
    {
        let groups = &comics[c].groups;
        let mut g: usize = 0;
        while g < groups.len()
            invariant
                c < comics@.len(),
                groups == &comics@[c as int].groups,
                g <= groups@.len(),
                r@ == spec_chapters_to_update(comics@.subrange(0, c as int))
                    + spec_chapters_to_update_of(groups@.subrange(0, g as int)),
            decreases groups@.len() - g,
        {
            proof {
                lemma_chapters_to_update_of_step(groups@, g as int);
            }
            if group_has_downloaded(&groups[g].1) {
                let mut missing = missing_of_group(&groups[g].1);
                r.append(&mut missing);
            }
            g = g + 1;
        }
        proof {
            assert(groups@.subrange(0, groups@.len() as int) =~= groups@);
            lemma_chapters_to_update_step(comics@, c as int);
        }
        c = c + 1;
    }
    proof {
        assert(comics@.subrange(0, comics@.len() as int) =~= comics@);
    }
    r
}
} // verus!
