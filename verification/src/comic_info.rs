//! The per-chapter archive metadata record, as the Kavita reader expects it.

use vstd::prelude::*;

use vstd::string::StringExecFns;

use crate::comic::ChapterInfo;

verus! {

broadcast use vstd::string::group_string_axioms;

/// The metadata record written beside a chapter's images when it is
/// archived.
#[derive(Debug, Clone, PartialEq)]
pub struct ComicInfo {
    /// Always `Yes`: the archive is manga.
    pub manga: String,
    /// The comic title.
    pub series: String,
    /// The publisher.
    pub publisher: String,
    /// The authors, joined by commas.
    pub writer: String,
    /// The genres, joined by commas.
    pub genre: String,
    /// The comic introduction.
    pub summary: String,
    /// The chapter title.
    pub title: String,
    /// The chapter number, for ordinary chapters.
    pub number: Option<String>,
    /// The volume number, for bound volumes.
    pub volume: Option<String>,
    /// `Special` for chapters that are neither ordinary nor volumes.
    pub format: Option<String>,
    /// How many pages the chapter has.
    pub page_count: i64,
    /// The total chapter count: zero while the comic is ongoing, the group
    /// size once it has ended.
    pub count: i64,
}

/// A list of texts joined by a comma and a space.
pub open spec fn spec_join_comma(v: Seq<Seq<char>>) -> Seq<char>
    decreases v.len(),
{
    if v.len() == 0 {
        Seq::empty()
    } else if v.len() == 1 {
        v[0]
    } else {
        v[0] + ", "@ + spec_join_comma(v.drop_first())
    }
}

/// Joins a list of texts by a comma and a space.
pub fn join_comma(v: &Vec<String>) -> (r: String)
    ensures
        r@ == spec_join_comma(crate::decrypt::strings_view(v@)),
{
    let ghost vv = crate::decrypt::strings_view(v@);
    let mut r = String::new();
    proof {
        assert(vv.subrange(0, vv.len() as int) =~= vv);
        assert(Seq::<char>::empty() + spec_join_comma(vv) =~= spec_join_comma(vv));
    }
    let mut i: usize = 0;
    while i < v.len()
        invariant
            vv == crate::decrypt::strings_view(v@),
            i <= v@.len(),
            spec_join_comma(vv) == r@ + spec_join_comma(vv.subrange(i as int, vv.len() as int)),
        decreases v@.len() - i,
    {
        proof {
            let rest = vv.subrange(i as int, vv.len() as int);
            assert(rest[0] == vv[i as int]);
            if i + 1 < v@.len() {
                assert(rest.drop_first() =~= vv.subrange(i + 1, vv.len() as int));
            } else {
                assert(rest.len() == 1);
                assert(vv.subrange(i + 1, vv.len() as int) =~= Seq::<Seq<char>>::empty());
                assert(spec_join_comma(Seq::<Seq<char>>::empty()) =~= Seq::<char>::empty());
            }
        }
        r.append(v[i].as_str());
        if i + 1 < v.len() {
            r.append(", ");
        }
        i = i + 1;
    }
    proof {
        assert(vv.subrange(vv.len() as int, vv.len() as int) =~= Seq::<Seq<char>>::empty());
        assert(spec_join_comma(Seq::<Seq<char>>::empty()) =~= Seq::<char>::empty());
        assert(r@ + Seq::<char>::empty() =~= r@);
    }
    r
}

impl ComicInfo {
    /// Builds the record for one chapter.
    ///
    /// Ordinary chapters carry only a number, bound volumes only a volume,
    /// anything else a number and the `Special` format. The count is zero
    /// while the comic is ongoing and the group size once it has ended.
    pub fn from(
        chapter_info: ChapterInfo,
        authors: &Vec<String>,
        genre: &Vec<String>,
        intro: String,
    ) -> (r: ComicInfo)
        ensures
            r.manga@ == "Yes"@,
            r.series@ == chapter_info.comic_title@,
            r.publisher@ == "漫画柜"@,
            r.writer@ == spec_join_comma(crate::decrypt::strings_view(authors@)),
            r.genre@ == spec_join_comma(crate::decrypt::strings_view(genre@)),
            r.summary@ == intro@,
            r.title@ == chapter_info.chapter_title@,
            chapter_info.group_name@ == "单话"@ ==> (r.number matches Some(n) && n@
                == chapter_info.order@) && r.volume is None && r.format is None,
            chapter_info.group_name@ == "单行本"@ ==> r.number is None && (r.volume matches Some(
                v,
            ) && v@ == chapter_info.order@) && r.format is None,
            chapter_info.group_name@ != "单话"@ && chapter_info.group_name@ != "单行本"@ ==> (
            r.number matches Some(n) && n@ == chapter_info.order@) && r.volume is None && (
            r.format matches Some(f) && f@ == "Special"@),
            r.page_count == chapter_info.chapter_size,
            r.count == if chapter_info.comic_status@ == "连载中"@ {
                0int
            } else {
                chapter_info.group_size as int
            },
    {
        proof {
            reveal_strlit("单话");
            reveal_strlit("单行本");
            assert("单话"@.len() == 2);
            assert("单行本"@.len() == 3);
            assert("单话"@ != "单行本"@);
        }
        let single = String::from_str("单话");
        let volume_name = String::from_str("单行本");
        let order = Some(chapter_info.order.clone());
        let (number, volume, format): (Option<String>, Option<String>, Option<String>) = if chapter_info.group_name == single {
            (order, None, None)
        } else if chapter_info.group_name == volume_name {
            (None, order, None)
        } else {
            (order, None, Some(String::from_str("Special")))
        };
        let ongoing = String::from_str("连载中");
        let count: i64 = if chapter_info.comic_status == ongoing {
            0
        } else {
            chapter_info.group_size
        };
        ComicInfo {
            manga: String::from_str("Yes"),
            series: chapter_info.comic_title,
            publisher: String::from_str("漫画柜"),
            writer: join_comma(authors),
            genre: join_comma(genre),
            summary: intro,
            title: chapter_info.chapter_title,
            number,
            volume,
            format,
            page_count: chapter_info.chapter_size,
            count,
        }
    }
}

} // verus!
