//! The storage model: chapters with a denormalized visit counter, plus the
//! append-only visit log, and the two ranked queries over them.
//!
//! The central invariant is the one the original schema maintains
//! incrementally: for every chapter, `visit_count` equals the number of
//! visit rows referencing it.

use vstd::prelude::*;
use crate::models::{Chapter, OneChapterVisitInfo, Visits};
use crate::timeframe::{spec_milliseconds, TimeFrame};
use crate::rank::{rank_sort, spec_rank_sort, lemma_rank_sort_len};

verus! {

/// Rows per result page of the ranking queries.
pub const PAGE_SIZE: usize = 50;

/// Chapter ids are assigned serially from 1; the chapter count stays below
/// this bound so that a fresh id fits in `i32`.
pub const MAX_CHAPTERS: usize = 0x7fff_fffe;

/// Visit ids are assigned serially from 1; the log length stays below this
/// bound so that a fresh id and every visit counter fit in `i64`.
pub const MAX_VISITS: u64 = 0x7fff_ffff_ffff_fffe;

/// Number of visit rows in `visits` that reference chapter `id`.
pub open spec fn all_time_count(visits: Seq<Visits>, id: i32) -> int {
    visits.filter(|v: Visits| v.chapter_id == id).len() as int
}

/// Number of visit rows that reference chapter `id` and fall after
/// `cutoff` (strictly newer).
pub open spec fn window_count(visits: Seq<Visits>, id: i32, cutoff: int) -> int {
    visits.filter(|v: Visits| v.chapter_id == id && v.timestamp > cutoff).len() as int
}

/// Some chapter row carries this relative path.
pub open spec fn has_chapter(chapters: Seq<Chapter>, path: Seq<char>) -> bool {
    exists|i: int| 0 <= i < chapters.len() && chapters[i].relative_path@ == path
}

/// The index of the chapter row carrying this path (meaningful only when
/// `has_chapter` holds; paths are unique in a well-formed store).
pub open spec fn chapter_index(chapters: Seq<Chapter>, path: Seq<char>) -> int {
    choose|i: int| 0 <= i < chapters.len() && chapters[i].relative_path@ == path
}

/// The id of the chapter a visit to `path` lands on: the existing row's id,
/// or the id the freshly created row would get.
pub open spec fn visit_target_id(chapters: Seq<Chapter>, path: Seq<char>) -> i32 {
    if has_chapter(chapters, path) {
        chapters[chapter_index(chapters, path)].id
    } else {
        (chapters.len() + 1) as i32
    }
}

/// In-memory storage: the chapter table and the append-only visit log.
pub struct Store {
    pub chapters: Vec<Chapter>,
    pub visits: Vec<Visits>,
}

/// The state change of recording one visit to `path` at time `now`: one
/// visit row appended under the next serial id; the target chapter's
/// counter raised by one, a fresh row (counter 1) appended if the path was
/// unseen; every other chapter and its row count untouched.
pub open spec fn visit_recorded(pre: Store, post: Store, path: Seq<char>, now: i64) -> bool {
    &&& post.visits@ == pre.visits@.push(
        Visits {
            id: (pre.visits@.len() + 1) as i64,
            chapter_id: visit_target_id(pre.chapters@, path),
            timestamp: now,
        },
    )
    &&& has_chapter(pre.chapters@, path) ==> {
        let k = chapter_index(pre.chapters@, path);
        post.chapters@ == pre.chapters@.update(
            k,
            Chapter { visit_count: (pre.chapters@[k].visit_count + 1) as i64, ..pre.chapters@[k] },
        )
    }
    &&& !has_chapter(pre.chapters@, path) ==> {
        &&& post.chapters@.len() == pre.chapters@.len() + 1
        &&& forall|j: int| 0 <= j < pre.chapters@.len() ==> post.chapters@[j] == pre.chapters@[j]
        &&& post.chapters@.last().id == pre.chapters@.len() + 1
        &&& post.chapters@.last().relative_path@ == path
        &&& post.chapters@.last().visit_count == 1
    }
    &&& all_time_count(post.visits@, visit_target_id(pre.chapters@, path)) == all_time_count(
        pre.visits@,
        visit_target_id(pre.chapters@, path),
    ) + 1
    &&& forall|other: i32|
        other != visit_target_id(pre.chapters@, path) ==> all_time_count(post.visits@, other)
            == all_time_count(pre.visits@, other)
}

impl Store {
    /// Well-formedness: serial ids, valid foreign keys, unique paths, and
    /// the counter invariant — every chapter's `visit_count` equals the
    /// number of visit rows referencing it.
    pub open spec fn wf(self) -> bool {
        &&& self.chapters@.len() <= MAX_CHAPTERS
        &&& self.visits@.len() <= MAX_VISITS as nat
        &&& forall|i: int|
            0 <= i < self.chapters@.len() ==> (#[trigger] self.chapters@[i]).id == i + 1
        &&& forall|i: int| 0 <= i < self.visits@.len() ==> (#[trigger] self.visits@[i]).id == i + 1
        &&& forall|i: int|
            0 <= i < self.visits@.len() ==> 1 <= (#[trigger] self.visits@[i]).chapter_id
                <= self.chapters@.len()
        &&& forall|i: int, j: int|
            0 <= i < self.chapters@.len() && 0 <= j < self.chapters@.len() && i != j ==> (
            #[trigger] self.chapters@[i]).relative_path@ != (
            #[trigger] self.chapters@[j]).relative_path@
        &&& forall|i: int|
            0 <= i < self.chapters@.len() ==> (#[trigger] self.chapters@[i]).visit_count
                == all_time_count(self.visits@, self.chapters@[i].id)
    }

    /// An empty store, trivially well-formed.
    pub fn new() -> (s: Store)
        ensures
            s.wf(),
            s.chapters@.len() == 0,
            s.visits@.len() == 0,
    {
        let s = Store { chapters: Vec::new(), visits: Vec::new() };
        proof {
            lemma_filter_absent(s.visits@, s.chapters@.len() as int);
        }
        s
    }

    /// Looks a chapter up by its relative path; if absent, appends a new
    /// row with `visit_count = 0` and returns it. Idempotent: a second
    /// call with the same path returns the same row and changes nothing.
    pub fn get_or_create_chapter(&mut self, path: String) -> (c: Chapter)
        requires
            old(self).wf(),
            old(self).chapters@.len() < MAX_CHAPTERS,
        ensures
            final(self).wf(),
            final(self).visits@ == old(self).visits@,
            has_chapter(old(self).chapters@, path@) ==> {
                &&& final(self).chapters@ == old(self).chapters@
                &&& c == old(self).chapters@[chapter_index(old(self).chapters@, path@)]
            },
            !has_chapter(old(self).chapters@, path@) ==> {
                &&& final(self).chapters@.len() == old(self).chapters@.len() + 1
                &&& forall|j: int|
                    0 <= j < old(self).chapters@.len() ==> final(self).chapters@[j] == old(
                        self,
                    ).chapters@[j]
                &&& final(self).chapters@.last() == c
                &&& c.id == old(self).chapters@.len() + 1
                &&& c.relative_path@ == path@
                &&& c.visit_count == 0
            },
            c.relative_path@ == path@,
    {
        let n = self.chapters.len();
        let mut idx: usize = 0;
        while idx < n
            invariant
                *self == *old(self),
                old(self).wf(),
                n == self.chapters@.len(),
                idx <= n,
                forall|j: int| 0 <= j < idx ==> (#[trigger] self.chapters@[j]).relative_path@ != path@,
            decreases n - idx,
        {
            if self.chapters[idx].relative_path == path {
                let c = self.chapters[idx].clone();
                proof {
                    assert(self.chapters@[idx as int].relative_path@ == path@);
                    assert(has_chapter(self.chapters@, path@));
                    let k = chapter_index(self.chapters@, path@);
                    assert(self.chapters@[k].relative_path@ == path@);
                    // paths are unique, so the chosen index is the one found
                    assert(k == idx as int) by {
                        if k != idx as int {
                            assert(self.chapters@[k].relative_path@
                                != self.chapters@[idx as int].relative_path@);
                        }
                    }
                }
                return c;
            }
            idx += 1;
        }
        proof {
            assert(!has_chapter(self.chapters@, path@));
        }
        let fresh = Chapter { id: (n + 1) as i32, relative_path: path, visit_count: 0 };
        let c = fresh.clone();
        self.chapters.push(fresh);
        proof {
            lemma_filter_absent_id(self.visits@, old(self).chapters@, (n + 1) as i32);
        }
        c
    }

    /// Records one visit to `path` at time `now`: resolves the chapter
    /// (creating it if needed), appends a visit row, and increments that
    /// chapter's counter — the two writes the original wraps in one
    /// transaction. Exactly the target chapter's row count grows, by one.
    pub fn record_visit(&mut self, path: String, now: i64)
        requires
            old(self).wf(),
            old(self).chapters@.len() < MAX_CHAPTERS,
            old(self).visits@.len() < MAX_VISITS as nat,
        ensures
            final(self).wf(),
            visit_recorded(*old(self), *final(self), path@, now),
    {
        let ghost old_chapters = self.chapters@;
        let ghost old_visits = self.visits@;
        let chapter = self.get_or_create_chapter(path);
        let vid = self.visits.len() as i64 + 1;
        self.visits.push(Visits { id: vid, chapter_id: chapter.id, timestamp: now });
        proof {
            broadcast use vstd::prelude::Seq::lemma_filter_len_push;

            assert(chapter.id == visit_target_id(old_chapters, path@));
        }
        // increment the denormalized counter of the chapter just visited
        let k = (chapter.id - 1) as usize;
        let path_again = self.chapters[k].relative_path.clone();
        let count = self.chapters[k].visit_count;
        self.chapters[k] = Chapter { id: chapter.id, relative_path: path_again, visit_count: count
            + 1 };
        proof {
            broadcast use vstd::prelude::Seq::lemma_filter_len_push;

            let pushed = Visits {
                id: (old_visits.len() + 1) as i64,
                chapter_id: chapter.id,
                timestamp: now,
            };
            assert forall|other: i32| other != chapter.id implies all_time_count(
                self.visits@,
                other,
            ) == all_time_count(old_visits, other) by {
                assert(self.visits@ == old_visits.push(pushed));
            }
            assert(self.wf()) by {
                assert(self.visits@ == old_visits.push(pushed));
                assert forall|i: int| 0 <= i < self.chapters@.len() implies (
                #[trigger] self.chapters@[i]).visit_count == all_time_count(
                    self.visits@,
                    self.chapters@[i].id,
                ) by {
                    if i != k {
                        assert(self.chapters@[i].id == i + 1);
                        assert(self.chapters@[i].id != chapter.id);
                    }
                }
            }
        }
    }
}

/// A filter on chapter id finds nothing when no visit row carries it;
/// in particular a fresh id (above every foreign key) has count zero.
proof fn lemma_filter_none<A>(s: Seq<A>, pred: spec_fn(A) -> bool)
    requires
        forall|i: int| 0 <= i < s.len() ==> !pred(s[i]),
    ensures
        s.filter(pred).len() == 0,
    decreases s.len(),
{
    reveal(Seq::filter);
    if s.len() > 0 {
        lemma_filter_none(s.drop_last(), pred);
    }
}

/// No visit row can reference an id above the chapter count, so such an id
/// has an all-time count of zero.
proof fn lemma_filter_absent(visits: Seq<Visits>, bound: int)
    requires
        forall|i: int| 0 <= i < visits.len() ==> (#[trigger] visits[i]).chapter_id <= bound,
    ensures
        forall|id: i32| id > bound ==> all_time_count(visits, id) == 0,
{
    assert forall|id: i32| id > bound implies all_time_count(visits, id) == 0 by {
        lemma_filter_none(visits, |v: Visits| v.chapter_id == id);
    }
}

/// Helper shape of the above for one fresh id.
pub(crate) proof fn lemma_filter_absent_id(visits: Seq<Visits>, chapters: Seq<Chapter>, id: i32)
    requires
        forall|i: int|
            0 <= i < visits.len() ==> (#[trigger] visits[i]).chapter_id <= chapters.len(),
        id > chapters.len(),
    ensures
        all_time_count(visits, id) == 0,
{
    lemma_filter_none(visits, |v: Visits| v.chapter_id == id);
}

/// Offset of a page, 1-indexed; a page below 1 is clamped to the first.
pub open spec fn page_offset(page: i32) -> int {
    if page <= 1 {
        0
    } else {
        (page - 1) * (PAGE_SIZE as int)
    }
}

/// The window of `s` a page shows: up to `PAGE_SIZE` elements starting at
/// the page's offset.
pub open spec fn spec_page(s: Seq<Chapter>, page: i32) -> Seq<Chapter> {
    let off = page_offset(page);
    if off >= s.len() {
        Seq::empty()
    } else if off + PAGE_SIZE as int <= s.len() {
        s.subrange(off, off + PAGE_SIZE as int)
    } else {
        s.subrange(off, s.len() as int)
    }
}

/// The result rows report exactly these chapter rows, in order.
pub open spec fn rows_match(rows: Seq<OneChapterVisitInfo>, chs: Seq<Chapter>) -> bool {
    &&& rows.len() == chs.len()
    &&& forall|i: int|
        0 <= i < rows.len() ==> (#[trigger] rows[i]).relative_path@ == chs[i].relative_path@
            && rows[i].visit_count == chs[i].visit_count
}

/// The chapter row as the recent ranking presents it: the same path and
/// id, but counting only the visits inside the window.
pub open spec fn recent_entry(c: Chapter, visits: Seq<Visits>, cutoff: int) -> Chapter {
    Chapter { visit_count: window_count(visits, c.id, cutoff) as i64, ..c }
}

/// The rows the recent ranking draws from: every chapter with at least
/// one visit inside the window, under its windowed count. Chapters with
/// none are absent, not listed with zero.
pub open spec fn recent_entries(chapters: Seq<Chapter>, visits: Seq<Visits>, cutoff: int) -> Seq<
    Chapter,
>
    decreases chapters.len(),
{
    if chapters.len() == 0 {
        Seq::empty()
    } else {
        let rest = recent_entries(chapters.drop_last(), visits, cutoff);
        if window_count(visits, chapters.last().id, cutoff) > 0 {
            rest.push(recent_entry(chapters.last(), visits, cutoff))
        } else {
            rest
        }
    }
}

/// Appending a visit row raises the windowed count of its chapter by one
/// exactly when the row falls inside the window.
proof fn lemma_window_count_push(vs: Seq<Visits>, v: Visits, id: i32, cutoff: int)
    ensures
        window_count(vs.push(v), id, cutoff) == window_count(vs, id, cutoff) + (
        if v.chapter_id == id && v.timestamp > cutoff {
            1int
        } else {
            0int
        }),
{
    broadcast use vstd::prelude::Seq::lemma_filter_len_push;

    assert(vs.push(v).filter(|x: Visits| x.chapter_id == id && x.timestamp > cutoff).len()
        == vs.filter(|x: Visits| x.chapter_id == id && x.timestamp > cutoff).len() + (
    if v.chapter_id == id && v.timestamp > cutoff {
        1int
    } else {
        0int
    }));
}

impl Store {
    /// How often each chapter was visited strictly after `cutoff`,
    /// counted from the event log.
    fn count_window(&self, id: i32, cutoff: i64) -> (n: u64)
        ensures
            n == window_count(self.visits@, id, cutoff as int),
    {
        let m = self.visits.len();
        let mut n: u64 = 0;
        let mut i: usize = 0;
        while i < m
            invariant
                m == self.visits@.len(),
                i <= m,
                n <= i,
                n == window_count(self.visits@.take(i as int), id, cutoff as int),
            decreases m - i,
        {
            let v = self.visits[i];
            proof {
                assert(self.visits@.take(i + 1) =~= self.visits@.take(i as int).push(
                    self.visits@[i as int],
                ));
                lemma_window_count_push(
                    self.visits@.take(i as int),
                    self.visits@[i as int],
                    id,
                    cutoff as int,
                );
            }
            if v.chapter_id == id && v.timestamp > cutoff {
                n += 1;
            }
            i += 1;
        }
        proof {
            assert(self.visits@.take(m as int) =~= self.visits@);
        }
        n
    }

    /// All-time ranking: up to `PAGE_SIZE` chapters ordered by their
    /// stored counter, best first, page by page.
    pub fn list_chapters_all(&self, page: i32) -> (r: Vec<OneChapterVisitInfo>)
        requires
            self.wf(),
        ensures
            rows_match(r@, spec_page(spec_rank_sort(self.chapters@), page)),
            r@.len() <= PAGE_SIZE,
    {
        let sorted = rank_sort(&self.chapters);
        proof {
            lemma_rank_sort_len(self.chapters@);
        }
        page_rows(&sorted, page)
    }

    /// Recency ranking: up to `PAGE_SIZE` chapters with at least one
    /// visit inside the window ending at `now`, ordered by the count of
    /// those visits — an aggregate of the log, not the stored counter.
    pub fn list_chapters_recent(&self, page: i32, time_frame: TimeFrame, now: i64) -> (r: Vec<
        OneChapterVisitInfo,
    >)
        requires
            self.wf(),
            now >= 0,
        ensures
            rows_match(
                r@,
                spec_page(
                    spec_rank_sort(
                        recent_entries(
                            self.chapters@,
                            self.visits@,
                            now - spec_milliseconds(time_frame),
                        ),
                    ),
                    page,
                ),
            ),
            r@.len() <= PAGE_SIZE,
    {
        let ms = time_frame.get_milliseconds();
        let cutoff: i64 = now - ms;
        let n = self.chapters.len();
        let mut entries: Vec<Chapter> = Vec::new();
        let mut i: usize = 0;
        while i < n
            invariant
                self.wf(),
                n == self.chapters@.len(),
                i <= n,
                cutoff == now - spec_milliseconds(time_frame),
                entries@ == recent_entries(self.chapters@.take(i as int), self.visits@, cutoff as int),
            decreases n - i,
        {
            let wc = self.count_window(self.chapters[i].id, cutoff);
            proof {
                broadcast use vstd::prelude::Seq::lemma_filter_len;

                assert(self.chapters@.take(i + 1).drop_last() =~= self.chapters@.take(i as int));
                assert(self.chapters@.take(i + 1).last() == self.chapters@[i as int]);
            }
            if wc > 0 {
                let path = self.chapters[i].relative_path.clone();
                entries.push(
                    Chapter { id: self.chapters[i].id, relative_path: path, visit_count: wc as i64 },
                );
            }
            i += 1;
        }
        proof {
            assert(self.chapters@.take(n as int) =~= self.chapters@);
            lemma_recent_entries_len(self.chapters@, self.visits@, cutoff as int);
            lemma_rank_sort_len(entries@);
        }
        let sorted = rank_sort(&entries);
        page_rows(&sorted, page)
    }
}

/// The recent ranking never holds more rows than there are chapters.
proof fn lemma_recent_entries_len(chapters: Seq<Chapter>, visits: Seq<Visits>, cutoff: int)
    ensures
        recent_entries(chapters, visits, cutoff).len() <= chapters.len(),
    decreases chapters.len(),
{
    if chapters.len() > 0 {
        lemma_recent_entries_len(chapters.drop_last(), visits, cutoff);
    }
}

/// Copies one page out of a ranked sequence into result rows.
fn page_rows(sorted: &Vec<Chapter>, page: i32) -> (r: Vec<OneChapterVisitInfo>)
    requires
        sorted@.len() <= MAX_CHAPTERS,
    ensures
        rows_match(r@, spec_page(sorted@, page)),
        r@.len() <= PAGE_SIZE,
{
    let mut r: Vec<OneChapterVisitInfo> = Vec::new();
    let off64: i64 = if page <= 1 {
        0
    } else {
        (page as i64 - 1) * 50
    };
    proof {
        assert(PAGE_SIZE == 50);
        assert(off64 == page_offset(page));
    }
    if off64 >= sorted.len() as i64 {
        return r;
    }
    let off = off64 as usize;
    let mut k: usize = 0;
    while k < PAGE_SIZE && off + k < sorted.len()
        invariant
            off == page_offset(page),
            off < sorted@.len(),
            sorted@.len() <= MAX_CHAPTERS,
            k <= PAGE_SIZE,
            off + k <= sorted@.len(),
            r@.len() == k,
            forall|i: int|
                0 <= i < k ==> (#[trigger] r@[i]).relative_path@ == sorted@[off + i].relative_path@
                    && r@[i].visit_count == sorted@[off + i].visit_count,
        decreases PAGE_SIZE - k,
    {
        let path = sorted[off + k].relative_path.clone();
        let count = sorted[off + k].visit_count;
        r.push(OneChapterVisitInfo { relative_path: path, visit_count: count });
        k += 1;
    }
    r
}

} // verus!
