//! Guarantees that relate several operations of the library, stated and
//! proved once, for every input.

use vstd::prelude::*;
use crate::models::{Chapter, Visits};
use crate::rank::{lemma_rank_sort_len, lemma_rank_sort_sorted, rank_before, spec_rank_sort};
use crate::store::{
    all_time_count, chapter_index, has_chapter, lemma_filter_absent_id, page_offset,
    recent_entries, recent_entry, spec_page, visit_recorded, visit_target_id, window_count, Store,
    MAX_VISITS, PAGE_SIZE,
};

verus! {

/// The denormalized counter is the log: in a well-formed store every
/// chapter's `visit_count` equals the number of visit rows referencing
/// it. With `record_visit` raising exactly the target's row count by one,
/// N recorded visits to a path leave its chapter's counter at N.
pub proof fn lemma_counter_matches_log(s: Store, i: int)
    requires
        s.wf(),
        0 <= i < s.chapters@.len(),
    ensures
        s.chapters@[i].visit_count == all_time_count(s.visits@, s.chapters@[i].id),
{
}

/// Recording a visit keeps the visited path's chapter in place: the path
/// stays present and keeps routing visits to the same chapter id.
proof fn lemma_target_stable(pre: Store, post: Store, path: Seq<char>, now: i64)
    requires
        pre.wf(),
        post.wf(),
        visit_recorded(pre, post, path, now),
    ensures
        has_chapter(post.chapters@, path),
        visit_target_id(post.chapters@, path) == visit_target_id(pre.chapters@, path),
{
    if has_chapter(pre.chapters@, path) {
        let k = chapter_index(pre.chapters@, path);
        assert(post.chapters@[k].relative_path@ == path);
        assert(has_chapter(post.chapters@, path));
        let j = chapter_index(post.chapters@, path);
        assert(post.chapters@[j].relative_path@ == path);
        // paths are unique in the new state, so the same row is found
        assert(j == k) by {
            if j != k {
                assert(post.chapters@[j].relative_path@ != post.chapters@[k].relative_path@);
            }
        }
        assert(post.chapters@[k].id == pre.chapters@[k].id);
    } else {
        let n = pre.chapters@.len() as int;
        assert(post.chapters@[n].relative_path@ == path);
        assert(has_chapter(post.chapters@, path));
        let j = chapter_index(post.chapters@, path);
        assert(post.chapters@[j].relative_path@ == path);
        assert(j == n) by {
            if j != n {
                assert(post.chapters@[j].relative_path@ != post.chapters@[n].relative_path@);
            }
        }
    }
}

/// Repetition accumulates: across any chain of states each obtained from
/// the last by recording one visit to the same path, the path's chapter
/// keeps its identity and gains exactly one referencing row per visit.
pub proof fn lemma_repeated_visits(states: Seq<Store>, path: Seq<char>, times: Seq<i64>)
    requires
        states.len() == times.len() + 1,
        forall|i: int| 0 <= i < states.len() ==> (#[trigger] states[i]).wf(),
        forall|i: int|
            0 <= i < times.len() ==> visit_recorded(
                states[i],
                #[trigger] states[i + 1],
                path,
                times[i],
            ),
    ensures
        visit_target_id(states.last().chapters@, path) == visit_target_id(
            states[0].chapters@,
            path,
        ),
        times.len() > 0 ==> has_chapter(states.last().chapters@, path),
        all_time_count(states.last().visits@, visit_target_id(states[0].chapters@, path))
            == all_time_count(states[0].visits@, visit_target_id(states[0].chapters@, path))
            + times.len(),
    decreases times.len(),
{
    if times.len() > 0 {
        let n = times.len() as int;
        lemma_repeated_visits(states.drop_last(), path, times.drop_last());
        assert(states.drop_last().last() == states[n - 1]);
        assert(states.drop_last()[0] == states[0]);
        lemma_target_stable(states[n - 1], states[n], path, times[n - 1]);
        assert(visit_recorded(states[n - 1], states[n], path, times[n - 1]));
    }
}

/// N visits to one fresh path leave its chapter's counter at N, equal to
/// the number of visit rows that reference it.
pub proof fn lemma_counter_after_repeated_visits(states: Seq<Store>, path: Seq<char>, times: Seq<
    i64,
>)
    requires
        states.len() == times.len() + 1,
        times.len() > 0,
        forall|i: int| 0 <= i < states.len() ==> (#[trigger] states[i]).wf(),
        forall|i: int|
            0 <= i < times.len() ==> visit_recorded(
                states[i],
                #[trigger] states[i + 1],
                path,
                times[i],
            ),
        !has_chapter(states[0].chapters@, path),
    ensures
        has_chapter(states.last().chapters@, path),
        ({
            let last = states.last();
            let k = chapter_index(last.chapters@, path);
            last.chapters@[k].visit_count == times.len()
        }),
{
    lemma_repeated_visits(states, path, times);
    let tid = visit_target_id(states[0].chapters@, path);
    // the path was unseen, so its future id references no existing row
    assert(all_time_count(states[0].visits@, tid) == 0) by {
        lemma_filter_absent_id(states[0].visits@, states[0].chapters@, tid);
    }
    let last = states.last();
    let k = chapter_index(last.chapters@, path);
    assert(last.chapters@[k].relative_path@ == path);
    assert(last.chapters@[k].id == tid);
    assert(last.chapters@[k].visit_count == all_time_count(last.visits@, tid));
}

/// Pages never overlap in rank: every row on a later page of the all-time
/// ranking has a visit count no greater than any row on an earlier page.
pub proof fn lemma_pages_ordered(chapters: Seq<Chapter>, p1: i32, p2: i32, i: int, j: int)
    requires
        1 <= p1 < p2,
        0 <= i < spec_page(spec_rank_sort(chapters), p1).len(),
        0 <= j < spec_page(spec_rank_sort(chapters), p2).len(),
    ensures
        spec_page(spec_rank_sort(chapters), p2)[j].visit_count <= spec_page(
            spec_rank_sort(chapters),
            p1,
        )[i].visit_count,
{
    lemma_rank_sort_sorted(chapters);
    lemma_rank_sort_len(chapters);
    let s = spec_rank_sort(chapters);
    let off1 = page_offset(p1);
    let off2 = page_offset(p2);
    assert(off2 - off1 == (p2 - p1) * (PAGE_SIZE as int));
    assert(i < PAGE_SIZE as int);
    assert(off1 + i < off2 + j || (off1 + i == off2 + j));
    assert(spec_page(s, p1)[i] == s[off1 + i]);
    assert(spec_page(s, p2)[j] == s[off2 + j]);
    if off1 + i < off2 + j {
        assert(!rank_before(s[off2 + j], s[off1 + i]));
    }
}

/// Every row of the recent ranking counts at least one visit inside the
/// window: a chapter without one is absent, not listed with zero.
pub proof fn lemma_recent_entries_positive(
    chapters: Seq<Chapter>,
    visits: Seq<Visits>,
    cutoff: int,
)
    requires
        visits.len() <= MAX_VISITS as nat,
    ensures
        forall|i: int|
            0 <= i < recent_entries(chapters, visits, cutoff).len() ==> recent_entries(
                chapters,
                visits,
                cutoff,
            )[i].visit_count > 0,
    decreases chapters.len(),
{
    broadcast use vstd::prelude::Seq::lemma_filter_len;

    if chapters.len() > 0 {
        lemma_recent_entries_positive(chapters.drop_last(), visits, cutoff);
        let entries = recent_entries(chapters, visits, cutoff);
        let rest = recent_entries(chapters.drop_last(), visits, cutoff);
        let wc = window_count(visits, chapters.last().id, cutoff);
        assert forall|i: int| 0 <= i < entries.len() implies entries[i].visit_count > 0 by {
            if wc > 0 {
                assert(entries == rest.push(recent_entry(chapters.last(), visits, cutoff)));
                if i < rest.len() {
                    assert(entries[i] == rest[i]);
                } else {
                    assert(entries[i] == recent_entry(chapters.last(), visits, cutoff));
                    assert(0 < wc <= visits.len());
                }
            } else {
                assert(entries == rest);
            }
        }
    }
}

/// A chapter with a visit inside the window is listed in the recent
/// ranking, under its windowed count.
pub proof fn lemma_recent_entries_include(
    chapters: Seq<Chapter>,
    visits: Seq<Visits>,
    cutoff: int,
    k: int,
)
    requires
        0 <= k < chapters.len(),
        window_count(visits, chapters[k].id, cutoff) > 0,
    ensures
        recent_entries(chapters, visits, cutoff).contains(
            recent_entry(chapters[k], visits, cutoff),
        ),
    decreases chapters.len(),
{
    let entries = recent_entries(chapters, visits, cutoff);
    if k == chapters.len() - 1 {
        assert(chapters.last() == chapters[k]);
        assert(entries.last() == recent_entry(chapters[k], visits, cutoff));
        assert(entries.contains(entries.last()));
    } else {
        assert(chapters.drop_last()[k] == chapters[k]);
        lemma_recent_entries_include(chapters.drop_last(), visits, cutoff, k);
        let rest = recent_entries(chapters.drop_last(), visits, cutoff);
        let e = recent_entry(chapters[k], visits, cutoff);
        let w = choose|w: int| 0 <= w < rest.len() && rest[w] == e;
        assert(entries[w] == e);
    }
}

} // verus!
