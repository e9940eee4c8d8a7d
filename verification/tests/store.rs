use chapter_visits::store::{Store, PAGE_SIZE};
use chapter_visits::timeframe::TimeFrame;

const HOUR_MS: i64 = 3_600_000;
const NOW: i64 = 1_700_000_000_000;

#[test]
fn counter_equals_number_of_rows() {
    let mut store = Store::new();
    store.record_visit(String::from("p"), NOW);
    store.record_visit(String::from("p"), NOW + 1);
    store.record_visit(String::from("p"), NOW + 2);
    let chapter = store.get_or_create_chapter(String::from("p"));
    assert_eq!(chapter.visit_count, 3);
    let referencing = store.visits.iter().filter(|v| v.chapter_id == chapter.id).count();
    assert_eq!(referencing, 3);
}

#[test]
fn get_or_create_is_idempotent() {
    let mut store = Store::new();
    let first = store.get_or_create_chapter(String::from("a/b"));
    assert_eq!(first.id, 1);
    assert_eq!(first.visit_count, 0);
    let second = store.get_or_create_chapter(String::from("a/b"));
    assert_eq!(second.id, 1);
    assert_eq!(store.chapters.len(), 1);
}

#[test]
fn three_and_one_visits_rank_in_order() {
    let mut store = Store::new();
    store.record_visit(String::from("ch1"), NOW);
    store.record_visit(String::from("ch1"), NOW + 1);
    store.record_visit(String::from("ch1"), NOW + 2);
    store.record_visit(String::from("ch2"), NOW + 3);
    let rows = store.list_chapters_all(1);
    assert_eq!(rows.len(), 2);
    assert_eq!(rows[0].relative_path, "ch1");
    assert_eq!(rows[0].visit_count, 3);
    assert_eq!(rows[1].relative_path, "ch2");
    assert_eq!(rows[1].visit_count, 1);
}

#[test]
fn pages_are_capped_and_ordered() {
    let mut store = Store::new();
    // 55 chapters; chapter k gets (k % 7) + 1 visits
    for k in 0..55 {
        let path = format!("c{}", k);
        for n in 0..(k % 7) + 1 {
            store.record_visit(path.clone(), NOW + n);
        }
    }
    let page1 = store.list_chapters_all(1);
    let page2 = store.list_chapters_all(2);
    assert_eq!(page1.len(), PAGE_SIZE);
    assert_eq!(page2.len(), 5);
    let min_page1 = page1.iter().map(|r| r.visit_count).min().unwrap();
    for row in &page2 {
        assert!(row.visit_count <= min_page1);
    }
    // within a page counts never increase
    for w in page1.windows(2) {
        assert!(w[0].visit_count >= w[1].visit_count);
    }
}

#[test]
fn page_beyond_the_data_is_empty() {
    let mut store = Store::new();
    store.record_visit(String::from("only"), NOW);
    assert_eq!(store.list_chapters_all(2).len(), 0);
    assert_eq!(store.list_chapters_all(1000).len(), 0);
}

#[test]
fn page_below_one_is_clamped_to_the_first() {
    let mut store = Store::new();
    store.record_visit(String::from("only"), NOW);
    let first = store.list_chapters_all(1);
    let zero = store.list_chapters_all(0);
    let negative = store.list_chapters_all(-3);
    assert_eq!(first.len(), 1);
    assert_eq!(zero.len(), 1);
    assert_eq!(negative.len(), 1);
    assert_eq!(zero[0].relative_path, "only");
    assert_eq!(negative[0].relative_path, "only");
}

#[test]
fn empty_store_lists_nothing() {
    let store = Store::new();
    assert_eq!(store.list_chapters_all(1).len(), 0);
    assert_eq!(store.list_chapters_recent(1, TimeFrame::HOUR, NOW).len(), 0);
}

#[test]
fn recent_window_excludes_old_visits() {
    let mut store = Store::new();
    // only visit two hours old: outside the HOUR window
    store.record_visit(String::from("stale"), NOW - 2 * HOUR_MS);
    // visit half an hour old: inside
    store.record_visit(String::from("fresh"), NOW - HOUR_MS / 2);
    let rows = store.list_chapters_recent(1, TimeFrame::HOUR, NOW);
    assert_eq!(rows.len(), 1);
    assert_eq!(rows[0].relative_path, "fresh");
    assert_eq!(rows[0].visit_count, 1);
}

#[test]
fn recent_counts_come_from_the_log_not_the_counter() {
    let mut store = Store::new();
    store.record_visit(String::from("p"), NOW - 2 * HOUR_MS);
    store.record_visit(String::from("p"), NOW - 1);
    store.record_visit(String::from("p"), NOW - 2);
    let rows = store.list_chapters_recent(1, TimeFrame::HOUR, NOW);
    assert_eq!(rows.len(), 1);
    // all-time counter is 3, but only 2 visits fall inside the hour
    assert_eq!(rows[0].visit_count, 2);
    let all = store.list_chapters_all(1);
    assert_eq!(all[0].visit_count, 3);
}

#[test]
fn recent_ranking_orders_by_windowed_count() {
    let mut store = Store::new();
    // "b" leads all-time, "a" leads inside the window
    for n in 0..5 {
        store.record_visit(String::from("b"), NOW - 2 * HOUR_MS - n);
    }
    store.record_visit(String::from("b"), NOW - 1);
    store.record_visit(String::from("a"), NOW - 2);
    store.record_visit(String::from("a"), NOW - 3);
    let recent = store.list_chapters_recent(1, TimeFrame::HOUR, NOW);
    assert_eq!(recent.len(), 2);
    assert_eq!(recent[0].relative_path, "a");
    assert_eq!(recent[0].visit_count, 2);
    assert_eq!(recent[1].relative_path, "b");
    assert_eq!(recent[1].visit_count, 1);
    let all = store.list_chapters_all(1);
    assert_eq!(all[0].relative_path, "b");
    assert_eq!(all[0].visit_count, 6);
}

#[test]
fn equal_counts_rank_the_earlier_chapter_first() {
    let mut store = Store::new();
    // both chapters end at one visit; the one created first wins the tie
    store.record_visit(String::from("elder"), NOW);
    store.record_visit(String::from("younger"), NOW + 1);
    let rows = store.list_chapters_all(1);
    assert_eq!(rows.len(), 2);
    assert_eq!(rows[0].relative_path, "elder");
    assert_eq!(rows[1].relative_path, "younger");
}
