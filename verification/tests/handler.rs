use chapter_visits::error::WTError;
use chapter_visits::handler::handle_count;
use chapter_visits::store::Store;

const NOW: i64 = 1_700_000_000_000;
const REFUSAL: &str = "POST /count may only be accessed via whitelisted origins.";

#[test]
fn count_without_origin_is_forbidden() {
    let mut store = Store::new();
    let reply = handle_count(&mut store, None, String::from("ch1"), NOW);
    assert_eq!(reply.status, 403);
    assert_eq!(reply.body, REFUSAL);
    assert!(reply.allow_origin.is_none());
    assert!(reply.vary_origin);
    assert_eq!(store.visits.len(), 0);
    assert_eq!(store.chapters.len(), 0);
}

#[test]
fn count_from_unknown_origin_is_forbidden() {
    let mut store = Store::new();
    let reply = handle_count(&mut store, Some("https://evil.example"), String::from("ch1"), NOW);
    assert_eq!(reply.status, 403);
    assert_eq!(reply.body, REFUSAL);
    assert!(reply.allow_origin.is_none());
    assert!(reply.vary_origin);
    assert_eq!(store.visits.len(), 0);
}

#[test]
fn count_from_whitelisted_origin_records_and_echoes() {
    let mut store = Store::new();
    let reply = handle_count(&mut store, Some("https://wt.tepis.me"), String::from("ch1"), NOW);
    assert_eq!(reply.status, 200);
    assert_eq!(reply.body, "<3");
    assert_eq!(reply.allow_origin.as_deref(), Some("https://wt.tepis.me"));
    assert!(reply.vary_origin);
    assert_eq!(store.visits.len(), 1);
    assert_eq!(store.chapters.len(), 1);
    assert_eq!(store.chapters[0].relative_path, "ch1");
    assert_eq!(store.chapters[0].visit_count, 1);
    assert_eq!(store.visits[0].timestamp, NOW);
}

#[test]
fn internal_errors_stay_uniform() {
    let e = WTError::internal(String::from("connection refused"));
    assert_eq!(e.status_code(), 500);
    assert_eq!(e.message(), "An internal error occurred.");
}
