//! Persisted entities: chapters and their append-only visit log.

use vstd::prelude::*;

verus! {

/// A content page identified by its relative path, tracked for visit
/// statistics. `visit_count` is a denormalized counter: the store keeps it
/// equal to the number of `Visits` rows referencing this chapter.
pub struct Chapter {
    pub id: i32,
    pub relative_path: String,
    pub visit_count: i64,
}

impl Clone for Chapter {
    fn clone(&self) -> (r: Self)
        ensures
            r == *self,
    {
        Chapter {
            id: self.id,
            relative_path: self.relative_path.clone(),
            visit_count: self.visit_count,
        }
    }
}

/// One recorded access event: which chapter, and when (milliseconds since
/// the Unix epoch). Immutable once created; the log is append-only.
#[derive(Clone, Copy)]
pub struct Visits {
    pub id: i64,
    pub chapter_id: i32,
    pub timestamp: i64,
}

/// One row of a ranking query result: a chapter's path and the visit count
/// the query computed for it.
pub struct OneChapterVisitInfo {
    pub relative_path: String,
    pub visit_count: i64,
}

} // verus!
