//! Decision logic of the write endpoint: whether a request may record a
//! visit, and the exact reply — status, body and CORS headers — for
//! either outcome. The HTTP plumbing around it lives in the application
//! crate.

use vstd::prelude::*;
use vstd::string::StringExecFns;
use crate::allowed_origin::{is_allowed_origin, spec_is_allowed_origin};
use crate::store::{visit_recorded, Store, MAX_CHAPTERS, MAX_VISITS};

verus! {

/// The reply of the write endpoint: status, body, and the CORS headers it
/// sets. `allow_origin` echoes the request's origin when access was
/// granted; `vary_origin` says the reply carries `Vary: Origin`.
pub struct CountReply {
    pub status: u16,
    pub body: String,
    pub allow_origin: Option<String>,
    pub vary_origin: bool,
}

/// A request may record a visit exactly when it carries an Origin header
/// whose value is whitelisted.
pub open spec fn spec_count_allowed(origin: Option<&str>) -> bool {
    origin matches Some(o) && spec_is_allowed_origin(o@)
}

/// Handles the write endpoint. A request without a whitelisted origin is
/// refused with 403 and changes nothing; an allowed one records a visit
/// to the path in `body` and is confirmed with 200, echoing its origin.
/// Both replies vary on `Origin`.
pub fn handle_count(store: &mut Store, origin: Option<&str>, body: String, now: i64) -> (r:
    CountReply)
    requires
        old(store).wf(),
        old(store).chapters@.len() < MAX_CHAPTERS,
        old(store).visits@.len() < MAX_VISITS as nat,
    ensures
        final(store).wf(),
        r.vary_origin,
        spec_count_allowed(origin) ==> {
            &&& r.status == 200
            &&& r.body@ == "<3"@
            &&& r.allow_origin matches Some(a) && a@ == origin->0@
            &&& visit_recorded(*old(store), *final(store), body@, now)
        },
        !spec_count_allowed(origin) ==> {
            &&& r.status == 403
            &&& r.body@ == "POST /count may only be accessed via whitelisted origins."@
            &&& r.allow_origin is None
            &&& *final(store) == *old(store)
        },
{
    if let Some(o) = origin {
        if is_allowed_origin(o) {
            store.record_visit(body, now);
            return CountReply {
                status: 200,
                body: String::from_str("<3"),
                allow_origin: Some(String::from_str(o)),
                vary_origin: true,
            };
        }
    }
    CountReply {
        status: 403,
        body: String::from_str("POST /count may only be accessed via whitelisted origins."),
        allow_origin: None,
        vary_origin: true,
    }
}

} // verus!
