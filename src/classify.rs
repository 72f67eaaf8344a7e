//! How a member's page takes part in the ring, judged from its text.
use vstd::prelude::*;

use crate::status::HealthStatus;
use crate::text::{
    chars_of, contains, contains_text, find_spec, occurs_after, occurs_from, find_from,
};

verus! {

/// The path of the ring's own script.
pub const RING_JS_PATTERN: &'static str = "umaring.mkr.cx/ring.js";

/// The base of the ring's API and redirect links.
pub const API_PATTERN: &'static str = "umaring.mkr.cx/";

/// The suffix of a link to a member's previous neighbour.
pub const REDIRECT_PREV: &'static str = "/prev";

/// The suffix of a link to a member's next neighbour.
pub const REDIRECT_NEXT: &'static str = "/next";

/// The ring's name, as any mention of it reads.
pub const RING_NAME: &'static str = "umaring";

/// The text that follows the first occurrence of the API base holds a
/// previous or next redirect suffix.
pub open spec fn redirect_pattern_spec(c: Seq<char>) -> bool {
    match find_spec(c, API_PATTERN@, 0) {
        Some(pos) => {
            let after = pos + API_PATTERN@.len();
            occurs_from(c, REDIRECT_PREV@, after) || occurs_from(c, REDIRECT_NEXT@, after)
        },
        None => false,
    }
}

/// What the ring's script or API base in a (lower-case) text shows, if anything.
pub open spec fn page_verdict(t: Seq<char>) -> Option<HealthStatus> {
    if contains_text(t, RING_JS_PATTERN@) {
        Some(HealthStatus::HealthyRingJs)
    } else if contains_text(t, API_PATTERN@) {
        if redirect_pattern_spec(t) {
            Some(HealthStatus::HealthyRedirectLinks)
        } else {
            Some(HealthStatus::HealthyApiJs)
        }
    } else {
        None
    }
}

/// What a (lower-case) linked script shows: the page rules first, then any
/// mention of the ring.
pub open spec fn script_verdict(t: Seq<char>) -> Option<HealthStatus> {
    match page_verdict(t) {
        Some(s) => Some(s),
        None => if contains_text(t, RING_NAME@) {
            Some(HealthStatus::HealthyJsOther)
        } else {
            None
        },
    }
}

/// The verdict on a (lower-case) page once no rule before it matched.
pub open spec fn fallback_verdict(t: Seq<char>) -> HealthStatus {
    if contains_text(t, RING_NAME@) {
        HealthStatus::HealthyStatic
    } else {
        HealthStatus::UnhealthyMissing
    }
}

fn redirect_pattern_in(c: &Vec<char>) -> (r: bool)
    ensures
        r == redirect_pattern_spec(c@),
{
    let api = chars_of(API_PATTERN);
    match find_from(c, &api, 0) {
        Some(pos) => {
            let prev = chars_of(REDIRECT_PREV);
            let next = chars_of(REDIRECT_NEXT);
            assert(pos + api@.len() <= c@.len() == c.len());
            let after = pos + api.len();
            occurs_after(c, &prev, after) || occurs_after(c, &next, after)
        },
        None => false,
    }
}

/// Whether the text after the first occurrence of the API base holds a
/// previous or next redirect suffix.
pub fn has_redirect_pattern(content: &str) -> (r: bool)
    ensures
        r == redirect_pattern_spec(content@),
{
    let c = chars_of(content);
    redirect_pattern_in(&c)
}

fn page_verdict_of(t: &Vec<char>) -> (r: Option<HealthStatus>)
    ensures
        r == page_verdict(t@),
{
    let ring_js = chars_of(RING_JS_PATTERN);
    if contains(t, &ring_js) {
        return Some(HealthStatus::HealthyRingJs);
    }
    let api = chars_of(API_PATTERN);
    if contains(t, &api) {
        if redirect_pattern_in(t) {
            return Some(HealthStatus::HealthyRedirectLinks);
        }
        return Some(HealthStatus::HealthyApiJs);
    }
    None
}

/// Classifies a page by its lower-case text: the ring's script first, then its
/// API base (as redirect links or as an API fetch).
pub fn classify_page_text(lower: &str) -> (r: Option<HealthStatus>)
    ensures
        r == page_verdict(lower@),
{
    let t = chars_of(lower);
    page_verdict_of(&t)
}

/// Classifies a linked script by its lower-case text.
pub fn classify_script_text(lower: &str) -> (r: Option<HealthStatus>)
    ensures
        r == script_verdict(lower@),
{
    let t = chars_of(lower);
    match page_verdict_of(&t) {
        Some(s) => Some(s),
        None => {
            let name = chars_of(RING_NAME);
            if contains(&t, &name) {
                Some(HealthStatus::HealthyJsOther)
            } else {
                None
            }
        },
    }
}

/// Classifies a page by its lower-case text once no earlier rule matched.
pub fn classify_fallback_text(lower: &str) -> (r: HealthStatus)
    ensures
        r == fallback_verdict(lower@),
{
    let t = chars_of(lower);
    let name = chars_of(RING_NAME);
    if contains(&t, &name) {
        HealthStatus::HealthyStatic
    } else {
        HealthStatus::UnhealthyMissing
    }
}

} // verus!
