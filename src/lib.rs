//! A webring directory: a fixed registry of member sites arranged in a
//! reproducibly shuffled ring, with neighbour lookup that skips members whose
//! sites are unhealthy, a round-robin check cursor, and the heuristic that
//! classifies how a member's page integrates with the ring.

pub mod classify;
pub mod laws;
pub mod params;
pub mod probe;
pub mod ring;
pub mod status;
pub mod summary;
pub mod text;
pub mod urls;

pub use classify::{
    classify_fallback_text, classify_page_text, classify_script_text, has_redirect_pattern,
};
pub use params::ScriptParams;
pub use probe::{ProbeStep, SiteProbe};
pub use ring::{Member, Ring, RingError, RingSource, EPOCH_SECS};
pub use status::{HealthStatus, MemberHealth};
pub use summary::{time_since, TimeUnit};
pub use urls::{extract_base_url, extract_js_urls, resolve_url};
