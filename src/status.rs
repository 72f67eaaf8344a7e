use vstd::prelude::*;

verus! {

/// How a member's site was last found to take part in the ring.
///
/// The healthy kinds are listed in the order in which the classifier tries
/// them; the last two kinds are the unhealthy ones.
#[derive(Clone, Copy, Debug, PartialEq, Eq, Structural)]
pub enum HealthStatus {
    /// Not yet scanned; counts as healthy so that new members take part.
    Unknown,
    /// The page includes the ring's own script.
    HealthyRingJs,
    /// The page fetches a member record from the ring's API.
    HealthyApiJs,
    /// The page links to the ring's previous/next redirects.
    HealthyRedirectLinks,
    /// The ring is named in the page itself (server-side or static HTML).
    HealthyStatic,
    /// The ring is named in a script that the page links to.
    HealthyJsOther,
    /// The page could not be fetched.
    UnhealthyDown,
    /// The page was fetched, but shows no sign of the ring.
    UnhealthyMissing,
}

impl HealthStatus {
    pub open spec fn spec_is_healthy(&self) -> bool {
        !(self is UnhealthyDown || self is UnhealthyMissing)
    }

    /// Whether a member with this status takes part in the ring.
    #[verifier::when_used_as_spec(spec_is_healthy)]
    pub fn is_healthy(&self) -> (r: bool)
        ensures
            r == self.spec_is_healthy(),
    {
        match self {
            HealthStatus::Unknown
            | HealthStatus::HealthyRingJs
            | HealthStatus::HealthyApiJs
            | HealthStatus::HealthyRedirectLinks
            | HealthStatus::HealthyStatic
            | HealthStatus::HealthyJsOther => true,
            HealthStatus::UnhealthyDown | HealthStatus::UnhealthyMissing => false,
        }
    }

    /// The text that `description` returns for each status.
    pub open spec fn spec_description(self) -> Seq<char> {
        match self {
            HealthStatus::Unknown => "Not yet scanned"@,
            HealthStatus::HealthyRingJs => "Uses ring.js script"@,
            HealthStatus::HealthyApiJs => "Uses JavaScript API fetch"@,
            HealthStatus::HealthyRedirectLinks => "Uses prev/next redirect links"@,
            HealthStatus::HealthyStatic => "Server-side or static HTML integration"@,
            HealthStatus::HealthyJsOther => "Found in linked JavaScript"@,
            HealthStatus::UnhealthyDown => "Site is down or unreachable"@,
            HealthStatus::UnhealthyMissing => "Site is up but no umaring integration found"@,
        }
    }

    /// A human-readable account of the status.
    pub fn description(&self) -> (r: &'static str)
        ensures
            r@ == self.spec_description(),
    {
        match self {
            HealthStatus::Unknown => "Not yet scanned",
            HealthStatus::HealthyRingJs => "Uses ring.js script",
            HealthStatus::HealthyApiJs => "Uses JavaScript API fetch",
            HealthStatus::HealthyRedirectLinks => "Uses prev/next redirect links",
            HealthStatus::HealthyStatic => "Server-side or static HTML integration",
            HealthStatus::HealthyJsOther => "Found in linked JavaScript",
            HealthStatus::UnhealthyDown => "Site is down or unreachable",
            HealthStatus::UnhealthyMissing => "Site is up but no umaring integration found",
        }
    }
}

/// The health of one member: its status and when it was last checked
/// (seconds since the Unix epoch; `None` until the first check).
#[derive(Clone, Copy, Debug, PartialEq, Eq, Structural)]
pub struct MemberHealth {
    pub status: HealthStatus,
    pub last_checked: Option<u64>,
}

impl MemberHealth {
    /// The health of a member that has never been checked.
    pub fn unchecked() -> (r: MemberHealth)
        ensures
            r.status == HealthStatus::Unknown,
            r.last_checked is None,
    {
        MemberHealth { status: HealthStatus::Unknown, last_checked: None }
    }
}

} // verus!
