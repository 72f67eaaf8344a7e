//! The decisions of a site check: which address to fetch next, and which
//! status the fetched texts earn. Fetching is left to the caller, who hands
//! each result back.
use vstd::prelude::*;

use crate::classify::{
    classify_fallback_text, classify_page_text, classify_script_text, fallback_verdict,
    page_verdict, script_verdict,
};
use crate::status::HealthStatus;
use crate::text::{lower_of, lowercase};
use crate::urls::{base_url_spec, extract_base_url, extract_js_urls, script_urls_spec, texts};

verus! {

/// What a site check needs next.
#[derive(Debug, PartialEq, Eq)]
pub enum ProbeStep {
    /// Fetch the script at this address and hand its text to `on_script`.
    FetchScript(String),
    /// The check is over, with this status.
    Finished(HealthStatus),
}

/// A site check under way: the page has been fetched, and the scripts it
/// links to are fetched one at a time until one of them decides.
pub struct SiteProbe {
    page_lower: String,
    scripts: Vec<String>,
    next: usize,
    verdict: Option<HealthStatus>,
}

impl SiteProbe {
    /// The lower-case text of the page.
    pub closed spec fn page_text(self) -> Seq<char> {
        self.page_lower@
    }

    /// The addresses of the scripts that the page links to.
    pub closed spec fn script_list(self) -> Seq<Seq<char>> {
        texts(self.scripts@)
    }

    /// How many of the scripts have been handed back.
    pub closed spec fn position(self) -> int {
        self.next as int
    }

    /// The status, once a rule has decided it.
    pub closed spec fn decided(self) -> Option<HealthStatus> {
        self.verdict
    }

    /// The check still waits for the script at `position`.
    pub open spec fn awaiting_script(self) -> bool {
        self.decided() is None && self.position() < self.script_list().len()
    }

    /// `step` is what the check needs next in this state.
    pub open spec fn step_spec(self, step: ProbeStep) -> bool {
        match self.decided() {
            Some(s) => step == ProbeStep::Finished(s),
            None => if self.position() < self.script_list().len() {
                step matches ProbeStep::FetchScript(u) && u@ == self.script_list()[self.position()]
            } else {
                step == ProbeStep::Finished(fallback_verdict(self.page_text()))
            },
        }
    }

    /// Starts the check of the page at `page_url`, given its text, or `None`
    /// where fetching it failed.
    pub fn begin(page_url: &str, page: Option<&str>) -> (r: SiteProbe)
        ensures
            page is None ==> r.decided() == Some(HealthStatus::UnhealthyDown),
            page matches Some(html) ==> match page_verdict(lower_of(html@)) {
                Some(s) => r.decided() == Some(s),
                None => {
                    &&& r.decided() is None
                    &&& r.page_text() == lower_of(html@)
                    &&& r.position() == 0
                    &&& r.script_list() == script_urls_spec(
                        html@,
                        page_url@,
                        base_url_spec(page_url@),
                    )
                },
            },
    {
        match page {
            None => SiteProbe {
                page_lower: String::new(),
                scripts: Vec::new(),
                next: 0,
                verdict: Some(HealthStatus::UnhealthyDown),
            },
            Some(html) => {
                let lower = lowercase(html);
                match classify_page_text(lower.as_str()) {
                    Some(s) => SiteProbe {
                        page_lower: lower,
                        scripts: Vec::new(),
                        next: 0,
                        verdict: Some(s),
                    },
                    None => {
                        let base = extract_base_url(page_url);
                        let scripts = extract_js_urls(html, page_url, base.as_str());
                        SiteProbe { page_lower: lower, scripts, next: 0, verdict: None }
                    },
                }
            },
        }
    }

    /// What the check needs next.
    pub fn step(&self) -> (r: ProbeStep)
        ensures
            self.step_spec(r),
    {
        match self.verdict {
            Some(s) => ProbeStep::Finished(s),
            None => if self.next < self.scripts.len() {
                ProbeStep::FetchScript(self.scripts[self.next].clone())
            } else {
                ProbeStep::Finished(classify_fallback_text(self.page_lower.as_str()))
            },
        }
    }

    /// Hands back the text of the script that the check waits for, or `None`
    /// where fetching it failed. Outside that state nothing changes.
    pub fn on_script(&mut self, script: Option<&str>)
        ensures
            old(self).awaiting_script() ==> {
                &&& final(self).page_text() == old(self).page_text()
                &&& final(self).script_list() == old(self).script_list()
                &&& match script {
                    Some(js) if script_verdict(lower_of(js@)) is Some => final(self).decided()
                        == script_verdict(lower_of(js@)),
                    _ => {
                        &&& final(self).decided() is None
                        &&& final(self).position() == old(self).position() + 1
                    },
                }
            },
            !old(self).awaiting_script() ==> *final(self) == *old(self),
    {
        if self.verdict.is_some() || self.next >= self.scripts.len() {
            return;
        }
        if let Some(js) = script {
            let lower = lowercase(js);
            if let Some(s) = classify_script_text(lower.as_str()) {
                self.verdict = Some(s);
                return;
            }
        }
        self.next = self.next + 1;
    }
}

} // verus!
