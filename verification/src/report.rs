//! Reports: immutable-after-construction diagnostic records, and their opaque
//! payloads.

use vstd::prelude::*;

use crate::observer::ReportingObserver;
use crate::registry::count_newly_scheduled;
use crate::registry::count_of_type;
use crate::registry::first_of_type_from;
use crate::registry::ScopeRegistry;
use crate::registry::REPORT_BUFFER_CAP;
use crate::url::{has_credentials, has_fragment, lemma_stripped_url_is_clean, strip_report_url,
    strip_url_for_reports};

verus! {

/// The kind of diagnostic event a report carries. Only some kinds are visible
/// to reporting observers; the others are delivery-only.
#[derive(Clone, Copy, PartialEq, Eq, Structural)]
pub enum ReportType {
    CSPViolation,
    NetworkError,
}

/// Whether reports of type `t` are exposed to reporting observers at all.
/// Network-error reports are delivery-only.
pub open spec fn type_visible(t: ReportType) -> bool {
    match t {
        ReportType::CSPViolation => true,
        ReportType::NetworkError => false,
    }
}

impl ReportType {
    /// The string tag of this type, as observers' type filters name it.
    pub open spec fn spec_string(self) -> Seq<char> {
        match self {
            ReportType::CSPViolation => "csp-violation"@,
            ReportType::NetworkError => "network-error"@,
        }
    }

    /// Exec counterpart of `spec_string`.
    pub fn type_string(&self) -> (r: String)
        ensures
            r@ == self.spec_string(),
    {
        match self {
            ReportType::CSPViolation => "csp-violation".to_owned(),
            ReportType::NetworkError => "network-error".to_owned(),
        }
    }
}

/// An opaque report payload, owned by exactly one report at a time.
pub struct ReportBody {
    pub body: String,
}

impl ReportBody {
    pub fn new_inherited(body: String) -> (r: ReportBody)
        ensures
            r.body == body,
    {
        ReportBody { body }
    }

    pub fn new(body: String) -> (r: ReportBody)
        ensures
            r.body == body,
    {
        ReportBody::new_inherited(body)
    }

    /// A deep copy of the payload, so that one observer's consumption cannot
    /// mutate another's.
    pub fn copy(&self) -> (r: ReportBody)
        ensures
            r.body == self.body,
    {
        ReportBody { body: self.body.clone() }
    }
}

/// One diagnostic event: type, sanitized origin URL, opaque body, destination
/// label, wall-clock timestamp in milliseconds, and a reserved retry counter.
pub struct Report {
    pub type_: ReportType,
    pub url: String,
    pub body: ReportBody,
    pub destination: String,
    pub timestamp: u64,
    pub attempts: u32,
}

impl Report {
    /// A report's URL never carries a username, a password, or a fragment.
    pub open spec fn wf(self) -> bool {
        !has_fragment(self.url@) && !has_credentials(self.url@)
    }

    /// Everything of a report except its wall-clock timestamp and its retry
    /// counter: what a delivered copy shares with the original.
    pub open spec fn same_data(self, other: Report) -> bool {
        &&& self.type_ == other.type_
        &&& self.url@ == other.url@
        &&& self.body.body@ == other.body.body@
        &&& self.destination@ == other.destination@
    }

    /// Whether this report's type is exposed to reporting observers.
    pub open spec fn spec_visible(self) -> bool {
        type_visible(self.type_)
    }

    /// Relies on std::time::SystemTime::now: wall-clock milliseconds since the
    /// Unix epoch. Nothing is promised of the value.
    #[verifier::external_body]
    fn now_millis() -> u64 {
        std::time::SystemTime::now()
            .duration_since(std::time::UNIX_EPOCH)
            .unwrap_or_default()
            .as_millis() as u64
    }

    /// Builds a report from already-sanitized parts; the timestamp is read
    /// from the wall clock, the retry counter starts at zero.
    pub fn new_inherited(
        type_: ReportType,
        url: String,
        body: &ReportBody,
        destination: String,
    ) -> (r: Report)
        requires
            !has_fragment(url@),
            !has_credentials(url@),
        ensures
            r.type_ == type_,
            r.url == url,
            r.body.body == body.body,
            r.destination == destination,
            r.attempts == 0,
            r.wf(),
    {
        Report {
            type_,
            url,
            body: body.copy(),
            destination,
            timestamp: Report::now_millis(),
            attempts: 0,
        }
    }

    /// A copy for one observer's delivery: same type, URL, body contents and
    /// destination; its own deep-copied body and a fresh timestamp.
    pub fn copy(&self) -> (r: Report)
        requires
            self.wf(),
        ensures
            r.same_data(*self),
            r.attempts == 0,
            r.wf(),
    {
        Report::new_inherited(
            self.type_,
            self.url.clone(),
            &self.body,
            self.destination.clone(),
        )
    }

    /// Whether this report may be handed to reporting observers; delivery-only
    /// types never are.
    pub fn is_visible_to_reporting_observers(&self) -> (r: bool)
        ensures
            r == self.spec_visible(),
    {
        match self.type_ {
            ReportType::CSPViolation => true,
            ReportType::NetworkError => false,
        }
    }

    /// What holds of a report generated from these inputs: the given type,
    /// the stripped URL, the given body contents and destination, a fresh
    /// retry counter, and well-formedness.
    pub open spec fn generated_report_ok(
        r: Report,
        url: Seq<char>,
        type_: ReportType,
        body: Seq<char>,
        destination: Seq<char>,
    ) -> bool {
        &&& r.type_ == type_
        &&& r.url@ == strip_report_url(url)
        &&& r.body.body@ == body
        &&& r.destination@ == destination
        &&& r.attempts == 0
        &&& r.wf()
    }

    /// Builds a report: the URL defaults to the scope's creation URL and is
    /// stripped of credentials and fragment; construction cannot fail.
    pub fn generate_a_report(
        scope: &ScopeRegistry,
        type_: ReportType,
        url: Option<String>,
        body: &ReportBody,
        destination: String,
    ) -> (r: Report)
        ensures
            Report::generated_report_ok(
                r,
                match url {
                    Some(u) => u@,
                    None => scope.creation_url@,
                },
                type_,
                body.body@,
                destination@,
            ),
    {
        let raw: String = match url {
            Some(u) => u,
            None => scope.creation_url.clone(),
        };
        let stripped = strip_url_for_reports(raw.as_str());
        proof {
            lemma_stripped_url_is_clean(raw@);
        }
        Report::new_inherited(type_, stripped, body, destination)
    }

    /// Builds a report from `type_`, `body` and `destination`, fans it out to
    /// the registered observers — scheduling a delivery task for every queue
    /// that becomes non-empty — and appends it to the historical buffer with
    /// per-type eviction.
    pub fn generate_and_queue_a_report(
        scope: &mut ScopeRegistry,
        type_: ReportType,
        body: &ReportBody,
        destination: String,
    )
        requires
            old(scope).wf(),
        ensures
            final(scope).wf(),
            final(scope).creation_url == old(scope).creation_url,
            final(scope).registered@ == old(scope).registered@,
            final(scope).observers@.len() == old(scope).observers@.len(),
            forall|j: int|
                #![trigger old(scope).observers@[j]]
                0 <= j < old(scope).observers@.len() ==> {
                    let o = old(scope).observers@[j];
                    let o2 = final(scope).observers@[j];
                    if old(scope).registered@.contains(j as usize) && o.accepts_type(type_) {
                        &&& o2.report_queue@.len() == o.report_queue@.len() + 1
                        &&& o2.report_queue@.take(o.report_queue@.len() as int)
                            == o.report_queue@
                        &&& Report::generated_report_ok(
                            o2.report_queue@.last(),
                            old(scope).creation_url@,
                            type_,
                            body.body@,
                            destination@,
                        )
                        &&& o2.callback == o.callback
                        &&& o2.buffered == o.buffered
                        &&& o2.types@ == o.types@
                    } else {
                        o2 == o
                    }
                },
            final(scope).tasks@.len() == old(scope).tasks@.len() + count_newly_scheduled(
                old(scope).observers@,
                old(scope).registered@,
                type_,
            ),
            forall|k: int|
                0 <= k < old(scope).tasks@.len() ==> final(scope).tasks@[k] == old(scope).tasks@[k],
            forall|k: int|
                old(scope).tasks@.len() <= k < final(scope).tasks@.len() ==> (#[trigger] final(
                    scope
                ).tasks@[k]).notify_list@ == old(scope).registered@,
            final(scope).report_buffer@.len() >= 1,
            Report::generated_report_ok(
                final(scope).report_buffer@.last(),
                old(scope).creation_url@,
                type_,
                body.body@,
                destination@,
            ),
            count_of_type(old(scope).report_buffer@, type_) < REPORT_BUFFER_CAP as nat ==> final(scope).report_buffer@.drop_last() == old(scope).report_buffer@,
            count_of_type(old(scope).report_buffer@, type_) >= REPORT_BUFFER_CAP as nat ==> final(scope).report_buffer@.drop_last() == old(scope).report_buffer@.remove(
                first_of_type_from(old(scope).report_buffer@, type_, 0),
            ),
    {
        let report = Report::generate_a_report(&*scope, type_, None, body, destination);
        ReportingObserver::notify_reporting_observers_on_scope(scope, &report);
        scope.append_report(report);
        proof {
            assert(final(scope).report_buffer@.last() == report);
            assert(final(scope).report_buffer@.drop_last() =~= if count_of_type(
                old(scope).report_buffer@,
                type_,
            ) < REPORT_BUFFER_CAP as nat {
                old(scope).report_buffer@
            } else {
                old(scope).report_buffer@.remove(
                    first_of_type_from(old(scope).report_buffer@, type_, 0),
                )
            });
        }
    }
}

} // verus!
