//! Reporting observers: registered listeners, each with a callback handle, a
//! type filter, a buffering flag, and an ordered delivery queue.

use vstd::prelude::*;

use crate::report::type_visible;
use crate::report::Report;
use crate::report::ReportType;

verus! {

/// Construction options for a reporting observer: the buffering flag, and the
/// type filter (absent or empty means: accept every visible report).
pub struct ReportingObserverOptions {
    pub buffered: bool,
    pub types: Option<Vec<String>>,
}

/// A registered listener: a callback handle the host resolves, the buffering
/// flag (consumed when observation starts), the type filter, and the queue of
/// reports pending delivery, in arrival order.
pub struct ReportingObserver {
    pub callback: u64,
    pub buffered: bool,
    pub types: Vec<String>,
    pub report_queue: Vec<Report>,
}

/// One fan-out step: how an observer changes when a report is offered to it,
/// and whether the step schedules a delivery task. An accepted report is
/// copied onto the end of the queue; a delivery task is scheduled exactly when
/// the queue goes from empty to non-empty. A rejected report changes nothing.
pub open spec fn add_step(
    o: ReportingObserver,
    r: Report,
    o2: ReportingObserver,
    scheduled: bool,
) -> bool {
    if o.accepts(r) {
        &&& o2.callback == o.callback
        &&& o2.buffered == o.buffered
        &&& o2.types@ == o.types@
        &&& o2.report_queue@.len() == o.report_queue@.len() + 1
        &&& o2.report_queue@.take(o.report_queue@.len() as int) == o.report_queue@
        &&& o2.report_queue@.last().same_data(r)
        &&& o2.report_queue@.last().attempts == 0
        &&& scheduled == (o.report_queue@.len() == 0)
    } else {
        o2 == o && !scheduled
    }
}

/// One drain step: `records` is everything that was queued, and the queue is
/// empty afterwards; nothing else about the observer changes.
pub open spec fn take_step(
    o: ReportingObserver,
    o2: ReportingObserver,
    records: Seq<Report>,
) -> bool {
    &&& records == o.report_queue@
    &&& o2.report_queue@.len() == 0
    &&& o2.callback == o.callback
    &&& o2.buffered == o.buffered
    &&& o2.types@ == o.types@
}

/// Clones a list of type-filter entries.
fn clone_strings(v: &Vec<String>) -> (r: Vec<String>)
    ensures
        r@ == v@,
{
    let mut r: Vec<String> = Vec::new();
    let mut i: usize = 0;
    while i < v.len()
        invariant
            i <= v@.len(),
            r@ == v@.take(i as int),
        decreases v@.len() - i,
    {
        r.push(v[i].clone());
        proof {
            assert(r@ =~= v@.take(i as int + 1));
        }
        i += 1;
    }
    proof {
        assert(r@ =~= v@);
    }
    r
}

/// Whether `v` holds a string whose characters equal `s`'s.
fn contains_string(v: &Vec<String>, s: &String) -> (r: bool)
    ensures
        r == exists|i: int| 0 <= i < v@.len() && (#[trigger] v@[i])@ == s@,
{
    let mut i: usize = 0;
    while i < v.len()
        invariant
            i <= v@.len(),
            forall|j: int| 0 <= j < i ==> (#[trigger] v@[j])@ != s@,
        decreases v@.len() - i,
    {
        if v[i] == *s {
            return true;
        }
        i += 1;
    }
    false
}

impl ReportingObserver {
    /// Every queued report is well formed.
    pub open spec fn wf(self) -> bool {
        forall|i: int|
            0 <= i < self.report_queue@.len() ==> (#[trigger] self.report_queue@[i]).wf()
    }

    /// Whether this observer's type filter admits reports of type `t`: an
    /// empty filter admits every type, a non-empty one only the types whose
    /// string tag it contains.
    pub open spec fn filter_admits(self, t: ReportType) -> bool {
        self.types@.len() == 0 || exists|i: int|
            0 <= i < self.types@.len() && (#[trigger] self.types@[i])@ == t.spec_string()
    }

    /// Whether a fan-out of a report of type `t` reaches this observer: the
    /// type must be visible to observers and pass the type filter.
    pub open spec fn accepts_type(self, t: ReportType) -> bool {
        type_visible(t) && self.filter_admits(t)
    }

    /// Whether a fan-out of `r` reaches this observer.
    pub open spec fn accepts(self, r: Report) -> bool {
        self.accepts_type(r.type_)
    }

    /// A fresh observer from a callback handle and options: not yet observing,
    /// with an empty queue.
    pub fn new_inherited(callback: u64, options: &ReportingObserverOptions) -> (r:
        ReportingObserver)
        ensures
            r.callback == callback,
            r.buffered == options.buffered,
            r.types@ == match options.types {
                Some(ts) => ts@,
                None => Seq::<String>::empty(),
            },
            r.report_queue@.len() == 0,
            r.wf(),
    {
        let types: Vec<String> = match &options.types {
            Some(ts) => clone_strings(ts),
            None => Vec::new(),
        };
        ReportingObserver { callback, buffered: options.buffered, types, report_queue: Vec::new() }
    }

    /// Fan-out of one report to this observer: rejects reports that are not
    /// visible to observers or that the type filter refuses; otherwise appends
    /// a copy to the queue. Returns whether the append took the queue from
    /// empty to non-empty, which is the one trigger for scheduling a delivery
    /// task.
    pub fn add_report_to_observer(&mut self, report: &Report) -> (scheduled: bool)
        requires
            old(self).wf(),
            report.wf(),
        ensures
            add_step(*old(self), *report, *final(self), scheduled),
            final(self).wf(),
    {
        if !report.is_visible_to_reporting_observers() {
            return false;
        }
        if self.types.len() > 0 {
            let tag = report.type_.type_string();
            if !contains_string(&self.types, &tag) {
                return false;
            }
        }
        let copy = report.copy();
        self.report_queue.push(copy);
        proof {
            assert(self.report_queue@.take(old(self).report_queue@.len() as int) =~= old(
                self,
            ).report_queue@);
        }
        self.report_queue.len() == 1
    }

    /// Atomically swaps out and returns the queued reports, in arrival order;
    /// registration state is untouched and a second drain returns nothing.
    pub fn take_records(&mut self) -> (records: Vec<Report>)
        requires
            old(self).wf(),
        ensures
            take_step(*old(self), *final(self), records@),
            final(self).wf(),
    {
        let mut records: Vec<Report> = Vec::new();
        std::mem::swap(&mut self.report_queue, &mut records);
        records
    }
}

/// Law: an observer with an empty type filter accepts every visible report;
/// one with a non-empty filter accepts exactly the visible reports whose type
/// tag is in the filter.
pub proof fn lemma_filter_semantics(o: ReportingObserver, r: Report)
    ensures
        o.types@.len() == 0 ==> (o.accepts(r) <==> r.spec_visible()),
        o.types@.len() > 0 ==> (o.accepts(r) <==> r.spec_visible() && exists|i: int|
            0 <= i < o.types@.len() && (#[trigger] o.types@[i])@ == r.type_.spec_string()),
{
}

/// Law: a report whose type is not visible to observers never enters any
/// queue and never schedules a delivery task.
pub proof fn lemma_invisible_report_not_queued(
    o: ReportingObserver,
    r: Report,
    o2: ReportingObserver,
    scheduled: bool,
)
    requires
        add_step(o, r, o2, scheduled),
        !r.spec_visible(),
    ensures
        o2 == o,
        !scheduled,
{
}

/// Law: draining is exactly-once — a drain immediately after another returns
/// the empty sequence.
pub proof fn lemma_take_records_exactly_once(
    o0: ReportingObserver,
    o1: ReportingObserver,
    r1: Seq<Report>,
    o2: ReportingObserver,
    r2: Seq<Report>,
)
    requires
        take_step(o0, o1, r1),
        take_step(o1, o2, r2),
    ensures
        r2.len() == 0,
{
}

/// Law (queue debouncing): when a chain of fan-out steps appends N accepted
/// reports to an observer whose queue starts empty, exactly the first step
/// schedules a delivery task, and the queue then holds copies of all N
/// reports in arrival order.
pub proof fn lemma_queue_debounce(
    states: Seq<ReportingObserver>,
    reports: Seq<Report>,
    scheds: Seq<bool>,
)
    requires
        states.len() == reports.len() + 1,
        scheds.len() == reports.len(),
        states[0].report_queue@.len() == 0,
        forall|i: int|
            0 <= i < reports.len() ==> (#[trigger] states[i]).accepts(reports[i]) && add_step(
                states[i],
                reports[i],
                states[i + 1],
                scheds[i],
            ),
    ensures
        reports.len() > 0 ==> scheds[0] == true,
        forall|i: int| 1 <= i < reports.len() ==> scheds[i] == false,
        states.last().report_queue@.len() == reports.len(),
        forall|i: int|
            0 <= i < reports.len() ==> (#[trigger] states.last().report_queue@[i]).same_data(
                reports[i],
            ),
{
    lemma_queue_growth(states, reports, scheds, states.len() - 1);
    assert forall|i: int| 1 <= i < reports.len() implies scheds[i] == false by {
        lemma_queue_growth(states, reports, scheds, i);
    }
    if reports.len() > 0 {
        lemma_queue_growth(states, reports, scheds, 0);
    }
}

/// The queue after `k` accepted fan-out steps holds the first `k` reports in
/// arrival order.
proof fn lemma_queue_growth(
    states: Seq<ReportingObserver>,
    reports: Seq<Report>,
    scheds: Seq<bool>,
    k: int,
)
    requires
        states.len() == reports.len() + 1,
        scheds.len() == reports.len(),
        states[0].report_queue@.len() == 0,
        0 <= k < states.len(),
        forall|i: int|
            0 <= i < reports.len() ==> (#[trigger] states[i]).accepts(reports[i]) && add_step(
                states[i],
                reports[i],
                states[i + 1],
                scheds[i],
            ),
    ensures
        states[k].report_queue@.len() == k,
        forall|j: int|
            0 <= j < k ==> (#[trigger] states[k].report_queue@[j]).same_data(reports[j]),
        k < reports.len() ==> scheds[k] == (k == 0),
    decreases k,
{
    if k > 0 {
        lemma_queue_growth(states, reports, scheds, k - 1);
        assert(add_step(states[k - 1], reports[k - 1], states[k], scheds[k - 1]));
        assert forall|j: int| 0 <= j < k implies (#[trigger] states[k].report_queue@[j]).same_data(
            reports[j],
        ) by {
            if j < k - 1 {
                assert(states[k].report_queue@.take(k - 1)[j] == states[k].report_queue@[j]);
            }
        }
    }
}

} // verus!
