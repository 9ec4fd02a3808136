//! The per-scope registry: owns every observer created in the scope, the list
//! of currently registered observers (fan-out order), the per-type bounded
//! historical report buffer, and the queue of pending delivery tasks.

use vstd::prelude::*;

use crate::observer::add_step;
use crate::observer::take_step;
use crate::observer::ReportingObserver;
use crate::observer::ReportingObserverOptions;
use crate::report::Report;
use crate::report::ReportType;

verus! {

/// Capacity of the historical report buffer, per report type.
pub const REPORT_BUFFER_CAP: usize = 100;

/// A scheduled batched-delivery task: the snapshot of the registered observer
/// handles taken at schedule time.
pub struct DeliveryTask {
    pub notify_list: Vec<usize>,
}

/// One callback invocation produced by running a delivery task: the observer
/// handle, its callback handle, and the batch taken from its queue. The host
/// resolves the callback handle and invokes it with the batch.
pub struct Delivery {
    pub observer: usize,
    pub callback: u64,
    pub reports: Vec<Report>,
}

/// Number of reports of type `t` in `buf`.
pub open spec fn count_of_type(buf: Seq<Report>, t: ReportType) -> nat
    decreases buf.len(),
{
    if buf.len() == 0 {
        0
    } else {
        count_of_type(buf.drop_last(), t) + if buf.last().type_ == t {
            1nat
        } else {
            0nat
        }
    }
}

/// Index of the earliest report of type `t` in `buf` at or after `i`, or
/// `buf.len()` if none.
pub open spec fn first_of_type_from(buf: Seq<Report>, t: ReportType, i: int) -> int
    decreases buf.len() - i,
{
    if i < 0 || i >= buf.len() {
        buf.len() as int
    } else if buf[i].type_ == t {
        i
    } else {
        first_of_type_from(buf, t, i + 1)
    }
}

/// Index of the first occurrence of `x` in `s` at or after `i`, or `s.len()`.
pub open spec fn first_index_of(s: Seq<usize>, x: usize, i: int) -> int
    decreases s.len() - i,
{
    if i < 0 || i >= s.len() {
        s.len() as int
    } else if s[i] == x {
        i
    } else {
        first_index_of(s, x, i + 1)
    }
}

/// How many of the registered observers a report of type `t` takes from an
/// empty to a non-empty queue; each such transition schedules one task.
pub open spec fn count_newly_scheduled(
    obs: Seq<ReportingObserver>,
    regs: Seq<usize>,
    t: ReportType,
) -> nat
    decreases regs.len(),
{
    if regs.len() == 0 {
        0
    } else {
        count_newly_scheduled(obs, regs.drop_last(), t) + {
            let id = regs.last() as int;
            if 0 <= id < obs.len() && obs[id].accepts_type(t) && obs[id].report_queue@.len() == 0 {
                1nat
            } else {
                0nat
            }
        }
    }
}

/// The batches a delivery task over `list` hands out: for each handle in
/// snapshot order whose queue is non-empty at its first occurrence, the pair
/// of the handle and the queued reports.
pub open spec fn invoke_deliveries(obs: Seq<ReportingObserver>, list: Seq<usize>) -> Seq<
    (usize, Seq<Report>),
>
    decreases list.len(),
{
    if list.len() == 0 {
        Seq::empty()
    } else {
        let pre = invoke_deliveries(obs, list.drop_last());
        let id = list.last() as int;
        if 0 <= id < obs.len() && obs[id].report_queue@.len() > 0 && !list.drop_last().contains(
            list.last(),
        ) {
            pre.push((list.last(), obs[id].report_queue@))
        } else {
            pre
        }
    }
}

/// The batches in `ds`, abstracted to (observer handle, reports) pairs.
pub open spec fn deliveries_view(ds: Seq<Delivery>) -> Seq<(usize, Seq<Report>)>
    decreases ds.len(),
{
    if ds.len() == 0 {
        Seq::empty()
    } else {
        deliveries_view(ds.drop_last()).push((ds.last().observer, ds.last().reports@))
    }
}

pub proof fn lemma_count_concat(a: Seq<Report>, b: Seq<Report>, t: ReportType)
    ensures
        count_of_type(a + b, t) == count_of_type(a, t) + count_of_type(b, t),
    decreases b.len(),
{
    if b.len() == 0 {
        assert(a + b =~= a);
    } else {
        assert((a + b).drop_last() =~= a + b.drop_last());
        assert((a + b).last() == b.last());
        lemma_count_concat(a, b.drop_last(), t);
    }
}

pub proof fn lemma_count_zero_iff_none(buf: Seq<Report>, t: ReportType)
    ensures
        (count_of_type(buf, t) == 0) <==> (forall|i: int|
            0 <= i < buf.len() ==> (#[trigger] buf[i]).type_ != t),
    decreases buf.len(),
{
    if buf.len() > 0 {
        lemma_count_zero_iff_none(buf.drop_last(), t);
        assert(forall|i: int| 0 <= i < buf.len() - 1 ==> buf.drop_last()[i] == buf[i]);
        assert(buf.last() == buf[buf.len() - 1]);
    }
}

pub proof fn lemma_first_of_type_props(buf: Seq<Report>, t: ReportType, i: int)
    requires
        0 <= i <= buf.len(),
    ensures
        i <= first_of_type_from(buf, t, i) <= buf.len(),
        forall|j: int| i <= j < first_of_type_from(buf, t, i) ==> (#[trigger] buf[j]).type_ != t,
        first_of_type_from(buf, t, i) < buf.len() ==> buf[first_of_type_from(buf, t, i)].type_
            == t,
    decreases buf.len() - i,
{
    if i < buf.len() && buf[i].type_ != t {
        lemma_first_of_type_props(buf, t, i + 1);
    }
}

/// Removing the earliest report of type `t` lowers the count of `t` by one
/// and leaves every other type's count unchanged.
pub proof fn lemma_count_remove_first(buf: Seq<Report>, t: ReportType)
    requires
        count_of_type(buf, t) > 0,
    ensures
        0 <= first_of_type_from(buf, t, 0) < buf.len(),
        buf[first_of_type_from(buf, t, 0)].type_ == t,
        count_of_type(buf.remove(first_of_type_from(buf, t, 0)), t) == count_of_type(buf, t) - 1,
        forall|t2: ReportType|
            t2 != t ==> count_of_type(buf.remove(first_of_type_from(buf, t, 0)), t2)
                == count_of_type(buf, t2),
{
    let p = first_of_type_from(buf, t, 0);
    lemma_first_of_type_props(buf, t, 0);
    if p == buf.len() {
        lemma_count_zero_iff_none(buf, t);
    }
    let front = buf.subrange(0, p);
    let mid = buf.subrange(p, p + 1);
    let back = buf.subrange(p + 1, buf.len() as int);
    assert(buf =~= front + mid + back);
    assert(buf.remove(p) =~= front + back);
    assert forall|t2: ReportType| true implies count_of_type(buf, t2) == count_of_type(
        front + back,
        t2,
    ) + (if t2 == t {
        1nat
    } else {
        0nat
    }) by {
        lemma_count_concat(front + mid, back, t2);
        lemma_count_concat(front, mid, t2);
        lemma_count_concat(front, back, t2);
        assert(front + mid + back =~= (front + mid) + back);
        assert(mid.len() == 1);
        assert(mid.drop_last() =~= Seq::<Report>::empty());
        assert(count_of_type(Seq::<Report>::empty(), t2) == 0);
        assert(mid.last() == buf[p]);
        assert(count_of_type(mid, t2) == count_of_type(mid.drop_last(), t2) + if mid.last().type_
            == t2 {
            1nat
        } else {
            0nat
        });
        assert(count_of_type(mid, t2) == if t2 == t {
            1nat
        } else {
            0nat
        });
    }
}

pub proof fn lemma_first_index_props(s: Seq<usize>, x: usize, i: int)
    requires
        0 <= i <= s.len(),
    ensures
        i <= first_index_of(s, x, i) <= s.len(),
        forall|j: int| i <= j < first_index_of(s, x, i) ==> s[j] != x,
        first_index_of(s, x, i) < s.len() ==> s[first_index_of(s, x, i)] == x,
    decreases s.len() - i,
{
    if i < s.len() && s[i] != x {
        lemma_first_index_props(s, x, i + 1);
    }
}

/// Counts the reports of type `t` in `buf`.
fn count_reports_of_type(buf: &Vec<Report>, t: ReportType) -> (c: usize)
    ensures
        c as nat == count_of_type(buf@, t),
{
    let mut c: usize = 0;
    let mut i: usize = 0;
    while i < buf.len()
        invariant
            i <= buf@.len(),
            c <= i,
            c as nat == count_of_type(buf@.take(i as int), t),
        decreases buf@.len() - i,
    {
        proof {
            assert(buf@.take(i as int + 1).drop_last() =~= buf@.take(i as int));
            assert(buf@.take(i as int + 1).last() == buf@[i as int]);
        }
        if buf[i].type_ == t {
            c += 1;
        }
        i += 1;
    }
    proof {
        assert(buf@.take(buf@.len() as int) =~= buf@);
    }
    c
}

/// Finds the earliest report of type `t` in `buf`, or `buf.len()` if none.
fn find_first_of_type(buf: &Vec<Report>, t: ReportType) -> (p: usize)
    ensures
        p as int == first_of_type_from(buf@, t, 0),
{
    let mut i: usize = 0;
    while i < buf.len()
        invariant
            i <= buf@.len(),
            first_of_type_from(buf@, t, 0) == first_of_type_from(buf@, t, i as int),
        decreases buf@.len() - i,
    {
        if buf[i].type_ == t {
            return i;
        }
        i += 1;
    }
    i
}

/// Whether `v` holds `x`.
fn contains_usize(v: &Vec<usize>, x: usize) -> (r: bool)
    ensures
        r == v@.contains(x),
{
    let mut i: usize = 0;
    while i < v.len()
        invariant
            i <= v@.len(),
            forall|j: int| 0 <= j < i ==> v@[j] != x,
        decreases v@.len() - i,
    {
        if v[i] == x {
            return true;
        }
        i += 1;
    }
    false
}

/// Copies a list of observer handles.
fn copy_usizes(v: &Vec<usize>) -> (r: Vec<usize>)
    ensures
        r@ == v@,
{
    let mut r: Vec<usize> = Vec::new();
    let mut i: usize = 0;
    while i < v.len()
        invariant
            i <= v@.len(),
            r@ == v@.take(i as int),
        decreases v@.len() - i,
    {
        r.push(v[i]);
        proof {
            assert(r@ =~= v@.take(i as int + 1));
        }
        i += 1;
    }
    proof {
        assert(r@ =~= v@);
    }
    r
}

/// Per-scope state: the scope's creation URL, every observer created in it,
/// the registered handles in fan-out order, the per-type bounded historical
/// buffer, and the pending delivery tasks in scheduling order.
pub struct ScopeRegistry {
    pub creation_url: String,
    pub observers: Vec<ReportingObserver>,
    pub registered: Vec<usize>,
    pub report_buffer: Vec<Report>,
    pub tasks: Vec<DeliveryTask>,
}

impl ScopeRegistry {
    /// Registered handles are valid and never duplicated; every observer and
    /// every buffered report is well formed; no type ever has more than
    /// `REPORT_BUFFER_CAP` reports in the buffer; task snapshots hold valid
    /// handles.
    pub open spec fn wf(self) -> bool {
        &&& forall|k: int|
            0 <= k < self.registered@.len() ==> (#[trigger] self.registered@[k]) < self.observers@.len()
        &&& forall|k1: int, k2: int|
            0 <= k1 < k2 < self.registered@.len() ==> self.registered@[k1] != self.registered@[k2]
        &&& forall|j: int| 0 <= j < self.observers@.len() ==> (#[trigger] self.observers@[j]).wf()
        &&& forall|i: int|
            0 <= i < self.report_buffer@.len() ==> (#[trigger] self.report_buffer@[i]).wf()
        &&& forall|t: ReportType| count_of_type(self.report_buffer@, t) <= REPORT_BUFFER_CAP as nat
        &&& forall|k: int, m: int|
            0 <= k < self.tasks@.len() && 0 <= m < self.tasks@[k].notify_list@.len() ==> (
            #[trigger] self.tasks@[k].notify_list@[m]) < self.observers@.len()
    }

    /// A fresh scope: no observers, an empty buffer, no pending tasks.
    pub fn new(creation_url: String) -> (r: ScopeRegistry)
        ensures
            r.creation_url == creation_url,
            r.observers@.len() == 0,
            r.registered@.len() == 0,
            r.report_buffer@.len() == 0,
            r.tasks@.len() == 0,
            r.wf(),
    {
        ScopeRegistry {
            creation_url,
            observers: Vec::new(),
            registered: Vec::new(),
            report_buffer: Vec::new(),
            tasks: Vec::new(),
        }
    }

    /// Creates an observer in this scope and returns its handle; the observer
    /// is not yet observing.
    pub fn create_observer(&mut self, callback: u64, options: &ReportingObserverOptions) -> (id:
        usize)
        requires
            old(self).wf(),
        ensures
            final(self).wf(),
            id as int == old(self).observers@.len(),
            final(self).observers@.len() == old(self).observers@.len() + 1,
            forall|j: int|
                0 <= j < old(self).observers@.len() ==> final(self).observers@[j] == old(
                    self,
                ).observers@[j],
            final(self).observers@[id as int].callback == callback,
            final(self).observers@[id as int].buffered == options.buffered,
            final(self).observers@[id as int].types@ == (match options.types {
                Some(ts) => ts@,
                None => Seq::<String>::empty(),
            }),
            final(self).observers@[id as int].report_queue@.len() == 0,
            final(self).registered@ == old(self).registered@,
            final(self).report_buffer@ == old(self).report_buffer@,
            final(self).tasks@ == old(self).tasks@,
            final(self).creation_url == old(self).creation_url,
    {
        let id = self.observers.len();
        let obs = ReportingObserver::new_inherited(callback, options);
        self.observers.push(obs);
        id
    }

    /// Registers observer `id` with this scope: appends it to the registered
    /// list unless it is already observing, and consumes its `buffered` flag.
    /// Back-delivery of the historical buffer to a freshly buffered observer
    /// is deliberately not performed.
    pub fn observe(&mut self, id: usize)
        requires
            old(self).wf(),
            (id as int) < old(self).observers@.len(),
        ensures
            final(self).wf(),
            final(self).creation_url == old(self).creation_url,
            final(self).report_buffer@ == old(self).report_buffer@,
            final(self).tasks@ == old(self).tasks@,
            final(self).registered@ == if old(self).registered@.contains(id) {
                old(self).registered@
            } else {
                old(self).registered@.push(id)
            },
            final(self).observers@.len() == old(self).observers@.len(),
            forall|j: int|
                0 <= j < old(self).observers@.len() && j != id ==> final(self).observers@[j] == old(
                    self,
                ).observers@[j],
            final(self).observers@[id as int].buffered == false,
            final(self).observers@[id as int].callback == old(self).observers@[id as int].callback,
            final(self).observers@[id as int].types@ == old(self).observers@[id as int].types@,
            final(self).observers@[id as int].report_queue@ == old(self).observers@[
                id as int
            ].report_queue@,
    {
        let already = contains_usize(&self.registered, id);
        if !already {
            self.registered.push(id);
        }
        self.observers[id].buffered = false;
    }

    /// Unregisters observer `id`: it receives no further reports, but its
    /// already-queued reports stay retrievable. A handle that is not
    /// registered is left alone.
    pub fn disconnect(&mut self, id: usize)
        requires
            old(self).wf(),
        ensures
            final(self).wf(),
            final(self).creation_url == old(self).creation_url,
            final(self).observers@ == old(self).observers@,
            final(self).report_buffer@ == old(self).report_buffer@,
            final(self).tasks@ == old(self).tasks@,
            final(self).registered@ == if old(self).registered@.contains(id) {
                old(self).registered@.remove(first_index_of(old(self).registered@, id, 0))
            } else {
                old(self).registered@
            },
            !final(self).registered@.contains(id),
    {
        let mut i: usize = 0;
        let n = self.registered.len();
        while i < n
            invariant
                i <= n,
                *self == *old(self),
                old(self).wf(),
                n == self.registered@.len(),
                forall|j: int| 0 <= j < i ==> self.registered@[j] != id,
                first_index_of(self.registered@, id, 0) == first_index_of(
                    self.registered@,
                    id,
                    i as int,
                ),
            decreases n - i,
        {
            if self.registered[i] == id {
                proof {
                    assert(first_index_of(self.registered@, id, i as int) == i as int);
                    assert(self.registered@.contains(id));
                }
                self.registered.remove(i);
                proof {
                    let r0 = old(self).registered@;
                    assert(self.registered@ =~= r0.remove(i as int));
                    assert forall|k: int|
                        0 <= k < self.registered@.len() implies #[trigger] self.registered@[k]
                        == (if k < i as int {
                        r0[k]
                    } else {
                        r0[k + 1]
                    }) by {}
                    assert forall|k1: int, k2: int|
                        0 <= k1 < k2 < self.registered@.len() implies self.registered@[k1]
                        != self.registered@[k2] by {}
                    assert forall|k: int|
                        0 <= k < self.registered@.len() implies self.registered@[k] != id by {
                        if k >= i as int {
                            assert(self.registered@[k] == r0[k + 1]);
                        }
                    }
                    assert(!self.registered@.contains(id)) by {
                        if self.registered@.contains(id) {
                            let w = choose|w: int|
                                0 <= w < self.registered@.len() && self.registered@[w] == id;
                            assert(self.registered@[w] != id);
                        }
                    }
                }
                return ;
            }
            i += 1;
        }
        proof {
            assert(!old(self).registered@.contains(id)) by {
                if old(self).registered@.contains(id) {
                    let w = choose|w: int|
                        0 <= w < old(self).registered@.len() && old(self).registered@[w] == id;
                    assert(old(self).registered@[w] != id);
                }
            }
        }
    }

    /// Drains and returns observer `id`'s queue; registration state and
    /// everything else are untouched.
    pub fn take_records(&mut self, id: usize) -> (records: Vec<Report>)
        requires
            old(self).wf(),
            (id as int) < old(self).observers@.len(),
        ensures
            final(self).wf(),
            take_step(
                old(self).observers@[id as int],
                final(self).observers@[id as int],
                records@,
            ),
            forall|j: int|
                0 <= j < old(self).observers@.len() && j != id ==> final(self).observers@[j] == old(
                    self,
                ).observers@[j],
            final(self).observers@.len() == old(self).observers@.len(),
            final(self).creation_url == old(self).creation_url,
            final(self).registered@ == old(self).registered@,
            final(self).report_buffer@ == old(self).report_buffer@,
            final(self).tasks@ == old(self).tasks@,
    {
        self.observers[id].take_records()
    }

    /// Copy of the registered observer handles, in fan-out order.
    pub fn registered_observers(&self) -> (r: Vec<usize>)
        ensures
            r@ == self.registered@,
    {
        copy_usizes(&self.registered)
    }

    /// Appends `report` to the historical buffer: when its type already has
    /// `REPORT_BUFFER_CAP` entries, the earliest report of that type — and of
    /// no other type — is evicted first.
    pub fn append_report(&mut self, report: Report)
        requires
            old(self).wf(),
            report.wf(),
        ensures
            final(self).wf(),
            final(self).creation_url == old(self).creation_url,
            final(self).observers@ == old(self).observers@,
            final(self).registered@ == old(self).registered@,
            final(self).tasks@ == old(self).tasks@,
            count_of_type(old(self).report_buffer@, report.type_) < REPORT_BUFFER_CAP as nat
                ==> final(self).report_buffer@ == old(self).report_buffer@.push(report),
            count_of_type(old(self).report_buffer@, report.type_) >= REPORT_BUFFER_CAP as nat
                ==> final(self).report_buffer@ == old(self).report_buffer@.remove(
                first_of_type_from(old(self).report_buffer@, report.type_, 0),
            ).push(report),
    {
        let ghost buf0 = self.report_buffer@;
        let t = report.type_;
        let c = count_reports_of_type(&self.report_buffer, t);
        if c >= REPORT_BUFFER_CAP {
            proof {
                lemma_count_remove_first(buf0, t);
            }
            let p = find_first_of_type(&self.report_buffer, t);
            self.report_buffer.remove(p);
        }
        self.report_buffer.push(report);
        proof {
            let mid = self.report_buffer@.drop_last();
            assert(self.report_buffer@.last() == report);
            assert forall|t2: ReportType| true implies count_of_type(self.report_buffer@, t2)
                <= REPORT_BUFFER_CAP as nat by {
                assert(count_of_type(self.report_buffer@, t2) == count_of_type(mid, t2) + if t2
                    == t {
                    1nat
                } else {
                    0nat
                });
                if c >= REPORT_BUFFER_CAP {
                    lemma_count_remove_first(buf0, t);
                    assert(mid =~= buf0.remove(first_of_type_from(buf0, t, 0)));
                    assert(count_of_type(mid, t2) == count_of_type(
                        buf0.remove(first_of_type_from(buf0, t, 0)),
                        t2,
                    ));
                    assert(count_of_type(buf0, t) == c as nat);
                    assert(count_of_type(buf0, t2) <= REPORT_BUFFER_CAP as nat);
                } else {
                    assert(mid =~= buf0);
                    assert(count_of_type(mid, t2) == count_of_type(buf0, t2));
                    assert(count_of_type(buf0, t2) <= REPORT_BUFFER_CAP as nat);
                }
            }
            assert forall|i: int|
                0 <= i < self.report_buffer@.len() implies (
            #[trigger] self.report_buffer@[i]).wf() by {
                if i < self.report_buffer@.len() - 1 {
                    if c >= REPORT_BUFFER_CAP {
                        let p = first_of_type_from(buf0, t, 0);
                        assert(self.report_buffer@[i] == if i < p {
                            buf0[i]
                        } else {
                            buf0[i + 1]
                        });
                    } else {
                        assert(self.report_buffer@[i] == buf0[i]);
                    }
                }
            }
        }
    }

    /// Pops the oldest pending delivery task and runs it, returning the
    /// batches it delivered; `None` when no task is pending.
    pub fn run_next_task(&mut self) -> (result: Option<Vec<Delivery>>)
        requires
            old(self).wf(),
        ensures
            final(self).wf(),
            old(self).tasks@.len() == 0 ==> result is None && *final(self) == *old(self),
            old(self).tasks@.len() > 0 ==> {
                &&& result is Some
                &&& final(self).tasks@ == old(self).tasks@.remove(0)
                &&& final(self).creation_url == old(self).creation_url
                &&& final(self).registered@ == old(self).registered@
                &&& final(self).report_buffer@ == old(self).report_buffer@
                &&& final(self).observers@.len() == old(self).observers@.len()
                &&& forall|j: int|
                    #![trigger old(self).observers@[j]]
                    0 <= j < old(self).observers@.len() ==> {
                        let o = old(self).observers@[j];
                        if old(self).tasks@[0].notify_list@.contains(j as usize)
                            && o.report_queue@.len() > 0 {
                            take_step(o, final(self).observers@[j], o.report_queue@)
                        } else {
                            final(self).observers@[j] == o
                        }
                    }
            },
            (result matches Some(ds) ==> old(self).tasks@.len() > 0 && deliveries_view(ds@)
                == invoke_deliveries(old(self).observers@, old(self).tasks@[0].notify_list@)
                && forall|k: int|
                0 <= k < ds@.len() ==> ((#[trigger] ds@[k]).observer as int) < old(
                    self,
                ).observers@.len() && ds@[k].callback == old(self).observers@[
                    ds@[k].observer as int
                ].callback),
    {
        if self.tasks.len() == 0 {
            return None;
        }
        let task = self.tasks.remove(0);
        proof {
            assert(task == old(self).tasks@[0]);
            assert forall|k: int, m: int|
                0 <= k < self.tasks@.len() && 0 <= m
                    < self.tasks@[k].notify_list@.len() implies (
            #[trigger] self.tasks@[k].notify_list@[m]) < self.observers@.len() by {
                assert(self.tasks@[k] == old(self).tasks@[k + 1]);
            }
            assert forall|m: int|
                0 <= m < task.notify_list@.len() implies (#[trigger] task.notify_list@[m] as int)
                < self.observers@.len() by {
                assert(old(self).tasks@[0].notify_list@[m] < old(self).observers@.len());
            }
        }
        let ds = ReportingObserver::invoke_reporting_observers_with_notify_list(
            self,
            &task.notify_list,
        );
        Some(ds)
    }
}

impl ReportingObserver {
    /// Fans `report` out to every registered observer, in registration order:
    /// each observer that accepts it gets a copy appended to its queue, and a
    /// delivery task — holding a snapshot of the registered list — is
    /// scheduled for each queue that this takes from empty to non-empty.
    pub fn notify_reporting_observers_on_scope(scope: &mut ScopeRegistry, report: &Report)
        requires
            old(scope).wf(),
            report.wf(),
        ensures
            final(scope).wf(),
            final(scope).creation_url == old(scope).creation_url,
            final(scope).registered@ == old(scope).registered@,
            final(scope).report_buffer@ == old(scope).report_buffer@,
            final(scope).observers@.len() == old(scope).observers@.len(),
            forall|j: int|
                #![trigger old(scope).observers@[j]]
                0 <= j < old(scope).observers@.len() ==> {
                    let o = old(scope).observers@[j];
                    if old(scope).registered@.contains(j as usize) {
                        add_step(
                            o,
                            *report,
                            final(scope).observers@[j],
                            o.accepts(*report) && o.report_queue@.len() == 0,
                        )
                    } else {
                        final(scope).observers@[j] == o
                    }
                },
            final(scope).tasks@.len() == old(scope).tasks@.len() + count_newly_scheduled(
                old(scope).observers@,
                old(scope).registered@,
                report.type_,
            ),
            forall|k: int|
                0 <= k < old(scope).tasks@.len() ==> final(scope).tasks@[k] == old(scope).tasks@[k],
            forall|k: int|
                old(scope).tasks@.len() <= k < final(scope).tasks@.len() ==> (#[trigger] final(
                    scope
                ).tasks@[k]).notify_list@ == old(scope).registered@,
    {
        let ghost s0 = *scope;
        let mut k: usize = 0;
        let n = scope.registered.len();
        while k < n
            invariant
                report.wf(),
                s0.wf(),
                scope.wf(),
                k <= n,
                n == s0.registered@.len(),
                scope.registered@ == s0.registered@,
                scope.creation_url == s0.creation_url,
                scope.report_buffer@ == s0.report_buffer@,
                scope.observers@.len() == s0.observers@.len(),
                forall|j: int|
                    #![trigger s0.observers@[j]]
                    0 <= j < s0.observers@.len() ==> {
                        let o = s0.observers@[j];
                        if s0.registered@.take(k as int).contains(j as usize) {
                            add_step(
                                o,
                                *report,
                                scope.observers@[j],
                                o.accepts(*report) && o.report_queue@.len() == 0,
                            )
                        } else {
                            scope.observers@[j] == o
                        }
                    },
                scope.tasks@.len() == s0.tasks@.len() + count_newly_scheduled(
                    s0.observers@,
                    s0.registered@.take(k as int),
                    report.type_,
                ),
                forall|k2: int| 0 <= k2 < s0.tasks@.len() ==> scope.tasks@[k2] == s0.tasks@[k2],
                forall|k2: int|
                    s0.tasks@.len() <= k2 < scope.tasks@.len() ==> (#[trigger] scope.tasks@[
                        k2
                    ]).notify_list@ == s0.registered@,
            decreases n - k,
        {
            let id = scope.registered[k];
            proof {
                assert(s0.registered@[k as int] == id);
                assert(!s0.registered@.take(k as int).contains(id)) by {
                    if s0.registered@.take(k as int).contains(id) {
                        let w = choose|w: int|
                            0 <= w < k as int && s0.registered@.take(k as int)[w] == id;
                        assert(s0.registered@[w] == s0.registered@[k as int]);
                    }
                }
                assert(scope.observers@[id as int] == s0.observers@[id as int]);
                assert(scope.observers@[id as int].wf());
            }
            let ghost pre = scope.observers@;
            let scheduled = scope.observers[id].add_report_to_observer(report);
            if scheduled {
                let snap = copy_usizes(&scope.registered);
                scope.tasks.push(DeliveryTask { notify_list: snap });
            }
            proof {
                let prefix = s0.registered@.take(k as int);
                let prefix2 = s0.registered@.take(k as int + 1);
                assert(prefix2.drop_last() =~= prefix);
                assert(prefix2[k as int] == id);
                assert(prefix2.contains(id));
                assert(add_step(
                    s0.observers@[id as int],
                    *report,
                    scope.observers@[id as int],
                    scheduled,
                ));
                assert(scheduled == (s0.observers@[id as int].accepts(*report)
                    && s0.observers@[id as int].report_queue@.len() == 0));
                assert forall|j: int| #![trigger s0.observers@[j]] 0 <= j
                    < s0.observers@.len() implies {
                    let o = s0.observers@[j];
                    if prefix2.contains(j as usize) {
                        add_step(
                            o,
                            *report,
                            scope.observers@[j],
                            o.accepts(*report) && o.report_queue@.len() == 0,
                        )
                    } else {
                        scope.observers@[j] == o
                    }
                } by {
                    if j != id as int {
                        assert(scope.observers@[j] == pre[j]);
                        if prefix2.contains(j as usize) {
                            let w = choose|w: int|
                                0 <= w < prefix2.len() && prefix2[w] == j as usize;
                            assert(prefix2[w] == j as usize);
                            assert(vstd::std_specs::vec::spec_vec_len(&s0.observers)
                                == s0.observers@.len());
                            assert((j as usize) as int == j);
                            assert(w != k as int);
                            assert(prefix[w] == j as usize);
                            assert(prefix.contains(j as usize));
                        } else {
                            assert(!prefix.contains(j as usize)) by {
                                if prefix.contains(j as usize) {
                                    let w = choose|w: int|
                                        0 <= w < prefix.len() && prefix[w] == j as usize;
                                    assert(prefix2[w] == j as usize);
                                }
                            }
                        }
                    }
                }
                assert(count_newly_scheduled(s0.observers@, prefix2, report.type_)
                    == count_newly_scheduled(s0.observers@, prefix, report.type_) + (if scheduled {
                    1nat
                } else {
                    0nat
                }));
            }
            k += 1;
        }
        proof {
            assert(s0.registered@.take(n as int) =~= s0.registered@);
        }
    }

    /// Runs one delivery task over the snapshot `notify_list`: for each handle
    /// in snapshot order, skips it if its queue is empty, otherwise swaps the
    /// queue out and emits the batch. The host invokes each batch's callback;
    /// a callback failure there never affects the other batches.
    pub fn invoke_reporting_observers_with_notify_list(
        scope: &mut ScopeRegistry,
        notify_list: &Vec<usize>,
    ) -> (deliveries: Vec<Delivery>)
        requires
            old(scope).wf(),
            forall|m: int|
                0 <= m < notify_list@.len() ==> (#[trigger] notify_list@[m] as int) < old(
                    scope,
                ).observers@.len(),
        ensures
            final(scope).wf(),
            final(scope).creation_url == old(scope).creation_url,
            final(scope).registered@ == old(scope).registered@,
            final(scope).report_buffer@ == old(scope).report_buffer@,
            final(scope).tasks@ == old(scope).tasks@,
            final(scope).observers@.len() == old(scope).observers@.len(),
            forall|j: int|
                #![trigger old(scope).observers@[j]]
                0 <= j < old(scope).observers@.len() ==> {
                    let o = old(scope).observers@[j];
                    if notify_list@.contains(j as usize) && o.report_queue@.len() > 0 {
                        take_step(o, final(scope).observers@[j], o.report_queue@)
                    } else {
                        final(scope).observers@[j] == o
                    }
                },
            deliveries_view(deliveries@) == invoke_deliveries(old(scope).observers@, notify_list@),
            forall|k: int|
                0 <= k < deliveries@.len() ==> ((#[trigger] deliveries@[k]).observer as int) < old(
                    scope,
                ).observers@.len() && deliveries@[k].callback == old(scope).observers@[
                    deliveries@[k].observer as int
                ].callback,
    {
        let ghost s0 = *scope;
        let mut deliveries: Vec<Delivery> = Vec::new();
        let mut m: usize = 0;
        let n = notify_list.len();
        proof {
            assert(notify_list@.take(0) =~= Seq::<usize>::empty());
            assert(deliveries_view(deliveries@) =~= invoke_deliveries(
                s0.observers@,
                notify_list@.take(0),
            ));
        }
        while m < n
            invariant
                s0.wf(),
                scope.wf(),
                m <= n,
                n == notify_list@.len(),
                forall|m2: int|
                    0 <= m2 < notify_list@.len() ==> (#[trigger] notify_list@[m2] as int)
                        < s0.observers@.len(),
                scope.creation_url == s0.creation_url,
                scope.registered@ == s0.registered@,
                scope.report_buffer@ == s0.report_buffer@,
                scope.tasks@ == s0.tasks@,
                scope.observers@.len() == s0.observers@.len(),
                forall|j: int|
                    #![trigger s0.observers@[j]]
                    0 <= j < s0.observers@.len() ==> {
                        let o = s0.observers@[j];
                        if notify_list@.take(m as int).contains(j as usize)
                            && o.report_queue@.len() > 0 {
                            take_step(o, scope.observers@[j], o.report_queue@)
                        } else {
                            scope.observers@[j] == o
                        }
                    },
                deliveries_view(deliveries@) == invoke_deliveries(
                    s0.observers@,
                    notify_list@.take(m as int),
                ),
                forall|k: int|
                    0 <= k < deliveries@.len() ==> ((#[trigger] deliveries@[k]).observer as int)
                        < s0.observers@.len() && deliveries@[k].callback == s0.observers@[
                        deliveries@[k].observer as int
                    ].callback,
            decreases n - m,
        {
            let id = notify_list[m];
            let ghost prefix = notify_list@.take(m as int);
            let ghost prefix2 = notify_list@.take(m as int + 1);
            proof {
                assert(prefix2.drop_last() =~= prefix);
                assert(prefix2[m as int] == id);
                assert(prefix2.contains(id));
                if prefix.contains(id) {
                    let o = s0.observers@[id as int];
                    if o.report_queue@.len() > 0 {
                        assert(take_step(o, scope.observers@[id as int], o.report_queue@));
                    } else {
                        assert(scope.observers@[id as int] == o);
                    }
                    assert(scope.observers@[id as int].report_queue@.len() == 0);
                }
            }
            let ghost pre = scope.observers@;
            if scope.observers[id].report_queue.len() > 0 {
                proof {
                    assert(!prefix.contains(id));
                    assert(scope.observers@[id as int] == s0.observers@[id as int]);
                }
                let records = self_take(&mut scope.observers, id);
                let cb = scope.observers[id].callback;
                let ghost queue0 = s0.observers@[id as int].report_queue@;
                let ghost dels0 = deliveries@;
                let delivery = Delivery { observer: id, callback: cb, reports: records };
                let ghost gd = delivery;
                deliveries.push(delivery);
                proof {
                    assert(invoke_deliveries(s0.observers@, prefix2) == invoke_deliveries(
                        s0.observers@,
                        prefix,
                    ).push((id, queue0)));
                    assert(records@ == queue0);
                    assert(gd.observer == id && gd.reports@ == queue0);
                    assert(deliveries@ == dels0.push(gd));
                    assert(deliveries@.drop_last() =~= dels0);
                    assert(deliveries@.last() == gd);
                    assert(deliveries_view(deliveries@) == deliveries_view(dels0).push(
                        (id, queue0),
                    ));
                    assert(deliveries_view(deliveries@) == invoke_deliveries(
                        s0.observers@,
                        prefix2,
                    ));
                }
            } else {
                proof {
                    if !prefix.contains(id) {
                        assert(scope.observers@[id as int] == s0.observers@[id as int]);
                        assert(s0.observers@[id as int].report_queue@.len() == 0);
                    }
                    assert(invoke_deliveries(s0.observers@, prefix2) == invoke_deliveries(
                        s0.observers@,
                        prefix,
                    ));
                }
            }
            proof {
                assert forall|j: int| #![trigger s0.observers@[j]] 0 <= j
                    < s0.observers@.len() implies {
                    let o = s0.observers@[j];
                    if prefix2.contains(j as usize) && o.report_queue@.len() > 0 {
                        take_step(o, scope.observers@[j], o.report_queue@)
                    } else {
                        scope.observers@[j] == o
                    }
                } by {
                    if j != id as int {
                        assert(scope.observers@[j] == pre[j]);
                        if prefix2.contains(j as usize) {
                            let w = choose|w: int|
                                0 <= w < prefix2.len() && prefix2[w] == j as usize;
                            assert(prefix2[w] == j as usize);
                            assert(vstd::std_specs::vec::spec_vec_len(&s0.observers)
                                == s0.observers@.len());
                            assert((j as usize) as int == j);
                            assert(w != m as int);
                            assert(prefix[w] == j as usize);
                            assert(prefix.contains(j as usize));
                        } else {
                            assert(!prefix.contains(j as usize)) by {
                                if prefix.contains(j as usize) {
                                    let w = choose|w: int|
                                        0 <= w < prefix.len() && prefix[w] == j as usize;
                                    assert(prefix2[w] == j as usize);
                                }
                            }
                        }
                    }
                }
            }
            m += 1;
        }
        proof {
            assert(notify_list@.take(n as int) =~= notify_list@);
        }
        deliveries
    }
}

/// Drains the queue of the observer at `id`.
fn self_take(observers: &mut Vec<ReportingObserver>, id: usize) -> (records: Vec<Report>)
    requires
        (id as int) < old(observers)@.len(),
        old(observers)@[id as int].wf(),
    ensures
        final(observers)@.len() == old(observers)@.len(),
        take_step(old(observers)@[id as int], final(observers)@[id as int], records@),
        final(observers)@[id as int].wf(),
        forall|j: int|
            0 <= j < old(observers)@.len() && j != id ==> final(observers)@[j] == old(observers)@[j],
{
    observers[id].take_records()
}

} // verus!
