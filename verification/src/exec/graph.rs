//! The order in which jobs run.

use crate::model::{JobView, Workflow};
use crate::scan::{join, joined};
use crate::table::{distinct, lookup};
use crate::tables::{job_at, job_get, job_len};
use crate::text::{concat4, concat5, has_text, texts, Text};
use vstd::prelude::*;

verus! {

/// Why jobs cannot be put in order.
#[derive(Debug)]
pub enum OrderError {
    /// A job needs one that is not defined: the job and what it needs.
    UnknownNeed(String, String),
    /// The job asked for is not defined; the ids of those that are.
    NoSuchJob(String, Vec<String>),
    /// Jobs need each other in a circle.
    Cycle,
}

/// [`OrderError`] over views.
#[verifier::ext_equal]
pub enum OrderFault {
    /// A job needs one that is not defined.
    UnknownNeed(Text, Text),
    /// The job asked for is not defined.
    NoSuchJob(Text, Seq<Text>),
    /// Jobs need each other in a circle.
    Cycle,
}

impl View for OrderError {
    type V = OrderFault;

    open spec fn view(&self) -> OrderFault {
        match *self {
            OrderError::UnknownNeed(a, b) => OrderFault::UnknownNeed(a@, b@),
            OrderError::NoSuchJob(j, all) => OrderFault::NoSuchJob(j@, texts(all@)),
            OrderError::Cycle => OrderFault::Cycle,
        }
    }
}

/// The message of an error.
pub open spec fn order_message(f: OrderFault) -> Text {
    match f {
        OrderFault::UnknownNeed(a, b) => "job `"@ + a + "` needs `"@ + b
            + "`, which is not a defined job"@,
        OrderFault::NoSuchJob(j, all) => "job `"@ + j + "` not found; available jobs: "@ + joined(
            all,
            ", "@,
        ),
        OrderFault::Cycle => "job dependency cycle detected among `needs`"@,
    }
}

impl OrderError {
    /// The message of the error.
    pub fn message(&self) -> (r: String)
        ensures
            r@ == order_message(self@),
    {
        match self {
            OrderError::UnknownNeed(a, b) => concat5(
                "job `",
                a.as_str(),
                "` needs `",
                b.as_str(),
                "`, which is not a defined job",
            ),
            OrderError::NoSuchJob(j, all) => concat4(
                "job `",
                j.as_str(),
                "` not found; available jobs: ",
                join(all, ", ").as_str(),
            ),
            OrderError::Cycle => "job dependency cycle detected among `needs`".to_owned(),
        }
    }
}

/// The first of some ids that is not that of a job.
pub open spec fn first_unknown(jobs: Seq<(Text, JobView)>, needs: Seq<Text>) -> Option<Text>
    decreases needs.len(),
{
    if needs.len() == 0 {
        None
    } else if lookup(jobs, needs[0]) is None {
        Some(needs[0])
    } else {
        first_unknown(jobs, needs.skip(1))
    }
}

/// The first need, in file order, that is not that of a job, and who needs it.
pub open spec fn unknown_need(all: Seq<(Text, JobView)>, jobs: Seq<(Text, JobView)>) -> Option<
    (Text, Text),
>
    decreases jobs.len(),
{
    if jobs.len() == 0 {
        None
    } else {
        match first_unknown(all, jobs[0].1.needs) {
            Some(n) => Some((jobs[0].0, n)),
            None => unknown_need(all, jobs.skip(1)),
        }
    }
}

/// Reject a `needs` that refers to a job that the workflow does not define.
pub fn validate_needs(wf: &Workflow) -> (r: Result<(), OrderError>)
    ensures
        match r {
            Ok(_) => unknown_need(wf@.jobs, wf@.jobs) is None,
            Err(e) => unknown_need(wf@.jobs, wf@.jobs) matches Some(p) && e@
                == OrderFault::UnknownNeed(p.0, p.1),
        },
{
    let ghost all = wf@.jobs;
    assert(all.skip(0) =~= all);
    let mut i: usize = 0;
    let total = job_len(&wf.jobs);
    while i < total
        invariant
            i <= total,
            total == all.len(),
            all == wf@.jobs,
            unknown_need(all, all) == unknown_need(all, all.skip(i as int)),
        decreases total - i,
    {
        let (id, job) = job_at(&wf.jobs, i);
        assert(all.skip(i as int)[0] == (id@, job@));
        assert(all.skip(i as int).skip(1) =~= all.skip(i + 1));
        let needs = &job.needs;
        let ghost nv = texts(needs@);
        assert(nv.skip(0) =~= nv);
        let mut k: usize = 0;
        while k < needs.len()
            invariant
                i < total,
                total == all.len(),
                k <= needs@.len(),
                all == wf@.jobs,
                nv == texts(needs@),
                all.skip(i as int)[0].0 == id@,
                all.skip(i as int)[0].1.needs == nv,
                all.skip(i as int).len() > 0,
                unknown_need(all, all) == unknown_need(all, all.skip(i as int)),
                first_unknown(all, nv) == first_unknown(all, nv.skip(k as int)),
            decreases needs@.len() - k,
        {
            assert(nv.skip(k as int)[0] == needs@[k as int]@);
            assert(nv.skip(k as int).skip(1) =~= nv.skip(k + 1));
            if job_get(&wf.jobs, needs[k].as_str()).is_none() {
                return Err(OrderError::UnknownNeed(id.clone(), needs[k].clone()));
            }
            k += 1;
        }
        i += 1;
    }
    Ok(())
}

/// Every job that is needed, and defined, has been placed.
pub open spec fn is_ready(jobs: Seq<(Text, JobView)>, needs: Seq<Text>, order: Seq<Text>) -> bool {
    forall|i: int|
        0 <= i < needs.len() ==> lookup(jobs, #[trigger] needs[i]) is None || order.contains(
            needs[i],
        )
}

/// The order after the jobs from `i` on have been looked at once: each that is
/// ready, and not placed, is placed.
pub open spec fn pass_from(jobs: Seq<(Text, JobView)>, i: int, order: Seq<Text>) -> Seq<Text>
    decreases jobs.len() - i,
{
    if !(0 <= i < jobs.len()) {
        order
    } else if !order.contains(jobs[i].0) && is_ready(jobs, jobs[i].1.needs, order) {
        pass_from(jobs, i + 1, order.push(jobs[i].0))
    } else {
        pass_from(jobs, i + 1, order)
    }
}

/// How many jobs have not been placed, from `i` on.
pub open spec fn unplaced(jobs: Seq<(Text, JobView)>, i: int, order: Seq<Text>) -> nat
    decreases jobs.len() - i,
{
    if !(0 <= i < jobs.len()) {
        0
    } else {
        unplaced(jobs, i + 1, order) + if order.contains(jobs[i].0) {
            0nat
        } else {
            1nat
        }
    }
}

/// `a` starts `b`.
pub open spec fn starts(a: Seq<Text>, b: Seq<Text>) -> bool {
    a.len() <= b.len() && b.take(a.len() as int) == a
}

/// What starts another is held by it.
proof fn lemma_starts(a: Seq<Text>, b: Seq<Text>, x: Text)
    requires
        starts(a, b),
        a.contains(x),
    ensures
        b.contains(x),
{
    let k = choose|k: int| 0 <= k < a.len() && a[k] == x;
    assert(b.take(a.len() as int)[k] == b[k]);
}

/// A pass only adds; and where it adds, it adds a job that was not placed.
proof fn lemma_pass(jobs: Seq<(Text, JobView)>, i: int, order: Seq<Text>)
    requires
        0 <= i,
    ensures
        starts(order, pass_from(jobs, i, order)),
        pass_from(jobs, i, order).len() > order.len() ==> (exists|k: int|
            i <= k < jobs.len() && !order.contains((#[trigger] jobs[k]).0) && pass_from(
                jobs,
                i,
                order,
            ).contains(jobs[k].0)),
        pass_from(jobs, i, order).len() == order.len() ==> pass_from(jobs, i, order) == order
            && (forall|k: int|
            i <= k < jobs.len() ==> order.contains((#[trigger] jobs[k]).0) || !is_ready(
                jobs,
                jobs[k].1.needs,
                order,
            )),
    decreases jobs.len() - i,
{
    let r = pass_from(jobs, i, order);
    if i < jobs.len() {
        if !order.contains(jobs[i].0) && is_ready(jobs, jobs[i].1.needs, order) {
            let o = order.push(jobs[i].0);
            lemma_pass(jobs, i + 1, o);
            assert(r.take(order.len() as int) =~= o.take(order.len() as int)) by {
                assert(r.take(o.len() as int) == o);
                assert forall|k: int| 0 <= k < order.len() implies r[k] == o[k] by {
                    assert(r.take(o.len() as int)[k] == o[k]);
                }
            }
            assert(o.take(order.len() as int) =~= order);
            assert(o[order.len() as int] == jobs[i].0);
            assert(o.contains(jobs[i].0));
            lemma_starts(o, r, jobs[i].0);
        } else {
            lemma_pass(jobs, i + 1, order);
            if r.len() > order.len() {
                let k = choose|k: int|
                    i + 1 <= k < jobs.len() && !order.contains((#[trigger] jobs[k]).0)
                        && r.contains(jobs[k].0);
                assert(!order.contains(jobs[k].0));
            }
        }
    } else {
        assert(order.take(order.len() as int) =~= order);
    }
}

/// Placing more leaves fewer.
proof fn lemma_unplaced(jobs: Seq<(Text, JobView)>, i: int, a: Seq<Text>, b: Seq<Text>)
    requires
        0 <= i,
        starts(a, b),
    ensures
        unplaced(jobs, i, b) <= unplaced(jobs, i, a),
        (exists|k: int|
            i <= k < jobs.len() && !a.contains((#[trigger] jobs[k]).0) && b.contains(jobs[k].0))
            ==> unplaced(jobs, i, b) < unplaced(jobs, i, a),
    decreases jobs.len() - i,
{
    if i < jobs.len() {
        lemma_unplaced(jobs, i + 1, a, b);
        if a.contains(jobs[i].0) {
            lemma_starts(a, b, jobs[i].0);
        }
        if exists|k: int|
            i <= k < jobs.len() && !a.contains((#[trigger] jobs[k]).0) && b.contains(jobs[k].0) {
            let k = choose|k: int|
                i <= k < jobs.len() && !a.contains((#[trigger] jobs[k]).0) && b.contains(
                    jobs[k].0,
                );
            if k > i {
                assert(i + 1 <= k < jobs.len() && !a.contains(jobs[k].0) && b.contains(jobs[k].0));
            }
        }
    }
}

/// Passes until all jobs are placed, or none can be.
pub open spec fn rounds(jobs: Seq<(Text, JobView)>, order: Seq<Text>) -> Result<
    Seq<Text>,
    OrderFault,
>
    decreases unplaced(jobs, 0, order),
    via rounds_end
{
    if order.len() >= jobs.len() {
        Ok(order)
    } else {
        let next = pass_from(jobs, 0, order);
        if next.len() <= order.len() {
            Err(OrderFault::Cycle)
        } else {
            rounds(jobs, next)
        }
    }
}

#[via_fn]
proof fn rounds_end(jobs: Seq<(Text, JobView)>, order: Seq<Text>) {
    lemma_pass(jobs, 0, order);
    lemma_unplaced(jobs, 0, order, pass_from(jobs, 0, order));
}

/// The ids of jobs.
pub open spec fn ids(jobs: Seq<(Text, JobView)>) -> Seq<Text> {
    jobs.map_values(|e: (Text, JobView)| e.0)
}

/// The order in which jobs run: only the one asked for, or all of them, each
/// behind what it needs.
pub open spec fn ordered(jobs: Seq<(Text, JobView)>, only: Option<Text>) -> Result<
    Seq<Text>,
    OrderFault,
> {
    match only {
        Some(j) => if lookup(jobs, j) is None {
            Err(OrderFault::NoSuchJob(j, ids(jobs)))
        } else {
            Ok(seq![j])
        },
        None => rounds(jobs, Seq::empty()),
    }
}

/// Whether everything needed has been placed.
fn ready(wf: &Workflow, needs: &Vec<String>, order: &Vec<String>) -> (r: bool)
    ensures
        r == is_ready(wf@.jobs, texts(needs@), texts(order@)),
{
    let ghost nv = texts(needs@);
    let mut i: usize = 0;
    while i < needs.len()
        invariant
            i <= needs@.len(),
            nv == texts(needs@),
            forall|k: int|
                0 <= k < i ==> lookup(wf@.jobs, #[trigger] nv[k]) is None || texts(
                    order@,
                ).contains(nv[k]),
        decreases needs@.len() - i,
    {
        assert(nv[i as int] == needs@[i as int]@);
        if job_get(&wf.jobs, needs[i].as_str()).is_some() && !has_text(
            order,
            needs[i].as_str(),
        ) {
            return false;
        }
        i += 1;
    }
    true
}

/// The ids of a workflow's jobs.
fn job_ids(wf: &Workflow) -> (r: Vec<String>)
    ensures
        texts(r@) == ids(wf@.jobs),
{
    let ghost all = ids(wf@.jobs);
    let mut out: Vec<String> = Vec::new();
    let mut i: usize = 0;
    assert(texts(out@) =~= all.take(0));
    let total = job_len(&wf.jobs);
    while i < total
        invariant
            i <= total,
            total == wf@.jobs.len(),
            all == ids(wf@.jobs),
            texts(out@) == all.take(i as int),
        decreases total - i,
    {
        let ghost done = texts(out@);
        let s = job_at(&wf.jobs, i).0.clone();
        assert(all[i as int] == s@);
        out.push(s);
        assert(texts(out@) =~= done.push(s@));
        assert(texts(out@) =~= all.take(i + 1));
        i += 1;
    }
    assert(all.take(i as int) =~= all);
    out
}

/// Determine the order in which jobs run: a single job where one is asked for,
/// otherwise a topological order over `needs` that keeps file order among jobs
/// that are ready.
pub fn job_order(wf: &Workflow, only: &Option<String>) -> (r: Result<Vec<String>, OrderError>)
    ensures
        (match r {
            Ok(v) => Ok(texts(v@)),
            Err(e) => Err(e@),
        }) == ordered(wf@.jobs, crate::text::opt_text(*only)),
{
    let ghost jobs = wf@.jobs;
    match only {
        Some(j) => {
            if job_get(&wf.jobs, j.as_str()).is_none() {
                return Err(OrderError::NoSuchJob(j.clone(), job_ids(wf)));
            }
            let mut one: Vec<String> = Vec::new();
            one.push(j.clone());
            assert(texts(one@) =~= seq![j@]);
            return Ok(one);
        },
        None => {},
    }
    let mut order: Vec<String> = Vec::new();
    assert(texts(order@) =~= Seq::empty());
    let total = job_len(&wf.jobs);
    while order.len() < total
        invariant
            jobs == wf@.jobs,
            total == jobs.len(),
            rounds(jobs, Seq::empty()) == rounds(jobs, texts(order@)),
            only is None,
        decreases unplaced(jobs, 0, texts(order@)),
    {
        let ghost start = texts(order@);
        let had = order.len();
        let mut i: usize = 0;
        while i < total
            invariant
                i <= total,
                total == jobs.len(),
                jobs == wf@.jobs,
                pass_from(jobs, 0, start) == pass_from(jobs, i as int, texts(order@)),
            decreases total - i,
        {
            let (name, job) = job_at(&wf.jobs, i);
            assert(jobs[i as int] == (name@, job@));
            if !has_text(&order, name.as_str()) && ready(wf, &job.needs, &order) {
                let ghost done = texts(order@);
                let id = name.clone();
                order.push(id);
                assert(texts(order@) =~= done.push(id@));
            }
            i += 1;
        }
        proof {
            lemma_pass(jobs, 0, start);
            lemma_unplaced(jobs, 0, start, texts(order@));
        }
        if order.len() <= had {
            return Err(OrderError::Cycle);
        }
    }
    Ok(order)
}

// ---------------------------------------------------------------------------
// Laws
// ---------------------------------------------------------------------------

/// Every id is that of a job whose needs, as far as they are defined, stand
/// before it; and none stands twice.
pub open spec fn is_topological(jobs: Seq<(Text, JobView)>, order: Seq<Text>) -> bool {
    &&& forall|k: int|
        0 <= k < order.len() ==> lookup(jobs, #[trigger] order[k]) is Some && is_ready(
            jobs,
            lookup(jobs, order[k])->Some_0.needs,
            order.take(k),
        )
    &&& forall|a: int, b: int|
        0 <= a < b < order.len() ==> #[trigger] order[a] != #[trigger] order[b]
}

/// Placing a job that is ready keeps an order topological.
proof fn lemma_topological_push(jobs: Seq<(Text, JobView)>, order: Seq<Text>, i: int)
    requires
        distinct(jobs),
        is_topological(jobs, order),
        0 <= i < jobs.len(),
        !order.contains(jobs[i].0),
        is_ready(jobs, jobs[i].1.needs, order),
    ensures
        is_topological(jobs, order.push(jobs[i].0)),
{
    let o = order.push(jobs[i].0);
    assert forall|j: int| 0 <= j < i implies (#[trigger] jobs[j]).0 != jobs[i].0 by {
        assert(jobs[j].0 != jobs[i].0);
    }
    crate::table::lemma_slot_at(jobs, jobs[i].0, i);
    crate::table::lemma_slot(jobs, jobs[i].0);
    assert forall|k: int| 0 <= k < o.len() implies lookup(jobs, #[trigger] o[k]) is Some
        && is_ready(jobs, lookup(jobs, o[k])->Some_0.needs, o.take(k)) by {
        if k < order.len() {
            assert(o[k] == order[k]);
            assert(o.take(k) =~= order.take(k));
        } else {
            assert(o.take(k) =~= order);
        }
    }
    assert forall|a: int, b: int| 0 <= a < b < o.len() implies #[trigger] o[a] != #[trigger] o[b] by {
        if b == order.len() {
            assert(order.contains(order[a]));
        }
    }
}

/// A pass keeps an order topological.
proof fn lemma_topological_pass(jobs: Seq<(Text, JobView)>, i: int, order: Seq<Text>)
    requires
        0 <= i,
        distinct(jobs),
        is_topological(jobs, order),
    ensures
        is_topological(jobs, pass_from(jobs, i, order)),
    decreases jobs.len() - i,
{
    if i < jobs.len() {
        if !order.contains(jobs[i].0) && is_ready(jobs, jobs[i].1.needs, order) {
            lemma_topological_push(jobs, order, i);
            lemma_topological_pass(jobs, i + 1, order.push(jobs[i].0));
        } else {
            lemma_topological_pass(jobs, i + 1, order);
        }
    }
}

/// All jobs run, each behind every job that it needs, and none twice, where an
/// order is found.
pub proof fn law_order_is_topological(jobs: Seq<(Text, JobView)>)
    requires
        distinct(jobs),
    ensures
        ordered(jobs, None) matches Ok(order) ==> is_topological(jobs, order) && order.len()
            >= jobs.len(),
{
    lemma_topological_rounds(jobs, Seq::empty());
}

/// Rounds keep an order topological, and end with all jobs placed.
proof fn lemma_topological_rounds(jobs: Seq<(Text, JobView)>, order: Seq<Text>)
    requires
        distinct(jobs),
        is_topological(jobs, order),
    ensures
        rounds(jobs, order) matches Ok(o) ==> is_topological(jobs, o) && o.len() >= jobs.len(),
    decreases unplaced(jobs, 0, order),
{
    if order.len() < jobs.len() {
        let next = pass_from(jobs, 0, order);
        lemma_pass(jobs, 0, order);
        lemma_unplaced(jobs, 0, order, next);
        lemma_topological_pass(jobs, 0, order);
        if next.len() > order.len() {
            lemma_topological_rounds(jobs, next);
        }
    }
}

/// Every id that a pass places is that of a job.
proof fn lemma_pass_defined(jobs: Seq<(Text, JobView)>, i: int, order: Seq<Text>)
    requires
        0 <= i,
        forall|k: int| 0 <= k < order.len() ==> lookup(jobs, #[trigger] order[k]) is Some,
    ensures
        forall|k: int|
            0 <= k < pass_from(jobs, i, order).len() ==> lookup(
                jobs,
                #[trigger] pass_from(jobs, i, order)[k],
            ) is Some,
    decreases jobs.len() - i,
{
    if i < jobs.len() {
        if !order.contains(jobs[i].0) && is_ready(jobs, jobs[i].1.needs, order) {
            crate::table::lemma_slot(jobs, jobs[i].0);
            lemma_pass_defined(jobs, i + 1, order.push(jobs[i].0));
        } else {
            lemma_pass_defined(jobs, i + 1, order);
        }
    }
}

/// Every id that rounds place is that of a job.
pub proof fn lemma_rounds_defined(jobs: Seq<(Text, JobView)>, order: Seq<Text>)
    requires
        forall|k: int| 0 <= k < order.len() ==> lookup(jobs, #[trigger] order[k]) is Some,
    ensures
        rounds(jobs, order) matches Ok(o) ==> forall|k: int|
            0 <= k < o.len() ==> lookup(jobs, #[trigger] o[k]) is Some,
    decreases unplaced(jobs, 0, order),
{
    if order.len() < jobs.len() {
        let next = pass_from(jobs, 0, order);
        lemma_pass(jobs, 0, order);
        lemma_unplaced(jobs, 0, order, next);
        lemma_pass_defined(jobs, 0, order);
        if next.len() > order.len() {
            lemma_rounds_defined(jobs, next);
        }
    }
}

/// Some jobs wait for each other: with `order` placed, a job is left, and each
/// that is left needs a job that is left too.
pub open spec fn is_stuck(jobs: Seq<(Text, JobView)>, order: Seq<Text>) -> bool {
    &&& order.len() < jobs.len()
    &&& forall|k: int|
        0 <= k < jobs.len() ==> order.contains((#[trigger] jobs[k]).0) || !is_ready(
            jobs,
            jobs[k].1.needs,
            order,
        )
}

/// Where no order is found, some jobs wait for each other.
pub proof fn law_cycles_are_real(jobs: Seq<(Text, JobView)>)
    requires
        ordered(jobs, None) is Err,
    ensures
        ordered(jobs, None) == Err::<Seq<Text>, OrderFault>(OrderFault::Cycle),
        exists|order: Seq<Text>| #[trigger] is_stuck(jobs, order),
{
    lemma_cycle(jobs, Seq::empty());
}

/// Rounds that fail have come upon jobs that wait for each other.
proof fn lemma_cycle(jobs: Seq<(Text, JobView)>, order: Seq<Text>)
    requires
        rounds(jobs, order) is Err,
    ensures
        rounds(jobs, order) == Err::<Seq<Text>, OrderFault>(OrderFault::Cycle),
        exists|o: Seq<Text>| #[trigger] is_stuck(jobs, o),
    decreases unplaced(jobs, 0, order),
{
    let next = pass_from(jobs, 0, order);
    lemma_pass(jobs, 0, order);
    lemma_unplaced(jobs, 0, order, next);
    if next.len() > order.len() {
        lemma_cycle(jobs, next);
    } else {
        assert(is_stuck(jobs, order));
    }
}

/// Nothing needed is unknown, or the first that is.
proof fn lemma_first_unknown(jobs: Seq<(Text, JobView)>, needs: Seq<Text>)
    ensures
        match first_unknown(jobs, needs) {
            None => forall|k: int| 0 <= k < needs.len() ==> lookup(jobs, #[trigger] needs[k]) is Some,
            Some(n) => exists|k: int|
                0 <= k < needs.len() && #[trigger] needs[k] == n && lookup(jobs, n) is None && (
                forall|l: int| 0 <= l < k ==> lookup(jobs, #[trigger] needs[l]) is Some),
        },
    decreases needs.len(),
{
    if needs.len() > 0 {
        let t = needs.skip(1);
        lemma_first_unknown(jobs, t);
        if lookup(jobs, needs[0]) is Some {
            match first_unknown(jobs, t) {
                None => {
                    assert forall|k: int| 0 <= k < needs.len() implies lookup(
                        jobs,
                        #[trigger] needs[k],
                    ) is Some by {
                        if k > 0 {
                            assert(t[k - 1] == needs[k]);
                        }
                    }
                },
                Some(n) => {
                    let k = choose|k: int|
                        0 <= k < t.len() && #[trigger] t[k] == n && lookup(jobs, n) is None && (
                        forall|l: int| 0 <= l < k ==> lookup(jobs, #[trigger] t[l]) is Some);
                    assert(needs[k + 1] == n);
                    assert forall|l: int| 0 <= l < k + 1 implies lookup(
                        jobs,
                        #[trigger] needs[l],
                    ) is Some by {
                        if l > 0 {
                            assert(t[l - 1] == needs[l]);
                        }
                    }
                },
            }
        } else {
            assert(needs[0] == needs[0]);
        }
    }
}

/// Nothing that jobs need is unknown, or something is.
proof fn lemma_unknown_need(all: Seq<(Text, JobView)>, jobs: Seq<(Text, JobView)>)
    ensures
        match unknown_need(all, jobs) {
            None => forall|i: int, k: int|
                0 <= i < jobs.len() && 0 <= k < jobs[i].1.needs.len() ==> lookup(
                    all,
                    #[trigger] jobs[i].1.needs[k],
                ) is Some,
            Some(p) => lookup(all, p.1) is None && exists|i: int, k: int|
                0 <= i < jobs.len() && 0 <= k < jobs[i].1.needs.len() && jobs[i].0 == p.0
                    && #[trigger] jobs[i].1.needs[k] == p.1,
        },
    decreases jobs.len(),
{
    if jobs.len() > 0 {
        let t = jobs.skip(1);
        lemma_unknown_need(all, t);
        lemma_first_unknown(all, jobs[0].1.needs);
        match first_unknown(all, jobs[0].1.needs) {
            Some(n) => {
                let k = choose|k: int|
                    0 <= k < jobs[0].1.needs.len() && #[trigger] jobs[0].1.needs[k] == n && lookup(
                        all,
                        n,
                    ) is None && (forall|l: int|
                        0 <= l < k ==> lookup(all, #[trigger] jobs[0].1.needs[l]) is Some);
                assert(jobs[0].1.needs[k] == n);
            },
            None => match unknown_need(all, t) {
                None => {
                    assert forall|i: int, k: int|
                        0 <= i < jobs.len() && 0 <= k < jobs[i].1.needs.len() implies lookup(
                        all,
                        #[trigger] jobs[i].1.needs[k],
                    ) is Some by {
                        if i > 0 {
                            assert(t[i - 1] == jobs[i]);
                            assert(lookup(all, t[i - 1].1.needs[k]) is Some);
                        }
                    }
                },
                Some(p) => {
                    let (i, k) = choose|i: int, k: int|
                        0 <= i < t.len() && 0 <= k < t[i].1.needs.len() && t[i].0 == p.0
                            && #[trigger] t[i].1.needs[k] == p.1;
                    assert(jobs[i + 1] == t[i]);
                    assert(jobs[i + 1].1.needs[k] == p.1);
                },
            },
        }
    }
}

/// A workflow is turned down exactly where a job needs one that is not defined,
/// and both are named.
pub proof fn law_needs_are_defined(jobs: Seq<(Text, JobView)>)
    ensures
        unknown_need(jobs, jobs) is None <==> forall|i: int, k: int|
            0 <= i < jobs.len() && 0 <= k < jobs[i].1.needs.len() ==> lookup(
                jobs,
                #[trigger] jobs[i].1.needs[k],
            ) is Some,
        unknown_need(jobs, jobs) matches Some(p) ==> lookup(jobs, p.1) is None && exists|
            i: int,
            k: int,
        |
            0 <= i < jobs.len() && 0 <= k < jobs[i].1.needs.len() && jobs[i].0 == p.0
                && #[trigger] jobs[i].1.needs[k] == p.1,
{
    lemma_unknown_need(jobs, jobs);
}

/// An order holds every job once, each behind those that it needs.
#[verifier::spinoff_prover]
#[verifier::rlimit(40)]
pub proof fn law_jobs_stand_behind_what_they_need(jobs: Seq<(Text, JobView)>, i: int, k: int)
    requires
        distinct(jobs),
        ordered(jobs, None) is Ok,
        0 <= i < jobs.len(),
    ensures
        ordered(jobs, None)->Ok_0.len() == jobs.len(),
        exists|p: int|
            0 <= p < jobs.len() && #[trigger] ordered(jobs, None)->Ok_0[p] == jobs[i].0 && (forall|
                q: int,
            |
                0 <= q < jobs.len() && q != p ==> #[trigger] ordered(jobs, None)->Ok_0[q]
                    != jobs[i].0) && (0 <= k < jobs[i].1.needs.len() && lookup(
                jobs,
                jobs[i].1.needs[k],
            ) is Some ==> exists|q: int|
                0 <= q < p && #[trigger] ordered(jobs, None)->Ok_0[q] == jobs[i].1.needs[k]),
{
    let o = ordered(jobs, None)->Ok_0;
    law_order_is_topological(jobs);
    lemma_placed(jobs, o);
    let p = lemma_stands(jobs, o, i, k);
    assert(o[p] == jobs[i].0);
}

/// The place of a job in an order.
proof fn lemma_stands(jobs: Seq<(Text, JobView)>, o: Seq<Text>, i: int, k: int) -> (p: int)
    requires
        distinct(jobs),
        is_topological(jobs, o),
        o.len() == jobs.len(),
        forall|x: int| 0 <= x < jobs.len() ==> o.contains((#[trigger] jobs[x]).0),
        0 <= i < jobs.len(),
    ensures
        0 <= p < o.len(),
        o[p] == jobs[i].0,
        forall|q: int| 0 <= q < o.len() && q != p ==> #[trigger] o[q] != jobs[i].0,
        0 <= k < jobs[i].1.needs.len() && lookup(jobs, jobs[i].1.needs[k]) is Some ==> exists|
            q: int,
        |
            0 <= q < p && #[trigger] o[q] == jobs[i].1.needs[k],
{
    let id = jobs[i].0;
    assert(o.contains(id));
    let p = choose|p: int| 0 <= p < o.len() && o[p] == id;
    assert(o[p] == id);
    assert(lookup(jobs, o[p]) is Some);
    lemma_lookup_there(jobs, i);
    if 0 <= k < jobs[i].1.needs.len() && lookup(jobs, jobs[i].1.needs[k]) is Some {
        let n = jobs[i].1.needs[k];
        assert(is_ready(jobs, jobs[i].1.needs, o.take(p)));
        assert(o.take(p).contains(n));
        let q = choose|q: int| 0 <= q < o.take(p).len() && o.take(p)[q] == n;
        assert(o[q] == n);
    }
    p
}

/// The value of a key that stands once.
proof fn lemma_lookup_there(jobs: Seq<(Text, JobView)>, i: int)
    requires
        distinct(jobs),
        0 <= i < jobs.len(),
    ensures
        lookup(jobs, jobs[i].0) == Some(jobs[i].1),
{
    crate::table::lemma_slot(jobs, jobs[i].0);
    assert forall|j: int| 0 <= j < i implies (#[trigger] jobs[j]).0 != jobs[i].0 by {
        assert(jobs[j].0 != jobs[i].0);
    }
    crate::table::lemma_slot_at(jobs, jobs[i].0, i);
}

/// As many different ids of jobs as there are jobs are all of them.
proof fn lemma_placed(jobs: Seq<(Text, JobView)>, o: Seq<Text>)
    requires
        distinct(jobs),
        is_topological(jobs, o),
        o.len() >= jobs.len(),
    ensures
        o.len() == jobs.len(),
        forall|i: int| 0 <= i < jobs.len() ==> o.contains((#[trigger] jobs[i]).0),
{
    let names = ids(jobs);
    assert(names.no_duplicates()) by {
        assert forall|a: int, b: int| 0 <= a < names.len() && 0 <= b < names.len() && a != b implies names[a]
            != names[b] by {
            if a < b {
                assert(jobs[a].0 != jobs[b].0);
            } else {
                assert(jobs[b].0 != jobs[a].0);
            }
        }
    }
    assert(o.no_duplicates());
    names.unique_seq_to_set();
    o.unique_seq_to_set();
    vstd::seq_lib::seq_to_set_is_finite(names);
    vstd::seq_lib::seq_to_set_is_finite(o);
    assert(o.to_set().subset_of(names.to_set())) by {
        assert forall|x: Text| o.to_set().contains(x) implies names.to_set().contains(x) by {
            let p = choose|p: int| 0 <= p < o.len() && o[p] == x;
            assert(lookup(jobs, o[p]) is Some);
            crate::table::lemma_slot(jobs, x);
            let i = crate::table::slot(jobs, x)->Some_0;
            assert(names[i] == x);
            assert(names.contains(x));
        }
    }
    vstd::set_lib::lemma_len_subset(o.to_set(), names.to_set());
    vstd::set_lib::lemma_subset_equality(o.to_set(), names.to_set());
    assert forall|i: int| 0 <= i < jobs.len() implies o.contains((#[trigger] jobs[i]).0) by {
        assert(names[i] == jobs[i].0);
        assert(names.contains(jobs[i].0));
        assert(names.to_set().contains(jobs[i].0));
        assert(o.to_set().contains(jobs[i].0));
    }
}

/// A single job that was asked for is all that runs; one that is not defined is
/// named together with every job there is.
pub proof fn law_one_job_alone(jobs: Seq<(Text, JobView)>, id: Text)
    ensures
        lookup(jobs, id) is Some ==> (ordered(jobs, Some(id)) matches Ok(o) && o.len() == 1 && o[0]
            == id),
        lookup(jobs, id) is None ==> (ordered(jobs, Some(id)) matches Err(
            OrderFault::NoSuchJob(j, all),
        ) && j == id && all.len() == jobs.len() && forall|i: int|
            0 <= i < jobs.len() ==> #[trigger] all[i] == jobs[i].0),
{
}

/// A job with an id stands before a place in the file.
pub open spec fn is_defined_before(jobs: Seq<(Text, JobView)>, i: int, id: Text) -> bool {
    exists|j: int| 0 <= j < i && (#[trigger] jobs[j]).0 == id
}

/// Jobs that need nothing, or only what stands before them, run in the order of the file.
pub proof fn law_file_order_is_kept(jobs: Seq<(Text, JobView)>)
    requires
        distinct(jobs),
        forall|i: int, k: int|
            0 <= i < jobs.len() && 0 <= k < jobs[i].1.needs.len() ==> is_defined_before(
                jobs,
                i,
                #[trigger] jobs[i].1.needs[k],
            ),
    ensures
        ordered(jobs, None) matches Ok(o) && o.len() == jobs.len() && forall|i: int|
            0 <= i < jobs.len() ==> #[trigger] o[i] == jobs[i].0,
{
    assert(ids(jobs).take(0) =~= Seq::empty());
    lemma_file_pass(jobs, 0);
    assert(ids(jobs).take(jobs.len() as int) =~= ids(jobs));
    if jobs.len() > 0 {
        let next = pass_from(jobs, 0, Seq::empty());
        assert(next == ids(jobs));
        lemma_pass(jobs, 0, Seq::empty());
        lemma_unplaced(jobs, 0, Seq::empty(), next);
        assert(rounds(jobs, next) == Ok::<Seq<Text>, OrderFault>(next));
    }
}

/// One pass places every job that needs only what stands before it.
proof fn lemma_file_pass(jobs: Seq<(Text, JobView)>, i: int)
    requires
        distinct(jobs),
        0 <= i <= jobs.len(),
        forall|i: int, k: int|
            0 <= i < jobs.len() && 0 <= k < jobs[i].1.needs.len() ==> is_defined_before(
                jobs,
                i,
                #[trigger] jobs[i].1.needs[k],
            ),
    ensures
        pass_from(jobs, i, ids(jobs).take(i)) == ids(jobs).take(jobs.len() as int),
    decreases jobs.len() - i,
{
    if i < jobs.len() {
        let o = ids(jobs).take(i);
        assert(!o.contains(jobs[i].0)) by {
            if o.contains(jobs[i].0) {
                let j = choose|j: int| 0 <= j < o.len() && o[j] == jobs[i].0;
                assert(jobs[j].0 != jobs[i].0);
            }
        }
        assert(is_ready(jobs, jobs[i].1.needs, o)) by {
            assert forall|k: int| 0 <= k < jobs[i].1.needs.len() implies o.contains(
                #[trigger] jobs[i].1.needs[k],
            ) by {
                let n = jobs[i].1.needs[k];
                assert(is_defined_before(jobs, i, n));
                let j = choose|j: int| 0 <= j < i && (#[trigger] jobs[j]).0 == n;
                assert(o[j] == jobs[j].0);
            }
        }
        assert(o.push(jobs[i].0) =~= ids(jobs).take(i + 1));
        lemma_file_pass(jobs, i + 1);
    }
}

/// What is said where jobs cannot be ordered, with the jobs that it is about.
pub proof fn law_what_order_faults_say(a: Text, b: Text, all: Seq<Text>)
    ensures
        order_message(OrderFault::UnknownNeed(a, b)) == "job `"@ + a + "` needs `"@ + b
            + "`, which is not a defined job"@,
        order_message(OrderFault::NoSuchJob(a, all)) == "job `"@ + a
            + "` not found; available jobs: "@ + joined(all, ", "@),
        order_message(OrderFault::Cycle) == "job dependency cycle detected among `needs`"@,
{
}

} // verus!
