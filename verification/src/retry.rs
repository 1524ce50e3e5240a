//! Bounded retry with a fixed attempt budget and a delay schedule.
//!
//! Both hops retry the same way and differ only in their schedule: frame
//! acquisition sleeps a constant second after every failure, delivery
//! sleeps a linearly growing number of seconds. A failed attempt is always
//! followed by its scheduled sleep; the budget is checked before the next
//! attempt, and its exhaustion ends the loop.

use vstd::prelude::*;

verus! {

/// How long to sleep after each failed attempt: the same count of seconds
/// every time, or one second more for every failure already seen.
pub enum DelaySchedule {
    Constant(u64),
    Linear,
}

/// The attempt budget and the delay schedule of one retry site.
pub struct RetryPolicy {
    pub limit: u64,
    pub schedule: DelaySchedule,
}

/// The seconds slept after the attempt that saw failure number `k`
/// (counting from zero).
pub open spec fn delay_at(sch: DelaySchedule, k: nat) -> u64 {
    match sch {
        DelaySchedule::Constant(c) => c,
        DelaySchedule::Linear => k as u64,
    }
}

/// The acquisition budget: five attempts, one second after each failure.
pub fn acquisition_policy() -> (p: RetryPolicy)
    ensures
        p.limit == 5,
        p.schedule == DelaySchedule::Constant(1),
{
    RetryPolicy { limit: 5, schedule: DelaySchedule::Constant(1) }
}

/// The delivery budget: five attempts, with sleeps of 0, 1, 2, 3 and 4
/// seconds after the successive failures.
pub fn delivery_policy() -> (p: RetryPolicy)
    ensures
        p.limit == 5,
        p.schedule == DelaySchedule::Linear,
{
    RetryPolicy { limit: 5, schedule: DelaySchedule::Linear }
}

/// Whether another attempt is within the budget, given how many failures
/// have happened.
pub fn should_attempt(failures: u64, p: &RetryPolicy) -> (b: bool)
    ensures
        b == (failures < p.limit),
{
    failures < p.limit
}

/// Account one failed attempt: the new failure count and the seconds to
/// sleep before the budget is consulted again.
pub fn after_failure(failures: u64, p: &RetryPolicy) -> (r: (u64, u64))
    requires
        failures < p.limit,
    ensures
        r.0 == failures + 1,
        r.1 == delay_at(p.schedule, failures as nat),
{
    let d = match p.schedule {
        DelaySchedule::Constant(c) => c,
        DelaySchedule::Linear => failures,
    };
    (failures + 1, d)
}

/// How many attempts a run makes against the outcomes `os`, under a budget
/// of `limit` attempts: one per outcome until the first success, at most
/// `limit` in all.
pub open spec fn attempts_of(os: Seq<bool>, limit: nat) -> nat
    decreases limit,
{
    if limit == 0 || os.len() == 0 {
        0
    } else if os[0] {
        1
    } else {
        (1 + attempts_of(os.skip(1), (limit - 1) as nat)) as nat
    }
}

/// Whether a run against `os` reaches a success within the budget.
pub open spec fn succeeds_within(os: Seq<bool>, limit: nat) -> bool
    decreases limit,
{
    if limit == 0 || os.len() == 0 {
        false
    } else if os[0] {
        true
    } else {
        succeeds_within(os.skip(1), (limit - 1) as nat)
    }
}

/// The sleeps a run performs, in order: one after every failed attempt,
/// scheduled by the failure's number `base`, `base + 1`, and so on.
pub open spec fn sleeps_of(os: Seq<bool>, limit: nat, sch: DelaySchedule, base: nat) -> Seq<u64>
    decreases limit,
{
    if limit == 0 || os.len() == 0 {
        Seq::empty()
    } else if os[0] {
        Seq::empty()
    } else {
        seq![delay_at(sch, base)] + sleeps_of(os.skip(1), (limit - 1) as nat, sch, base + 1)
    }
}

/// A run's observable behaviour: how many attempts were made, the sleeps
/// performed between and after them, and whether an attempt succeeded.
pub struct RetryReport {
    pub attempts: u64,
    pub sleeps: Vec<u64>,
    pub succeeded: bool,
}

/// Drive one retry site against a fixed sequence of attempt outcomes
/// (entry `i` is what attempt `i` would report), exactly as the live loop
/// drives it against its transport.
pub fn run_retries(os: &Vec<bool>, p: &RetryPolicy) -> (r: RetryReport)
    requires
        os@.len() >= p.limit,
    ensures
        r.attempts == attempts_of(os@, p.limit as nat),
        r.succeeded == succeeds_within(os@, p.limit as nat),
        r.sleeps@ == sleeps_of(os@, p.limit as nat, p.schedule, 0),
{
    let n = os.len();
    let mut failures: u64 = 0;
    let mut idx: usize = 0;
    let mut sleeps: Vec<u64> = Vec::new();
    proof {
        assert(os@.skip(0) =~= os@);
    }
    while failures < p.limit
        invariant
            n == os@.len(),
            p.limit <= os@.len(),
            idx == failures,
            failures <= p.limit,
            failures <= os@.len(),
            attempts_of(os@, p.limit as nat) == failures + attempts_of(
                os@.skip(failures as int),
                (p.limit - failures) as nat,
            ),
            succeeds_within(os@, p.limit as nat) == succeeds_within(
                os@.skip(failures as int),
                (p.limit - failures) as nat,
            ),
            sleeps_of(os@, p.limit as nat, p.schedule, 0) == sleeps@ + sleeps_of(
                os@.skip(failures as int),
                (p.limit - failures) as nat,
                p.schedule,
                failures as nat,
            ),
            forall|j: int| 0 <= j < failures ==> !os@[j],
        decreases p.limit - failures,
    {
        let ok = os[idx];
        proof {
            assert(os@.skip(failures as int)[0] == os@[failures as int]);
        }
        if ok {
            proof {
                assert(attempts_of(os@.skip(failures as int), (p.limit - failures) as nat) == 1);
                assert(sleeps_of(
                    os@.skip(failures as int),
                    (p.limit - failures) as nat,
                    p.schedule,
                    failures as nat,
                ) =~= Seq::<u64>::empty());
                assert(sleeps_of(os@, p.limit as nat, p.schedule, 0) =~= sleeps@);
            }
            return RetryReport { attempts: failures + 1, sleeps, succeeded: true };
        }
        let (nf, d) = after_failure(failures, p);
        sleeps.push(d);
        proof {
            assert(os@.skip(failures as int).skip(1) =~= os@.skip(failures as int + 1));
            assert(sleeps_of(os@, p.limit as nat, p.schedule, 0) =~= sleeps@ + sleeps_of(
                os@.skip(nf as int),
                (p.limit - nf) as nat,
                p.schedule,
                nf as nat,
            ));
        }
        failures = nf;
        idx += 1;
    }
    proof {
        assert(failures == p.limit);
        assert(attempts_of(os@.skip(failures as int), 0) == 0);
        assert(sleeps_of(os@, p.limit as nat, p.schedule, 0) =~= sleeps@);
    }
    RetryReport { attempts: failures, sleeps, succeeded: false }
}

/// When the transport fails exactly `k` times and then succeeds, within a
/// budget of `limit` attempts, the run makes exactly `k + 1` attempts,
/// sleeps the scheduled delays of failures `0` to `k - 1`, and succeeds.
pub proof fn lemma_retry_until_success(os: Seq<bool>, limit: nat, sch: DelaySchedule, k: nat)
    requires
        k < limit,
        limit <= os.len(),
        forall|j: int| 0 <= j < k ==> !os[j],
        os[k as int],
    ensures
        attempts_of(os, limit) == k + 1,
        succeeds_within(os, limit),
        sleeps_of(os, limit, sch, 0) == Seq::new(k, |i: int| delay_at(sch, i as nat)),
{
    lemma_retry_until_success_from(os, limit, sch, k, 0);
    assert(Seq::new(k, |i: int| delay_at(sch, (0 + i) as nat)) =~= Seq::new(
        k,
        |i: int| delay_at(sch, i as nat),
    ));
}

proof fn lemma_retry_until_success_from(os: Seq<bool>, limit: nat, sch: DelaySchedule, k: nat, base: nat)
    requires
        k < limit,
        limit <= os.len(),
        forall|j: int| 0 <= j < k ==> !os[j],
        os[k as int],
    ensures
        attempts_of(os, limit) == k + 1,
        succeeds_within(os, limit),
        sleeps_of(os, limit, sch, base) == Seq::new(k, |i: int| delay_at(sch, (base + i) as nat)),
    decreases k,
{
    if k == 0 {
        assert(sleeps_of(os, limit, sch, base) =~= Seq::new(
            0,
            |i: int| delay_at(sch, (base + i) as nat),
        ));
    } else {
        assert(!os[0]);
        assert(os.skip(1)[k - 1]);
        assert(forall|j: int| 0 <= j < k - 1 ==> !#[trigger] os.skip(1)[j]);
        lemma_retry_until_success_from(os.skip(1), (limit - 1) as nat, sch, (k - 1) as nat, base + 1);
        assert(sleeps_of(os, limit, sch, base) =~= Seq::new(
            k,
            |i: int| delay_at(sch, (base + i) as nat),
        ));
    }
}

/// When the transport fails every attempt, the run makes exactly `limit`
/// attempts, sleeps every scheduled delay, and reports terminal failure.
pub proof fn lemma_retry_exhaustion(os: Seq<bool>, limit: nat, sch: DelaySchedule)
    requires
        limit <= os.len(),
        forall|j: int| 0 <= j < limit ==> !os[j],
    ensures
        attempts_of(os, limit) == limit,
        !succeeds_within(os, limit),
        sleeps_of(os, limit, sch, 0) == Seq::new(limit, |i: int| delay_at(sch, i as nat)),
{
    lemma_retry_exhaustion_from(os, limit, sch, 0);
    assert(Seq::new(limit, |i: int| delay_at(sch, (0 + i) as nat)) =~= Seq::new(
        limit,
        |i: int| delay_at(sch, i as nat),
    ));
}

proof fn lemma_retry_exhaustion_from(os: Seq<bool>, limit: nat, sch: DelaySchedule, base: nat)
    requires
        limit <= os.len(),
        forall|j: int| 0 <= j < limit ==> !os[j],
    ensures
        attempts_of(os, limit) == limit,
        !succeeds_within(os, limit),
        sleeps_of(os, limit, sch, base) == Seq::new(
            limit,
            |i: int| delay_at(sch, (base + i) as nat),
        ),
    decreases limit,
{
    if limit == 0 {
        assert(sleeps_of(os, limit, sch, base) =~= Seq::new(
            0,
            |i: int| delay_at(sch, (base + i) as nat),
        ));
    } else {
        assert(!os[0]);
        assert(forall|j: int| 0 <= j < limit - 1 ==> !#[trigger] os.skip(1)[j]);
        lemma_retry_exhaustion_from(os.skip(1), (limit - 1) as nat, sch, base + 1);
        assert(sleeps_of(os, limit, sch, base) =~= Seq::new(
            limit,
            |i: int| delay_at(sch, (base + i) as nat),
        ));
    }
}

/// Acquisition, a transport that fails exactly `k` times (`k` under the
/// budget) and then succeeds: exactly `k + 1` attempts are made, with `k`
/// one-second sleeps between them, and the run succeeds.
pub proof fn lemma_acquisition_until_success(os: Seq<bool>, k: nat)
    requires
        k < 5,
        os.len() >= 5,
        forall|j: int| 0 <= j < k ==> !os[j],
        os[k as int],
    ensures
        attempts_of(os, 5) == k + 1,
        succeeds_within(os, 5),
        sleeps_of(os, 5, DelaySchedule::Constant(1), 0) == Seq::new(k, |i: int| 1u64),
{
    lemma_retry_until_success(os, 5, DelaySchedule::Constant(1), k);
    assert(Seq::new(k, |i: int| delay_at(DelaySchedule::Constant(1), i as nat)) =~= Seq::new(
        k,
        |i: int| 1u64,
    ));
}

/// Acquisition, a transport that fails every attempt: exactly 5 attempts
/// are made, each followed by a one-second sleep, and the run reports the
/// terminal failure that ends the relay process.
pub proof fn lemma_acquisition_exhaustion(os: Seq<bool>)
    requires
        os.len() >= 5,
        forall|j: int| 0 <= j < 5 ==> !os[j],
    ensures
        attempts_of(os, 5) == 5,
        !succeeds_within(os, 5),
        sleeps_of(os, 5, DelaySchedule::Constant(1), 0) == Seq::new(5, |i: int| 1u64),
{
    lemma_retry_exhaustion(os, 5, DelaySchedule::Constant(1));
    assert(Seq::new(5nat, |i: int| delay_at(DelaySchedule::Constant(1), i as nat)) =~= Seq::new(
        5,
        |i: int| 1u64,
    ));
}

/// Delivery, a transport that fails every attempt for one slot: exactly 5
/// attempts are made, with sleeps of 0, 1, 2, 3 and 4 seconds, and the
/// slot is dropped. Other slots are untouched: each one's run is its own,
/// with a fresh budget.
pub proof fn lemma_delivery_exhaustion(os: Seq<bool>)
    requires
        os.len() >= 5,
        forall|j: int| 0 <= j < 5 ==> !os[j],
    ensures
        attempts_of(os, 5) == 5,
        !succeeds_within(os, 5),
        sleeps_of(os, 5, DelaySchedule::Linear, 0) == seq![0u64, 1u64, 2u64, 3u64, 4u64],
{
    lemma_retry_exhaustion(os, 5, DelaySchedule::Linear);
    assert(Seq::new(5nat, |i: int| delay_at(DelaySchedule::Linear, i as nat)) =~= seq![
        0u64,
        1u64,
        2u64,
        3u64,
        4u64,
    ]);
}

} // verus!
