//! A transition-system model of the flag protocol that the lock follows.
//!
//! The lock's acquire is an atomic exchange on a shared flag and its release
//! is a store clearing that flag.  This module models a whole system of
//! threads driving one lock: each thread has a fixed job, a sequence of
//! tokens it appends to the shared sequence inside its critical section.  A
//! state records the flag, every thread's phase, the shared sequence so far,
//! and the order in which threads have acquired the lock.  The lemmas below
//! show that every reachable state keeps the protocol's invariant, and from
//! it mutual exclusion, no reentrancy, release making the lock acquirable
//! again, and visibility: when all threads are done, the shared sequence is
//! exactly the jobs, whole and in acquire order, nothing lost, nothing
//! duplicated, never interleaved.

use vstd::prelude::*;
use vstd::set_lib::set_int_range;
use vstd::set_lib::lemma_int_range;

verus! {

/// What one thread is currently doing with the lock.
pub enum Phase {
    /// Not holding the lock and not yet finished.
    Idle,
    /// Holding the lock, having appended the first `done` tokens of its job.
    Critical { done: nat },
    /// Finished: every token appended, the lock released.
    Done,
}

/// A snapshot of the whole system.
pub struct State {
    /// The shared exclusive-access flag.
    pub flag: bool,
    /// Each thread's phase, indexed by thread.
    pub phases: Seq<Phase>,
    /// The shared sequence the threads append to.
    pub shared: Seq<int>,
    /// The threads that have acquired the lock so far, in acquire order.
    pub order: Seq<int>,
    /// Each thread's job: the tokens it appends inside its critical section.
    pub jobs: Seq<Seq<int>>,
}

impl State {
    /// The number of threads.
    pub open spec fn n(self) -> nat {
        self.phases.len()
    }

    /// Thread `t` exists and holds the lock.
    pub open spec fn holds(self, t: int) -> bool {
        0 <= t < self.n() && self.phases[t] is Critical
    }

    /// Thread `t` exists and has finished.
    pub open spec fn finished(self, t: int) -> bool {
        0 <= t < self.n() && self.phases[t] is Done
    }

    /// Thread `t` exists and has acquired the lock at some point.
    pub open spec fn active(self, t: int) -> bool {
        0 <= t < self.n() && !(self.phases[t] is Idle)
    }

    /// How many of its tokens thread `t` has appended.
    pub open spec fn progress(self, t: int) -> nat {
        match self.phases[t] {
            Phase::Critical { done } => done,
            _ => 0,
        }
    }

    /// Thread `t` exists, does not hold the lock, and its next exchange
    /// attempt would succeed.
    pub open spec fn can_acquire(self, t: int) -> bool {
        0 <= t < self.n() && self.phases[t] is Idle && !self.flag
    }
}

/// The jobs of the threads in `order`, concatenated in that order.
pub open spec fn output_of(jobs: Seq<Seq<int>>, order: Seq<int>) -> Seq<int>
    decreases order.len(),
{
    if order.len() == 0 {
        Seq::empty()
    } else {
        output_of(jobs, order.drop_last()) + jobs[order.last()]
    }
}

/// The starting state: flag clear, every thread idle, nothing appended.
pub open spec fn init(s: State) -> bool {
    &&& !s.flag
    &&& s.jobs.len() == s.n()
    &&& forall|t: int| 0 <= t < s.n() ==> s.phases[t] is Idle
    &&& s.shared == Seq::<int>::empty()
    &&& s.order == Seq::<int>::empty()
}

/// Thread `t` wins the atomic exchange: the flag was clear and is now set,
/// and `t` enters its critical section.
pub open spec fn acquire(pre: State, post: State, t: int) -> bool {
    &&& pre.can_acquire(t)
    &&& post.flag == true
    &&& post.phases == pre.phases.update(t, Phase::Critical { done: 0 })
    &&& post.shared == pre.shared
    &&& post.order == pre.order.push(t)
    &&& post.jobs == pre.jobs
}

/// Thread `t` loses the exchange: the flag was already set, so the exchange
/// returned the set flag and left it set.  Nothing changes; `t` spins.
pub open spec fn spin(pre: State, post: State, t: int) -> bool {
    &&& 0 <= t < pre.n()
    &&& pre.phases[t] is Idle
    &&& pre.flag
    &&& post == pre
}

/// The holder appends the next token of its job to the shared sequence.
pub open spec fn append(pre: State, post: State, t: int) -> bool {
    &&& 0 <= t < pre.n()
    &&& pre.phases[t] matches Phase::Critical { done }
    &&& done < pre.jobs[t].len()
    &&& post.flag == pre.flag
    &&& post.phases == pre.phases.update(t, Phase::Critical { done: (done + 1) as nat })
    &&& post.shared == pre.shared.push(pre.jobs[t][done as int])
    &&& post.order == pre.order
    &&& post.jobs == pre.jobs
}

/// The holder, its job fully appended, clears the flag and finishes.
pub open spec fn release(pre: State, post: State, t: int) -> bool {
    &&& 0 <= t < pre.n()
    &&& pre.phases[t] matches Phase::Critical { done }
    &&& done == pre.jobs[t].len()
    &&& post.flag == false
    &&& post.phases == pre.phases.update(t, Phase::Done)
    &&& post.shared == pre.shared
    &&& post.order == pre.order
    &&& post.jobs == pre.jobs
}

/// One step of the system: some thread exchanges, appends or releases.
pub open spec fn next(pre: State, post: State) -> bool {
    exists|t: int|
        #![trigger acquire(pre, post, t)]
        #![trigger spin(pre, post, t)]
        #![trigger append(pre, post, t)]
        #![trigger release(pre, post, t)]
        acquire(pre, post, t) || spin(pre, post, t) || append(pre, post, t) || release(
            pre,
            post,
            t,
        )
}

/// The protocol's invariant, kept by every reachable state.
pub open spec fn inv(s: State) -> bool {
    &&& s.jobs.len() == s.n()
    &&& forall|t: int| #[trigger] s.order.contains(t) <==> s.active(t)
    &&& s.order.no_duplicates()
    &&& forall|i: int, j: int| #[trigger] s.holds(i) && #[trigger] s.holds(j) ==> i == j
    &&& (s.flag <==> exists|t: int| s.holds(t))
    &&& forall|t: int| #[trigger] s.holds(t) ==> {
        &&& s.progress(t) <= s.jobs[t].len()
        &&& s.order.len() > 0
        &&& s.order.last() == t
        &&& s.shared == output_of(s.jobs, s.order.drop_last()) + s.jobs[t].take(
            s.progress(t) as int,
        )
    }
    &&& (!s.flag ==> s.shared == output_of(s.jobs, s.order))
}

/// The starting state satisfies the invariant.
pub proof fn lemma_init_inv(s: State)
    requires
        init(s),
    ensures
        inv(s),
{
    assert(forall|t: int| !s.order.contains(t)) by {
        assert(s.order.len() == 0);
    }
}

/// An acquire step keeps the invariant.
proof fn lemma_acquire_inv(pre: State, post: State, t: int)
    requires
        inv(pre),
        acquire(pre, post, t),
    ensures
        inv(post),
{
    broadcast use vstd::seq_lib::lemma_seq_contains_after_push;

    assert(!pre.order.contains(t));
    assert(post.order.no_duplicates()) by {
        let q = pre.order;
        assert forall|i: int, j: int|
            0 <= i < post.order.len() && 0 <= j < post.order.len() && i != j implies post.order[i]
            != post.order[j] by {
            if i < q.len() && j < q.len() {
                assert(q[i] != q[j]);
            } else if i < q.len() {
                assert(q.contains(q[i]));
            } else {
                assert(q.contains(q[j]));
            }
        }
    }
    assert forall|x: int| #[trigger] post.order.contains(x) <==> post.active(x) by {
        assert(post.order.contains(x) <==> x == t || pre.order.contains(x));
    }
    assert forall|i: int| #[trigger] post.holds(i) implies i == t by {
        if i != t {
            assert(pre.holds(i));
            assert(pre.flag);
        }
    }
    assert(post.holds(t));
    assert(post.order.drop_last() =~= pre.order);
    assert(post.shared =~= output_of(post.jobs, post.order.drop_last()) + post.jobs[t].take(0));
}

/// An append step keeps the invariant.
proof fn lemma_append_inv(pre: State, post: State, t: int)
    requires
        inv(pre),
        append(pre, post, t),
    ensures
        inv(post),
{
    broadcast use vstd::seq::Seq::push_distributes_over_add;
    broadcast use vstd::prelude::Seq::lemma_take_succ_push;

    assert(pre.holds(t));
    assert(pre.flag);
    assert forall|x: int| #[trigger] post.order.contains(x) <==> post.active(x) by {
        assert(pre.order.contains(x) <==> pre.active(x));
    }
    assert forall|i: int, j: int| #[trigger] post.holds(i) && #[trigger] post.holds(j) implies i
        == j by {
        assert(pre.holds(i) && pre.holds(j));
    }
    assert(post.holds(t));
    let done = pre.progress(t) as int;
    assert(post.jobs[t].take(done + 1) =~= post.jobs[t].take(done).push(post.jobs[t][done]));
    assert(post.shared =~= output_of(post.jobs, post.order.drop_last()) + post.jobs[t].take(
        done + 1,
    ));
}

/// A release step keeps the invariant.
proof fn lemma_release_inv(pre: State, post: State, t: int)
    requires
        inv(pre),
        release(pre, post, t),
    ensures
        inv(post),
{
    assert(pre.holds(t));
    assert(pre.flag);
    assert forall|x: int| #[trigger] post.order.contains(x) <==> post.active(x) by {
        assert(pre.order.contains(x) <==> pre.active(x));
    }
    assert forall|i: int| !(#[trigger] post.holds(i)) by {
        if post.holds(i) {
            assert(pre.holds(i));
            assert(i == t);
        }
    }
    assert(pre.jobs[t].take(pre.jobs[t].len() as int) =~= pre.jobs[t]);
    assert(post.shared == output_of(post.jobs, post.order.drop_last()) + post.jobs[post.order.last()]);
    assert(post.shared == output_of(post.jobs, post.order));
}

/// Every step of the system keeps the invariant.
pub proof fn lemma_next_inv(pre: State, post: State)
    requires
        inv(pre),
        next(pre, post),
    ensures
        inv(post),
{
    let t = choose|t: int|
        acquire(pre, post, t) || spin(pre, post, t) || append(pre, post, t) || release(
            pre,
            post,
            t,
        );
    if acquire(pre, post, t) {
        lemma_acquire_inv(pre, post, t);
    } else if append(pre, post, t) {
        lemma_append_inv(pre, post, t);
    } else if release(pre, post, t) {
        lemma_release_inv(pre, post, t);
    }
}

/// A finite execution of the protocol: a first state satisfying `init`, and
/// each later state reached from the one before it by a step.
pub open spec fn execution(tr: Seq<State>) -> bool {
    &&& tr.len() > 0
    &&& init(tr[0])
    &&& forall|i: int| 0 <= i < tr.len() - 1 ==> next(#[trigger] tr[i], tr[i + 1])
}

/// Every state of an execution satisfies the invariant: the invariant holds
/// of every reachable state.
pub proof fn lemma_execution_inv(tr: Seq<State>, i: int)
    requires
        execution(tr),
        0 <= i < tr.len(),
    ensures
        inv(tr[i]),
    decreases i,
{
    if i == 0 {
        lemma_init_inv(tr[0]);
    } else {
        lemma_execution_inv(tr, i - 1);
        lemma_next_inv(tr[i - 1], tr[i]);
    }
}

/// Mutual exclusion: in any state satisfying the invariant — so in any
/// reachable state — at most one thread holds the lock, hence at most one
/// guard is live at any instant.
pub proof fn lemma_mutual_exclusion(s: State, i: int, j: int)
    requires
        inv(s),
        s.holds(i),
        s.holds(j),
    ensures
        i == j,
{
}

/// No reentrancy: while a thread holds the lock the flag is set, so no
/// exchange attempt can succeed — least of all the holder's own.  A thread
/// acquiring a lock it already holds can therefore only spin against itself,
/// forever: the expected self-deadlock.
pub proof fn lemma_no_reentrancy(pre: State, post: State, t: int)
    requires
        inv(pre),
        pre.holds(t),
    ensures
        !acquire(pre, post, t),
        forall|u: int| !pre.can_acquire(u),
{
    assert(pre.flag);
}

/// Release makes the lock acquirable again: after the holder releases, the
/// flag is clear and every idle thread's next exchange attempt succeeds.
pub proof fn lemma_release_unlocks(pre: State, post: State, t: int)
    requires
        inv(pre),
        release(pre, post, t),
    ensures
        !post.flag,
        forall|u: int| 0 <= u < post.n() && post.phases[u] is Idle ==> post.can_acquire(u),
{
}

/// Visibility: once every thread has finished, the shared sequence is
/// exactly the threads' jobs, whole and concatenated in acquire order, and
/// the acquire order is a permutation of the threads.  No write is lost,
/// none is duplicated, and no job is interleaved with another.
pub proof fn lemma_visibility(s: State)
    requires
        inv(s),
        forall|t: int| 0 <= t < s.n() ==> s.finished(t),
    ensures
        s.shared == output_of(s.jobs, s.order),
        s.order.no_duplicates(),
        s.order.len() == s.n(),
        forall|t: int| 0 <= t < s.n() ==> s.order.contains(t),
        forall|i: int| 0 <= i < s.order.len() ==> 0 <= #[trigger] s.order[i] < s.n(),
{
    assert forall|i: int| !(#[trigger] s.holds(i)) by {
        if s.holds(i) {
            assert(s.finished(i));
        }
    }
    assert(!s.flag);
    assert forall|t: int| 0 <= t < s.n() implies s.order.contains(t) by {
        assert(s.finished(t));
        assert(s.active(t));
    }
    assert forall|i: int| 0 <= i < s.order.len() implies 0 <= #[trigger] s.order[i] < s.n() by {
        assert(s.order.contains(s.order[i]));
    }
    assert(s.order.len() == s.n()) by {
        s.order.unique_seq_to_set();
        lemma_int_range(0, s.n() as int);
        assert(s.order.to_set() =~= set_int_range(0, s.n() as int)) by {
            assert forall|x: int| s.order.to_set().contains(x) implies set_int_range(
                0,
                s.n() as int,
            ).contains(x) by {
                assert(s.order.contains(x));
            }
            assert forall|x: int| set_int_range(0, s.n() as int).contains(x) implies s
                .order
                .to_set()
                .contains(x) by {
                assert(s.order.contains(x));
            }
        }
    }
}

/// Mutual exclusion along a whole execution: at no instant do two threads
/// hold the lock at once.
pub proof fn lemma_execution_mutual_exclusion(tr: Seq<State>, k: int, i: int, j: int)
    requires
        execution(tr),
        0 <= k < tr.len(),
        tr[k].holds(i),
        tr[k].holds(j),
    ensures
        i == j,
{
    lemma_execution_inv(tr, k);
    lemma_mutual_exclusion(tr[k], i, j);
}

/// Visibility along a whole execution: at any instant at which every thread
/// has finished, the shared sequence holds exactly the threads' jobs, in
/// acquire order.
pub proof fn lemma_execution_visibility(tr: Seq<State>, k: int)
    requires
        execution(tr),
        0 <= k < tr.len(),
        forall|t: int| 0 <= t < tr[k].n() ==> tr[k].finished(t),
    ensures
        tr[k].shared == output_of(tr[k].jobs, tr[k].order),
        tr[k].order.no_duplicates(),
        tr[k].order.len() == tr[k].n(),
        forall|t: int| 0 <= t < tr[k].n() ==> tr[k].order.contains(t),
{
    lemma_execution_inv(tr, k);
    lemma_visibility(tr[k]);
}

/// The reference scenario is realizable, so the model is not vacuous: a
/// concrete execution drives two threads — the first appending `1`, the
/// second appending `2` twice — from the starting state to a state where
/// both have finished and the shared sequence is `[1, 2, 2]`.
pub proof fn lemma_scenario_realizable() -> (tr: Seq<State>)
    ensures
        execution(tr),
        tr.last().jobs == seq![seq![1int], seq![2int, 2int]],
        forall|t: int| 0 <= t < tr.last().n() ==> tr.last().finished(t),
        tr.last().shared == seq![1int, 2int, 2int],
{
    let jobs = seq![seq![1int], seq![2int, 2int]];
    let s0 = State {
        flag: false,
        phases: seq![Phase::Idle, Phase::Idle],
        shared: Seq::empty(),
        order: Seq::empty(),
        jobs,
    };
    let s1 = State {
        flag: true,
        phases: seq![Phase::Critical { done: 0 }, Phase::Idle],
        shared: Seq::empty(),
        order: seq![0int],
        jobs,
    };
    let s2 = State {
        flag: true,
        phases: seq![Phase::Critical { done: 1 }, Phase::Idle],
        shared: seq![1int],
        order: seq![0int],
        jobs,
    };
    let s3 = State {
        flag: false,
        phases: seq![Phase::Done, Phase::Idle],
        shared: seq![1int],
        order: seq![0int],
        jobs,
    };
    let s4 = State {
        flag: true,
        phases: seq![Phase::Done, Phase::Critical { done: 0 }],
        shared: seq![1int],
        order: seq![0int, 1int],
        jobs,
    };
    let s5 = State {
        flag: true,
        phases: seq![Phase::Done, Phase::Critical { done: 1 }],
        shared: seq![1int, 2int],
        order: seq![0int, 1int],
        jobs,
    };
    let s6 = State {
        flag: true,
        phases: seq![Phase::Done, Phase::Critical { done: 2 }],
        shared: seq![1int, 2int, 2int],
        order: seq![0int, 1int],
        jobs,
    };
    let s7 = State {
        flag: false,
        phases: seq![Phase::Done, Phase::Done],
        shared: seq![1int, 2int, 2int],
        order: seq![0int, 1int],
        jobs,
    };
    let tr = seq![s0, s1, s2, s3, s4, s5, s6, s7];
    assert(acquire(s0, s1, 0)) by {
        assert(s1.phases =~= s0.phases.update(0, Phase::Critical { done: 0 }));
        assert(s1.order =~= s0.order.push(0));
    }
    assert(append(s1, s2, 0)) by {
        assert(s2.phases =~= s1.phases.update(0, Phase::Critical { done: 1 }));
        assert(s2.shared =~= s1.shared.push(1));
    }
    assert(release(s2, s3, 0)) by {
        assert(s3.phases =~= s2.phases.update(0, Phase::Done));
    }
    assert(acquire(s3, s4, 1)) by {
        assert(s4.phases =~= s3.phases.update(1, Phase::Critical { done: 0 }));
        assert(s4.order =~= s3.order.push(1));
    }
    assert(append(s4, s5, 1)) by {
        assert(s5.phases =~= s4.phases.update(1, Phase::Critical { done: 1 }));
        assert(s5.shared =~= s4.shared.push(2));
    }
    assert(append(s5, s6, 1)) by {
        assert(s6.phases =~= s5.phases.update(1, Phase::Critical { done: 2 }));
        assert(s6.shared =~= s5.shared.push(2));
    }
    assert(release(s6, s7, 1)) by {
        assert(s7.phases =~= s6.phases.update(1, Phase::Done));
    }
    assert forall|i: int| 0 <= i < tr.len() - 1 implies next(#[trigger] tr[i], tr[i + 1]) by {
        if i == 0 {
            assert(acquire(tr[0], tr[1], 0));
        } else if i == 1 {
            assert(append(tr[1], tr[2], 0));
        } else if i == 2 {
            assert(release(tr[2], tr[3], 0));
        } else if i == 3 {
            assert(acquire(tr[3], tr[4], 1));
        } else if i == 4 {
            assert(append(tr[4], tr[5], 1));
        } else if i == 5 {
            assert(append(tr[5], tr[6], 1));
        } else {
            assert(release(tr[6], tr[7], 1));
        }
    }
    tr
}

/// The reference scenario: two threads share one lock over an initially
/// empty sequence, one appends `1`, the other appends `2` twice within a
/// single critical section.  Once both have finished, the shared sequence is
/// `[1, 2, 2]` or `[2, 2, 1]` — never an interleaving such as `[2, 1, 2]`,
/// because the two appends of the second thread are never split.
pub proof fn lemma_two_thread_scenario(s: State)
    requires
        inv(s),
        s.n() == 2,
        s.jobs == seq![seq![1int], seq![2int, 2int]],
        forall|t: int| 0 <= t < s.n() ==> s.finished(t),
    ensures
        s.shared == seq![1int, 2int, 2int] || s.shared == seq![2int, 2int, 1int],
{
    lemma_visibility(s);
    assert(s.order.contains(1));
    assert(s.order[0] != s.order[1]);
    if s.order[0] == 0 {
        assert(s.order =~= seq![0int, 1int]);
        assert(seq![0int, 1int].drop_last() =~= seq![0int]);
        assert(seq![0int].drop_last() =~= Seq::<int>::empty());
        assert(output_of(s.jobs, seq![0int, 1int]) == output_of(s.jobs, seq![0int]) + s.jobs[1]);
        assert(output_of(s.jobs, seq![0int]) == output_of(s.jobs, Seq::empty()) + s.jobs[0]);
        assert(s.shared =~= seq![1int, 2int, 2int]);
    } else {
        assert(s.order =~= seq![1int, 0int]);
        assert(seq![1int, 0int].drop_last() =~= seq![1int]);
        assert(seq![1int].drop_last() =~= Seq::<int>::empty());
        assert(output_of(s.jobs, seq![1int, 0int]) == output_of(s.jobs, seq![1int]) + s.jobs[0]);
        assert(output_of(s.jobs, seq![1int]) == output_of(s.jobs, Seq::empty()) + s.jobs[1]);
        assert(s.shared =~= seq![2int, 2int, 1int]);
    }
}

} // verus!

