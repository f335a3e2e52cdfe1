use vstd::prelude::*;

use crate::error::{ConstructionError, OperatorError, StepError};
use crate::operator::{Operator, OperatorNode};
use crate::probe::{Probe, SignalProbe};
use crate::signal::{lemma_same_layout_trans, reset_all_spec, same_layout, table_wf, SignalTable, SignalView};
use crate::sync::Event;

verus! {

/// What the engine does, in the order it does it.
pub enum Activity {
    /// The operator at this index ran its step.
    Step(int),
    /// The probe at this index took its sample.
    Sample(int),
}

/// Whether the engine can still step.
#[derive(Debug, Clone, Copy, PartialEq, Eq, Structural)]
pub enum EngineState {
    Idle,
    /// A step failed; every later step fails at once.
    Failed,
}

/// The first `n` operators stepping, in list order.
pub open spec fn operators_trace(n: nat) -> Seq<Activity> {
    Seq::new(n, |i: int| Activity::Step(i))
}

/// The `m` probes sampling, in list order.
pub open spec fn probes_trace(m: nat) -> Seq<Activity> {
    Seq::new(m, |p: int| Activity::Sample(p))
}

/// One complete step of `n` operators and `m` probes: every operator, then
/// every probe.
pub open spec fn step_trace(n: nat, m: nat) -> Seq<Activity> {
    operators_trace(n) + probes_trace(m)
}

/// `k` complete steps in a row.
pub open spec fn steps_trace(n: nat, m: nat, k: nat) -> Seq<Activity>
    decreases k,
{
    if k == 0 {
        Seq::empty()
    } else {
        steps_trace(n, m, (k - 1) as nat) + step_trace(n, m)
    }
}

/// Every dependency of an operator names an earlier operator of the list.
pub open spec fn dependencies_ok(deps: Seq<Seq<usize>>) -> bool {
    forall|i: int, k: int|
        0 <= i < deps.len() && 0 <= k < deps[i].len() ==> #[trigger] deps[i][k] < i
}

/// The dependency lists of a list of operator nodes.
pub open spec fn dependency_lists<O>(nodes: Seq<OperatorNode<O>>) -> Seq<Seq<usize>> {
    Seq::new(nodes.len(), |i: int| nodes[i].dependencies@)
}

/// Number of samples that probe `p` takes in a trace.
pub open spec fn sample_count(tr: Seq<Activity>, p: int) -> nat
    decreases tr.len(),
{
    if tr.len() == 0 {
        0
    } else {
        sample_count(tr.drop_last(), p) + if tr.last() == Activity::Sample(p) {
            1nat
        } else {
            0nat
        }
    }
}

/// Within one step, each operator runs after every one of its dependencies:
/// the one position at which a dependency steps comes before the one position
/// at which the operator steps.
pub proof fn lemma_dependencies_run_first(deps: Seq<Seq<usize>>, m: nat, i: int, k: int)
    requires
        dependencies_ok(deps),
        0 <= i < deps.len(),
        0 <= k < deps[i].len(),
    ensures
        ({
            let tr = step_trace(deps.len(), m);
            let j = deps[i][k] as int;
            &&& tr[j] == Activity::Step(j)
            &&& tr[i] == Activity::Step(i)
            &&& j < i
            &&& forall|q: int| 0 <= q < tr.len() && tr[q] == Activity::Step(j) ==> q == j
            &&& forall|q: int| 0 <= q < tr.len() && tr[q] == Activity::Step(i) ==> q == i
        }),
{
    let j = deps[i][k] as int;
    assert(j < i);
    lemma_each_operator_once(deps.len(), m);
    let tr = step_trace(deps.len(), m);
    assert forall|q: int| 0 <= q < tr.len() && tr[q] == Activity::Step(j) implies q == j by {
        assert(tr[q] is Step);
    }
    assert forall|q: int| 0 <= q < tr.len() && tr[q] == Activity::Step(i) implies q == i by {
        assert(tr[q] is Step);
    }
}

/// Within one step, every operator steps exactly once, and nothing else
/// steps.
pub proof fn lemma_each_operator_once(n: nat, m: nat)
    ensures
        step_trace(n, m).len() == n + m,
        forall|x: int| 0 <= x < n ==> #[trigger] step_trace(n, m)[x] == Activity::Step(x),
        forall|q: int|
            0 <= q < n + m && (#[trigger] step_trace(n, m)[q]) is Step ==> q < n && step_trace(
                n,
                m,
            )[q] == Activity::Step(q),
{
    let tr = step_trace(n, m);
    assert forall|q: int| 0 <= q < n + m && (#[trigger] tr[q]) is Step implies q < n && tr[q]
        == Activity::Step(q) by {
        if q >= n {
            assert(tr[q] == Activity::Sample(q - n));
        }
    }
}

/// Within one step, every probe samples after every operator has stepped,
/// and each probe samples exactly once.
pub proof fn lemma_probes_after_operators(n: nat, m: nat)
    ensures
        forall|a: int, b: int|
            0 <= a < n + m && 0 <= b < n + m && (#[trigger] step_trace(n, m)[a]) is Step && (
            #[trigger] step_trace(n, m)[b]) is Sample ==> a < b,
        forall|p: int| 0 <= p < m ==> sample_count(#[trigger] step_trace(n, m), p) == 1,
{
    let tr = step_trace(n, m);
    assert forall|a: int, b: int|
        0 <= a < n + m && 0 <= b < n + m && (#[trigger] tr[a]) is Step && (
        #[trigger] tr[b]) is Sample implies a < b by {
        if a >= n {
            assert(tr[a] == Activity::Sample(a - n));
        }
        if b < n {
            assert(tr[b] == Activity::Step(b));
        }
    }
    assert forall|p: int| 0 <= p < m implies sample_count(#[trigger] step_trace(n, m), p) == 1 by {
        lemma_sample_count_add(operators_trace(n), probes_trace(m), p);
        lemma_sample_count_operators(n, p);
        lemma_sample_count_probes(m, p);
    }
}

/// Each complete step samples every probe once: after `k` complete steps a
/// probe has been sampled exactly `k` times.
pub proof fn lemma_samples_per_step(n: nat, m: nat, k: nat, p: int)
    requires
        0 <= p < m,
    ensures
        sample_count(steps_trace(n, m, k), p) == k,
    decreases k,
{
    if k > 0 {
        lemma_samples_per_step(n, m, (k - 1) as nat, p);
        lemma_sample_count_add(steps_trace(n, m, (k - 1) as nat), step_trace(n, m), p);
        lemma_probes_after_operators(n, m);
        assert(sample_count(step_trace(n, m), p) == 1);
    }
}

/// Samples of two traces laid end to end add up.
pub proof fn lemma_sample_count_add(a: Seq<Activity>, b: Seq<Activity>, p: int)
    ensures
        sample_count(a + b, p) == sample_count(a, p) + sample_count(b, p),
    decreases b.len(),
{
    if b.len() > 0 {
        assert((a + b).drop_last() =~= a + b.drop_last());
        lemma_sample_count_add(a, b.drop_last(), p);
    } else {
        assert(a + b =~= a);
    }
}

/// Operators take no samples.
pub proof fn lemma_sample_count_operators(n: nat, p: int)
    ensures
        sample_count(operators_trace(n), p) == 0,
    decreases n,
{
    if n > 0 {
        assert(operators_trace(n).drop_last() =~= operators_trace((n - 1) as nat));
        lemma_sample_count_operators((n - 1) as nat, p);
    }
}

/// The probes' part of a step samples probe `p` once when `p < m`.
pub proof fn lemma_sample_count_probes(m: nat, p: int)
    requires
        0 <= p,
    ensures
        sample_count(probes_trace(m), p) == if p < m {
            1nat
        } else {
            0nat
        },
    decreases m,
{
    if m > 0 {
        assert(probes_trace(m).drop_last() =~= probes_trace((m - 1) as nat));
        lemma_sample_count_probes((m - 1) as nat, p);
    }
}

/// Operator `op`, run on table `before`, may succeed leaving `after`.
pub open spec fn step_succeeds<O: Operator>(op: O, before: Seq<SignalView>, after: Seq<SignalView>) -> bool {
    exists|r: Result<(), OperatorError>| r is Ok && #[trigger] op.step_allows(before, after, r)
}

/// `tables[0] .. tables[k]` are tables such that operator `i` of `ops`, run
/// on table `i`, may leave table `i + 1` and succeed.
pub open spec fn operators_chain<O: Operator>(
    ops: Seq<OperatorNode<O>>,
    tables: Seq<Seq<SignalView>>,
    k: nat,
) -> bool {
    &&& k <= ops.len()
    &&& tables.len() == k + 1
    &&& forall|i: int|
        0 <= i < k ==> #[trigger] step_succeeds(ops[i].operator, tables[i], tables[i + 1])
}

/// Running every operator of `ops` once, in list order, each on the table
/// the previous one left, may lead from `before` to `after`.
pub open spec fn operators_allow<O: Operator>(
    ops: Seq<OperatorNode<O>>,
    before: Seq<SignalView>,
    after: Seq<SignalView>,
) -> bool {
    exists|tables: Seq<Seq<SignalView>>|
        operators_chain(ops, tables, ops.len()) && tables[0] == before && #[trigger] tables[ops.len()
            as int] == after
}

/// Operators `0 .. k` of `ops` may succeed in list order from `before`, and
/// operator `k`, run on the table they left, may fail with `e` leaving
/// `after`.
pub open spec fn operators_fail<O: Operator>(
    ops: Seq<OperatorNode<O>>,
    before: Seq<SignalView>,
    after: Seq<SignalView>,
    k: nat,
    e: OperatorError,
) -> bool {
    exists|tables: Seq<Seq<SignalView>>|
        operators_chain(ops, tables, k) && k < ops.len() && tables[0] == before
            && #[trigger] ops[k as int].operator.step_allows(tables[k as int], after, Err(e))
}

/// Each probe of `before`, sampling table `signals`, may become the probe at
/// the same index of `after`.
pub open spec fn probes_allow<P: Probe>(before: Seq<P>, signals: Seq<SignalView>, after: Seq<P>) -> bool {
    &&& after.len() == before.len()
    &&& forall|p: int| 0 <= p < before.len() ==> #[trigger] before[p].sample_allows(signals, after[p])
}

/// One complete step may lead from signals `s0` and probes `p0` to signals
/// `s1` and probes `p1`: every operator in list order, then every probe
/// sampling the table the operators left; the signals keep their layout.
pub open spec fn step_allows<O: Operator, P: Probe>(
    ops: Seq<OperatorNode<O>>,
    s0: Seq<SignalView>,
    p0: Seq<P>,
    s1: Seq<SignalView>,
    p1: Seq<P>,
) -> bool {
    operators_allow(ops, s0, s1) && probes_allow(p0, s1, p1) && same_layout(s0, s1)
}

/// `n` complete steps in a row may lead from `(s0, p0)` to `(s1, p1)`.
pub open spec fn steps_allow<O: Operator, P: Probe>(
    ops: Seq<OperatorNode<O>>,
    s0: Seq<SignalView>,
    p0: Seq<P>,
    s1: Seq<SignalView>,
    p1: Seq<P>,
    n: nat,
) -> bool {
    exists|ss: Seq<Seq<SignalView>>, ps: Seq<Seq<P>>|
        #![trigger ss[n as int], ps[n as int]]
        ss.len() == n + 1 && ps.len() == n + 1 && ss[0] == s0 && ps[0] == p0 && ss[n as int]
            == s1 && ps[n as int] == p1 && forall|i: int|
            0 <= i < n ==> #[trigger] step_allows(ops, ss[i], ps[i], ss[i + 1], ps[i + 1])
}

/// Along a run of complete steps, each signal probe whose target the first
/// table holds keeps its target and its earlier samples and gains one sample
/// per step.
proof fn lemma_probe_prefix<O: Operator>(
    ops: Seq<OperatorNode<O>>,
    ss: Seq<Seq<SignalView>>,
    ps: Seq<Seq<SignalProbe>>,
    j: int,
)
    requires
        0 <= j < ss.len(),
        ps.len() == ss.len(),
        forall|i: int| 0 <= i < j ==> #[trigger] step_allows(ops, ss[i], ps[i], ss[i + 1], ps[i + 1]),
        forall|p: int| 0 <= p < ps[0].len() ==> #[trigger] ps[0][p].finds_target(ss[0]),
    ensures
        ps[j].len() == ps[0].len(),
        same_layout(ss[0], ss[j]),
        forall|p: int|
            0 <= p < ps[0].len() ==> (#[trigger] ps[j][p]).target() == ps[0][p].target()
                && ps[j][p].target_shape() == ps[0][p].target_shape() && ps[j][p]@.len()
                == ps[0][p]@.len() + j && ps[j][p]@.subrange(0, ps[0][p]@.len() as int)
                == ps[0][p]@,
    decreases j,
{
    if j == 0 {
        assert forall|p: int| 0 <= p < ps[0].len() implies ps[0][p]@.subrange(0, ps[0][p]@.len() as int)
            == ps[0][p]@ by {
            assert(ps[0][p]@.subrange(0, ps[0][p]@.len() as int) =~= ps[0][p]@);
        }
    } else {
        let i = j - 1;
        lemma_probe_prefix(ops, ss, ps, i);
        assert(step_allows(ops, ss[i], ps[i], ss[i + 1], ps[i + 1]));
        lemma_same_layout_trans(ss[0], ss[i], ss[j]);
        assert forall|p: int|
            0 <= p < ps[0].len() implies (#[trigger] ps[j][p]).target() == ps[0][p].target()
                && ps[j][p].target_shape() == ps[0][p].target_shape() && ps[j][p]@.len()
                == ps[0][p]@.len() + j && ps[j][p]@.subrange(0, ps[0][p]@.len() as int)
                == ps[0][p]@ by {
            assert(ps[0][p].finds_target(ss[0]));
            let t = ps[0][p].target() as int;
            assert(ss[0][t].shape == ss[j][t].shape);
            assert(ps[i][p].finds_target(ss[j]));
            assert(ps[i][p].sample_allows(ss[j], ps[j][p]));
            let old_len = ps[0][p]@.len() as int;
            assert(ps[j][p]@.subrange(0, old_len) =~= ps[i][p]@.subrange(0, old_len));
        }
    }
}

/// Every complete step appends exactly one sample to each signal probe whose
/// target the table holds: after `k` steps each probe holds its earlier
/// samples followed by `k` more.
pub proof fn lemma_probe_samples_per_step<O: Operator>(
    ops: Seq<OperatorNode<O>>,
    s0: Seq<SignalView>,
    p0: Seq<SignalProbe>,
    s1: Seq<SignalView>,
    p1: Seq<SignalProbe>,
    k: nat,
)
    requires
        steps_allow(ops, s0, p0, s1, p1, k),
        forall|p: int| 0 <= p < p0.len() ==> #[trigger] p0[p].finds_target(s0),
    ensures
        p1.len() == p0.len(),
        forall|p: int|
            0 <= p < p0.len() ==> (#[trigger] p1[p])@.len() == p0[p]@.len() + k && p1[p]@.subrange(
                0,
                p0[p]@.len() as int,
            ) == p0[p]@,
{
    let (ss, ps) = choose|ss: Seq<Seq<SignalView>>, ps: Seq<Seq<SignalProbe>>|
        #![trigger ss[k as int], ps[k as int]]
        ss.len() == k + 1 && ps.len() == k + 1 && ss[0] == s0 && ps[0] == p0 && ss[k as int]
            == s1 && ps[k as int] == p1 && forall|i: int|
            0 <= i < k ==> #[trigger] step_allows(ops, ss[i], ps[i], ss[i + 1], ps[i + 1]);
    lemma_probe_prefix(ops, ss, ps, k as int);
}

/// A frozen graph of signals, operators and probes, stepped as a whole.
pub struct Engine<O, P> {
    signals: SignalTable,
    operators: Vec<OperatorNode<O>>,
    probes: Vec<P>,
    state: EngineState,
    is_done: Event,
    trace: Ghost<Seq<Activity>>,
}

impl<O: Operator, P: Probe> Engine<O, P> {
    /// The signals.
    pub closed spec fn signals_view(&self) -> Seq<SignalView> {
        self.signals@
    }

    /// The operators with their dependencies.
    pub closed spec fn operators_view(&self) -> Seq<OperatorNode<O>> {
        self.operators@
    }

    /// The operators' dependency lists.
    pub closed spec fn dependencies(&self) -> Seq<Seq<usize>> {
        dependency_lists(self.operators@)
    }

    /// Number of operators.
    pub closed spec fn n_operators(&self) -> nat {
        self.operators@.len()
    }

    /// The probes.
    pub closed spec fn probes_view(&self) -> Seq<P> {
        self.probes@
    }

    /// Whether the engine can still step.
    pub closed spec fn state(&self) -> EngineState {
        self.state
    }

    /// Whether the last step has completed.
    pub closed spec fn done(&self) -> bool {
        self.is_done.is_set()
    }

    /// Everything the engine has done since it was built.
    pub closed spec fn trace(&self) -> Seq<Activity> {
        self.trace@
    }

    /// The signals are consistent and every dependency names an earlier
    /// operator.
    pub closed spec fn wf(&self) -> bool {
        &&& table_wf(self.signals@)
        &&& dependencies_ok(dependency_lists(self.operators@))
    }

    /// An idle engine over the given graph. Fails with `BadDependencyIndex`
    /// when a dependency does not name an earlier operator.
    pub fn new(signals: SignalTable, operators: Vec<OperatorNode<O>>, probes: Vec<P>) -> (r: Result<
        Self,
        ConstructionError,
    >)
        requires
            table_wf(signals@),
        ensures
            r is Ok <==> dependencies_ok(dependency_lists(operators@)),
            r is Err ==> r->Err_0 == ConstructionError::BadDependencyIndex,
            r is Ok ==> {
                let e = r->Ok_0;
                &&& e.wf()
                &&& e.signals_view() == signals@
                &&& e.dependencies() == dependency_lists(operators@)
                &&& e.n_operators() == operators@.len()
                &&& e.probes_view() == probes@
                &&& e.state() == EngineState::Idle
                &&& e.trace() == Seq::<Activity>::empty()
                &&& !e.done()
            },
    {
        let n = operators.len();
        let mut i: usize = 0;
        while i < n
            invariant
                i <= n,
                n == operators@.len(),
                forall|a: int, k: int|
                    0 <= a < i && 0 <= k < operators@[a].dependencies@.len()
                        ==> #[trigger] operators@[a].dependencies@[k] < a,
            decreases n - i,
        {
            let deps = &operators[i].dependencies;
            let mut k: usize = 0;
            while k < deps.len()
                invariant
                    i < n,
                    n == operators@.len(),
                    k <= deps@.len(),
                    deps@ == operators@[i as int].dependencies@,
                    forall|q: int| 0 <= q < k ==> #[trigger] deps@[q] < i,
                decreases deps@.len() - k,
            {
                if deps[k] >= i {
                    proof {
                        assert(dependency_lists(operators@)[i as int][k as int] == deps@[k as int]);
                    }
                    return Err(ConstructionError::BadDependencyIndex);
                }
                k = k + 1;
            }
            i = i + 1;
        }
        proof {
            assert forall|a: int, k: int|
                0 <= a < dependency_lists(operators@).len() && 0 <= k < dependency_lists(
                    operators@,
                )[a].len() implies #[trigger] dependency_lists(operators@)[a][k] < a by {
                assert(dependency_lists(operators@)[a] == operators@[a].dependencies@);
                assert(operators@[a].dependencies@[k] < a);
            }
        }
        Ok(Engine {
            signals,
            operators,
            probes,
            state: EngineState::Idle,
            is_done: Event::new(),
            trace: Ghost(Seq::empty()),
        })
    }

    /// The signals.
    pub fn signals(&self) -> (r: &SignalTable)
        ensures
            r@ == self.signals_view(),
    {
        &self.signals
    }

    /// The probes.
    pub fn probes(&self) -> (r: &Vec<P>)
        ensures
            r@ == self.probes_view(),
    {
        &self.probes
    }

    /// Whether a step has failed.
    pub fn has_failed(&self) -> (r: bool)
        ensures
            r == (self.state() == EngineState::Failed),
    {
        self.state == EngineState::Failed
    }

    /// Runs one step: every operator once, in list order (each after all of
    /// its dependencies, on the table the operators before it left), then
    /// every probe once, sampling the table the operators left. The first
    /// operator failure stops the step, is returned, leaves the probes as they
    /// were and the engine failed; a failed engine steps no more. The
    /// completion latch is set when control returns.
    pub fn run_step(&mut self) -> (r: Result<(), StepError>)
        requires
            old(self).wf(),
        ensures
            final(self).wf(),
            final(self).done(),
            final(self).operators_view() == old(self).operators_view(),
            final(self).dependencies() == old(self).dependencies(),
            final(self).n_operators() == old(self).n_operators(),
            final(self).probes_view().len() == old(self).probes_view().len(),
            final(self).signals_view().len() == old(self).signals_view().len(),
            same_layout(old(self).signals_view(), final(self).signals_view()),
            old(self).state() == EngineState::Failed ==> r == Err::<(), StepError>(StepError::Failed)
                && final(self).trace() == old(self).trace() && final(self).signals_view()
                == old(self).signals_view() && final(self).probes_view() == old(self).probes_view()
                && final(self).state() == EngineState::Failed,
            old(self).state() == EngineState::Idle && r is Ok ==> final(self).trace() == old(
                self,
            ).trace() + step_trace(old(self).n_operators(), old(self).probes_view().len())
                && final(self).state() == EngineState::Idle && step_allows(
                old(self).operators_view(),
                old(self).signals_view(),
                old(self).probes_view(),
                final(self).signals_view(),
                final(self).probes_view(),
            ),
            old(self).state() == EngineState::Idle && r is Err ==> (r->Err_0 matches StepError::OperatorFailure(k, e) && k < old(self).n_operators()
                && final(self).trace() == old(self).trace() + operators_trace((k + 1) as nat)
                && final(self).state() == EngineState::Failed
                && final(self).probes_view() == old(self).probes_view()
                && operators_fail(
                old(self).operators_view(),
                old(self).signals_view(),
                final(self).signals_view(),
                k as nat,
                e,
            )),
    {
        if self.state == EngineState::Failed {
            let _ = self.is_done.set();
            return Err(StepError::Failed);
        }
        let _ = self.is_done.clear();
        let ghost t0 = self.trace@;
        let ghost ops = self.operators@;
        let ghost s0 = self.signals@;
        let ghost tables: Seq<Seq<SignalView>> = seq![s0];
        let n = self.operators.len();
        let m = self.probes.len();
        let mut i: usize = 0;
        while i < n
            invariant
                i <= n,
                n == self.operators@.len(),
                m == self.probes@.len(),
                self.wf(),
                self.state == EngineState::Idle,
                self.operators@ == old(self).operators@,
                ops == old(self).operators@,
                s0 == old(self).signals@,
                self.probes@ == old(self).probes@,
                self.signals@.len() == old(self).signals@.len(),
                self.trace@ == t0 + operators_trace(i as nat),
                t0 == old(self).trace@,
                old(self).state == EngineState::Idle,
                operators_chain(ops, tables, i as nat),
                same_layout(s0, self.signals@),
                tables[0] == s0,
                tables[i as int] == self.signals@,
            decreases n - i,
        {
            let ghost before = self.signals@;
            let r = self.operators[i].operator.step(&mut self.signals);
            let ghost rr = r;
            proof {
                lemma_same_layout_trans(s0, before, self.signals@);
                assert(self.operators@[i as int].operator.step_allows(before, self.signals@, rr));
            }
            self.trace = Ghost(self.trace@.push(Activity::Step(i as int)));
            proof {
                assert(operators_trace((i + 1) as nat) =~= operators_trace(i as nat).push(Activity::Step(i as int)));
            }
            match r {
                Ok(()) => {
                    proof {
                        let t2 = tables.push(self.signals@);
                        assert(rr is Ok);
                        assert(step_succeeds(ops[i as int].operator, before, self.signals@));
                        assert forall|j: int| 0 <= j < i + 1 implies #[trigger] step_succeeds(ops[j].operator, t2[j], t2[j + 1]) by {
                            if j < i {
                                assert(t2[j] == tables[j] && t2[j + 1] == tables[j + 1]);
                            }
                        }
                        tables = t2;
                    }
                },
                Err(e) => {
                    self.state = EngineState::Failed;
                    let _ = self.is_done.set();
                    proof {
                        assert(ops[i as int].operator.step_allows(tables[i as int], self.signals@, Err(e)));
                        assert(operators_fail(ops, s0, self.signals@, i as nat, e));
                    }
                    return Err(StepError::OperatorFailure(i, e));
                },
            }
            i = i + 1;
        }
        proof {
            assert(operators_allow(ops, s0, self.signals@));
        }
        let ghost s1 = self.signals@;
        let ghost p0 = self.probes@;
        let mut p: usize = 0;
        while p < m
            invariant
                p <= m,
                n == self.operators@.len(),
                m == self.probes@.len(),
                m == p0.len(),
                self.wf(),
                self.state == EngineState::Idle,
                self.operators@ == old(self).operators@,
                p0 == old(self).probes@,
                self.signals@ == s1,
                same_layout(s0, s1),
                s0 == old(self).signals@,
                self.trace@ == t0 + operators_trace(n as nat) + probes_trace(p as nat),
                t0 == old(self).trace@,
                old(self).state == EngineState::Idle,
                forall|q: int| 0 <= q < p ==> #[trigger] p0[q].sample_allows(s1, self.probes@[q]),
                forall|q: int| p <= q < m ==> #[trigger] self.probes@[q] == p0[q],
            decreases m - p,
        {
            self.probes[p].probe(&self.signals);
            self.trace = Ghost(self.trace@.push(Activity::Sample(p as int)));
            proof {
                assert(probes_trace((p + 1) as nat) =~= probes_trace(p as nat).push(Activity::Sample(p as int)));
            }
            p = p + 1;
        }
        let _ = self.is_done.set();
        proof {
            assert(t0 + operators_trace(n as nat) + probes_trace(m as nat) =~= t0 + step_trace(n as nat, m as nat));
            assert(probes_allow(p0, s1, self.probes@));
        }
        Ok(())
    }

    /// Runs `n_steps` steps in a row (none when `n_steps` is not positive),
    /// stopping at the first failure, which is returned.
    pub fn run_steps(&mut self, n_steps: i64) -> (r: Result<(), StepError>)
        requires
            old(self).wf(),
        ensures
            final(self).wf(),
            final(self).operators_view() == old(self).operators_view(),
            final(self).dependencies() == old(self).dependencies(),
            final(self).n_operators() == old(self).n_operators(),
            final(self).probes_view().len() == old(self).probes_view().len(),
            same_layout(old(self).signals_view(), final(self).signals_view()),
            n_steps <= 0 ==> r is Ok && final(self).trace() == old(self).trace()
                && final(self).signals_view() == old(self).signals_view()
                && final(self).probes_view() == old(self).probes_view()
                && final(self).state() == old(self).state(),
            n_steps > 0 && old(self).state() == EngineState::Failed ==> r == Err::<(), StepError>(StepError::Failed),
            old(self).state() == EngineState::Idle && r is Ok ==> final(self).trace() == old(
                self,
            ).trace() + steps_trace(
                old(self).n_operators(),
                old(self).probes_view().len(),
                if n_steps > 0 { n_steps as nat } else { 0 },
            ) && final(self).state() == EngineState::Idle && steps_allow(
                old(self).operators_view(),
                old(self).signals_view(),
                old(self).probes_view(),
                final(self).signals_view(),
                final(self).probes_view(),
                if n_steps > 0 { n_steps as nat } else { 0 },
            ),
            r is Err ==> final(self).state() == EngineState::Failed,
    {
        let ghost t0 = self.trace@;
        let ghost n_ops = self.operators@.len();
        let ghost n_probes = self.probes@.len();
        let ghost ops = self.operators@;
        let ghost ss: Seq<Seq<SignalView>> = seq![self.signals@];
        let ghost ps: Seq<Seq<P>> = seq![self.probes@];
        let mut k: i64 = 0;
        while k < n_steps
            invariant
                0 <= k,
                n_steps <= 0 ==> k == 0,
                n_steps > 0 ==> k <= n_steps,
                self.wf(),
                self.operators@ == ops,
                ops == old(self).operators@,
                self.operators@.len() == n_ops,
                self.probes@.len() == n_probes,
                n_ops == old(self).operators@.len(),
                n_probes == old(self).probes@.len(),
                t0 == old(self).trace@,
                k == 0 ==> self.trace@ == t0 && self.signals@ == old(self).signals@ && self.probes@ == old(self).probes@ && self.state == old(self).state,
                old(self).state == EngineState::Failed ==> k == 0,
                old(self).state == EngineState::Idle ==> self.state == EngineState::Idle && self.trace@ == t0 + steps_trace(n_ops, n_probes, k as nat),
                same_layout(old(self).signals@, self.signals@),
                ss.len() == k + 1,
                ps.len() == k + 1,
                ss[0] == old(self).signals@,
                ps[0] == old(self).probes@,
                ss[k as int] == self.signals@,
                ps[k as int] == self.probes@,
                forall|i: int| 0 <= i < k ==> #[trigger] step_allows(ops, ss[i], ps[i], ss[i + 1], ps[i + 1]),
            decreases n_steps - k,
        {
            let ghost before = self.signals@;
            let r = self.run_step();
            proof {
                lemma_same_layout_trans(old(self).signals@, before, self.signals@);
            }
            match r {
                Ok(()) => {},
                Err(e) => {
                    return Err(e);
                },
            }
            proof {
                assert(t0 + steps_trace(n_ops, n_probes, (k + 1) as nat) =~= t0 + steps_trace(n_ops, n_probes, k as nat) + step_trace(n_ops, n_probes));
                let ss2 = ss.push(self.signals@);
                let ps2 = ps.push(self.probes@);
                assert forall|i: int| 0 <= i < k + 1 implies #[trigger] step_allows(ops, ss2[i], ps2[i], ss2[i + 1], ps2[i + 1]) by {
                    if i < k {
                        assert(ss2[i] == ss[i] && ss2[i + 1] == ss[i + 1] && ps2[i] == ps[i] && ps2[i + 1] == ps[i + 1]);
                    }
                }
                ss = ss2;
                ps = ps2;
            }
            k = k + 1;
        }
        proof {
            let nn: nat = if n_steps > 0 { n_steps as nat } else { 0 };
            assert(k == nn);
            assert(ss[nn as int] == self.signals@);
        }
        Ok(())
    }

    /// Resets every signal to its initial value, in index order. Probe
    /// samples are kept.
    pub fn reset(&mut self)
        requires
            old(self).wf(),
        ensures
            final(self).wf(),
            final(self).signals_view() == reset_all_spec(
                old(self).signals_view(),
                old(self).signals_view().len(),
            ),
            final(self).dependencies() == old(self).dependencies(),
            final(self).n_operators() == old(self).n_operators(),
            final(self).probes_view() == old(self).probes_view(),
            final(self).state() == old(self).state(),
            final(self).trace() == old(self).trace(),
    {
        self.signals.reset_all();
    }
}

} // verus!
