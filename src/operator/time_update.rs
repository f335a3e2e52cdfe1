use vstd::prelude::*;

use crate::error::OperatorError;
use crate::engine::{operators_allow, step_allows, step_succeeds, steps_allow};
use crate::operator::{follows, Operator, OperatorNode};
use crate::probe::Probe;
use crate::signal::{same_layout, lemma_write_wf, table_wf, value_of, write_spec, SignalTable, SignalView};

verus! {

/// Advances the step counter by one and sets the time to `step * dt`.
#[derive(Debug, Clone, Copy, PartialEq, Eq, Structural)]
pub struct TimeUpdate {
    pub dt: i64,
    pub step_target: usize,
    pub time_target: usize,
}

impl TimeUpdate {
    /// The table after one step, or the error: both targets must be scalars,
    /// and the new step and time must fit `i64`.
    pub open spec fn outcome(&self, t: Seq<SignalView>) -> Result<Seq<SignalView>, OperatorError> {
        let (st, tt) = (self.step_target as int, self.time_target as int);
        if !(st < t.len() && tt < t.len() && t[st].kind is Scalar && t[tt].kind is Scalar) {
            Err(OperatorError::TypeMismatch)
        } else {
            let step = value_of(t, st)[0] + 1;
            let time = step * self.dt;
            if !(step <= i64::MAX && i64::MIN <= time <= i64::MAX) {
                Err(OperatorError::Overflow)
            } else {
                Ok(write_spec(write_spec(t, st, seq![step as i64]), tt, seq![time as i64]))
            }
        }
    }

    /// Runs one step.
    pub fn apply(&self, signals: &mut SignalTable) -> (r: Result<(), OperatorError>)
        requires
            table_wf(old(signals)@),
        ensures
            table_wf(final(signals)@),
            final(signals)@.len() == old(signals)@.len(),
            same_layout(old(signals)@, final(signals)@),
            follows(self.outcome(old(signals)@), old(signals)@, final(signals)@, r),
    {
        let step = match signals.scalar_value(self.step_target) {
            Some(v) => v,
            None => {
                return Err(OperatorError::TypeMismatch);
            },
        };
        if self.time_target >= signals.len() || !signals.is_scalar(self.time_target) {
            return Err(OperatorError::TypeMismatch);
        }
        proof {
            assert(value_of(signals@, self.step_target as int)[0] == step);
        }
        let next = match step.checked_add(1) {
            Some(v) => v,
            None => {
                return Err(OperatorError::Overflow);
            },
        };
        let time = match next.checked_mul(self.dt) {
            Some(v) => v,
            None => {
                return Err(OperatorError::Overflow);
            },
        };
        let ghost t0 = signals@;
        let _ = signals.write_scalar(self.step_target, next);
        let _ = signals.write_scalar(self.time_target, time);
        proof {
            crate::signal::lemma_write_wf(t0, self.step_target as int, seq![next]);
        }
        Ok(())
    }
}

/// The outcome of `k` steps in a row, stopping at the first error.
pub open spec fn time_update_steps(op: TimeUpdate, t: Seq<SignalView>, k: nat) -> Result<
    Seq<SignalView>,
    OperatorError,
>
    decreases k,
{
    if k == 0 {
        Ok(t)
    } else {
        match time_update_steps(op, t, (k - 1) as nat) {
            Ok(t2) => op.outcome(t2),
            Err(e) => Err(e),
        }
    }
}

/// Writing one value into a scalar: reading it yields that value, every
/// other scalar keeps its value, and every signal keeps its kind.
pub proof fn lemma_scalar_write(t: Seq<SignalView>, id: int, v: i64)
    requires
        table_wf(t),
        0 <= id < t.len(),
        t[id].kind is Scalar,
    ensures
        table_wf(write_spec(t, id, seq![v])),
        write_spec(t, id, seq![v]).len() == t.len(),
        value_of(write_spec(t, id, seq![v]), id) == seq![v],
        forall|k: int|
            0 <= k < t.len() && k != id && t[k].kind is Scalar ==> value_of(
                write_spec(t, id, seq![v]),
                k,
            ) == value_of(t, k),
        forall|k: int| 0 <= k < t.len() ==> (#[trigger] write_spec(t, id, seq![v])[k]).kind == t[k].kind,
{
    assert(crate::signal::signal_wf(t, id));
    lemma_write_wf(t, id, seq![v]);
}

/// From a step counter at zero, `k` steps of a time update leave the counter
/// at `k` and the time at exactly `k * dt`, provided that value fits `i64`.
pub proof fn lemma_time_update_counts(op: TimeUpdate, t: Seq<SignalView>, k: nat)
    requires
        table_wf(t),
        op.step_target < t.len(),
        op.time_target < t.len(),
        op.step_target != op.time_target,
        t[op.step_target as int].kind is Scalar,
        t[op.time_target as int].kind is Scalar,
        value_of(t, op.step_target as int) == seq![0i64],
        k <= i64::MAX,
        i64::MIN <= k * op.dt <= i64::MAX,
    ensures
        time_update_steps(op, t, k) is Ok,
        ({
            let t2 = time_update_steps(op, t, k)->Ok_0;
            &&& table_wf(t2)
            &&& t2.len() == t.len()
            &&& t2[op.step_target as int].kind is Scalar
            &&& t2[op.time_target as int].kind is Scalar
            &&& value_of(t2, op.step_target as int) == seq![k as i64]
            &&& k > 0 ==> value_of(t2, op.time_target as int) == seq![(k * op.dt) as i64]
        }),
    decreases k,
{
    if k > 0 {
        let j = (k - 1) as nat;
        let dt = op.dt as int;
        assert(i64::MIN <= j * dt <= i64::MAX) by (nonlinear_arith)
            requires
                i64::MIN <= k * dt <= i64::MAX,
                j + 1 == k,
                j >= 0,
        ;
        lemma_time_update_counts(op, t, j);
        let t2 = time_update_steps(op, t, j)->Ok_0;
        let (st, tt) = (op.step_target as int, op.time_target as int);
        assert(value_of(t2, st)[0] == j);
        let t3 = write_spec(t2, st, seq![k as i64]);
        lemma_scalar_write(t2, st, k as i64);
        lemma_scalar_write(t3, tt, (k * dt) as i64);
        assert(t3[tt].kind is Scalar);
    }
}

/// The tables of a run of complete steps of a one-operator time-update engine
/// are the successive outcomes of the time update.
proof fn lemma_engine_time_prefix<P: Probe>(
    ops: Seq<OperatorNode<TimeUpdate>>,
    ss: Seq<Seq<SignalView>>,
    ps: Seq<Seq<P>>,
    j: int,
)
    requires
        ops.len() == 1,
        0 <= j < ss.len(),
        ps.len() == ss.len(),
        forall|i: int| 0 <= i < j ==> #[trigger] step_allows(ops, ss[i], ps[i], ss[i + 1], ps[i + 1]),
    ensures
        time_update_steps(ops[0].operator, ss[0], j as nat) == Ok::<Seq<SignalView>, OperatorError>(ss[j]),
    decreases j,
{
    if j > 0 {
        let op = ops[0].operator;
        let i = j - 1;
        lemma_engine_time_prefix(ops, ss, ps, i);
        assert(step_allows(ops, ss[i], ps[i], ss[i + 1], ps[i + 1]));
        assert(operators_allow(ops, ss[i], ss[i + 1]));
        let tables = choose|tables: Seq<Seq<SignalView>>|
            crate::engine::operators_chain(ops, tables, ops.len()) && tables[0] == ss[i]
                && #[trigger] tables[ops.len() as int] == ss[i + 1];
        assert(crate::engine::operators_chain(ops, tables, 1));
        assert(step_succeeds(ops[0].operator, tables[0], tables[0int + 1]));
        assert(tables[1] == ss[j]);
        let r = choose|r: Result<(), OperatorError>| r is Ok && #[trigger] op.step_allows(tables[0], tables[1], r);
        assert(follows(op.outcome(ss[i]), ss[i], ss[j], r));
    }
}

/// An engine whose only operator is a time update, started with the step
/// counter at zero, holds after `k` complete steps the counter `k` and the
/// time `k * dt` (when that fits `i64`), whatever its probes are.
pub proof fn lemma_engine_time_loop<P: Probe>(
    ops: Seq<OperatorNode<TimeUpdate>>,
    s0: Seq<SignalView>,
    p0: Seq<P>,
    s1: Seq<SignalView>,
    p1: Seq<P>,
    k: nat,
)
    requires
        ops.len() == 1,
        steps_allow(ops, s0, p0, s1, p1, k),
        table_wf(s0),
        ops[0].operator.step_target < s0.len(),
        ops[0].operator.time_target < s0.len(),
        ops[0].operator.step_target != ops[0].operator.time_target,
        s0[ops[0].operator.step_target as int].kind is Scalar,
        s0[ops[0].operator.time_target as int].kind is Scalar,
        value_of(s0, ops[0].operator.step_target as int) == seq![0i64],
        k <= i64::MAX,
        i64::MIN <= k * ops[0].operator.dt <= i64::MAX,
    ensures
        value_of(s1, ops[0].operator.step_target as int) == seq![k as i64],
        k > 0 ==> value_of(s1, ops[0].operator.time_target as int) == seq![(k * ops[0].operator.dt) as i64],
{
    let op = ops[0].operator;
    let (ss, ps) = choose|ss: Seq<Seq<SignalView>>, ps: Seq<Seq<P>>|
        #![trigger ss[k as int], ps[k as int]]
        ss.len() == k + 1 && ps.len() == k + 1 && ss[0] == s0 && ps[0] == p0 && ss[k as int]
            == s1 && ps[k as int] == p1 && forall|i: int|
            0 <= i < k ==> #[trigger] step_allows(ops, ss[i], ps[i], ss[i + 1], ps[i + 1]);
    lemma_engine_time_prefix(ops, ss, ps, k as int);
    lemma_time_update_counts(op, s0, k);
}

/// Resetting every signal of a one-time-update engine whose step counter
/// starts at zero, then running one complete step, leaves the counter at one
/// and the time at `dt`, however many steps ran before the reset.
pub proof fn lemma_reset_then_step<P: Probe>(
    ops: Seq<OperatorNode<TimeUpdate>>,
    t: Seq<SignalView>,
    p0: Seq<P>,
    s1: Seq<SignalView>,
    p1: Seq<P>,
)
    requires
        ops.len() == 1,
        table_wf(t),
        ops[0].operator.step_target < t.len(),
        ops[0].operator.time_target < t.len(),
        ops[0].operator.step_target != ops[0].operator.time_target,
        t[ops[0].operator.step_target as int].kind is Scalar,
        t[ops[0].operator.time_target as int].kind is Scalar,
        t[ops[0].operator.step_target as int].initial == Some(seq![0i64]),
        steps_allow(ops, crate::signal::reset_all_spec(t, t.len()), p0, s1, p1, 1),
    ensures
        value_of(s1, ops[0].operator.step_target as int) == seq![1i64],
        value_of(s1, ops[0].operator.time_target as int) == seq![ops[0].operator.dt],
{
    let op = ops[0].operator;
    let u = crate::signal::reset_all_spec(t, t.len());
    crate::signal::lemma_reset_all_idempotent(t);
    crate::signal::lemma_reset_all_positions(t, t.len());
    crate::signal::lemma_reset_all_scalar(t, op.step_target as int);
    assert(u[op.time_target as int].kind == t[op.time_target as int].kind);
    lemma_engine_time_loop(ops, u, p0, s1, p1, 1);
    assert(1 * op.dt == op.dt);
}

impl Operator for TimeUpdate {
    /// One step reaches exactly `outcome`.
    open spec fn step_allows(
        &self,
        before: Seq<SignalView>,
        after: Seq<SignalView>,
        r: Result<(), OperatorError>,
    ) -> bool {
        follows(self.outcome(before), before, after, r)
    }

    fn step(&self, signals: &mut SignalTable) -> (r: Result<(), OperatorError>) {
        self.apply(signals)
    }
}

} // verus!
