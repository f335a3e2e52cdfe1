use vstd::prelude::*;

use crate::array::{as_ints, fits_i64, NdArray};
use crate::error::OperatorError;
use crate::signal::{same_layout, copy_indices, copy_values, table_wf, SignalTable, SignalView};

pub mod copy;
pub mod dot_inc;
pub mod elementwise_inc;
pub mod reset;
pub mod sim_neurons;
pub mod sim_process;
pub mod sim_pyfunc;
pub mod time_update;

verus! {

/// A compute node of the graph: one `step` per tick, reading and writing
/// signals of the table.
pub trait Operator {
    /// Whether one step may go from table `before` to table `after` and
    /// return `r`. An operator that does not say claims nothing.
    open spec fn step_allows(
        &self,
        before: Seq<SignalView>,
        after: Seq<SignalView>,
        r: Result<(), OperatorError>,
    ) -> bool {
        true
    }

    /// Runs one step, as `step_allows` says. The table stays consistent and
    /// keeps its signals.
    fn step(&self, signals: &mut SignalTable) -> (r: Result<(), OperatorError>)
        requires
            table_wf(old(signals)@),
        ensures
            table_wf(final(signals)@),
            final(signals)@.len() == old(signals)@.len(),
            same_layout(old(signals)@, final(signals)@),
            self.step_allows(old(signals)@, final(signals)@, r),
    ;
}

/// An operator with the indices of the operators that must complete, within
/// the same step, before it starts.
pub struct OperatorNode<O> {
    pub operator: O,
    pub dependencies: Vec<usize>,
}

/// A value handed to a host function.
#[derive(Debug)]
pub enum HostArg {
    Scalar(i64),
    Array(NdArray),
}

/// A host argument holding the array of this shape and these values.
pub open spec fn is_array_arg(a: HostArg, shape: Seq<usize>, data: Seq<i64>) -> bool {
    match a {
        HostArg::Array(x) => x.shape@ == shape && x.data@ == data,
        HostArg::Scalar(_) => false,
    }
}

/// A host argument holding the scalar `v`.
pub open spec fn is_scalar_arg(a: HostArg, v: i64) -> bool {
    a == HostArg::Scalar(v)
}

/// A function of the embedding host, called by the host-callback operators.
/// It may change its arguments in place, and returns an array, nothing, or a
/// failure.
pub trait HostFunction {
    /// Calls the function.
    fn call(&self, args: &mut Vec<HostArg>) -> Result<Option<NdArray>, OperatorError>;
}

/// A copy of an array.
pub fn copy_array(a: &NdArray) -> (r: NdArray)
    ensures
        r.shape@ == a.shape@,
        r.data@ == a.data@,
{
    NdArray { shape: copy_indices(&a.shape), data: copy_values(&a.data) }
}

/// A copy of a host argument.
pub fn copy_arg(a: &HostArg) -> (r: HostArg)
    ensures
        match *a {
            HostArg::Scalar(v) => r == HostArg::Scalar(v),
            HostArg::Array(x) => is_array_arg(r, x.shape@, x.data@),
        },
{
    match a {
        HostArg::Scalar(v) => HostArg::Scalar(*v),
        HostArg::Array(x) => HostArg::Array(copy_array(x)),
    }
}

/// Any of the operator kinds of this library, so that one engine can drive
/// a graph that mixes them.
pub enum AnyOperator<F> {
    Reset(reset::Reset),
    TimeUpdate(time_update::TimeUpdate),
    Copy(copy::CopyOp),
    ElementwiseInc(elementwise_inc::ElementwiseInc),
    DotInc(dot_inc::DotInc),
    SimNeurons(sim_neurons::SimNeurons<F>),
    SimProcess(sim_process::SimProcess<F>),
    SimPyFunc(sim_pyfunc::SimPyFunc<F>),
}

impl<F: HostFunction> Operator for AnyOperator<F> {
    open spec fn step_allows(
        &self,
        before: Seq<SignalView>,
        after: Seq<SignalView>,
        r: Result<(), OperatorError>,
    ) -> bool {
        match self {
            AnyOperator::Reset(op) => op.step_allows(before, after, r),
            AnyOperator::TimeUpdate(op) => op.step_allows(before, after, r),
            AnyOperator::Copy(op) => op.step_allows(before, after, r),
            AnyOperator::ElementwiseInc(op) => op.step_allows(before, after, r),
            AnyOperator::DotInc(op) => op.step_allows(before, after, r),
            AnyOperator::SimNeurons(op) => op.step_allows(before, after, r),
            AnyOperator::SimProcess(op) => op.step_allows(before, after, r),
            AnyOperator::SimPyFunc(op) => op.step_allows(before, after, r),
        }
    }

    fn step(&self, signals: &mut SignalTable) -> (r: Result<(), OperatorError>) {
        match self {
            AnyOperator::Reset(op) => op.apply(signals),
            AnyOperator::TimeUpdate(op) => op.apply(signals),
            AnyOperator::Copy(op) => op.apply(signals),
            AnyOperator::ElementwiseInc(op) => op.apply(signals),
            AnyOperator::DotInc(op) => op.apply(signals),
            AnyOperator::SimNeurons(op) => op.apply(signals),
            AnyOperator::SimProcess(op) => op.apply(signals),
            AnyOperator::SimPyFunc(op) => op.apply(signals),
        }
    }
}

/// The values of `s` as `i64` (each of them is meant to fit).
pub open spec fn to_i64(s: Seq<int>) -> Seq<i64> {
    Seq::new(s.len(), |i: int| s[i] as i64)
}

/// A run of an operator whose exact outcome is `outcome` (the resulting table,
/// or the error) went from `before` to `after` and returned `r`; a failed run
/// leaves the table as it was.
pub open spec fn follows(
    outcome: Result<Seq<SignalView>, OperatorError>,
    before: Seq<SignalView>,
    after: Seq<SignalView>,
    r: Result<(), OperatorError>,
) -> bool {
    match outcome {
        Ok(t) => r is Ok && after == t,
        Err(e) => r == Err::<(), OperatorError>(e) && after == before,
    }
}

/// Values that fit `i64` read back as themselves.
pub proof fn lemma_to_i64(r: Seq<i64>, s: Seq<int>)
    requires
        as_ints(r) == s,
    ensures
        r == to_i64(s),
        fits_i64(s),
{
    assert(r =~= to_i64(s));
}

} // verus!
