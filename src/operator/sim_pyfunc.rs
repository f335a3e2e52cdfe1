use vstd::prelude::*;

use crate::array::NdArray;
use crate::error::OperatorError;
use crate::operator::{follows, is_array_arg, is_scalar_arg, HostArg, HostFunction, Operator};
use crate::signal::{same_layout, table_wf, value_of, write_spec, SignalTable, SignalView};

verus! {

/// Calls a host function with those of the time and an input that are
/// given, and stores the array it returns into `output`.
pub struct SimPyFunc<F> {
    pub x: Option<usize>,
    pub t: Option<usize>,
    pub output: usize,
    pub py_fn: F,
}

/// What storing a host function's result into `output` does: nothing for no
/// result; otherwise the result must be an array of the output's shape, one
/// value per element, and is written into it.
pub open spec fn store_outcome(
    t: Seq<SignalView>,
    output: int,
    result: Option<NdArray>,
) -> Result<Seq<SignalView>, OperatorError> {
    match result {
        None => Ok(t),
        Some(a) => if a.shape@ == t[output].shape && a.wf() {
            Ok(write_spec(t, output, a.data@))
        } else {
            Err(OperatorError::CallbackTypeError)
        },
    }
}

/// Stores a host function's result into the array signal `output`.
pub fn store_result(signals: &mut SignalTable, output: usize, result: &Option<NdArray>) -> (r: Result<(), OperatorError>)
    requires
        table_wf(old(signals)@),
        output < old(signals)@.len(),
        !(old(signals)@[output as int].kind is Scalar),
    ensures
        table_wf(final(signals)@),
        final(signals)@.len() == old(signals)@.len(),
        same_layout(old(signals)@, final(signals)@),
        follows(store_outcome(old(signals)@, output as int, *result), old(signals)@, final(signals)@, r),
{
    match result {
        None => Ok(()),
        Some(a) => match signals.assign_array(output, a) {
            Ok(()) => Ok(()),
            Err(_) => Err(OperatorError::CallbackTypeError),
        },
    }
}

impl<F: HostFunction> SimPyFunc<F> {
    /// The signals are of the right kinds: `output` and `x` arrays, `t` a
    /// scalar.
    pub open spec fn kinds_ok(&self, t: Seq<SignalView>) -> bool {
        &&& self.output < t.len() && !(t[self.output as int].kind is Scalar)
        &&& (self.t is Some ==> self.t->Some_0 < t.len() && t[self.t->Some_0 as int].kind is Scalar)
        &&& (self.x is Some ==> self.x->Some_0 < t.len() && !(t[self.x->Some_0 as int].kind is Scalar))
    }

    /// The arguments of the call: the time if given, then the input if
    /// given.
    pub fn call_args(&self, signals: &SignalTable) -> (r: Result<Vec<HostArg>, OperatorError>)
        requires
            table_wf(signals@),
        ensures
            r is Ok <==> self.kinds_ok(signals@),
            r is Err ==> r->Err_0 == OperatorError::TypeMismatch,
            r is Ok ==> {
                let args = r->Ok_0@;
                &&& args.len() == (if self.t is Some { 1int } else { 0int }) + (if self.x is Some { 1int } else { 0int })
                &&& self.t is Some ==> is_scalar_arg(args[0], value_of(signals@, self.t->Some_0 as int)[0])
                &&& self.x is Some ==> is_array_arg(
                    args[args.len() - 1],
                    signals@[self.x->Some_0 as int].shape,
                    value_of(signals@, self.x->Some_0 as int),
                )
            },
    {
        let n = signals.len();
        if self.output >= n || signals.is_scalar(self.output) {
            return Err(OperatorError::TypeMismatch);
        }
        let time = match self.t {
            Some(t) => match signals.scalar_value(t) {
                Some(v) => Some(v),
                None => {
                    return Err(OperatorError::TypeMismatch);
                },
            },
            None => None,
        };
        let input = match self.x {
            Some(x) => {
                if x >= n || signals.is_scalar(x) {
                    return Err(OperatorError::TypeMismatch);
                }
                Some(NdArray { shape: signals.shape(x), data: signals.read(x) })
            },
            None => None,
        };
        let mut args: Vec<HostArg> = Vec::new();
        match time {
            Some(v) => args.push(HostArg::Scalar(v)),
            None => {},
        }
        match input {
            Some(a) => args.push(HostArg::Array(a)),
            None => {},
        }
        Ok(args)
    }

    /// Runs one step. Unless a signal is of the wrong kind, the host function
    /// is called; its failure leaves the table as it was, and what it returns
    /// is stored as `store_outcome` says.
    pub fn apply(&self, signals: &mut SignalTable) -> (r: Result<(), OperatorError>)
        requires
            table_wf(old(signals)@),
        ensures
            table_wf(final(signals)@),
            final(signals)@.len() == old(signals)@.len(),
            same_layout(old(signals)@, final(signals)@),
            !self.kinds_ok(old(signals)@) ==> r == Err::<(), OperatorError>(OperatorError::TypeMismatch)
                && final(signals)@ == old(signals)@,
            r == Err::<(), OperatorError>(OperatorError::CallbackFailed) ==> final(signals)@ == old(signals)@,
            self.kinds_ok(old(signals)@) && r != Err::<(), OperatorError>(OperatorError::CallbackFailed) ==> exists|res: Option<NdArray>|
                follows(store_outcome(old(signals)@, self.output as int, res), old(signals)@, final(signals)@, r),
    {
        let mut args = match self.call_args(signals) {
            Ok(a) => a,
            Err(e) => {
                return Err(e);
            },
        };
        let result = match self.py_fn.call(&mut args) {
            Ok(res) => res,
            Err(_) => {
                return Err(OperatorError::CallbackFailed);
            },
        };
        store_result(signals, self.output, &result)
    }
}

impl<F: HostFunction> Operator for SimPyFunc<F> {
    /// A wrong kind of signal fails with `TypeMismatch` and a failed call
    /// changes nothing; otherwise the step stores some result of the call as
    /// `store_outcome` says.
    open spec fn step_allows(
        &self,
        before: Seq<SignalView>,
        after: Seq<SignalView>,
        r: Result<(), OperatorError>,
    ) -> bool {
        &&& (!self.kinds_ok(before) ==> r == Err::<(), OperatorError>(OperatorError::TypeMismatch)
            && after == before)
        &&& (r == Err::<(), OperatorError>(OperatorError::CallbackFailed) ==> after == before)
        &&& (self.kinds_ok(before) && r != Err::<(), OperatorError>(OperatorError::CallbackFailed)
            ==> exists|res: Option<NdArray>| follows(store_outcome(before, self.output as int, res), before, after, r))
    }

    fn step(&self, signals: &mut SignalTable) -> (r: Result<(), OperatorError>) {
        self.apply(signals)
    }
}

} // verus!
