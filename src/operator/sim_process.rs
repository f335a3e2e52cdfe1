use vstd::prelude::*;

use crate::array::{add_values, as_ints, fits_i64, sum_seq, NdArray};
use crate::error::OperatorError;
use crate::operator::sim_pyfunc::store_result;
use crate::operator::{
    follows, is_array_arg, is_scalar_arg, lemma_to_i64, to_i64, HostArg, HostFunction, Operator,
};
use crate::signal::{same_layout, 
    lemma_value_len, same_shape, table_wf, value_of, write_spec, SignalTable, SignalView,
};

verus! {

/// Calls a host function with the time and, if given, an input, and stores
/// the array it returns into `output`, or with `mode_inc` adds it.
pub struct SimProcess<F> {
    pub mode_inc: bool,
    pub t: usize,
    pub input: Option<usize>,
    pub output: usize,
    pub step_fn: F,
}

impl<F: HostFunction> SimProcess<F> {
    /// The signals are of the right kinds: `t` a scalar, `input` and
    /// `output` arrays.
    pub open spec fn kinds_ok(&self, t: Seq<SignalView>) -> bool {
        &&& self.output < t.len() && !(t[self.output as int].kind is Scalar)
        &&& self.t < t.len() && t[self.t as int].kind is Scalar
        &&& (self.input is Some ==> self.input->Some_0 < t.len() && !(
        t[self.input->Some_0 as int].kind is Scalar))
    }

    /// What storing the host function's result does: nothing for no result;
    /// otherwise the result must be an array of the output's shape, one value
    /// per element, which replaces the output or, with `mode_inc`, is added
    /// to it (every sum fitting `i64`).
    pub open spec fn result_outcome(&self, t: Seq<SignalView>, result: Option<NdArray>) -> Result<
        Seq<SignalView>,
        OperatorError,
    > {
        let out = self.output as int;
        match result {
            None => Ok(t),
            Some(a) => if !(a.shape@ == t[out].shape && a.wf()) {
                Err(OperatorError::CallbackTypeError)
            } else if self.mode_inc {
                let sum = sum_seq(value_of(t, out), as_ints(a.data@));
                if fits_i64(sum) {
                    Ok(write_spec(t, out, to_i64(sum)))
                } else {
                    Err(OperatorError::Overflow)
                }
            } else {
                Ok(write_spec(t, out, a.data@))
            },
        }
    }

    /// The arguments of the call: the time, then the input if given.
    pub fn call_args(&self, signals: &SignalTable) -> (r: Result<Vec<HostArg>, OperatorError>)
        requires
            table_wf(signals@),
        ensures
            r is Ok <==> self.kinds_ok(signals@),
            r is Err ==> r->Err_0 == OperatorError::TypeMismatch,
            r is Ok ==> {
                let args = r->Ok_0@;
                &&& is_scalar_arg(args[0], value_of(signals@, self.t as int)[0])
                &&& self.input is None ==> args.len() == 1
                &&& self.input is Some ==> args.len() == 2 && is_array_arg(
                    args[1],
                    signals@[self.input->Some_0 as int].shape,
                    value_of(signals@, self.input->Some_0 as int),
                )
            },
    {
        let n = signals.len();
        if self.output >= n || signals.is_scalar(self.output) {
            return Err(OperatorError::TypeMismatch);
        }
        let time = match signals.scalar_value(self.t) {
            Some(v) => v,
            None => {
                return Err(OperatorError::TypeMismatch);
            },
        };
        let mut args: Vec<HostArg> = Vec::new();
        args.push(HostArg::Scalar(time));
        match self.input {
            Some(x) => {
                if x >= n || signals.is_scalar(x) {
                    return Err(OperatorError::TypeMismatch);
                }
                args.push(HostArg::Array(NdArray { shape: signals.shape(x), data: signals.read(x) }));
            },
            None => {},
        }
        Ok(args)
    }

    /// Stores the host function's result as `result_outcome` says.
    pub fn store(&self, signals: &mut SignalTable, result: &Option<NdArray>) -> (r: Result<(), OperatorError>)
        requires
            table_wf(old(signals)@),
            self.output < old(signals)@.len(),
            !(old(signals)@[self.output as int].kind is Scalar),
        ensures
            table_wf(final(signals)@),
            final(signals)@.len() == old(signals)@.len(),
            same_layout(old(signals)@, final(signals)@),
            follows(self.result_outcome(old(signals)@, *result), old(signals)@, final(signals)@, r),
    {
        if !self.mode_inc {
            return store_result(signals, self.output, result);
        }
        match result {
            None => Ok(()),
            Some(a) => {
                let shape = signals.shape(self.output);
                if !same_shape(&shape, &a.shape) {
                    return Err(OperatorError::CallbackTypeError);
                }
                proof {
                    lemma_value_len(signals@, self.output as int);
                }
                if signals.element_count(self.output) != a.data.len() {
                    return Err(OperatorError::CallbackTypeError);
                }
                let current = signals.read(self.output);
                match add_values(&current, &a.data) {
                    Ok(v) => {
                        proof {
                            lemma_to_i64(v@, sum_seq(current@, as_ints(a.data@)));
                        }
                        signals.write(self.output, &v);
                        Ok(())
                    },
                    Err(e) => Err(e),
                }
            },
        }
    }

    /// Runs one step. Unless a signal is of the wrong kind, the host function
    /// is called; its failure leaves the table as it was, and what it returns
    /// is stored as `result_outcome` says.
    pub fn apply(&self, signals: &mut SignalTable) -> (r: Result<(), OperatorError>)
        requires
            table_wf(old(signals)@),
        ensures
            table_wf(final(signals)@),
            final(signals)@.len() == old(signals)@.len(),
            same_layout(old(signals)@, final(signals)@),
            !self.kinds_ok(old(signals)@) ==> r == Err::<(), OperatorError>(OperatorError::TypeMismatch)
                && final(signals)@ == old(signals)@,
            r == Err::<(), OperatorError>(OperatorError::CallbackFailed) ==> final(signals)@ == old(signals)@,
            self.kinds_ok(old(signals)@) && r != Err::<(), OperatorError>(OperatorError::CallbackFailed) ==> exists|res: Option<NdArray>|
                follows(self.result_outcome(old(signals)@, res), old(signals)@, final(signals)@, r),
    {
        let mut args = match self.call_args(signals) {
            Ok(a) => a,
            Err(e) => {
                return Err(e);
            },
        };
        let result = match self.step_fn.call(&mut args) {
            Ok(res) => res,
            Err(_) => {
                return Err(OperatorError::CallbackFailed);
            },
        };
        self.store(signals, &result)
    }
}

impl<F: HostFunction> Operator for SimProcess<F> {
    /// A wrong kind of signal fails with `TypeMismatch` and a failed call
    /// changes nothing; otherwise the step stores some result of the call as
    /// `result_outcome` says.
    open spec fn step_allows(
        &self,
        before: Seq<SignalView>,
        after: Seq<SignalView>,
        r: Result<(), OperatorError>,
    ) -> bool {
        &&& (!self.kinds_ok(before) ==> r == Err::<(), OperatorError>(OperatorError::TypeMismatch)
            && after == before)
        &&& (r == Err::<(), OperatorError>(OperatorError::CallbackFailed) ==> after == before)
        &&& (self.kinds_ok(before) && r != Err::<(), OperatorError>(OperatorError::CallbackFailed)
            ==> exists|res: Option<NdArray>| follows(self.result_outcome(before, res), before, after, r))
    }

    fn step(&self, signals: &mut SignalTable) -> (r: Result<(), OperatorError>) {
        self.apply(signals)
    }
}

} // verus!
