use vstd::prelude::*;

use crate::array::NdArray;
use crate::error::OperatorError;
use crate::operator::{copy_arg, follows, is_array_arg, is_scalar_arg, HostArg, HostFunction, Operator};
use crate::signal::{same_layout, table_wf, value_of, write_spec, SignalTable, SignalView};

verus! {

/// Calls a host neuron model with the time step, the input current, an output
/// buffer and the state entries; the model fills the output buffer in place,
/// which is then copied into `output`.
pub struct SimNeurons<F> {
    pub dt: i64,
    pub input_current: usize,
    pub output: usize,
    pub state: Vec<HostArg>,
    pub step_fn: F,
}

/// What copying the output buffer back does: the buffer must still be an
/// array of the output's shape, one value per element.
pub open spec fn buffer_outcome(t: Seq<SignalView>, output: int, buffer: Option<HostArg>) -> Result<
    Seq<SignalView>,
    OperatorError,
> {
    match buffer {
        Some(HostArg::Array(a)) => if a.shape@ == t[output].shape && a.wf() {
            Ok(write_spec(t, output, a.data@))
        } else {
            Err(OperatorError::CallbackTypeError)
        },
        _ => Err(OperatorError::CallbackTypeError),
    }
}

impl<F: HostFunction> SimNeurons<F> {
    /// `input_current` and `output` are array signals.
    pub open spec fn kinds_ok(&self, t: Seq<SignalView>) -> bool {
        &&& self.output < t.len() && !(t[self.output as int].kind is Scalar)
        &&& self.input_current < t.len() && !(t[self.input_current as int].kind is Scalar)
    }

    /// The arguments of the call: the time step, the input current, an
    /// output buffer of zeros of the output's shape, then the state entries.
    pub fn call_args(&self, signals: &SignalTable) -> (r: Result<Vec<HostArg>, OperatorError>)
        requires
            table_wf(signals@),
        ensures
            r is Ok <==> self.kinds_ok(signals@),
            r is Err ==> r->Err_0 == OperatorError::TypeMismatch,
            r is Ok ==> {
                let args = r->Ok_0@;
                let out = signals@[self.output as int];
                &&& args.len() == 3 + self.state@.len()
                &&& is_scalar_arg(args[0], self.dt)
                &&& is_array_arg(
                    args[1],
                    signals@[self.input_current as int].shape,
                    value_of(signals@, self.input_current as int),
                )
                &&& is_array_arg(
                    args[2],
                    out.shape,
                    Seq::new(crate::signal::elems(out), |i: int| 0i64),
                )
                &&& forall|k: int|
                    0 <= k < self.state@.len() ==> match #[trigger] self.state@[k] {
                        HostArg::Scalar(v) => args[3 + k] == HostArg::Scalar(v),
                        HostArg::Array(x) => is_array_arg(args[3 + k], x.shape@, x.data@),
                    }
            },
    {
        let n = signals.len();
        if self.output >= n || signals.is_scalar(self.output) || self.input_current >= n
            || signals.is_scalar(self.input_current) {
            return Err(OperatorError::TypeMismatch);
        }
        let mut args: Vec<HostArg> = Vec::new();
        args.push(HostArg::Scalar(self.dt));
        args.push(
            HostArg::Array(
                NdArray { shape: signals.shape(self.input_current), data: signals.read(self.input_current) },
            ),
        );
        let count = signals.element_count(self.output);
        let zeros: Vec<i64> = vec![0; count];
        args.push(HostArg::Array(NdArray { shape: signals.shape(self.output), data: zeros }));
        proof {
            assert(zeros@ =~= Seq::new(crate::signal::elems(signals@[self.output as int]), |i: int| 0i64));
        }
        let mut k: usize = 0;
        while k < self.state.len()
            invariant
                k <= self.state@.len(),
                args@.len() == 3 + k,
                is_scalar_arg(args@[0], self.dt),
                is_array_arg(
                    args@[1],
                    signals@[self.input_current as int].shape,
                    value_of(signals@, self.input_current as int),
                ),
                is_array_arg(
                    args@[2],
                    signals@[self.output as int].shape,
                    Seq::new(crate::signal::elems(signals@[self.output as int]), |i: int| 0i64),
                ),
                forall|j: int|
                    0 <= j < k ==> match #[trigger] self.state@[j] {
                        HostArg::Scalar(v) => args@[3 + j] == HostArg::Scalar(v),
                        HostArg::Array(x) => is_array_arg(args@[3 + j], x.shape@, x.data@),
                    },
            decreases self.state@.len() - k,
        {
            args.push(copy_arg(&self.state[k]));
            k = k + 1;
        }
        Ok(args)
    }

    /// Copies the output buffer (the third argument) back into `output`, as
    /// `buffer_outcome` says.
    pub fn store(&self, signals: &mut SignalTable, args: &Vec<HostArg>) -> (r: Result<(), OperatorError>)
        requires
            table_wf(old(signals)@),
            self.output < old(signals)@.len(),
            !(old(signals)@[self.output as int].kind is Scalar),
        ensures
            table_wf(final(signals)@),
            final(signals)@.len() == old(signals)@.len(),
            same_layout(old(signals)@, final(signals)@),
            follows(
                buffer_outcome(
                    old(signals)@,
                    self.output as int,
                    if args@.len() > 2 {
                        Some(args@[2])
                    } else {
                        None
                    },
                ),
                old(signals)@,
                final(signals)@,
                r,
            ),
    {
        if args.len() <= 2 {
            return Err(OperatorError::CallbackTypeError);
        }
        match &args[2] {
            HostArg::Array(a) => match signals.assign_array(self.output, a) {
                Ok(()) => Ok(()),
                Err(_) => Err(OperatorError::CallbackTypeError),
            },
            HostArg::Scalar(_) => Err(OperatorError::CallbackTypeError),
        }
    }

    /// Runs one step. Unless a signal is of the wrong kind, the host model is
    /// called; its failure leaves the table as it was, and the buffer it
    /// leaves is copied back as `buffer_outcome` says.
    pub fn apply(&self, signals: &mut SignalTable) -> (r: Result<(), OperatorError>)
        requires
            table_wf(old(signals)@),
        ensures
            table_wf(final(signals)@),
            final(signals)@.len() == old(signals)@.len(),
            same_layout(old(signals)@, final(signals)@),
            !self.kinds_ok(old(signals)@) ==> r == Err::<(), OperatorError>(OperatorError::TypeMismatch)
                && final(signals)@ == old(signals)@,
            r == Err::<(), OperatorError>(OperatorError::CallbackFailed) ==> final(signals)@ == old(signals)@,
            self.kinds_ok(old(signals)@) && r != Err::<(), OperatorError>(OperatorError::CallbackFailed) ==> exists|buffer: Option<HostArg>|
                follows(buffer_outcome(old(signals)@, self.output as int, buffer), old(signals)@, final(signals)@, r),
    {
        let mut args = match self.call_args(signals) {
            Ok(a) => a,
            Err(e) => {
                return Err(e);
            },
        };
        match self.step_fn.call(&mut args) {
            Ok(_) => {},
            Err(_) => {
                return Err(OperatorError::CallbackFailed);
            },
        }
        self.store(signals, &args)
    }
}

impl<F: HostFunction> Operator for SimNeurons<F> {
    /// A wrong kind of signal fails with `TypeMismatch` and a failed call
    /// changes nothing; otherwise the step stores some result of the call as
    /// `buffer_outcome` says.
    open spec fn step_allows(
        &self,
        before: Seq<SignalView>,
        after: Seq<SignalView>,
        r: Result<(), OperatorError>,
    ) -> bool {
        &&& (!self.kinds_ok(before) ==> r == Err::<(), OperatorError>(OperatorError::TypeMismatch)
            && after == before)
        &&& (r == Err::<(), OperatorError>(OperatorError::CallbackFailed) ==> after == before)
        &&& (self.kinds_ok(before) && r != Err::<(), OperatorError>(OperatorError::CallbackFailed)
            ==> exists|buffer: Option<HostArg>| follows(buffer_outcome(before, self.output as int, buffer), before, after, r))
    }

    fn step(&self, signals: &mut SignalTable) -> (r: Result<(), OperatorError>) {
        self.apply(signals)
    }
}

} // verus!
