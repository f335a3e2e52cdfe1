use vstd::prelude::*;

use crate::array::NdArray;
use crate::error::OperatorError;
use crate::operator::{follows, Operator};
use crate::signal::{same_layout, same_shape, table_wf, write_spec, SignalTable, SignalView};

verus! {

/// Sets `target` to the constant `value` (a rank-0 value for a scalar).
#[derive(Debug)]
pub struct Reset {
    pub value: NdArray,
    pub target: usize,
}

impl Reset {
    /// The table after one step, or the error: the target must exist and the
    /// value must have its shape, one element per element of it.
    pub open spec fn outcome(&self, t: Seq<SignalView>) -> Result<Seq<SignalView>, OperatorError> {
        if self.target >= t.len() {
            Err(OperatorError::TypeMismatch)
        } else if self.value.shape@ != t[self.target as int].shape || !self.value.wf() {
            Err(OperatorError::ShapeMismatch)
        } else {
            Ok(write_spec(t, self.target as int, self.value.data@))
        }
    }

    /// Runs one step.
    pub fn apply(&self, signals: &mut SignalTable) -> (r: Result<(), OperatorError>)
        requires
            table_wf(old(signals)@),
        ensures
            table_wf(final(signals)@),
            final(signals)@.len() == old(signals)@.len(),
            same_layout(old(signals)@, final(signals)@),
            follows(self.outcome(old(signals)@), old(signals)@, final(signals)@, r),
    {
        if self.target >= signals.len() {
            return Err(OperatorError::TypeMismatch);
        }
        let shape = signals.shape(self.target);
        if !same_shape(&shape, &self.value.shape) {
            return Err(OperatorError::ShapeMismatch);
        }
        proof {
            crate::signal::lemma_value_len(signals@, self.target as int);
        }
        if signals.element_count(self.target) != self.value.data.len() {
            return Err(OperatorError::ShapeMismatch);
        }
        signals.write(self.target, &self.value.data);
        Ok(())
    }
}

impl Operator for Reset {
    /// One step reaches exactly `outcome`.
    open spec fn step_allows(
        &self,
        before: Seq<SignalView>,
        after: Seq<SignalView>,
        r: Result<(), OperatorError>,
    ) -> bool {
        follows(self.outcome(before), before, after, r)
    }

    fn step(&self, signals: &mut SignalTable) -> (r: Result<(), OperatorError>) {
        self.apply(signals)
    }
}

} // verus!
