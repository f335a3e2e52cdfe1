use vstd::prelude::*;

use crate::array::{add_values, as_ints, fits_i64, sum_seq};
use crate::error::OperatorError;
use crate::operator::{follows, lemma_to_i64, to_i64, Operator};
use crate::signal::{same_layout, lemma_value_len, table_wf, value_of, write_spec, SignalTable, SignalView};

verus! {

/// Copies `src` into `dst`, or with `inc` adds `src` to `dst`.
#[derive(Debug, Clone, Copy, PartialEq, Eq, Structural)]
pub struct CopyOp {
    pub inc: bool,
    pub src: usize,
    pub dst: usize,
}

impl CopyOp {
    /// The table after one step, or the error. Both signals must exist and be
    /// of one kind (scalars or arrays) and one shape; with `inc` every sum
    /// must fit `i64`.
    pub open spec fn outcome(&self, t: Seq<SignalView>) -> Result<Seq<SignalView>, OperatorError> {
        let (s, d) = (self.src as int, self.dst as int);
        if !(s < t.len() && d < t.len()) || (t[s].kind is Scalar) != (t[d].kind is Scalar) {
            Err(OperatorError::TypeMismatch)
        } else if t[s].shape != t[d].shape {
            Err(OperatorError::ShapeMismatch)
        } else if self.inc {
            let sum = sum_seq(value_of(t, d), as_ints(value_of(t, s)));
            if fits_i64(sum) {
                Ok(write_spec(t, d, to_i64(sum)))
            } else {
                Err(OperatorError::Overflow)
            }
        } else {
            Ok(write_spec(t, d, value_of(t, s)))
        }
    }

    /// Runs one step.
    pub fn apply(&self, signals: &mut SignalTable) -> (r: Result<(), OperatorError>)
        requires
            table_wf(old(signals)@),
        ensures
            table_wf(final(signals)@),
            final(signals)@.len() == old(signals)@.len(),
            same_layout(old(signals)@, final(signals)@),
            follows(self.outcome(old(signals)@), old(signals)@, final(signals)@, r),
    {
        if self.src >= signals.len() || self.dst >= signals.len() || signals.is_scalar(self.src)
            != signals.is_scalar(self.dst) {
            return Err(OperatorError::TypeMismatch);
        }
        let src_shape = signals.shape(self.src);
        let dst_shape = signals.shape(self.dst);
        if !crate::signal::same_shape(&src_shape, &dst_shape) {
            return Err(OperatorError::ShapeMismatch);
        }
        proof {
            lemma_value_len(signals@, self.src as int);
            lemma_value_len(signals@, self.dst as int);
        }
        let src = signals.read(self.src);
        if self.inc {
            let dst = signals.read(self.dst);
            match add_values(&dst, &src) {
                Ok(v) => {
                    proof {
                        lemma_to_i64(v@, sum_seq(dst@, as_ints(src@)));
                    }
                    signals.write(self.dst, &v);
                    Ok(())
                },
                Err(e) => Err(e),
            }
        } else {
            signals.write(self.dst, &src);
            Ok(())
        }
    }
}

impl Operator for CopyOp {
    /// One step reaches exactly `outcome`.
    open spec fn step_allows(
        &self,
        before: Seq<SignalView>,
        after: Seq<SignalView>,
        r: Result<(), OperatorError>,
    ) -> bool {
        follows(self.outcome(before), before, after, r)
    }

    fn step(&self, signals: &mut SignalTable) -> (r: Result<(), OperatorError>) {
        self.apply(signals)
    }
}

} // verus!
