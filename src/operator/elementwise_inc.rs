use vstd::prelude::*;

use crate::array::{
    add_values, as_ints, elementwise_mul, elementwise_product, fits_i64, product_shape, shape_size,
    sum_seq,
};
use crate::error::OperatorError;
use crate::operator::{follows, lemma_to_i64, to_i64, Operator};
use crate::signal::{same_layout, 
    lemma_value_len, same_shape, table_wf, value_of, write_spec, SignalTable, SignalView,
};

verus! {

/// Adds the element-wise product `left ⊙ right` to `target`; an operand of
/// shape `[1]` is broadcast to the other's shape.
#[derive(Debug, Clone, Copy, PartialEq, Eq, Structural)]
pub struct ElementwiseInc {
    pub target: usize,
    pub left: usize,
    pub right: usize,
}

/// Whether a shape is `[1]`.
pub fn is_unit_shape(s: &Vec<usize>) -> (r: bool)
    ensures
        r == (s@ == seq![1usize]),
{
    let r = s.len() == 1 && s[0] == 1;
    proof {
        if s@.len() == 1 && s@[0] == 1 {
            assert(s@ =~= seq![1usize]);
        }
    }
    r
}

impl ElementwiseInc {
    /// The table after one step, or the error: the three signals must be
    /// arrays, the product's shape must be the target's, and every product
    /// and sum must fit `i64`.
    pub open spec fn outcome(&self, t: Seq<SignalView>) -> Result<Seq<SignalView>, OperatorError> {
        let (d, l, r) = (self.target as int, self.left as int, self.right as int);
        if !(d < t.len() && l < t.len() && r < t.len()) || t[d].kind is Scalar || t[l].kind is Scalar
            || t[r].kind is Scalar {
            Err(OperatorError::TypeMismatch)
        } else if product_shape(t[l].shape, t[r].shape) != Some(t[d].shape) {
            Err(OperatorError::ShapeMismatch)
        } else {
            let p = elementwise_product(value_of(t, l), value_of(t, r));
            let sum = sum_seq(value_of(t, d), p);
            if !fits_i64(p) || !fits_i64(sum) {
                Err(OperatorError::Overflow)
            } else {
                Ok(write_spec(t, d, to_i64(sum)))
            }
        }
    }

    /// Runs one step.
    pub fn apply(&self, signals: &mut SignalTable) -> (r: Result<(), OperatorError>)
        requires
            table_wf(old(signals)@),
        ensures
            table_wf(final(signals)@),
            final(signals)@.len() == old(signals)@.len(),
            same_layout(old(signals)@, final(signals)@),
            follows(self.outcome(old(signals)@), old(signals)@, final(signals)@, r),
    {
        let n = signals.len();
        if self.target >= n || self.left >= n || self.right >= n || signals.is_scalar(self.target)
            || signals.is_scalar(self.left) || signals.is_scalar(self.right) {
            return Err(OperatorError::TypeMismatch);
        }
        let ts = signals.shape(self.target);
        let ls = signals.shape(self.left);
        let rs = signals.shape(self.right);
        let fits = if same_shape(&ls, &rs) {
            same_shape(&ls, &ts)
        } else if is_unit_shape(&ls) {
            same_shape(&rs, &ts)
        } else if is_unit_shape(&rs) {
            same_shape(&ls, &ts)
        } else {
            false
        };
        if !fits {
            return Err(OperatorError::ShapeMismatch);
        }
        proof {
            lemma_value_len(signals@, self.target as int);
            lemma_value_len(signals@, self.left as int);
            lemma_value_len(signals@, self.right as int);
            assert(seq![1usize].drop_first() =~= Seq::<usize>::empty());
            assert(shape_size(seq![1usize]) == 1 * shape_size(Seq::<usize>::empty()));
        }
        let left = signals.read(self.left);
        let right = signals.read(self.right);
        let target = signals.read(self.target);
        let ghost p = elementwise_product(left@, right@);
        let prod = match elementwise_mul(&left, &right) {
            Ok(v) => v,
            Err(e) => {
                return Err(e);
            },
        };
        proof {
            assert(p.len() == target@.len());
        }
        match add_values(&target, &prod) {
            Ok(v) => {
                proof {
                    assert(sum_seq(target@, as_ints(prod@)) == sum_seq(target@, p));
                    lemma_to_i64(v@, sum_seq(target@, p));
                }
                signals.write(self.target, &v);
                Ok(())
            },
            Err(e) => {
                proof {
                    assert(sum_seq(target@, as_ints(prod@)) == sum_seq(target@, p));
                }
                Err(e)
            },
        }
    }
}

impl Operator for ElementwiseInc {
    /// One step reaches exactly `outcome`.
    open spec fn step_allows(
        &self,
        before: Seq<SignalView>,
        after: Seq<SignalView>,
        r: Result<(), OperatorError>,
    ) -> bool {
        follows(self.outcome(before), before, after, r)
    }

    fn step(&self, signals: &mut SignalTable) -> (r: Result<(), OperatorError>) {
        self.apply(signals)
    }
}

} // verus!
