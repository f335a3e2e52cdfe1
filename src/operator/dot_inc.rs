use vstd::prelude::*;

use crate::array::{
    add_values, as_ints, dot, dot_all_fit, dot_shape, dot_values, fits_i64, shape_size, sum_seq,
};
use crate::error::OperatorError;
use crate::operator::{follows, lemma_to_i64, to_i64, Operator};
use crate::signal::{same_layout, 
    lemma_value_len, table_wf, value_of, write_spec, SignalTable, SignalView,
};

verus! {

/// Adds `left · right` to `target`: a vector times a vector gives one
/// element, a matrix times a vector gives a vector.
#[derive(Debug, Clone, Copy, PartialEq, Eq, Structural)]
pub struct DotInc {
    pub target: usize,
    pub left: usize,
    pub right: usize,
}

impl DotInc {
    /// The table after one step, or the error: the three signals must be
    /// arrays, the product's shape must be the target's, and every product,
    /// partial sum and final sum must fit `i64`.
    pub open spec fn outcome(&self, t: Seq<SignalView>) -> Result<Seq<SignalView>, OperatorError> {
        let (d, l, r) = (self.target as int, self.left as int, self.right as int);
        if !(d < t.len() && l < t.len() && r < t.len()) || t[d].kind is Scalar || t[l].kind is Scalar
            || t[r].kind is Scalar {
            Err(OperatorError::TypeMismatch)
        } else if dot_shape(t[l].shape, t[r].shape) != Some(t[d].shape) {
            Err(OperatorError::ShapeMismatch)
        } else {
            let (lv, rv) = (value_of(t, l), value_of(t, r));
            let sum = sum_seq(value_of(t, d), dot_values(lv, t[l].shape, rv));
            if !dot_all_fit(lv, t[l].shape, rv) || !fits_i64(sum) {
                Err(OperatorError::Overflow)
            } else {
                Ok(write_spec(t, d, to_i64(sum)))
            }
        }
    }

    /// Runs one step.
    pub fn apply(&self, signals: &mut SignalTable) -> (r: Result<(), OperatorError>)
        requires
            table_wf(old(signals)@),
        ensures
            table_wf(final(signals)@),
            final(signals)@.len() == old(signals)@.len(),
            same_layout(old(signals)@, final(signals)@),
            follows(self.outcome(old(signals)@), old(signals)@, final(signals)@, r),
    {
        let n = signals.len();
        if self.target >= n || self.left >= n || self.right >= n || signals.is_scalar(self.target)
            || signals.is_scalar(self.left) || signals.is_scalar(self.right) {
            return Err(OperatorError::TypeMismatch);
        }
        let ts = signals.shape(self.target);
        let ls = signals.shape(self.left);
        let rs = signals.shape(self.right);
        let fits = if rs.len() != 1 {
            false
        } else if ls.len() == 1 && ls[0] == rs[0] {
            ts.len() == 1 && ts[0] == 1
        } else if ls.len() == 2 && ls[1] == rs[0] {
            ts.len() == 1 && ts[0] == ls[0]
        } else {
            false
        };
        proof {
            let (tsv, lsv, rsv) = (ts@, ls@, rs@);
            if tsv.len() == 1 {
                if lsv.len() == 1 && rsv.len() == 1 && lsv[0] == rsv[0] {
                    assert(fits ==> tsv =~= seq![1usize]);
                    assert(tsv =~= seq![1usize] ==> fits);
                }
                if lsv.len() == 2 && rsv.len() == 1 && lsv[1] == rsv[0] && !(lsv.len() == 1) {
                    assert(fits ==> tsv =~= seq![lsv[0]]);
                    assert(tsv =~= seq![lsv[0]] ==> fits);
                }
            }
        }
        if !fits {
            return Err(OperatorError::ShapeMismatch);
        }
        proof {
            lemma_value_len(signals@, self.target as int);
            lemma_value_len(signals@, self.left as int);
            lemma_value_len(signals@, self.right as int);
            assert(rs@.drop_first() =~= Seq::<usize>::empty());
            assert(shape_size(rs@) == rs@[0] * shape_size(Seq::<usize>::empty()));
        }
        let left = signals.read(self.left);
        let right = signals.read(self.right);
        let target = signals.read(self.target);
        let rn = right.len();
        proof {
            assert(shape_size(Seq::<usize>::empty()) == 1);
            assert(right@.len() == value_of(signals@, self.right as int).len());
            assert(right@.len() == crate::signal::elems(signals@[self.right as int]));
            assert(right@.len() == shape_size(rs@));
            assert(shape_size(rs@) == rs@[0] as nat * 1);
            assert(right@.len() == rs@[0]);
            assert(seq![rn] =~= rs@);
            let tsv = ts@;
            assert(tsv.drop_first() =~= Seq::<usize>::empty());
            assert(shape_size(tsv) == tsv[0] * shape_size(Seq::<usize>::empty()));
        }
        let ghost dv = dot_values(left@, ls@, right@);
        let prod = match dot(&left, &ls, &right) {
            Ok(v) => v,
            Err(e) => {
                return Err(e);
            },
        };
        proof {
            assert(dv.len() == target@.len());
        }
        match add_values(&target, &prod) {
            Ok(v) => {
                proof {
                    assert(sum_seq(target@, as_ints(prod@)) == sum_seq(target@, dv));
                    lemma_to_i64(v@, sum_seq(target@, dv));
                }
                signals.write(self.target, &v);
                Ok(())
            },
            Err(e) => {
                proof {
                    assert(sum_seq(target@, as_ints(prod@)) == sum_seq(target@, dv));
                }
                Err(e)
            },
        }
    }
}

impl Operator for DotInc {
    /// One step reaches exactly `outcome`.
    open spec fn step_allows(
        &self,
        before: Seq<SignalView>,
        after: Seq<SignalView>,
        r: Result<(), OperatorError>,
    ) -> bool {
        follows(self.outcome(before), before, after, r)
    }

    fn step(&self, signals: &mut SignalTable) -> (r: Result<(), OperatorError>) {
        self.apply(signals)
    }
}

} // verus!
