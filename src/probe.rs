use vstd::prelude::*;

use crate::array::{shape_size, NdArray};
use crate::error::ConstructionError;
use crate::signal::{lemma_value_len, table_wf, value_of, SignalTable, SignalView};

verus! {

/// An observer sampled once per step, after every operator of the step.
pub trait Probe: Sized {
    /// Whether taking one sample of table `signals` may turn this probe into
    /// `after`. A probe that does not say claims nothing.
    open spec fn sample_allows(&self, signals: Seq<SignalView>, after: Self) -> bool {
        true
    }

    /// Takes one sample of the signals, as `sample_allows` says.
    fn probe(&mut self, signals: &SignalTable)
        requires
            table_wf(signals@),
        ensures
            old(self).sample_allows(signals@, *final(self)),
    ;
}

/// Laying out samples of `m` values each end to end puts sample `i` at
/// positions `i * m .. i * m + m`.
pub proof fn lemma_flatten_chunks(s: Seq<Seq<i64>>, m: nat)
    requires
        forall|i: int| 0 <= i < s.len() ==> (#[trigger] s[i]).len() == m,
    ensures
        flatten(s).len() == s.len() * m,
        forall|i: int|
            0 <= i < s.len() ==> flatten(s).subrange(i * m, i * m + m) == #[trigger] s[i],
    decreases s.len(),
{
    if s.len() > 0 {
        let n = s.len() - 1;
        let front = s.drop_last();
        assert forall|i: int| 0 <= i < front.len() implies (#[trigger] front[i]).len() == m by {
            assert(front[i] == s[i]);
        }
        lemma_flatten_chunks(front, m);
        let a = flatten(front);
        let f = flatten(s);
        assert(f == a + s.last());
        assert(f.len() == s.len() * m) by (nonlinear_arith)
            requires
                f.len() == a.len() + m,
                a.len() == n * m,
                s.len() == n + 1,
        ;
        assert forall|i: int| 0 <= i < s.len() implies f.subrange(i * m, i * m + m) == #[trigger] s[i] by {
            if i < n {
                assert(i * m + m <= n * m) by (nonlinear_arith)
                    requires
                        i < n,
                        i >= 0,
                ;
                assert(i * m >= 0) by (nonlinear_arith)
                    requires
                        i >= 0,
                ;
                assert(front[i] == s[i]);
                assert(a.subrange(i * m, i * m + m) == front[i]);
                assert(f.subrange(i * m, i * m + m) =~= a.subrange(i * m, i * m + m));
            } else {
                assert(f.subrange(i * m, i * m + m) =~= s.last());
            }
        }
    }
}

/// All samples laid end to end.
pub open spec fn flatten(s: Seq<Seq<i64>>) -> Seq<i64>
    decreases s.len(),
{
    if s.len() == 0 {
        Seq::empty()
    } else {
        flatten(s.drop_last()) + s.last()
    }
}

/// Appends a copy of one signal's value each time it is sampled.
pub struct SignalProbe {
    signal: usize,
    shape: Vec<usize>,
    data: Vec<Vec<i64>>,
}

impl View for SignalProbe {
    type V = Seq<Seq<i64>>;

    /// The samples taken so far, oldest first.
    closed spec fn view(&self) -> Seq<Seq<i64>> {
        Seq::new(self.data@.len(), |i: int| self.data@[i]@)
    }
}

impl SignalProbe {
    /// The index of the probed signal.
    pub closed spec fn target(&self) -> nat {
        self.signal as nat
    }

    /// The shape of the probed signal.
    pub closed spec fn target_shape(&self) -> Seq<usize> {
        self.shape@
    }

    /// Every sample holds one value per element of the probed shape.
    pub open spec fn wf(&self) -> bool {
        forall|i: int| 0 <= i < self@.len() ==> (#[trigger] self@[i]).len() == shape_size(self.target_shape())
    }

    /// A probe of signal `signal` of `signals`, with no samples; fails with
    /// `UnknownSignal` when the table has no such signal.
    pub fn new(signals: &SignalTable, signal: usize) -> (r: Result<SignalProbe, ConstructionError>)
        ensures
            r is Ok <==> signal < signals@.len(),
            r is Ok ==> r->Ok_0@ == Seq::<Seq<i64>>::empty() && r->Ok_0.target() == signal
                && r->Ok_0.target_shape() == signals@[signal as int].shape && r->Ok_0.wf(),
            r is Err ==> r->Err_0 == ConstructionError::UnknownSignal,
    {
        if signal >= signals.len() {
            return Err(ConstructionError::UnknownSignal);
        }
        let p = SignalProbe { signal, shape: signals.shape(signal), data: Vec::new() };
        proof {
            assert(p@ =~= Seq::<Seq<i64>>::empty());
        }
        Ok(p)
    }

    /// Whether the table holds the probed signal, with the probed shape.
    pub open spec fn finds_target(&self, signals: Seq<SignalView>) -> bool {
        self.target() < signals.len() && signals[self.target() as int].shape == self.target_shape()
    }

    /// Takes one sample: appends the probed signal's current value (nothing
    /// when the table does not hold the probed signal with its shape).
    pub fn sample(&mut self, signals: &SignalTable)
        requires
            table_wf(signals@),
        ensures
            final(self).target() == old(self).target(),
            final(self).target_shape() == old(self).target_shape(),
            old(self).finds_target(signals@) ==> final(self)@ == old(self)@.push(
                value_of(signals@, old(self).target() as int),
            ),
            !old(self).finds_target(signals@) ==> final(self)@ == old(self)@,
            old(self).wf() ==> final(self).wf(),
    {
        if self.signal < signals.len() && crate::signal::same_shape(&signals.shape(self.signal), &self.shape) {
            proof {
                lemma_value_len(signals@, self.signal as int);
            }
            let v = signals.read(self.signal);
            self.data.push(v);
            proof {
                assert(self@ =~= old(self)@.push(value_of(signals@, old(self).target() as int)));
            }
        }
    }

    /// The samples taken so far, oldest first.
    pub fn get_data(&self) -> (r: &Vec<Vec<i64>>)
        ensures
            r@.len() == self@.len(),
            forall|i: int| 0 <= i < r@.len() ==> #[trigger] r@[i]@ == self@[i],
    {
        &self.data
    }

    /// The shape of the probed signal.
    pub fn shape(&self) -> (r: &Vec<usize>)
        ensures
            r@ == self.target_shape(),
    {
        &self.shape
    }

    /// Number of samples taken.
    pub fn len(&self) -> (n: usize)
        ensures
            n == self@.len(),
    {
        self.data.len()
    }

    /// The samples as one array whose leading axis counts the samples, each
    /// keeping the probed signal's shape.
    pub fn snapshot(&self) -> (r: NdArray)
        ensures
            r.shape@ == seq![self@.len() as usize] + self.target_shape(),
            r.data@ == flatten(self@),
            self.wf() ==> r.wf(),
            self.wf() ==> forall|i: int|
                0 <= i < self@.len() ==> r.data@.subrange(
                    i * shape_size(self.target_shape()),
                    i * shape_size(self.target_shape()) + shape_size(self.target_shape()),
                ) == #[trigger] self@[i],
    {
        let n = self.data.len();
        let mut shape: Vec<usize> = Vec::new();
        shape.push(n);
        let mut k: usize = 0;
        while k < self.shape.len()
            invariant
                k <= self.shape@.len(),
                shape@ == seq![n] + self.shape@.take(k as int),
            decreases self.shape@.len() - k,
        {
            shape.push(self.shape[k]);
            proof {
                assert(self.shape@.take(k + 1) =~= self.shape@.take(k as int).push(self.shape@[k as int]));
                assert(shape@ =~= seq![n] + self.shape@.take(k + 1));
            }
            k = k + 1;
        }
        proof {
            assert(self.shape@.take(self.shape@.len() as int) =~= self.shape@);
        }
        let mut data: Vec<i64> = Vec::new();
        let mut i: usize = 0;
        proof {
            assert(self@.take(0) =~= Seq::<Seq<i64>>::empty());
        }
        while i < n
            invariant
                i <= n,
                n == self@.len(),
                n == self.data@.len(),
                data@ == flatten(self@.take(i as int)),
            decreases n - i,
        {
            let sample = &self.data[i];
            let mut j: usize = 0;
            let ghost before = data@;
            while j < sample.len()
                invariant
                    j <= sample@.len(),
                    data@ == before + sample@.take(j as int),
                decreases sample@.len() - j,
            {
                data.push(sample[j]);
                proof {
                    assert(sample@.take(j + 1) =~= sample@.take(j as int).push(sample@[j as int]));
                    assert(data@ =~= before + sample@.take(j + 1));
                }
                j = j + 1;
            }
            proof {
                assert(sample@.take(sample@.len() as int) =~= sample@);
                assert(self@[i as int] == sample@);
                assert(self@.take(i + 1).drop_last() =~= self@.take(i as int));
                assert(self@.take(i + 1).last() == sample@);
            }
            i = i + 1;
        }
        proof {
            assert(self@.take(n as int) =~= self@);
            if self.wf() {
                let m = shape_size(self.target_shape());
                lemma_flatten_chunks(self@, m);
                assert(shape@.drop_first() =~= self.shape@);
                assert(shape_size(shape@) == n as nat * m);
            }
        }
        NdArray { shape, data }
    }
}

impl Probe for SignalProbe {
    /// One sample of the probed signal is appended when the table holds it
    /// with the probed shape; the target and its shape are kept, and so is
    /// the size of every sample.
    open spec fn sample_allows(&self, signals: Seq<SignalView>, after: Self) -> bool {
        &&& after.target() == self.target()
        &&& after.target_shape() == self.target_shape()
        &&& (self.finds_target(signals) ==> after@ == self@.push(value_of(signals, self.target() as int)))
        &&& (!self.finds_target(signals) ==> after@ == self@)
        &&& (self.wf() ==> after.wf())
    }

    fn probe(&mut self, signals: &SignalTable) {
        self.sample(signals)
    }
}

} // verus!
