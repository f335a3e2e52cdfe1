use vstd::prelude::*;

use crate::array::{shape_size, NdArray};
use crate::error::{ConstructionError, OperatorError};
use crate::slice::{
    as_offsets, compute_offsets, lemma_slice_offsets, slice_offsets, slices_fit,
    strictly_increasing, view_shape, SliceAxis,
};

verus! {

/// How a signal holds its value.
pub enum SignalKind {
    /// One value of its own.
    Scalar,
    /// An array buffer of its own.
    Owned,
    /// Elements of the base signal's buffer, at these offsets.
    View { base: int, offsets: Seq<int> },
}

/// What a signal is, as the contracts see it: its fixed layout and the values
/// it stores itself (none for a view).
pub struct SignalView {
    pub name: Seq<char>,
    pub shape: Seq<usize>,
    pub kind: SignalKind,
    pub initial: Option<Seq<i64>>,
    pub storage: Seq<i64>,
}

/// A named scalar with the value that a reset restores.
#[derive(Debug)]
pub struct ScalarSignal {
    pub name: String,
    pub value: i64,
    pub initial_value: i64,
}

/// Where an array signal's elements live.
#[derive(Debug)]
pub enum ArrayRef {
    /// A buffer of its own, in row-major order.
    Owned(Vec<i64>),
    /// The base signal's index, and the offsets in its buffer of this view's
    /// elements in row-major order.
    View(usize, Vec<usize>),
}

/// A named array signal: owned, or a view of an owned one.
#[derive(Debug)]
pub struct ArraySignal {
    pub name: String,
    pub buffer: ArrayRef,
    pub initial_value: Option<Vec<i64>>,
    pub shape: Vec<usize>,
}

/// A signal of either kind.
#[derive(Debug)]
pub enum Signal {
    Scalar(ScalarSignal),
    Array(ArraySignal),
}

/// The model of a signal.
pub open spec fn signal_view(s: Signal) -> SignalView {
    match s {
        Signal::Scalar(sc) => SignalView {
            name: sc.name@,
            shape: Seq::empty(),
            kind: SignalKind::Scalar,
            initial: Some(seq![sc.initial_value]),
            storage: seq![sc.value],
        },
        Signal::Array(a) => SignalView {
            name: a.name@,
            shape: a.shape@,
            kind: match a.buffer {
                ArrayRef::Owned(_) => SignalKind::Owned,
                ArrayRef::View(b, o) => SignalKind::View { base: b as int, offsets: as_offsets(o@) },
            },
            initial: match a.initial_value {
                Some(v) => Some(v@),
                None => None,
            },
            storage: match a.buffer {
                ArrayRef::Owned(d) => d@,
                ArrayRef::View(_, _) => Seq::empty(),
            },
        },
    }
}

/// A signal's elements: one for a scalar, one per element of the shape for
/// an array.
pub open spec fn elems(s: SignalView) -> nat {
    shape_size(s.shape)
}

/// A signal that refers to no other: a scalar or an owned array whose buffer
/// and initial value fit its shape.
pub open spec fn standalone_wf(s: SignalView) -> bool {
    match s.kind {
        SignalKind::Scalar => s.storage.len() == 1 && s.shape.len() == 0 && s.initial is Some
            && s.initial->Some_0.len() == 1,
        SignalKind::Owned => s.storage.len() == elems(s) && s.initial is Some
            && s.initial->Some_0.len() == elems(s),
        SignalKind::View { .. } => false,
    }
}

/// Signal `k` is consistent within the table: a view's base is an owned
/// array of the table and its offsets are distinct, increasing and within the
/// base's buffer.
pub open spec fn signal_wf(t: Seq<SignalView>, k: int) -> bool {
    let s = t[k];
    match s.kind {
        SignalKind::View { base, offsets } => {
            &&& 0 <= base < t.len()
            &&& t[base].kind is Owned
            &&& offsets.len() == elems(s)
            &&& strictly_increasing(offsets)
            &&& forall|i: int|
                0 <= i < offsets.len() ==> 0 <= #[trigger] offsets[i] < t[base].storage.len()
            &&& s.storage.len() == 0
            &&& (s.initial is Some ==> s.initial->Some_0.len() == elems(s))
        },
        _ => standalone_wf(s),
    }
}

/// Every signal of the table is consistent.
pub open spec fn table_wf(t: Seq<SignalView>) -> bool {
    forall|k: int| 0 <= k < t.len() ==> #[trigger] signal_wf(t, k)
}

/// The value that reading signal `id` yields: its own storage, or for a view
/// the base's elements at the view's offsets.
pub open spec fn value_of(t: Seq<SignalView>, id: int) -> Seq<i64> {
    match t[id].kind {
        SignalKind::View { base, offsets } => Seq::new(
            offsets.len(),
            |i: int| t[base].storage[offsets[i]],
        ),
        _ => t[id].storage,
    }
}

/// `d` with `v[k]` written at position `offs[k]`, in order.
pub open spec fn scatter(d: Seq<i64>, offs: Seq<int>, v: Seq<i64>) -> Seq<i64>
    decreases offs.len(),
{
    if offs.len() == 0 {
        d
    } else {
        scatter(d, offs.drop_last(), v.take(offs.len() - 1)).update(
            offs.last(),
            v[offs.len() - 1],
        )
    }
}

/// `s` storing `storage` instead.
pub open spec fn with_storage(s: SignalView, storage: Seq<i64>) -> SignalView {
    SignalView { name: s.name, shape: s.shape, kind: s.kind, initial: s.initial, storage }
}

/// The table after writing `v` into signal `id`: into its own storage, or
/// for a view into the base's buffer at the view's offsets.
pub open spec fn write_spec(t: Seq<SignalView>, id: int, v: Seq<i64>) -> Seq<SignalView> {
    match t[id].kind {
        SignalKind::View { base, offsets } => t.update(
            base,
            with_storage(t[base], scatter(t[base].storage, offsets, v)),
        ),
        _ => t.update(id, with_storage(t[id], v)),
    }
}

/// The table after resetting signal `id`: its initial value written into it,
/// or no change for a view without one.
pub open spec fn reset_spec(t: Seq<SignalView>, id: int) -> Seq<SignalView> {
    match t[id].initial {
        Some(init) => write_spec(t, id, init),
        None => t,
    }
}

/// The table after resetting signals `0 .. n` in order.
pub open spec fn reset_all_spec(t: Seq<SignalView>, n: nat) -> Seq<SignalView>
    decreases n,
{
    if n == 0 {
        t
    } else {
        reset_spec(reset_all_spec(t, (n - 1) as nat), n - 1)
    }
}

/// Writing through distinct offsets stores each value at its offset and
/// leaves every other position unchanged.
pub proof fn lemma_scatter(d: Seq<i64>, offs: Seq<int>, v: Seq<i64>)
    requires
        strictly_increasing(offs),
        v.len() == offs.len(),
        forall|i: int| 0 <= i < offs.len() ==> 0 <= #[trigger] offs[i] < d.len(),
    ensures
        scatter(d, offs, v).len() == d.len(),
        forall|k: int| 0 <= k < offs.len() ==> #[trigger] scatter(d, offs, v)[offs[k]] == v[k],
        forall|p: int|
            0 <= p < d.len() && (forall|k: int| 0 <= k < offs.len() ==> offs[k] != p)
                ==> #[trigger] scatter(d, offs, v)[p] == d[p],
    decreases offs.len(),
{
    if offs.len() > 0 {
        let n = offs.len() - 1;
        let o2 = offs.drop_last();
        let v2 = v.take(n);
        assert forall|i: int| 0 <= i < o2.len() implies 0 <= #[trigger] o2[i] < d.len() by {
            assert(o2[i] == offs[i]);
        }
        lemma_scatter(d, o2, v2);
        let s2 = scatter(d, o2, v2);
        assert forall|k: int| 0 <= k < offs.len() implies #[trigger] scatter(d, offs, v)[offs[k]]
            == v[k] by {
            if k < n {
                assert(offs[k] < offs[n]);
                assert(o2[k] == offs[k]);
                assert(s2[o2[k]] == v2[k]);
            }
        }
        assert forall|p: int|
            0 <= p < d.len() && (forall|k: int| 0 <= k < offs.len() ==> offs[k] != p) implies #[trigger] scatter(
            d,
            offs,
            v,
        )[p] == d[p] by {
            assert forall|k: int| 0 <= k < o2.len() implies o2[k] != p by {
                assert(o2[k] == offs[k]);
            }
        }
    }
}

/// Writing the same values through the same distinct offsets twice is
/// writing them once.
pub proof fn lemma_scatter_twice(d: Seq<i64>, offs: Seq<int>, v: Seq<i64>)
    requires
        strictly_increasing(offs),
        v.len() == offs.len(),
        forall|i: int| 0 <= i < offs.len() ==> 0 <= #[trigger] offs[i] < d.len(),
    ensures
        scatter(scatter(d, offs, v), offs, v) == scatter(d, offs, v),
{
    let once = scatter(d, offs, v);
    lemma_scatter(d, offs, v);
    lemma_scatter(once, offs, v);
    let twice = scatter(once, offs, v);
    assert forall|p: int| 0 <= p < d.len() implies twice[p] == once[p] by {
        if exists|k: int| 0 <= k < offs.len() && offs[k] == p {
            let k = choose|k: int| 0 <= k < offs.len() && offs[k] == p;
            assert(twice[offs[k]] == v[k]);
            assert(once[offs[k]] == v[k]);
        } else {
            assert(twice[p] == once[p]);
        }
    }
    assert(twice =~= once);
}

/// A write keeps every layout and the length of every storage, so the table
/// stays consistent.
pub proof fn lemma_write_wf(t: Seq<SignalView>, id: int, v: Seq<i64>)
    requires
        table_wf(t),
        0 <= id < t.len(),
        v.len() == value_of(t, id).len(),
    ensures
        table_wf(write_spec(t, id, v)),
        write_spec(t, id, v).len() == t.len(),
        forall|k: int|
            0 <= k < t.len() ==> (#[trigger] write_spec(t, id, v)[k]).kind == t[k].kind
                && write_spec(t, id, v)[k].shape == t[k].shape && write_spec(t, id, v)[k].name
                == t[k].name && write_spec(t, id, v)[k].initial == t[k].initial
                && write_spec(t, id, v)[k].storage.len() == t[k].storage.len(),
{
    let w = write_spec(t, id, v);
    assert(signal_wf(t, id));
    match t[id].kind {
        SignalKind::View { base, offsets } => {
            assert(signal_wf(t, base));
            lemma_scatter(t[base].storage, offsets, v);
        },
        _ => {},
    }
    assert forall|k: int| 0 <= k < w.len() implies #[trigger] signal_wf(w, k) by {
        assert(signal_wf(t, k));
        match t[k].kind {
            SignalKind::View { base, offsets } => {
                assert(signal_wf(t, base));
                assert(w[base].storage.len() == t[base].storage.len());
            },
            _ => {},
        }
    }
}

/// Reading a view right after writing `v` through it yields `v`, the base's
/// elements at the view's offsets now hold `v`, and the base's other elements
/// are unchanged; reading a view after writing its base yields the base's new
/// elements at the view's offsets.
pub proof fn lemma_view_coherence(t: Seq<SignalView>, id: int, v: Seq<i64>, w: Seq<i64>)
    requires
        table_wf(t),
        0 <= id < t.len(),
        t[id].kind is View,
        v.len() == value_of(t, id).len(),
    ensures
        value_of(write_spec(t, id, v), id) == v,
        ({
            let base = t[id].kind->base;
            let offsets = t[id].kind->offsets;
            &&& forall|k: int|
                0 <= k < offsets.len() ==> #[trigger] value_of(write_spec(t, id, v), base)[offsets[k]]
                    == v[k]
            &&& forall|p: int|
                0 <= p < t[base].storage.len() && (forall|k: int|
                    0 <= k < offsets.len() ==> offsets[k] != p) ==> #[trigger] value_of(
                    write_spec(t, id, v),
                    base,
                )[p] == value_of(t, base)[p]
            &&& w.len() == t[base].storage.len() ==> value_of(write_spec(t, base, w), id) == Seq::new(
                offsets.len(),
                |i: int| w[offsets[i]],
            )
        }),
{
    let base = t[id].kind->base;
    let offsets = t[id].kind->offsets;
    assert(signal_wf(t, id));
    assert(signal_wf(t, base));
    lemma_scatter(t[base].storage, offsets, v);
    let after = write_spec(t, id, v);
    assert(value_of(after, id) =~= v);
    if w.len() == t[base].storage.len() {
        let after_base = write_spec(t, base, w);
        assert(value_of(after_base, id) =~= Seq::new(offsets.len(), |i: int| w[offsets[i]]));
    }
}

/// Resetting a signal twice leaves the table as resetting it once.
pub proof fn lemma_reset_idempotent(t: Seq<SignalView>, id: int)
    requires
        table_wf(t),
        0 <= id < t.len(),
    ensures
        reset_spec(reset_spec(t, id), id) == reset_spec(t, id),
        table_wf(reset_spec(t, id)),
{
    assert(signal_wf(t, id));
    match t[id].initial {
        Some(init) => {
            lemma_write_wf(t, id, init);
            let once = write_spec(t, id, init);
            match t[id].kind {
                SignalKind::View { base, offsets } => {
                    assert(signal_wf(t, base));
                    lemma_scatter_twice(t[base].storage, offsets, init);
                    assert(once[base].storage == scatter(t[base].storage, offsets, init));
                    assert(write_spec(once, id, init) =~= once);
                },
                _ => {
                    assert(write_spec(once, id, init) =~= once);
                },
            }
        },
        None => {},
    }
}

/// Two tables hold the same signals, with the same layouts and storage
/// lengths; only stored values may differ.
pub open spec fn same_layout(t: Seq<SignalView>, s: Seq<SignalView>) -> bool {
    &&& t.len() == s.len()
    &&& forall|k: int|
        0 <= k < t.len() ==> (#[trigger] t[k]).name == s[k].name && t[k].shape == s[k].shape
            && t[k].kind == s[k].kind && t[k].initial == s[k].initial && t[k].storage.len()
            == s[k].storage.len()
}

/// Keeping the layout twice keeps it.
pub proof fn lemma_same_layout_trans(a: Seq<SignalView>, b: Seq<SignalView>, c: Seq<SignalView>)
    requires
        same_layout(a, b),
        same_layout(b, c),
    ensures
        same_layout(a, c),
{
    assert forall|k: int| 0 <= k < a.len() implies (#[trigger] a[k]).name == c[k].name && a[k].shape
        == c[k].shape && a[k].kind == c[k].kind && a[k].initial == c[k].initial && a[k].storage.len()
        == c[k].storage.len() by {
        assert(b[k].name == c[k].name);
    }
}

/// Whether resetting signal `id` writes position `i` of signal `k`'s storage.
pub open spec fn reset_writes(t: Seq<SignalView>, id: int, k: int, i: int) -> bool {
    &&& t[id].initial is Some
    &&& match t[id].kind {
        SignalKind::View { base, offsets } => k == base && exists|j: int|
            0 <= j < offsets.len() && offsets[j] == i,
        _ => k == id && 0 <= i < t[id].storage.len(),
    }
}

/// The value that resetting signal `id` writes at position `i` of signal
/// `k`, where it writes there.
pub open spec fn reset_written(t: Seq<SignalView>, id: int, k: int, i: int) -> i64 {
    let init = t[id].initial->Some_0;
    match t[id].kind {
        SignalKind::View { base, offsets } => init[choose|j: int|
            0 <= j < offsets.len() && offsets[j] == i],
        _ => init[i],
    }
}

/// The last of the resets of signals `0 .. n` that writes position `i` of
/// signal `k`.
pub open spec fn last_reset(t: Seq<SignalView>, n: nat, k: int, i: int) -> Option<int>
    decreases n,
{
    if n == 0 {
        None
    } else if reset_writes(t, n - 1, k, i) {
        Some(n - 1)
    } else {
        last_reset(t, (n - 1) as nat, k, i)
    }
}

/// Which reset writes where, and what, depends on the layout alone.
pub proof fn lemma_last_reset_layout(t: Seq<SignalView>, s: Seq<SignalView>, n: nat, k: int, i: int)
    requires
        same_layout(t, s),
        n <= t.len(),
    ensures
        last_reset(t, n, k, i) == last_reset(s, n, k, i),
        last_reset(t, n, k, i) is Some ==> reset_written(t, last_reset(t, n, k, i)->Some_0, k, i)
            == reset_written(s, last_reset(t, n, k, i)->Some_0, k, i),
    decreases n,
{
    if n > 0 {
        let id = n - 1;
        assert(t[id].kind == s[id].kind && t[id].initial == s[id].initial && t[id].storage.len() == s[id].storage.len());
        assert(reset_writes(t, id, k, i) == reset_writes(s, id, k, i));
        lemma_last_reset_layout(t, s, (n - 1) as nat, k, i);
    }
}

/// One reset keeps the layout, and stores what it writes where it writes,
/// leaving every other position as it was.
pub proof fn lemma_reset_positions(t: Seq<SignalView>, id: int)
    requires
        table_wf(t),
        0 <= id < t.len(),
    ensures
        same_layout(t, reset_spec(t, id)),
        table_wf(reset_spec(t, id)),
        forall|k: int, i: int|
            0 <= k < t.len() && 0 <= i < t[k].storage.len() ==> (#[trigger] reset_spec(t, id)[k].storage[i])
                == if reset_writes(t, id, k, i) {
                reset_written(t, id, k, i)
            } else {
                t[k].storage[i]
            },
{
    let r = reset_spec(t, id);
    assert(signal_wf(t, id));
    lemma_reset_idempotent(t, id);
    lemma_value_len(t, id);
    if t[id].initial is Some {
        let init = t[id].initial->Some_0;
        lemma_write_wf(t, id, init);
        match t[id].kind {
            SignalKind::View { base, offsets } => {
                assert(signal_wf(t, base));
                lemma_scatter(t[base].storage, offsets, init);
                assert forall|k: int, i: int|
                    0 <= k < t.len() && 0 <= i < t[k].storage.len() implies (#[trigger] r[k].storage[i])
                        == if reset_writes(t, id, k, i) {
                        reset_written(t, id, k, i)
                    } else {
                        t[k].storage[i]
                    } by {
                    if k == base {
                        if exists|j: int| 0 <= j < offsets.len() && offsets[j] == i {
                            let j = choose|j: int| 0 <= j < offsets.len() && offsets[j] == i;
                            assert(r[k].storage[offsets[j]] == init[j]);
                        } else {
                            assert(forall|j: int| 0 <= j < offsets.len() ==> offsets[j] != i);
                        }
                    }
                }
            },
            _ => {},
        }
    }
    assert forall|k: int| 0 <= k < t.len() implies (#[trigger] t[k]).name == r[k].name && t[k].shape == r[k].shape
        && t[k].kind == r[k].kind && t[k].initial == r[k].initial && t[k].storage.len() == r[k].storage.len() by {
        if t[id].initial is Some {
            assert(r[k] == write_spec(t, id, t[id].initial->Some_0)[k]);
        }
    }
}

/// Resetting signals `0 .. n` in order keeps the layout, and leaves at each
/// position what the last reset writing there wrote, or the old value where
/// none writes.
pub proof fn lemma_reset_all_positions(t: Seq<SignalView>, n: nat)
    requires
        table_wf(t),
        n <= t.len(),
    ensures
        same_layout(t, reset_all_spec(t, n)),
        table_wf(reset_all_spec(t, n)),
        forall|k: int, i: int|
            0 <= k < t.len() && 0 <= i < t[k].storage.len() ==> (#[trigger] reset_all_spec(t, n)[k].storage[i])
                == match last_reset(t, n, k, i) {
                Some(w) => reset_written(t, w, k, i),
                None => t[k].storage[i],
            },
    decreases n,
{
    if n > 0 {
        let m = (n - 1) as nat;
        lemma_reset_all_positions(t, m);
        let u = reset_all_spec(t, m);
        lemma_reset_positions(u, m as int);
        let v = reset_all_spec(t, n);
        assert(v == reset_spec(u, m as int));
        assert forall|k: int, i: int|
            0 <= k < t.len() && 0 <= i < t[k].storage.len() implies (#[trigger] v[k].storage[i])
                == match last_reset(t, n, k, i) {
                Some(w) => reset_written(t, w, k, i),
                None => t[k].storage[i],
            } by {
            assert(u[m as int].kind == t[m as int].kind && u[m as int].initial == t[m as int].initial
                && u[m as int].storage.len() == t[m as int].storage.len());
            assert(reset_writes(u, m as int, k, i) == reset_writes(t, m as int, k, i));
            assert(u[k].storage.len() == t[k].storage.len());
            assert(v[k].storage[i] == if reset_writes(u, m as int, k, i) {
                reset_written(u, m as int, k, i)
            } else {
                u[k].storage[i]
            });
            assert(u[k].storage[i] == match last_reset(t, m, k, i) {
                Some(w) => reset_written(t, w, k, i),
                None => t[k].storage[i],
            });
        }
        assert forall|k: int| 0 <= k < t.len() implies (#[trigger] t[k]).name == v[k].name && t[k].shape == v[k].shape
            && t[k].kind == v[k].kind && t[k].initial == v[k].initial && t[k].storage.len() == v[k].storage.len() by {
            assert(t[k].name == u[k].name && u[k].name == v[k].name);
        }
    }
}

/// Resetting every signal twice leaves the table as resetting every signal
/// once.
pub proof fn lemma_reset_all_idempotent(t: Seq<SignalView>)
    requires
        table_wf(t),
    ensures
        reset_all_spec(reset_all_spec(t, t.len()), t.len()) == reset_all_spec(t, t.len()),
        table_wf(reset_all_spec(t, t.len())),
{
    let n = t.len();
    let u = reset_all_spec(t, n);
    lemma_reset_all_positions(t, n);
    lemma_reset_all_positions(u, n);
    let v = reset_all_spec(u, n);
    assert forall|k: int| 0 <= k < n implies #[trigger] v[k] == u[k] by {
        assert(v[k].name == u[k].name);
        assert forall|i: int| 0 <= i < u[k].storage.len() implies v[k].storage[i] == u[k].storage[i] by {
            lemma_last_reset_layout(u, t, n, k, i);
            assert(v[k].storage[i] == match last_reset(u, n, k, i) {
                Some(w) => reset_written(u, w, k, i),
                None => u[k].storage[i],
            });
            assert(u[k].storage[i] == match last_reset(t, n, k, i) {
                Some(w) => reset_written(t, w, k, i),
                None => t[k].storage[i],
            });
        }
        assert(v[k].storage =~= u[k].storage);
    }
    assert(v =~= u);
}

/// A scalar is written by its own reset alone: the last reset among `0 .. n`
/// writing it is its own, once `n` passes it.
proof fn lemma_last_reset_scalar(t: Seq<SignalView>, n: nat, id: int)
    requires
        table_wf(t),
        0 <= id < n <= t.len(),
        t[id].kind is Scalar,
    ensures
        last_reset(t, n, id, 0) == Some(id),
    decreases n,
{
    assert(signal_wf(t, id));
    if n - 1 != id {
        let w = n - 1;
        assert(signal_wf(t, w));
        match t[w].kind {
            SignalKind::View { base, offsets } => {
                assert(t[base].kind is Owned);
            },
            _ => {},
        }
        assert(!reset_writes(t, w, id, 0));
        lemma_last_reset_scalar(t, (n - 1) as nat, id);
    }
}

/// After every signal is reset, a scalar holds its initial value.
pub proof fn lemma_reset_all_scalar(t: Seq<SignalView>, id: int)
    requires
        table_wf(t),
        0 <= id < t.len(),
        t[id].kind is Scalar,
    ensures
        reset_all_spec(t, t.len())[id].kind is Scalar,
        value_of(reset_all_spec(t, t.len()), id) == t[id].initial->Some_0,
{
    let n = t.len();
    lemma_reset_all_positions(t, n);
    lemma_last_reset_scalar(t, n, id);
    assert(signal_wf(t, id));
    let u = reset_all_spec(t, n);
    assert(u[id].storage[0] == reset_written(t, id, id, 0));
    assert(u[id].storage.len() == 1);
    assert(u[id].storage =~= t[id].initial->Some_0);
}

/// A copy of `v`.
pub fn copy_values(v: &Vec<i64>) -> (r: Vec<i64>)
    ensures
        r@ == v@,
{
    let mut r: Vec<i64> = Vec::new();
    let mut i: usize = 0;
    while i < v.len()
        invariant
            i <= v@.len(),
            r@ == v@.take(i as int),
        decreases v@.len() - i,
    {
        r.push(v[i]);
        proof {
            assert(v@.take(i + 1) =~= v@.take(i as int).push(v@[i as int]));
        }
        i = i + 1;
    }
    proof {
        assert(v@.take(v@.len() as int) =~= v@);
    }
    r
}

/// A copy of `v`.
pub fn copy_indices(v: &Vec<usize>) -> (r: Vec<usize>)
    ensures
        r@ == v@,
{
    let mut r: Vec<usize> = Vec::new();
    let mut i: usize = 0;
    while i < v.len()
        invariant
            i <= v@.len(),
            r@ == v@.take(i as int),
        decreases v@.len() - i,
    {
        r.push(v[i]);
        proof {
            assert(v@.take(i + 1) =~= v@.take(i as int).push(v@[i as int]));
        }
        i = i + 1;
    }
    proof {
        assert(v@.take(v@.len() as int) =~= v@);
    }
    r
}

impl ScalarSignal {
    /// A scalar holding `initial_value`, which a reset restores.
    pub fn new(name: String, initial_value: i64) -> (s: ScalarSignal)
        ensures
            s.name@ == name@,
            s.value == initial_value,
            s.initial_value == initial_value,
    {
        ScalarSignal { name, value: initial_value, initial_value }
    }
}

impl ArraySignal {
    /// An owned array of the initial value's shape, holding that value until
    /// first written; a reset restores it. Fails unless the initial value
    /// holds one element per element of its shape.
    pub fn new(name: String, initial_value: NdArray) -> (r: Result<ArraySignal, ConstructionError>)
        ensures
            r is Ok <==> initial_value.wf(),
            r is Ok ==> standalone_wf(signal_view(Signal::Array(r->Ok_0))) && signal_view(
                Signal::Array(r->Ok_0),
            ) == (SignalView {
                name: name@,
                shape: initial_value.shape@,
                kind: SignalKind::Owned,
                initial: Some(initial_value.data@),
                storage: initial_value.data@,
            }),
            r is Err ==> r->Err_0 == ConstructionError::ShapeMismatch,
    {
        let len = initial_value.data.len();
        match crate::array::shape_size_exec(&initial_value.shape) {
            Some(n) => {
                if n != len {
                    return Err(ConstructionError::ShapeMismatch);
                }
            },
            None => {
                return Err(ConstructionError::ShapeMismatch);
            },
        }
        let NdArray { shape, data } = initial_value;
        let buffer = copy_values(&data);
        Ok(ArraySignal { name, buffer: ArrayRef::Owned(buffer), initial_value: Some(data), shape })
    }

    /// A view of the owned array signal `base` of `table`, selecting `slices`;
    /// `initial_value`, if given, is what a reset writes through it.
    ///
    /// Fails with `UnknownSignal` when `base` is not in the table,
    /// `TypeMismatch` when it is a scalar, `ViewOfView` when it is a view, and
    /// `ShapeMismatch` when the slices do not fit the base or the initial value
    /// does not fit the view.
    pub fn new_view(
        name: String,
        table: &SignalTable,
        base: usize,
        slices: Vec<SliceAxis>,
        initial_value: Option<Vec<i64>>,
    ) -> (r: Result<ArraySignal, ConstructionError>)
        requires
            table_wf(table@),
        ensures
            base >= table@.len() ==> r == Err::<ArraySignal, ConstructionError>(
                ConstructionError::UnknownSignal,
            ),
            base < table@.len() && table@[base as int].kind is Scalar ==> r == Err::<
                ArraySignal,
                ConstructionError,
            >(ConstructionError::TypeMismatch),
            base < table@.len() && table@[base as int].kind is View ==> r == Err::<
                ArraySignal,
                ConstructionError,
            >(ConstructionError::ViewOfView),
            base < table@.len() && table@[base as int].kind is Owned ==> {
                let bs = table@[base as int].shape;
                let ok = slices_fit(bs, slices@) && (initial_value is Some
                    ==> initial_value->Some_0@.len() == shape_size(view_shape(slices@)));
                &&& (r is Ok <==> ok)
                &&& (r is Err ==> r->Err_0 == ConstructionError::ShapeMismatch)
                &&& (r is Ok ==> signal_view(Signal::Array(r->Ok_0)) == (SignalView {
                    name: name@,
                    shape: view_shape(slices@),
                    kind: SignalKind::View { base: base as int, offsets: slice_offsets(bs, slices@) },
                    initial: match initial_value {
                        Some(v) => Some(v@),
                        None => None,
                    },
                    storage: Seq::empty(),
                }))
                &&& (r is Ok ==> table_wf(table@.push(signal_view(Signal::Array(r->Ok_0)))))
            },
    {
        if base >= table.signals.len() {
            return Err(ConstructionError::UnknownSignal);
        }
        proof {
            assert(table@[base as int] == signal_view(table.signals@[base as int]));
        }
        let base_signal = &table.signals[base];
        let (base_shape, base_len) = match base_signal {
            Signal::Scalar(_) => {
                return Err(ConstructionError::TypeMismatch);
            },
            Signal::Array(a) => match &a.buffer {
                ArrayRef::View(_, _) => {
                    return Err(ConstructionError::ViewOfView);
                },
                ArrayRef::Owned(d) => (&a.shape, d.len()),
            },
        };
        proof {
            assert(signal_wf(table@, base as int));
            assert(table@[base as int].kind is Owned);
            assert(table@[base as int].shape == base_shape@);
            assert(table@[base as int].storage.len() == base_len);
        }
        let n = base_shape.len();
        if slices.len() != n {
            return Err(ConstructionError::ShapeMismatch);
        }
        let mut k: usize = 0;
        while k < n
            invariant
                k <= n,
                n == base_shape@.len(),
                n == slices@.len(),
                base < table@.len(),
                table@[base as int].kind is Owned,
                table@[base as int].shape == base_shape@,
                forall|j: int| 0 <= j < k ==> (#[trigger] slices@[j]).step > 0 && slices@[j].end <= base_shape@[j],
            decreases n - k,
        {
            if slices[k].step == 0 || slices[k].end > base_shape[k] {
                return Err(ConstructionError::ShapeMismatch);
            }
            k = k + 1;
        }
        let mut shape: Vec<usize> = Vec::new();
        let mut k: usize = 0;
        while k < n
            invariant
                k <= n,
                n == slices@.len(),
                shape@ == view_shape(slices@).take(k as int),
            decreases n - k,
        {
            shape.push(crate::slice::axis_len_exec(&slices[k]));
            proof {
                assert(shape@ =~= view_shape(slices@).take(k + 1));
            }
            k = k + 1;
        }
        proof {
            assert(shape@ =~= view_shape(slices@));
            lemma_slice_offsets(base_shape@, slices@);
        }
        let offsets = compute_offsets(base_shape, &slices);
        match &initial_value {
            Some(v) => {
                if offsets.len() != v.len() {
                    return Err(ConstructionError::ShapeMismatch);
                }
            },
            None => {},
        }
        let view = ArraySignal {
            name,
            buffer: ArrayRef::View(base, offsets),
            initial_value,
            shape,
        };
        proof {
            let t2 = table@.push(signal_view(Signal::Array(view)));
            assert(as_offsets(offsets@) == slice_offsets(base_shape@, slices@));
            assert forall|j: int| 0 <= j < t2.len() implies #[trigger] signal_wf(t2, j) by {
                if j < table@.len() {
                    assert(signal_wf(table@, j));
                    assert(t2[j] == table@[j]);
                    match table@[j].kind {
                        SignalKind::View { base: b, offsets: o } => {
                            assert(t2[b] == table@[b]);
                        },
                        _ => {},
                    }
                }
            }
        }
        Ok(view)
    }
}

/// The signals of a graph, each named by its index.
pub struct SignalTable {
    signals: Vec<Signal>,
}

impl View for SignalTable {
    type V = Seq<SignalView>;

    closed spec fn view(&self) -> Seq<SignalView> {
        Seq::new(self.signals@.len(), |i: int| signal_view(self.signals@[i]))
    }
}

impl SignalTable {
    /// An empty table.
    pub fn new() -> (t: SignalTable)
        ensures
            t@ == Seq::<SignalView>::empty(),
            table_wf(t@),
    {
        let t = SignalTable { signals: Vec::new() };
        proof {
            assert(t@ =~= Seq::<SignalView>::empty());
        }
        t
    }

    /// Number of signals.
    pub fn len(&self) -> (n: usize)
        ensures
            n == self@.len(),
    {
        self.signals.len()
    }

    /// Adds a signal and returns its index.
    pub fn add(&mut self, signal: Signal) -> (id: usize)
        requires
            table_wf(old(self)@.push(signal_view(signal))),
        ensures
            id == old(self)@.len(),
            final(self)@ == old(self)@.push(signal_view(signal)),
            table_wf(final(self)@),
    {
        let id = self.signals.len();
        self.signals.push(signal);
        proof {
            assert(self@ =~= old(self)@.push(signal_view(signal)));
        }
        id
    }

    /// Adds a scalar holding `initial_value` and returns its index.
    pub fn add_scalar(&mut self, name: String, initial_value: i64) -> (id: usize)
        requires
            table_wf(old(self)@),
        ensures
            id == old(self)@.len(),
            final(self)@ == old(self)@.push(
                SignalView {
                    name: name@,
                    shape: Seq::empty(),
                    kind: SignalKind::Scalar,
                    initial: Some(seq![initial_value]),
                    storage: seq![initial_value],
                },
            ),
            table_wf(final(self)@),
    {
        let s = Signal::Scalar(ScalarSignal::new(name, initial_value));
        proof {
            lemma_push_standalone(self@, signal_view(s));
        }
        self.add(s)
    }

    /// Adds an owned array signal holding `initial_value` and returns its
    /// index; fails unless the value holds one element per element of its
    /// shape.
    pub fn add_array(&mut self, name: String, initial_value: NdArray) -> (r: Result<usize, ConstructionError>)
        requires
            table_wf(old(self)@),
        ensures
            r is Ok <==> initial_value.wf(),
            r is Ok ==> r->Ok_0 == old(self)@.len() && final(self)@ == old(self)@.push(
                SignalView {
                    name: name@,
                    shape: initial_value.shape@,
                    kind: SignalKind::Owned,
                    initial: Some(initial_value.data@),
                    storage: initial_value.data@,
                },
            ),
            r is Err ==> r->Err_0 == ConstructionError::ShapeMismatch && final(self)@ == old(self)@,
            table_wf(final(self)@),
    {
        match ArraySignal::new(name, initial_value) {
            Ok(a) => {
                let s = Signal::Array(a);
                proof {
                    lemma_push_standalone(self@, signal_view(s));
                }
                Ok(self.add(s))
            },
            Err(e) => Err(e),
        }
    }

    /// Whether signal `id` is a scalar.
    pub fn is_scalar(&self, id: usize) -> (r: bool)
        requires
            id < self@.len(),
        ensures
            r == self@[id as int].kind is Scalar,
    {
        match &self.signals[id] {
            Signal::Scalar(_) => true,
            Signal::Array(_) => false,
        }
    }

    /// The name of signal `id`.
    pub fn name(&self, id: usize) -> (r: &String)
        requires
            id < self@.len(),
        ensures
            r@ == self@[id as int].name,
    {
        match &self.signals[id] {
            Signal::Scalar(s) => &s.name,
            Signal::Array(a) => &a.name,
        }
    }

    /// The shape of signal `id` (empty for a scalar).
    pub fn shape(&self, id: usize) -> (r: Vec<usize>)
        requires
            id < self@.len(),
        ensures
            r@ == self@[id as int].shape,
    {
        match &self.signals[id] {
            Signal::Scalar(_) => Vec::new(),
            Signal::Array(a) => copy_indices(&a.shape),
        }
    }

    /// The value that reading signal `id` yields.
    pub fn read(&self, id: usize) -> (r: Vec<i64>)
        requires
            table_wf(self@),
            id < self@.len(),
        ensures
            r@ == value_of(self@, id as int),
    {
        proof {
            assert(signal_wf(self@, id as int));
        }
        match &self.signals[id] {
            Signal::Scalar(s) => {
                let mut r: Vec<i64> = Vec::new();
                r.push(s.value);
                proof {
                    assert(r@ =~= seq![s.value]);
                }
                r
            },
            Signal::Array(a) => match &a.buffer {
                ArrayRef::Owned(d) => copy_values(d),
                ArrayRef::View(b, offs) => {
                    let ghost t = self@;
                    proof {
                        assert(signal_wf(t, *b as int));
                        assert(t[*b as int] == signal_view(self.signals@[*b as int]));
                    }
                    match &self.signals[*b] {
                        Signal::Array(ba) => match &ba.buffer {
                            ArrayRef::Owned(d) => {
                                proof {
                                    assert forall|j: int| 0 <= j < offs@.len() implies (offs@[j] as int) < d@.len() by {
                                        assert(as_offsets(offs@)[j] == offs@[j] as int);
                                    }
                                }
                                let mut r: Vec<i64> = Vec::new();
                                let mut i: usize = 0;
                                while i < offs.len()
                                    invariant
                                        i <= offs@.len(),
                                        t[*b as int].storage == d@,
                                        forall|j: int| 0 <= j < offs@.len() ==> (offs@[j] as int) < d@.len(),
                                        r@.len() == i,
                                        forall|j: int| 0 <= j < i ==> r@[j] == d@[offs@[j] as int],
                                    decreases offs@.len() - i,
                                {
                                    r.push(d[offs[i]]);
                                    i = i + 1;
                                }
                                proof {
                                    assert(r@ =~= value_of(t, id as int));
                                }
                                r
                            },
                            ArrayRef::View(_, _) => Vec::new(),
                        },
                        Signal::Scalar(_) => Vec::new(),
                    }
                },
            },
        }
    }

    /// Writes `v` into signal `id`: into its own storage, or through a view
    /// into its base's buffer.
    pub fn write(&mut self, id: usize, v: &Vec<i64>)
        requires
            table_wf(old(self)@),
            id < old(self)@.len(),
            v@.len() == value_of(old(self)@, id as int).len(),
        ensures
            final(self)@ == write_spec(old(self)@, id as int, v@),
            final(self)@.len() == old(self)@.len(),
            same_layout(old(self)@, final(self)@),
            table_wf(final(self)@),
    {
        let ghost t = self@;
        proof {
            assert(signal_wf(t, id as int));
            lemma_write_wf(t, id as int, v@);
            assert(t[id as int] == signal_view(self.signals@[id as int]));
        }
        let target: Option<(usize, Vec<usize>)> = match &self.signals[id] {
            Signal::Array(a) => match &a.buffer {
                ArrayRef::View(b, o) => Some((*b, copy_indices(o))),
                ArrayRef::Owned(_) => None,
            },
            Signal::Scalar(_) => None,
        };
        match target {
            Some((b, offs)) => {
                proof {
                    assert(signal_wf(t, b as int));
                    assert(t[b as int] == signal_view(self.signals@[b as int]));
                    assert forall|j: int| 0 <= j < offs@.len() implies (#[trigger] offs@[j] as int) < t[b as int].storage.len() by {
                        assert(as_offsets(offs@)[j] == offs@[j] as int);
                    }
                    assert(t[id as int].kind == SignalKind::View { base: b as int, offsets: as_offsets(offs@) });
                    assert(t[b as int].kind is Owned);
                }
                let ghost sigs0 = self.signals@;
                match &mut self.signals[b] {
                    Signal::Array(a) => match &mut a.buffer {
                        ArrayRef::Owned(d) => scatter_into(d, &offs, v),
                        ArrayRef::View(_, _) => {},
                    },
                    Signal::Scalar(_) => {},
                }
                proof {
                    let w = write_spec(t, id as int, v@);
                    assert(self.signals@.len() == sigs0.len());
                    assert forall|k: int| 0 <= k < sigs0.len() && k != b implies self.signals@[k] == sigs0[k] by {}
                    assert(signal_view(self.signals@[b as int]) == w[b as int]);
                    assert(self@ =~= w);
                }
            },
            None => {
                let ghost sigs0 = self.signals@;
                proof {
                    assert(!(t[id as int].kind is View));
                    if t[id as int].kind is Scalar {
                        assert(v@.len() == 1);
                        assert(seq![v@[0]] =~= v@);
                    }
                }
                match &mut self.signals[id] {
                    Signal::Array(a) => match &mut a.buffer {
                        ArrayRef::Owned(d) => {
                            *d = copy_values(v);
                        },
                        ArrayRef::View(_, _) => {},
                    },
                    Signal::Scalar(s) => {
                        s.value = v[0];
                    },
                }
                proof {
                    let w = write_spec(t, id as int, v@);
                    assert(self.signals@.len() == sigs0.len());
                    assert forall|k: int| 0 <= k < sigs0.len() && k != id implies self.signals@[k] == sigs0[k] by {}
                    assert(signal_view(self.signals@[id as int]) == w[id as int]);
                    assert(self@ =~= w);
                }
            },
        }
    }

    /// Resets signal `id`: writes its initial value into it (a view without
    /// one is left alone).
    pub fn reset(&mut self, id: usize)
        requires
            table_wf(old(self)@),
            id < old(self)@.len(),
        ensures
            final(self)@ == reset_spec(old(self)@, id as int),
            same_layout(old(self)@, final(self)@),
            table_wf(final(self)@),
    {
        proof {
            assert(signal_wf(self@, id as int));
            assert(self@[id as int] == signal_view(self.signals@[id as int]));
            lemma_value_len(self@, id as int);
        }
        let init: Vec<i64> = match &self.signals[id] {
            Signal::Scalar(s) => {
                let mut v: Vec<i64> = Vec::new();
                v.push(s.initial_value);
                proof {
                    assert(v@ =~= seq![s.initial_value]);
                }
                v
            },
            Signal::Array(a) => match &a.initial_value {
                Some(v) => copy_values(v),
                None => {
                    return;
                },
            },
        };
        self.write(id, &init);
    }

    /// Resets every signal, in index order.
    pub fn reset_all(&mut self)
        requires
            table_wf(old(self)@),
        ensures
            final(self)@ == reset_all_spec(old(self)@, old(self)@.len()),
            table_wf(final(self)@),
    {
        let ghost t0 = self@;
        let n = self.signals.len();
        let mut i: usize = 0;
        while i < n
            invariant
                i <= n,
                n == t0.len(),
                self@.len() == n,
                table_wf(self@),
                self@ == reset_all_spec(t0, i as nat),
            decreases n - i,
        {
            proof {
                lemma_reset_idempotent(self@, i as int);
                lemma_reset_len(self@, i as int);
            }
            self.reset(i);
            i = i + 1;
        }
    }

    /// The value of signal `id` when it is a scalar.
    pub fn scalar_value(&self, id: usize) -> (r: Option<i64>)
        requires
            table_wf(self@),
        ensures
            r is Some <==> id < self@.len() && self@[id as int].kind is Scalar,
            r is Some ==> seq![r->Some_0] == value_of(self@, id as int),
    {
        if id >= self.signals.len() {
            return None;
        }
        proof {
            assert(self@[id as int] == signal_view(self.signals@[id as int]));
        }
        match &self.signals[id] {
            Signal::Scalar(s) => Some(s.value),
            Signal::Array(_) => None,
        }
    }

    /// The elements of signal `id` when it is an array.
    pub fn clone_array(&self, id: usize) -> (r: Option<Vec<i64>>)
        requires
            table_wf(self@),
        ensures
            r is Some <==> id < self@.len() && !(self@[id as int].kind is Scalar),
            r is Some ==> r->Some_0@ == value_of(self@, id as int),
    {
        if id >= self.signals.len() {
            return None;
        }
        proof {
            assert(self@[id as int] == signal_view(self.signals@[id as int]));
        }
        match &self.signals[id] {
            Signal::Scalar(_) => None,
            Signal::Array(_) => Some(self.read(id)),
        }
    }

    /// Writes `value` into the scalar signal `id`; fails with `TypeMismatch`
    /// unless `id` names a scalar.
    pub fn write_scalar(&mut self, id: usize, value: i64) -> (r: Result<(), OperatorError>)
        requires
            table_wf(old(self)@),
        ensures
            r is Ok <==> id < old(self)@.len() && old(self)@[id as int].kind is Scalar,
            r is Ok ==> final(self)@ == write_spec(old(self)@, id as int, seq![value]),
            r is Err ==> r->Err_0 == OperatorError::TypeMismatch && final(self)@ == old(self)@,
            final(self)@.len() == old(self)@.len(),
            same_layout(old(self)@, final(self)@),
            table_wf(final(self)@),
    {
        if id >= self.signals.len() || !self.is_scalar(id) {
            return Err(OperatorError::TypeMismatch);
        }
        proof {
            assert(signal_wf(self@, id as int));
        }
        let mut v: Vec<i64> = Vec::new();
        v.push(value);
        proof {
            assert(v@ =~= seq![value]);
        }
        self.write(id, &v);
        Ok(())
    }

    /// Writes `values` into the array signal `id`. Fails with `TypeMismatch`
    /// unless `id` names an array, and with `ShapeMismatch` unless `values`
    /// holds one value per element of it.
    pub fn assign_values(&mut self, id: usize, values: &Vec<i64>) -> (r: Result<(), OperatorError>)
        requires
            table_wf(old(self)@),
        ensures
            id >= old(self)@.len() || old(self)@[id as int].kind is Scalar ==> r == Err::<
                (),
                OperatorError,
            >(OperatorError::TypeMismatch),
            id < old(self)@.len() && !(old(self)@[id as int].kind is Scalar) ==> (r is Ok
                <==> values@.len() == elems(old(self)@[id as int])),
            id < old(self)@.len() && !(old(self)@[id as int].kind is Scalar) && r is Err ==> r
                == Err::<(), OperatorError>(OperatorError::ShapeMismatch),
            r is Ok ==> final(self)@ == write_spec(old(self)@, id as int, values@),
            r is Err ==> final(self)@ == old(self)@,
            r == Err::<(), OperatorError>(OperatorError::ShapeMismatch) || r
                == Err::<(), OperatorError>(OperatorError::TypeMismatch) || r is Ok,
            final(self)@.len() == old(self)@.len(),
            same_layout(old(self)@, final(self)@),
            table_wf(final(self)@),
    {
        if id >= self.signals.len() || self.is_scalar(id) {
            return Err(OperatorError::TypeMismatch);
        }
        proof {
            lemma_value_len(self@, id as int);
        }
        let n = self.element_count(id);
        if values.len() != n {
            return Err(OperatorError::ShapeMismatch);
        }
        self.write(id, values);
        Ok(())
    }

    /// Writes the array `src` into the array signal `id`. Fails with
    /// `TypeMismatch` unless `id` names an array, and with `ShapeMismatch`
    /// unless `src` has the signal's shape and one value per element.
    pub fn assign_array(&mut self, id: usize, src: &NdArray) -> (r: Result<(), OperatorError>)
        requires
            table_wf(old(self)@),
        ensures
            id >= old(self)@.len() || old(self)@[id as int].kind is Scalar ==> r == Err::<
                (),
                OperatorError,
            >(OperatorError::TypeMismatch),
            id < old(self)@.len() && !(old(self)@[id as int].kind is Scalar) ==> (r is Ok
                <==> src.shape@ == old(self)@[id as int].shape && src.wf()),
            id < old(self)@.len() && !(old(self)@[id as int].kind is Scalar) && r is Err ==> r
                == Err::<(), OperatorError>(OperatorError::ShapeMismatch),
            r is Ok ==> final(self)@ == write_spec(old(self)@, id as int, src.data@),
            r is Err ==> final(self)@ == old(self)@,
            r == Err::<(), OperatorError>(OperatorError::ShapeMismatch) || r
                == Err::<(), OperatorError>(OperatorError::TypeMismatch) || r is Ok,
            final(self)@.len() == old(self)@.len(),
            same_layout(old(self)@, final(self)@),
            table_wf(final(self)@),
    {
        if id >= self.signals.len() || self.is_scalar(id) {
            return Err(OperatorError::TypeMismatch);
        }
        let shape = self.shape(id);
        if !same_shape(&shape, &src.shape) {
            return Err(OperatorError::ShapeMismatch);
        }
        self.assign_values(id, &src.data)
    }

    /// Number of elements of signal `id`.
    pub fn element_count(&self, id: usize) -> (n: usize)
        requires
            table_wf(self@),
            id < self@.len(),
        ensures
            n == elems(self@[id as int]),
    {
        proof {
            assert(signal_wf(self@, id as int));
            assert(self@[id as int] == signal_view(self.signals@[id as int]));
        }
        match &self.signals[id] {
            Signal::Scalar(_) => {
                proof {
                    assert(shape_size(Seq::<usize>::empty()) == 1);
                }
                1
            },
            Signal::Array(a) => match &a.buffer {
                ArrayRef::Owned(d) => d.len(),
                ArrayRef::View(_, o) => o.len(),
            },
        }
    }
}

/// Writes `v[k]` at position `offs[k]` of `d`, in order.
fn scatter_into(d: &mut Vec<i64>, offs: &Vec<usize>, v: &Vec<i64>)
    requires
        offs@.len() == v@.len(),
        forall|j: int| 0 <= j < offs@.len() ==> (#[trigger] offs@[j] as int) < old(d)@.len(),
    ensures
        final(d)@ == scatter(old(d)@, as_offsets(offs@), v@),
{
    let ghost d0 = d@;
    let ghost o = as_offsets(offs@);
    let mut k: usize = 0;
    proof {
        assert(o.take(0) =~= Seq::<int>::empty());
    }
    while k < offs.len()
        invariant
            k <= offs@.len(),
            offs@.len() == v@.len(),
            o == as_offsets(offs@),
            d@.len() == d0.len(),
            forall|j: int| 0 <= j < offs@.len() ==> (#[trigger] offs@[j] as int) < d0.len(),
            d@ == scatter(d0, o.take(k as int), v@.take(k as int)),
        decreases offs@.len() - k,
    {
        let p = offs[k];
        assert((p as int) < d0.len());
        d[p] = v[k];
        proof {
            let o2 = o.take(k + 1);
            assert(o2.drop_last() =~= o.take(k as int));
            assert(v@.take(k + 1).take(k as int) =~= v@.take(k as int));
            assert(o2.last() == p as int);
            assert(v@.take(k + 1)[k as int] == v@[k as int]);
        }
        k = k + 1;
    }
    proof {
        assert(o.take(offs@.len() as int) =~= o);
        assert(v@.take(v@.len() as int) =~= v@);
    }
}

/// Whether two shapes are equal.
pub fn same_shape(a: &Vec<usize>, b: &Vec<usize>) -> (r: bool)
    ensures
        r == (a@ == b@),
{
    if a.len() != b.len() {
        return false;
    }
    let mut i: usize = 0;
    while i < a.len()
        invariant
            i <= a@.len(),
            a@.len() == b@.len(),
            forall|j: int| 0 <= j < i ==> a@[j] == b@[j],
        decreases a@.len() - i,
    {
        if a[i] != b[i] {
            return false;
        }
        i = i + 1;
    }
    proof {
        assert(a@ =~= b@);
    }
    true
}

/// In a consistent table, reading a signal yields one value per element.
pub proof fn lemma_value_len(t: Seq<SignalView>, id: int)
    requires
        table_wf(t),
        0 <= id < t.len(),
    ensures
        value_of(t, id).len() == elems(t[id]),
{
    assert(signal_wf(t, id));
    if t[id].kind is Scalar {
        assert(shape_size(t[id].shape) == 1);
    }
}

/// A reset keeps the number of signals.
pub proof fn lemma_reset_len(t: Seq<SignalView>, id: int)
    requires
        table_wf(t),
        0 <= id < t.len(),
    ensures
        reset_spec(t, id).len() == t.len(),
{
    assert(signal_wf(t, id));
    lemma_value_len(t, id);
    if t[id].initial is Some {
        lemma_write_wf(t, id, t[id].initial->Some_0);
    }
}

/// Adding a scalar or an owned array keeps a consistent table consistent.
pub proof fn lemma_push_standalone(t: Seq<SignalView>, s: SignalView)
    requires
        table_wf(t),
        standalone_wf(s),
    ensures
        table_wf(t.push(s)),
{
    let t2 = t.push(s);
    assert forall|j: int| 0 <= j < t2.len() implies #[trigger] signal_wf(t2, j) by {
        if j < t.len() {
            assert(signal_wf(t, j));
            match t[j].kind {
                SignalKind::View { base: b, offsets: o } => {
                    assert(t2[b] == t[b]);
                },
                _ => {},
            }
        }
    }
}

} // verus!
