use vstd::prelude::*;

use crate::error::ConstructionError;

use crate::array::{lemma_suffix_size_le, lemma_zero_extent, shape_size, shape_size_exec};

verus! {

/// One axis of a slice: the positions `start, start + step, ...` below `end`.
#[derive(Debug, Clone, Copy, PartialEq, Eq, Structural)]
pub struct SliceAxis {
    pub start: usize,
    pub step: usize,
    pub end: usize,
}

/// Number of positions that an axis selects.
pub open spec fn axis_len(a: SliceAxis) -> nat {
    if a.step == 0 || a.end <= a.start {
        0
    } else {
        ((a.end - a.start - 1) / (a.step as int) + 1) as nat
    }
}

/// Shape of the sub-array that a slice selects.
pub open spec fn view_shape(axes: Seq<SliceAxis>) -> Seq<usize> {
    Seq::new(axes.len(), |k: int| axis_len(axes[k]) as usize)
}

/// The slice has one axis per axis of the base, each with a positive step and
/// ending within the base.
pub open spec fn slices_fit(base_shape: Seq<usize>, axes: Seq<SliceAxis>) -> bool {
    &&& axes.len() == base_shape.len()
    &&& forall|k: int|
        0 <= k < axes.len() ==> (#[trigger] axes[k]).step > 0 && axes[k].end <= base_shape[k]
}

/// Each value strictly below the next.
pub open spec fn strictly_increasing(s: Seq<int>) -> bool {
    forall|a: int, b: int| 0 <= a < b < s.len() ==> s[a] < s[b]
}

/// `inner` with `d` added to each value.
pub open spec fn shifted(inner: Seq<int>, d: int) -> Seq<int> {
    Seq::new(inner.len(), |i: int| inner[i] + d)
}

/// The first `n` positions of axis `a`, each followed by the offsets of the
/// inner axes: row `i` is `inner` shifted by `(a.start + a.step * i) * stride`.
pub open spec fn axis_rows(inner: Seq<int>, a: SliceAxis, stride: int, n: nat) -> Seq<int>
    decreases n,
{
    if n == 0 {
        Seq::empty()
    } else {
        axis_rows(inner, a, stride, (n - 1) as nat) + shifted(
            inner,
            (a.start + a.step * (n - 1)) * stride,
        )
    }
}

/// Row-major offsets, in the base's buffer, of the elements that a slice
/// selects, listed in the row-major order of the view.
pub open spec fn slice_offsets(base_shape: Seq<usize>, axes: Seq<SliceAxis>) -> Seq<int>
    decreases axes.len(),
{
    if axes.len() == 0 || base_shape.len() == 0 {
        seq![0int]
    } else {
        axis_rows(
            slice_offsets(base_shape.drop_first(), axes.drop_first()),
            axes[0],
            shape_size(base_shape.drop_first()) as int,
            axis_len(axes[0]),
        )
    }
}

/// The last position that an axis selects lies below its end.
pub proof fn lemma_axis_last(a: SliceAxis)
    requires
        axis_len(a) > 0,
    ensures
        a.start + a.step * (axis_len(a) - 1) < a.end,
{
    let d = a.end - a.start - 1;
    let s = a.step as int;
    let q = d / s;
    vstd::arithmetic::div_mod::lemma_fundamental_div_mod(d, s);
    assert(0 <= d % s);
    assert(s * q <= d);
    assert(axis_len(a) - 1 == q);
}

/// Rows of an axis are strictly increasing, lie in `[0, (last + 1) * stride)`
/// and hold one row of `inner` per position.
pub proof fn lemma_axis_rows(inner: Seq<int>, a: SliceAxis, stride: int, n: nat)
    requires
        strictly_increasing(inner),
        forall|i: int| 0 <= i < inner.len() ==> 0 <= #[trigger] inner[i] < stride,
        a.step > 0,
    ensures
        axis_rows(inner, a, stride, n).len() == n * inner.len(),
        strictly_increasing(axis_rows(inner, a, stride, n)),
        forall|i: int|
            0 <= i < axis_rows(inner, a, stride, n).len() ==> 0 <= #[trigger] axis_rows(
                inner,
                a,
                stride,
                n,
            )[i] < (a.start + a.step * (n - 1) + 1) * stride,
    decreases n,
{
    if n > 0 {
        let m = (n - 1) as nat;
        lemma_axis_rows(inner, a, stride, m);
        let prev = axis_rows(inner, a, stride, m);
        let pos = a.start + a.step * m;
        let d = pos * stride;
        let row = shifted(inner, d);
        let all = axis_rows(inner, a, stride, n);
        assert(all == prev + row);
        if inner.len() > 0 {
            assert(0 <= inner[0] < stride);
            assert(pos >= 0);
            assert(d >= 0) by (nonlinear_arith)
                requires
                    pos >= 0,
                    stride > 0,
                    d == pos * stride,
            ;
            assert(d + stride == (pos + 1) * stride) by (nonlinear_arith)
                requires
                    d == pos * stride,
            ;
            if m > 0 {
                let prev_pos = a.start + a.step * (m - 1);
                assert(prev_pos + 1 <= pos) by (nonlinear_arith)
                    requires
                        prev_pos == a.start + a.step * (m - 1),
                        pos == a.start + a.step * m,
                        a.step >= 1,
                ;
                assert((prev_pos + 1) * stride <= d) by (nonlinear_arith)
                    requires
                        prev_pos + 1 <= pos,
                        d == pos * stride,
                        stride > 0,
                ;
            }
        } else {
            assert(row.len() == 0);
        }
        assert(all.len() == n * inner.len()) by (nonlinear_arith)
            requires
                all.len() == prev.len() + row.len(),
                prev.len() == m * inner.len(),
                row.len() == inner.len(),
                n == m + 1,
        ;
        assert forall|x: int, y: int| 0 <= x < y < all.len() implies all[x] < all[y] by {
            if y < prev.len() {
                assert(all[x] == prev[x] && all[y] == prev[y]);
            } else if x >= prev.len() {
                assert(all[x] == inner[x - prev.len()] + d);
                assert(all[y] == inner[y - prev.len()] + d);
            } else {
                assert(all[y] == inner[y - prev.len()] + d);
                assert(inner[y - prev.len()] >= 0);
            }
        }
        assert forall|i: int| 0 <= i < all.len() implies 0 <= #[trigger] all[i] < (pos + 1)
            * stride by {
            if i < prev.len() {
                assert(all[i] == prev[i]);
                let prev_pos = a.start + a.step * (m - 1);
                assert((prev_pos + 1) * stride <= (pos + 1) * stride) by (nonlinear_arith)
                    requires
                        prev_pos + 1 <= pos,
                        stride >= 0,
                ;
            } else {
                assert(all[i] == inner[i - prev.len()] + d);
            }
        }
    }
}

/// The offsets of a fitting slice are strictly increasing, lie within the
/// base and are as many as the view's elements.
pub proof fn lemma_slice_offsets(base_shape: Seq<usize>, axes: Seq<SliceAxis>)
    requires
        slices_fit(base_shape, axes),
    ensures
        slice_offsets(base_shape, axes).len() == shape_size(view_shape(axes)),
        strictly_increasing(slice_offsets(base_shape, axes)),
        forall|i: int|
            0 <= i < slice_offsets(base_shape, axes).len() ==> 0 <= #[trigger] slice_offsets(
                base_shape,
                axes,
            )[i] < shape_size(base_shape),
    decreases axes.len(),
{
    if axes.len() == 0 {
        assert(view_shape(axes) =~= Seq::<usize>::empty());
    } else {
        let bs = base_shape.drop_first();
        let ax = axes.drop_first();
        assert forall|k: int| 0 <= k < ax.len() implies (#[trigger] ax[k]).step > 0 && ax[k].end
            <= bs[k] by {
            assert(ax[k] == axes[k + 1]);
            assert(bs[k] == base_shape[k + 1]);
            assert(axes[k + 1].step > 0 && axes[k + 1].end <= base_shape[k + 1]);
        }
        lemma_slice_offsets(bs, ax);
        let inner = slice_offsets(bs, ax);
        let stride = shape_size(bs) as int;
        let a = axes[0];
        assert(a.step > 0 && a.end <= base_shape[0]);
        let n = axis_len(a);
        lemma_axis_rows(inner, a, stride, n);
        assert(view_shape(axes).drop_first() =~= view_shape(ax));
        assert(shape_size(view_shape(axes)) == n * shape_size(view_shape(ax)));
        if n > 0 {
            lemma_axis_last(a);
            let last = a.start + a.step * (n - 1);
            assert((last + 1) * stride <= base_shape[0] * stride) by (nonlinear_arith)
                requires
                    last + 1 <= base_shape[0],
                    stride >= 0,
            ;
            assert(shape_size(base_shape) == base_shape[0] * stride);
        }
    }
}

/// `usize` offsets as mathematical integers.
pub open spec fn as_offsets(s: Seq<usize>) -> Seq<int> {
    Seq::new(s.len(), |i: int| s[i] as int)
}

/// A fitting slice restricted to the axes from `k` on fits the base's axes
/// from `k` on.
pub proof fn lemma_fit_suffix(base_shape: Seq<usize>, axes: Seq<SliceAxis>, k: int)
    requires
        slices_fit(base_shape, axes),
        0 <= k <= axes.len(),
    ensures
        slices_fit(
            base_shape.subrange(k, base_shape.len() as int),
            axes.subrange(k, axes.len() as int),
        ),
{
    let bs = base_shape.subrange(k, base_shape.len() as int);
    let ax = axes.subrange(k, axes.len() as int);
    assert forall|j: int| 0 <= j < ax.len() implies (#[trigger] ax[j]).step > 0 && ax[j].end
        <= bs[j] by {
        assert(ax[j] == axes[k + j]);
    }
}

/// Number of positions that an axis selects.
pub fn axis_len_exec(a: &SliceAxis) -> (n: usize)
    ensures
        n == axis_len(*a),
{
    if a.step == 0 || a.end <= a.start {
        0
    } else {
        (a.end - a.start - 1) / a.step + 1
    }
}

/// Offsets, in the base's row-major buffer, of the elements that a fitting
/// slice selects, in the view's row-major order.
pub fn compute_offsets(base_shape: &Vec<usize>, axes: &Vec<SliceAxis>) -> (offs: Vec<usize>)
    requires
        slices_fit(base_shape@, axes@),
        shape_size(base_shape@) <= usize::MAX,
    ensures
        as_offsets(offs@) == slice_offsets(base_shape@, axes@),
{
    proof {
        lemma_slice_offsets(base_shape@, axes@);
    }
    let total = match shape_size_exec(base_shape) {
        Some(t) => t,
        None => {
            return Vec::new();
        },
    };
    if total == 0 {
        let empty: Vec<usize> = Vec::new();
        proof {
            let so = slice_offsets(base_shape@, axes@);
            if so.len() > 0 {
                assert(so[0] < shape_size(base_shape@));
                assert(shape_size(base_shape@) == 0);
            }
            assert(as_offsets(empty@) =~= so);
        }
        return empty;
    }
    let n = axes.len();
    let ghost bs = base_shape@;
    let ghost ax = axes@;
    proof {
        assert forall|k: int| 0 <= k < n implies bs[k] >= 1 by {
            if bs[k] == 0 {
                lemma_zero_extent(bs, k);
            }
        }
    }
    let mut offs: Vec<usize> = Vec::new();
    offs.push(0);
    let mut stride: usize = 1;
    let mut k: usize = n;
    proof {
        assert(bs.subrange(n as int, n as int) =~= Seq::<usize>::empty());
        assert(ax.subrange(n as int, n as int) =~= Seq::<SliceAxis>::empty());
        assert(as_offsets(offs@) =~= seq![0int]);
    }
    while k > 0
        invariant
            k <= n,
            n == ax.len(),
            n == bs.len(),
            bs == base_shape@,
            ax == axes@,
            slices_fit(bs, ax),
            total == shape_size(bs),
            total > 0,
            forall|j: int| 0 <= j < n ==> bs[j] >= 1,
            stride as nat == shape_size(bs.subrange(k as int, n as int)),
            as_offsets(offs@) == slice_offsets(
                bs.subrange(k as int, n as int),
                ax.subrange(k as int, n as int),
            ),
        decreases k,
    {
        let ghost inner = as_offsets(offs@);
        let ghost sub_b = bs.subrange(k - 1, n as int);
        let ghost sub_a = ax.subrange(k - 1, n as int);
        proof {
            lemma_fit_suffix(bs, ax, k as int);
            lemma_fit_suffix(bs, ax, k - 1);
            lemma_slice_offsets(bs.subrange(k as int, n as int), ax.subrange(k as int, n as int));
            lemma_suffix_size_le(bs, 0, k - 1);
            assert(bs.subrange(0, n as int) =~= bs);
            assert(sub_b.drop_first() =~= bs.subrange(k as int, n as int));
            assert(sub_a.drop_first() =~= ax.subrange(k as int, n as int));
            assert(sub_a[0] == ax[k - 1]);
            assert(shape_size(sub_b) == bs[k - 1] as nat * stride as nat);
        }
        let a = axes[k - 1];
        let len = axis_len_exec(&a);
        let m = offs.len();
        let mut next: Vec<usize> = Vec::new();
        let mut i: usize = 0;
        while i < len
            invariant
                i <= len,
                len == axis_len(a),
                0 < k <= n,
                a == ax[k - 1],
                a.step > 0,
                a.end <= bs[k - 1],
                n == bs.len(),
                m == inner.len(),
                inner == as_offsets(offs@),
                strictly_increasing(inner),
                forall|j: int| 0 <= j < inner.len() ==> 0 <= #[trigger] inner[j] < stride,
                shape_size(sub_b) == bs[k - 1] as nat * stride as nat,
                shape_size(sub_b) <= total,
                as_offsets(next@) == axis_rows(inner, a, stride as int, i as nat),
            decreases len - i,
        {
            proof {
                lemma_axis_last(a);
                assert(a.step * i <= a.step * (len - 1)) by (nonlinear_arith)
                    requires
                        i <= len - 1,
                        a.step > 0,
                ;
            }
            let pos = a.start + a.step * i;
            proof {
                assert((pos + 1) * stride <= bs[k - 1] as nat * stride as nat) by (nonlinear_arith)
                    requires
                        pos + 1 <= bs[k - 1],
                ;
                assert(pos * stride + stride == (pos + 1) * stride) by (nonlinear_arith);
            }
            let base = pos * stride;
            assert(base + stride <= total);
            let ghost before = as_offsets(next@);
            let mut j: usize = 0;
            while j < m
                invariant
                    j <= m,
                    m == inner.len(),
                    inner == as_offsets(offs@),
                    forall|q: int| 0 <= q < inner.len() ==> 0 <= #[trigger] inner[q] < stride,
                    base + stride <= total,
                    base == pos * stride,
                    as_offsets(next@) == before + shifted(inner, base as int).take(j as int),
                decreases m - j,
            {
                assert(0 <= inner[j as int] < stride);
                let ghost old_next = next@;
                let v = base + offs[j];
                next.push(v);
                proof {
                    let sh = shifted(inner, base as int);
                    assert(as_offsets(old_next) == before + sh.take(j as int));
                    assert(next@ == old_next.push(v));
                    assert(v as int == sh[j as int]);
                    assert(sh.take(j + 1) =~= sh.take(j as int).push(sh[j as int]));
                    assert(as_offsets(next@) =~= as_offsets(old_next).push(v as int));
                    assert(before + sh.take(j + 1) =~= (before + sh.take(j as int)).push(sh[j as int]));
                    assert(as_offsets(next@) =~= before + shifted(inner, base as int).take(j + 1));
                }
                j = j + 1;
            }
            proof {
                assert(shifted(inner, base as int).take(m as int) =~= shifted(inner, base as int));
                assert(axis_rows(inner, a, stride as int, (i + 1) as nat) == axis_rows(inner, a, stride as int, i as nat) + shifted(inner, (a.start + a.step * i) * stride));
            }
            i = i + 1;
        }
        offs = next;
        stride = base_shape[k - 1] * stride;
        k = k - 1;
    }
    proof {
        assert(bs.subrange(0, n as int) =~= bs);
        assert(ax.subrange(0, n as int) =~= ax);
    }
    offs
}

/// Index along each axis of the base element at flat position `offset`:
/// the quotient by the axis's stride, the remainder going on to the next axes.
pub open spec fn start_indices(offset: int, base_strides: Seq<usize>) -> Seq<int>
    decreases base_strides.len(),
{
    if base_strides.len() == 0 {
        Seq::empty()
    } else {
        seq![offset / (base_strides[0] as int)] + start_indices(
            offset % (base_strides[0] as int),
            base_strides.drop_first(),
        )
    }
}

/// One axis of a strided view: it starts at `start`, steps by
/// `stride / base_stride` and ends after `extent` steps or at the base's end,
/// whichever comes first.
pub open spec fn strided_axis(
    start: int,
    stride: usize,
    extent: usize,
    base_stride: usize,
    base_extent: usize,
) -> SliceAxis {
    let step = stride as int / base_stride as int;
    let end = start + step * extent;
    SliceAxis {
        start: start as usize,
        step: step as usize,
        end: if end < base_extent {
            end as usize
        } else {
            base_extent
        },
    }
}

/// The slice described by an element offset, element strides and a shape, over
/// a base with the given element strides and shape.
pub open spec fn strides_to_slices(
    offset: int,
    strides: Seq<usize>,
    shape: Seq<usize>,
    base_strides: Seq<usize>,
    base_shape: Seq<usize>,
) -> Seq<SliceAxis> {
    let starts = start_indices(offset, base_strides);
    Seq::new(
        base_strides.len(),
        |k: int| strided_axis(starts[k], strides[k], shape[k], base_strides[k], base_shape[k]),
    )
}

/// The descriptor is usable: one entry per axis everywhere, positive base strides.
pub open spec fn strides_usable(
    strides: Seq<usize>,
    shape: Seq<usize>,
    base_strides: Seq<usize>,
    base_shape: Seq<usize>,
) -> bool {
    &&& strides.len() == base_strides.len()
    &&& shape.len() == base_strides.len()
    &&& base_shape.len() == base_strides.len()
    &&& forall|k: int| 0 <= k < base_strides.len() ==> #[trigger] base_strides[k] > 0
}

/// Unfolds `start_indices` at the head of a suffix.
pub proof fn lemma_start_indices(offset: int, base_strides: Seq<usize>)
    requires
        forall|k: int| 0 <= k < base_strides.len() ==> #[trigger] base_strides[k] > 0,
        offset >= 0,
    ensures
        start_indices(offset, base_strides).len() == base_strides.len(),
        forall|k: int| 0 <= k < base_strides.len() ==> 0 <= #[trigger] start_indices(offset, base_strides)[k] <= offset,
    decreases base_strides.len(),
{
    if base_strides.len() > 0 {
        let b = base_strides[0] as int;
        let rest = base_strides.drop_first();
        assert forall|k: int| 0 <= k < rest.len() implies #[trigger] rest[k] > 0 by {
            assert(rest[k] == base_strides[k + 1]);
        }
        vstd::arithmetic::div_mod::lemma_mod_bound(offset, b);
        vstd::arithmetic::div_mod::lemma_div_pos_is_pos(offset, b);
        vstd::arithmetic::div_mod::lemma_div_is_ordered_by_denominator(offset, 1, b);
        vstd::arithmetic::div_mod::lemma_mod_is_mod_recursive(offset, b);
        vstd::arithmetic::div_mod::lemma_small_mod((offset % b) as nat, b as nat);
        lemma_start_indices(offset % b, rest);
        vstd::arithmetic::div_mod::lemma_mod_decreases(offset as nat, b as nat);
        let s = start_indices(offset, base_strides);
        assert forall|k: int| 0 <= k < base_strides.len() implies 0 <= #[trigger] s[k] <= offset by {
            if k > 0 {
                assert(s[k] == start_indices(offset % b, rest)[k - 1]);
            }
        }
    }
}

/// Converts a strided descriptor of a view (element offset, element strides
/// and shape, with the base's element strides and shape) to one slice axis per
/// base axis.
pub fn slices_from_strides(
    offset: usize,
    strides: &Vec<usize>,
    shape: &Vec<usize>,
    base_strides: &Vec<usize>,
    base_shape: &Vec<usize>,
) -> (r: Result<Vec<SliceAxis>, ConstructionError>)
    ensures
        r is Ok <==> strides_usable(strides@, shape@, base_strides@, base_shape@),
        r is Ok ==> r->Ok_0@ == strides_to_slices(
            offset as int,
            strides@,
            shape@,
            base_strides@,
            base_shape@,
        ),
        r is Err ==> r->Err_0 == ConstructionError::ShapeMismatch,
{
    let n = base_strides.len();
    if strides.len() != n || shape.len() != n || base_shape.len() != n {
        return Err(ConstructionError::ShapeMismatch);
    }
    let mut z: usize = 0;
    while z < n
        invariant
            z <= n,
            n == base_strides@.len(),
            forall|k: int| 0 <= k < z ==> #[trigger] base_strides@[k] > 0,
        decreases n - z,
    {
        if base_strides[z] == 0 {
            return Err(ConstructionError::ShapeMismatch);
        }
        z = z + 1;
    }
    let ghost bs = base_strides@;
    let ghost starts = start_indices(offset as int, bs);
    let ghost target = strides_to_slices(offset as int, strides@, shape@, bs, base_shape@);
    proof {
        lemma_start_indices(offset as int, bs);
        assert(bs.subrange(0, n as int) =~= bs);
    }
    let mut rem: usize = offset;
    let mut out: Vec<SliceAxis> = Vec::new();
    let mut k: usize = 0;
    while k < n
        invariant
            k <= n,
            n == bs.len(),
            bs == base_strides@,
            strides@.len() == n,
            shape@.len() == n,
            base_shape@.len() == n,
            forall|j: int| 0 <= j < n ==> #[trigger] bs[j] > 0,
            starts == start_indices(offset as int, bs),
            target == strides_to_slices(offset as int, strides@, shape@, bs, base_shape@),
            starts.len() == n,
            start_indices(rem as int, bs.subrange(k as int, n as int)) == starts.subrange(k as int, n as int),
            out@.len() == k,
            forall|j: int| 0 <= j < k ==> out@[j] == target[j],
        decreases n - k,
    {
        let b = base_strides[k];
        let ghost sub = bs.subrange(k as int, n as int);
        proof {
            assert(sub.drop_first() =~= bs.subrange(k + 1, n as int));
            assert(sub[0] == b);
            assert(starts.subrange(k as int, n as int)[0] == starts[k as int]);
            assert(starts.subrange(k as int, n as int).drop_first() =~= starts.subrange(k + 1, n as int));
        }
        let start = rem / b;
        let step = strides[k] / b;
        let extent = shape[k];
        let limit = base_shape[k];
        let end: usize = match step.checked_mul(extent) {
            Some(span) => match start.checked_add(span) {
                Some(e) => if e < limit {
                    e
                } else {
                    limit
                },
                None => limit,
            },
            None => {
                proof {
                    assert(start + step * extent >= step * extent) by (nonlinear_arith)
                        requires
                            start >= 0,
                    ;
                }
                limit
            },
        };
        out.push(SliceAxis { start, step, end });
        rem = rem % b;
        k = k + 1;
    }
    proof {
        assert(out@ =~= target);
    }
    Ok(out)
}

} // verus!
