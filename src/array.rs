use vstd::prelude::*;

use crate::error::{ConstructionError, OperatorError};

verus! {

/// Number of elements of an array of this shape: the product of its extents
/// (1 for rank 0).
pub open spec fn shape_size(shape: Seq<usize>) -> nat
    decreases shape.len(),
{
    if shape.len() == 0 {
        1
    } else {
        shape[0] as nat * shape_size(shape.drop_first())
    }
}

/// Every value lies in the range of `i64`.
pub open spec fn fits_i64(s: Seq<int>) -> bool {
    forall|i: int| 0 <= i < s.len() ==> i64::MIN <= #[trigger] s[i] <= i64::MAX
}

/// The values of `s`, as mathematical integers.
pub open spec fn as_ints(s: Seq<i64>) -> Seq<int> {
    Seq::new(s.len(), |i: int| s[i] as int)
}

/// Element-wise sum of two sequences of the same length.
pub open spec fn sum_seq(a: Seq<i64>, b: Seq<int>) -> Seq<int> {
    Seq::new(a.len(), |i: int| a[i] + b[i])
}

/// Shape of `left ⊙ right`: equal shapes, or one side of shape `[1]`
/// broadcast to the other.
pub open spec fn product_shape(ls: Seq<usize>, rs: Seq<usize>) -> Option<Seq<usize>> {
    if ls == rs {
        Some(ls)
    } else if ls == seq![1usize] {
        Some(rs)
    } else if rs == seq![1usize] {
        Some(ls)
    } else {
        None
    }
}

/// Values of `left ⊙ right`, a single-element side repeated along the other.
pub open spec fn elementwise_product(l: Seq<i64>, r: Seq<i64>) -> Seq<int> {
    if l.len() == r.len() {
        Seq::new(l.len(), |i: int| l[i] * r[i])
    } else if l.len() == 1 {
        Seq::new(r.len(), |i: int| l[0] * r[i])
    } else {
        Seq::new(l.len(), |i: int| l[i] * r[0])
    }
}

/// Sum of the first `k` products `l[off + j] * r[j]`.
pub open spec fn dot_prefix(l: Seq<i64>, off: int, r: Seq<i64>, k: nat) -> int
    decreases k,
{
    if k == 0 {
        0
    } else {
        dot_prefix(l, off, r, (k - 1) as nat) + l[off + k - 1] * r[k - 1]
    }
}

/// Every product and every partial sum of `dot_prefix(l, off, r, n)` lies in
/// the range of `i64`.
pub open spec fn dot_fits(l: Seq<i64>, off: int, r: Seq<i64>, n: nat) -> bool {
    forall|k: nat|
        k < n ==> i64::MIN <= #[trigger] dot_prefix(l, off, r, k + 1) <= i64::MAX && i64::MIN <= l[off
            + k] * r[k as int] <= i64::MAX
}

/// Shape of `left · right`: a vector times a vector gives one element, an
/// `m × n` matrix times an `n`-vector gives `m` elements.
pub open spec fn dot_shape(ls: Seq<usize>, rs: Seq<usize>) -> Option<Seq<usize>> {
    if rs.len() != 1 {
        None
    } else if ls.len() == 1 && ls[0] == rs[0] {
        Some(seq![1usize])
    } else if ls.len() == 2 && ls[1] == rs[0] {
        Some(seq![ls[0]])
    } else {
        None
    }
}

/// Number of result rows of `left · right`: one for a vector, `m` for an
/// `m × n` matrix.
pub open spec fn dot_rows(ls: Seq<usize>) -> nat {
    if ls.len() == 1 {
        1
    } else {
        ls[0] as nat
    }
}

/// Values of `left · right`: row `i` is the sum over `j` of
/// `left[i][j] * right[j]`.
pub open spec fn dot_values(l: Seq<i64>, ls: Seq<usize>, r: Seq<i64>) -> Seq<int> {
    Seq::new(dot_rows(ls), |i: int| dot_prefix(l, i * r.len(), r, r.len()))
}

/// Every product and partial sum of every row of `left · right` lies in the
/// range of `i64`.
pub open spec fn dot_all_fit(l: Seq<i64>, ls: Seq<usize>, r: Seq<i64>) -> bool {
    forall|i: int| 0 <= i < dot_rows(ls) ==> #[trigger] dot_fits(l, i * r.len(), r, r.len())
}

/// A rectangular array of `i64` in row-major order.
#[derive(Debug)]
pub struct NdArray {
    pub shape: Vec<usize>,
    pub data: Vec<i64>,
}

impl NdArray {
    /// The data holds exactly one value per element of the shape.
    pub open spec fn wf(&self) -> bool {
        self.data@.len() == shape_size(self.shape@)
    }

    /// An array of the given shape and data; fails unless the data holds one
    /// value per element of the shape.
    pub fn new(shape: Vec<usize>, data: Vec<i64>) -> (r: Result<NdArray, ConstructionError>)
        ensures
            r is Ok <==> data@.len() == shape_size(shape@),
            r is Ok ==> r->Ok_0.shape@ == shape@ && r->Ok_0.data@ == data@,
            r is Err ==> r->Err_0 == ConstructionError::ShapeMismatch,
    {
        let len = data.len();
        match shape_size_exec(&shape) {
            Some(n) => {
                if n == len {
                    Ok(NdArray { shape, data })
                } else {
                    Err(ConstructionError::ShapeMismatch)
                }
            },
            None => {
                Err(ConstructionError::ShapeMismatch)
            },
        }
    }

    /// A one-dimensional array holding `data`.
    pub fn from_vec(data: Vec<i64>) -> (r: NdArray)
        ensures
            r.wf(),
            r.shape@ == seq![data@.len() as usize],
            r.data@ == data@,
    {
        let mut shape: Vec<usize> = Vec::new();
        shape.push(data.len());
        proof {
            assert(shape@.drop_first() =~= Seq::<usize>::empty());
            assert(shape_size(shape@.drop_first()) == 1);
            assert(shape_size(shape@) == data@.len() * 1);
        }
        NdArray { shape, data }
    }
}

/// The size of a shape's suffix is at most the size of a longer suffix when
/// every extent is at least one.
pub proof fn lemma_suffix_size_le(shape: Seq<usize>, i: int, j: int)
    requires
        0 <= i <= j <= shape.len(),
        forall|k: int| 0 <= k < shape.len() ==> shape[k] >= 1,
    ensures
        shape_size(shape.subrange(j, shape.len() as int)) <= shape_size(
            shape.subrange(i, shape.len() as int),
        ),
    decreases j - i,
{
    if i < j {
        let n = shape.len() as int;
        lemma_suffix_size_le(shape, i + 1, j);
        assert(shape.subrange(i, n).drop_first() =~= shape.subrange(i + 1, n));
        let a = shape[i] as nat;
        let b = shape_size(shape.subrange(i + 1, n));
        assert(a * b >= b) by (nonlinear_arith)
            requires
                a >= 1,
        ;
    }
}

/// Size of a shape, or `None` when it exceeds `usize::MAX`.
pub fn shape_size_exec(shape: &Vec<usize>) -> (r: Option<usize>)
    ensures
        r is Some ==> r->Some_0 == shape_size(shape@),
        r is None ==> shape_size(shape@) > usize::MAX,
{
    let n = shape.len();
    let mut z: usize = 0;
    while z < n
        invariant
            z <= n,
            n == shape@.len(),
            forall|k: int| 0 <= k < z ==> shape@[k] >= 1,
        decreases n - z,
    {
        if shape[z] == 0 {
            proof {
                lemma_zero_extent(shape@, z as int);
            }
            return Some(0);
        }
        z = z + 1;
    }
    let mut acc: usize = 1;
    let mut i: usize = n;
    proof {
        assert(shape@.subrange(n as int, n as int) =~= Seq::<usize>::empty());
    }
    while i > 0
        invariant
            i <= n,
            n == shape@.len(),
            forall|k: int| 0 <= k < n ==> shape@[k] >= 1,
            acc as nat == shape_size(shape@.subrange(i as int, n as int)),
        decreases i,
    {
        let ghost sub = shape@.subrange(i - 1, n as int);
        proof {
            assert(sub.drop_first() =~= shape@.subrange(i as int, n as int));
        }
        match shape[i - 1].checked_mul(acc) {
            Some(v) => {
                acc = v;
                i = i - 1;
            },
            None => {
                proof {
                    lemma_suffix_size_le(shape@, 0, i - 1);
                    assert(shape@.subrange(0, n as int) =~= shape@);
                }
                return None;
            },
        }
    }
    proof {
        assert(shape@.subrange(0, n as int) =~= shape@);
    }
    Some(acc)
}

/// A shape with a zero extent has no elements.
pub proof fn lemma_zero_extent(shape: Seq<usize>, z: int)
    requires
        0 <= z < shape.len(),
        shape[z] == 0,
    ensures
        shape_size(shape) == 0,
    decreases shape.len(),
{
    if z > 0 {
        assert(shape.drop_first()[z - 1] == shape[z]);
        lemma_zero_extent(shape.drop_first(), z - 1);
        assert(shape_size(shape) == shape[0] as nat * 0);
    } else {
        assert(shape_size(shape) == 0 * shape_size(shape.drop_first()));
    }
}

/// Computes `left ⊙ right` with scalar broadcasting, in `i64` arithmetic.
pub fn elementwise_mul(left: &Vec<i64>, right: &Vec<i64>) -> (r: Result<Vec<i64>, OperatorError>)
    requires
        left@.len() == right@.len() || left@.len() == 1 || right@.len() == 1,
    ensures
        r is Ok <==> fits_i64(elementwise_product(left@, right@)),
        r is Ok ==> as_ints(r->Ok_0@) == elementwise_product(left@, right@),
        r is Err ==> r->Err_0 == OperatorError::Overflow,
{
    let ghost p = elementwise_product(left@, right@);
    let n: usize = if left.len() == right.len() || left.len() != 1 {
        left.len()
    } else {
        right.len()
    };
    let mut out: Vec<i64> = Vec::new();
    let mut i: usize = 0;
    while i < n
        invariant
            i <= n,
            n == p.len(),
            p == elementwise_product(left@, right@),
            left@.len() == right@.len() || left@.len() == 1 || right@.len() == 1,
            out@.len() == i,
            forall|k: int| 0 <= k < i ==> out@[k] as int == p[k],
        decreases n - i,
    {
        let a: i64 = if left.len() == 1 && right.len() != 1 {
            left[0]
        } else {
            left[i]
        };
        let b: i64 = if right.len() == 1 && left.len() != 1 {
            right[0]
        } else {
            right[i]
        };
        match a.checked_mul(b) {
            Some(v) => {
                out.push(v);
            },
            None => {
                assert(p[i as int] == a as int * b as int);
                assert(!fits_i64(p));
                return Err(OperatorError::Overflow);
            },
        }
        i = i + 1;
    }
    proof {
        assert(as_ints(out@) =~= p);
    }
    Ok(out)
}

/// Adds `inc` to `target` element by element, in `i64` arithmetic.
pub fn add_values(target: &Vec<i64>, inc: &Vec<i64>) -> (r: Result<Vec<i64>, OperatorError>)
    requires
        target@.len() == inc@.len(),
    ensures
        r is Ok <==> fits_i64(sum_seq(target@, as_ints(inc@))),
        r is Ok ==> as_ints(r->Ok_0@) == sum_seq(target@, as_ints(inc@)),
        r is Err ==> r->Err_0 == OperatorError::Overflow,
{
    let ghost s = sum_seq(target@, as_ints(inc@));
    let mut out: Vec<i64> = Vec::new();
    let mut i: usize = 0;
    while i < target.len()
        invariant
            i <= target@.len(),
            target@.len() == inc@.len(),
            s == sum_seq(target@, as_ints(inc@)),
            out@.len() == i,
            forall|k: int| 0 <= k < i ==> out@[k] as int == s[k],
        decreases target@.len() - i,
    {
        match target[i].checked_add(inc[i]) {
            Some(v) => {
                out.push(v);
            },
            None => {
                assert(s[i as int] == target@[i as int] + inc@[i as int]);
                assert(!fits_i64(s));
                return Err(OperatorError::Overflow);
            },
        }
        i = i + 1;
    }
    proof {
        assert(as_ints(out@) =~= s);
    }
    Ok(out)
}

/// Sum of `l[off + j] * r[j]` over `j`, in `i64` arithmetic.
fn row_dot(l: &Vec<i64>, off: usize, r: &Vec<i64>) -> (v: Result<i64, OperatorError>)
    requires
        off + r@.len() <= l@.len(),
    ensures
        v is Ok <==> dot_fits(l@, off as int, r@, r@.len()),
        v is Ok ==> v->Ok_0 == dot_prefix(l@, off as int, r@, r@.len()),
        v is Err ==> v->Err_0 == OperatorError::Overflow,
{
    let n = r.len();
    let ln = l.len();
    let mut acc: i64 = 0;
    let mut j: usize = 0;
    while j < n
        invariant
            j <= n,
            n == r@.len(),
            ln == l@.len(),
            off + n <= ln,
            acc == dot_prefix(l@, off as int, r@, j as nat),
            forall|k: nat| k < j ==> i64::MIN <= #[trigger] dot_prefix(l@, off as int, r@, k + 1) <= i64::MAX && i64::MIN <= l@[off + k] * r@[k as int] <= i64::MAX,
        decreases n - j,
    {
        let ghost jn = j as nat;
        match l[off + j].checked_mul(r[j]) {
            Some(p) => {
                match acc.checked_add(p) {
                    Some(a) => {
                        acc = a;
                    },
                    None => {
                        assert(dot_prefix(l@, off as int, r@, jn + 1) == acc + p);
                        assert(!dot_fits(l@, off as int, r@, n as nat));
                        return Err(OperatorError::Overflow);
                    },
                }
            },
            None => {
                assert(dot_prefix(l@, off as int, r@, jn + 1) == dot_prefix(l@, off as int, r@, jn) + l@[off + jn] * r@[jn as int]);
                assert(!(i64::MIN <= l@[off + jn] * r@[jn as int] <= i64::MAX));
                assert(!dot_fits(l@, off as int, r@, n as nat));
                return Err(OperatorError::Overflow);
            },
        }
        j = j + 1;
    }
    Ok(acc)
}

/// Computes `left · right` for a vector or matrix `left` of shape
/// `left_shape` and a vector `right`, in `i64` arithmetic.
pub fn dot(left: &Vec<i64>, left_shape: &Vec<usize>, right: &Vec<i64>) -> (r: Result<Vec<i64>, OperatorError>)
    requires
        left@.len() == shape_size(left_shape@),
        dot_shape(left_shape@, seq![right@.len() as usize]) is Some,
    ensures
        r is Ok <==> dot_all_fit(left@, left_shape@, right@),
        r is Ok ==> as_ints(r->Ok_0@) == dot_values(left@, left_shape@, right@),
        r is Err ==> r->Err_0 == OperatorError::Overflow,
{
    let n = right.len();
    let ln = left.len();
    let m: usize = if left_shape.len() == 1 {
        1
    } else {
        left_shape[0]
    };
    proof {
        let ls = left_shape@;
        if ls.len() == 1 {
            assert(ls.drop_first() =~= Seq::<usize>::empty());
            assert(shape_size(ls.drop_first()) == 1);
            assert(shape_size(ls) == ls[0] as nat * 1);
        } else {
            assert(ls.drop_first().drop_first() =~= Seq::<usize>::empty());
            assert(shape_size(ls.drop_first().drop_first()) == 1);
            assert(shape_size(ls.drop_first()) == ls[1] as nat * 1);
        }
        assert(left@.len() == m * n);
    }
    let ghost vals = dot_values(left@, left_shape@, right@);
    let mut out: Vec<i64> = Vec::new();
    let mut i: usize = 0;
    while i < m
        invariant
            i <= m,
            m == dot_rows(left_shape@),
            n == right@.len(),
            left@.len() == m * n,
            ln == left@.len(),
            vals == dot_values(left@, left_shape@, right@),
            out@.len() == i,
            forall|k: int| 0 <= k < i ==> out@[k] as int == vals[k],
            forall|k: int| 0 <= k < i ==> #[trigger] dot_fits(left@, k * n, right@, n as nat),
        decreases m - i,
    {
        assert(i * n + n <= m * n) by (nonlinear_arith)
            requires
                i < m,
        ;
        let off: usize = i * n;
        match row_dot(left, off, right) {
            Ok(v) => {
                out.push(v);
            },
            Err(e) => {
                assert(!dot_all_fit(left@, left_shape@, right@));
                return Err(e);
            },
        }
        i = i + 1;
    }
    proof {
        assert(as_ints(out@) =~= vals);
    }
    Ok(out)
}

} // verus!
