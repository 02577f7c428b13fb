//! The layers of the convolutional network that the inference circuit
//! evaluates in the scalar field: zero padding, convolution, max pooling,
//! flattening and dense layers.
//!
//! Tensors are nested vectors of field elements; their mathematical model is
//! their `deep_view`, nested sequences of the elements' values.
use vstd::prelude::*;
use vstd::arithmetic::div_mod::lemma_add_mod_noop;
use vstd::arithmetic::div_mod::lemma_mod_twice;
use crate::field::{modulus, lemma_value_below_modulus, Scalar};

verus! {

/// A plane of field elements: rows of columns.
pub type Matrix = Vec<Vec<Scalar>>;

/// A stack of planes: depth, rows, columns.
pub type Tensor3 = Vec<Vec<Vec<Scalar>>>;

/// A bank of kernels: feature map, depth, rows, columns.
pub type Tensor4 = Vec<Vec<Vec<Vec<Scalar>>>>;

/// Pushing an element onto a vector pushes its model onto the vector's model.
pub proof fn lemma_push_deep_view<T: DeepView>(before: Vec<T>, after: Vec<T>, e: T)
    requires
        after@ == before@.push(e),
    ensures
        after.deep_view() == before.deep_view().push(e.deep_view()),
{
    assert(after.deep_view() =~= before.deep_view().push(e.deep_view()));
}

/// The first `count` planes of `x` have at least `rows` rows, each of at
/// least `cols` elements.
pub open spec fn planes_cover(x: Seq<Seq<Seq<nat>>>, count: int, rows: int, cols: int) -> bool {
    forall|d: int|
        #![trigger x[d]]
        0 <= d < count ==> {
            &&& x[d].len() >= rows
            &&& forall|i: int| 0 <= i < rows ==> #[trigger] x[d][i].len() >= cols
        }
}

/// Whether the first `count` planes of `x` have at least `rows` rows, each
/// of at least `cols` elements.
pub fn planes_cover_exec(x: &Tensor3, count: usize, rows: usize, cols: usize) -> (r: bool)
    requires
        count <= x.len(),
    ensures
        r == planes_cover(x.deep_view(), count as int, rows as int, cols as int),
{
    let ghost xv = x.deep_view();
    let mut d: usize = 0;
    while d < count
        invariant
            xv == x.deep_view(),
            count <= x.len(),
            d <= count,
            planes_cover(xv, d as int, rows as int, cols as int),
        decreases count - d,
    {
        assert(x[d as int].len() == xv[d as int].len());
        if x[d].len() < rows {
            return false;
        }
        let mut i: usize = 0;
        while i < rows
            invariant
                xv == x.deep_view(),
                d < count,
                count <= x.len(),
                xv[d as int].len() >= rows,
                i <= rows,
                forall|k: int| 0 <= k < i ==> #[trigger] xv[d as int][k].len() >= cols,
            decreases rows - i,
        {
            assert(x[d as int][i as int].len() == xv[d as int][i as int].len());
            if x[d][i].len() < cols {
                return false;
            }
            i = i + 1;
        }
        d = d + 1;
    }
    true
}

// ---------------------------------------------------------------------------
// Zero padding
// ---------------------------------------------------------------------------

/// The stack `x` with a border of zeros, one element wide, around each plane.
/// Rows and columns are counted on the first plane.
pub open spec fn pad_spec(x: Seq<Seq<Seq<nat>>>) -> Seq<Seq<Seq<nat>>> {
    let rows = x[0].len();
    let cols = x[0][0].len();
    Seq::new(
        x.len(),
        |d: int|
            Seq::new(
                (rows + 2) as nat,
                |i: int|
                    Seq::new(
                        (cols + 2) as nat,
                        |j: int|
                            if 1 <= i <= rows && 1 <= j <= cols {
                                x[d][i - 1][j - 1]
                            } else {
                                0
                            },
                    ),
            ),
    )
}

/// The inputs on which padding reads only elements that exist: a first
/// plane with a first row, and every plane at least as large as the first.
pub open spec fn pad_defined(x: Seq<Seq<Seq<nat>>>) -> bool {
    &&& x.len() >= 1
    &&& x[0].len() >= 1
    &&& x[0].len() + 2 <= usize::MAX
    &&& x[0][0].len() + 2 <= usize::MAX
    &&& planes_cover(x, x.len() as int, x[0].len() as int, x[0][0].len() as int)
}

/// Whether padding `x` reads only elements that exist.
pub fn pad_ok(x: &Tensor3) -> (r: bool)
    ensures
        r == pad_defined(x.deep_view()),
{
    let ghost xv = x.deep_view();
    if x.len() < 1 || x[0].len() < 1 || x[0].len() > usize::MAX - 2 || x[0][0].len() > usize::MAX - 2 {
        return false;
    }
    planes_cover_exec(x, x.len(), x[0].len(), x[0][0].len())
}

/// Surrounds every plane of `x` with a border of zeros.
pub fn pad(x: &Tensor3) -> (r: Tensor3)
    requires
        pad_defined(x.deep_view()),
    ensures
        r.deep_view() == pad_spec(x.deep_view()),
{
    let ghost xv = x.deep_view();
    let ghost target = pad_spec(xv);
    let depth = x.len();
    let rows = x[0].len();
    let cols = x[0][0].len();
    let mut r: Tensor3 = Vec::new();
    let mut d: usize = 0;
    while d < depth
        invariant
            xv == x.deep_view(),
            target == pad_spec(xv),
            pad_defined(xv),
            depth == x.len(),
            rows == x[0].len(),
            cols == x[0][0].len(),
            d <= depth,
            r.deep_view() == target.take(d as int),
        decreases depth - d,
    {
        let mut plane: Matrix = Vec::new();
        let mut i: usize = 0;
        while i < rows + 2
            invariant
                xv == x.deep_view(),
                target == pad_spec(xv),
                pad_defined(xv),
                depth == x.len(),
                rows == x[0].len(),
                cols == x[0][0].len(),
                d < depth,
                i <= rows + 2,
                plane.deep_view() == target[d as int].take(i as int),
            decreases rows + 2 - i,
        {
            let mut row: Vec<Scalar> = Vec::new();
            let mut j: usize = 0;
            while j < cols + 2
                invariant
                    xv == x.deep_view(),
                    target == pad_spec(xv),
                    pad_defined(xv),
                    depth == x.len(),
                    rows == x[0].len(),
                    cols == x[0][0].len(),
                    d < depth,
                    i < rows + 2,
                    j <= cols + 2,
                    row.deep_view() == target[d as int][i as int].take(j as int),
                decreases cols + 2 - j,
            {
                let ghost before = row;
                let e = if 1 <= i && i <= rows && 1 <= j && j <= cols {
                    assert(xv[d as int].len() >= rows);
                    assert(xv[d as int][i - 1].len() >= cols);
                    x[d][i - 1][j - 1]
                } else {
                    Scalar::zero()
                };
                row.push(e);
                proof { lemma_push_deep_view(before, row, e); }
                assert(row.deep_view() =~= target[d as int][i as int].take(j + 1));
                j = j + 1;
            }
            assert(row.deep_view() =~= target[d as int][i as int]);
            let ghost before = plane;
            let ghost last = row;
            plane.push(row);
            proof { lemma_push_deep_view(before, plane, last); }
            assert(plane.deep_view() =~= target[d as int].take(i + 1));
            i = i + 1;
        }
        assert(plane.deep_view() =~= target[d as int]);
        let ghost before = r;
        let ghost last = plane;
        r.push(plane);
        proof { lemma_push_deep_view(before, r, last); }
        assert(r.deep_view() =~= target.take(d + 1));
        d = d + 1;
    }
    assert(r.deep_view() =~= target);
    r
}

// ---------------------------------------------------------------------------
// Convolution
// ---------------------------------------------------------------------------

/// `sum_{kj < n} xr[j + kj] * wr[kj]`: one kernel row laid on one input row.
pub open spec fn window_row(xr: Seq<nat>, wr: Seq<nat>, j: int, n: int) -> nat
    decreases n,
{
    if n <= 0 {
        0
    } else {
        window_row(xr, wr, j, n - 1) + xr[j + n - 1] * wr[n - 1]
    }
}

/// `sum_{ki < m} window_row(xp[i + ki], wp[ki], j, n)`: one kernel plane laid
/// on one input plane.
pub open spec fn window_plane(xp: Seq<Seq<nat>>, wp: Seq<Seq<nat>>, i: int, j: int, m: int, n: int) -> nat
    decreases m,
{
    if m <= 0 {
        0
    } else {
        window_plane(xp, wp, i, j, m - 1, n) + window_row(xp[i + m - 1], wp[m - 1], j, n)
    }
}

/// `sum_{d < kd} window_plane(x[d], w[d], i, j, ks, ks)`: the kernel `w` of
/// depth `kd` and size `ks` laid on `x` at row `i`, column `j`.
pub open spec fn window(x: Seq<Seq<Seq<nat>>>, w: Seq<Seq<Seq<nat>>>, i: int, j: int, kd: int, ks: int) -> nat
    decreases kd,
{
    if kd <= 0 {
        0
    } else {
        window(x, w, i, j, kd - 1, ks) + window_plane(x[kd - 1], w[kd - 1], i, j, ks, ks)
    }
}

/// The side of the square output of a convolution: the row count of the
/// first input plane, less the kernel size, plus one.
pub open spec fn conv_out_size(x: Seq<Seq<Seq<nat>>>, w: Seq<Seq<Seq<Seq<nat>>>>) -> int {
    x[0].len() - w[0][0].len() + 1
}

/// Convolution of `x` with the kernels `w` and biases `b`: one output plane
/// per kernel, square, each element the kernel window plus the bias, in the
/// field. Depth and size of the kernels are those of the first kernel.
pub open spec fn conv_spec(x: Seq<Seq<Seq<nat>>>, w: Seq<Seq<Seq<Seq<nat>>>>, b: Seq<nat>) -> Seq<Seq<Seq<nat>>> {
    let kd = w[0].len() as int;
    let ks = w[0][0].len() as int;
    let out = conv_out_size(x, w);
    Seq::new(
        w.len(),
        |f: int|
            Seq::new(
                out as nat,
                |i: int| Seq::new(out as nat, |j: int| (window(x, w[f], i, j, kd, ks) + b[f]) % modulus()),
            ),
    )
}

/// The inputs on which the convolution reads only elements that exist: a
/// first kernel with a first plane, a kernel no larger than the input's row
/// count, a bias per kernel, every kernel as deep and as wide as the first,
/// and, where the kernels read the input at all, input planes that cover
/// every window.
pub open spec fn conv_defined(x: Seq<Seq<Seq<nat>>>, w: Seq<Seq<Seq<Seq<nat>>>>, b: Seq<nat>) -> bool {
    let kd = w[0].len();
    let ks = w[0][0].len();
    &&& x.len() >= 1
    &&& w.len() >= 1
    &&& w[0].len() >= 1
    &&& ks <= x[0].len()
    &&& x[0].len() - ks < usize::MAX
    &&& b.len() >= w.len()
    &&& ks >= 1 ==> forall|f: int|
        0 <= f < w.len() ==> #[trigger] w[f].len() >= kd && planes_cover(w[f], kd as int, ks as int, ks as int)
    &&& ks >= 1 ==> kd <= x.len() && planes_cover(x, kd as int, x[0].len() as int, x[0].len() as int)
}

/// Whether the convolution of `x` with `w` and `b` reads only elements that
/// exist.
pub fn conv_ok(x: &Tensor3, w: &Tensor4, b: &Vec<Scalar>) -> (r: bool)
    ensures
        r == conv_defined(x.deep_view(), w.deep_view(), b.deep_view()),
{
    let ghost xv = x.deep_view();
    let ghost wv = w.deep_view();
    if x.len() < 1 || w.len() < 1 || w[0].len() < 1 {
        return false;
    }
    let kd = w[0].len();
    let ks = w[0][0].len();
    if ks > x[0].len() || x[0].len() - ks == usize::MAX || b.len() < w.len() {
        return false;
    }
    if ks == 0 {
        return true;
    }
    let mut f: usize = 0;
    while f < w.len()
        invariant
            wv == w.deep_view(),
            kd == wv[0].len(),
            ks == wv[0][0].len(),
            ks >= 1,
            f <= w.len(),
            forall|g: int| 0 <= g < f ==> #[trigger] wv[g].len() >= kd && planes_cover(wv[g], kd as int, ks as int, ks as int),
        decreases w.len() - f,
    {
        assert(w[f as int].deep_view() == wv[f as int]);
        if w[f].len() < kd || !planes_cover_exec(&w[f], kd, ks, ks) {
            return false;
        }
        f = f + 1;
    }
    if kd > x.len() {
        return false;
    }
    planes_cover_exec(x, kd, x[0].len(), x[0].len())
}

/// The kernel `w` of depth `kd` and size `ks` laid on `x` at row `i`,
/// column `j`, summed in the field.
fn window_sum(x: &Tensor3, w: &Tensor3, i: usize, j: usize, kd: usize, ks: usize) -> (r: Scalar)
    requires
        ks >= 1 ==> kd <= x.len() && kd <= w.len(),
        ks >= 1 ==> forall|d: int|
            #![trigger x.deep_view()[d]]
            0 <= d < kd ==> {
                &&& x.deep_view()[d].len() >= i + ks
                &&& forall|ki: int| 0 <= ki < ks ==> #[trigger] x.deep_view()[d][i + ki].len() >= j + ks
            },
        ks >= 1 ==> forall|d: int|
            #![trigger w.deep_view()[d]]
            0 <= d < kd ==> {
                &&& w.deep_view()[d].len() >= ks
                &&& forall|ki: int| 0 <= ki < ks ==> #[trigger] w.deep_view()[d][ki].len() >= ks
            },
    ensures
        r.value() == window(x.deep_view(), w.deep_view(), i as int, j as int, kd as int, ks as int) % modulus(),
{
    let ghost xv = x.deep_view();
    let ghost wv = w.deep_view();
    let mut acc = Scalar::zero();
    if ks == 0 {
        let mut d: usize = 0;
        while d < kd
            invariant
                d <= kd,
                ks == 0,
                acc.value() == window(xv, wv, i as int, j as int, d as int, ks as int) % modulus(),
            decreases kd - d,
        {
            d = d + 1;
        }
        return acc;
    }
    let mut d: usize = 0;
    while d < kd
        invariant
            xv == x.deep_view(),
            wv == w.deep_view(),
            ks >= 1,
            kd <= x.len(),
            kd <= w.len(),
            forall|d: int|
                #![trigger xv[d]]
                0 <= d < kd ==> {
                    &&& xv[d].len() >= i + ks
                    &&& forall|ki: int| 0 <= ki < ks ==> #[trigger] xv[d][i + ki].len() >= j + ks
                },
            forall|d: int|
                #![trigger wv[d]]
                0 <= d < kd ==> {
                    &&& wv[d].len() >= ks
                    &&& forall|ki: int| 0 <= ki < ks ==> #[trigger] wv[d][ki].len() >= ks
                },
            d <= kd,
            acc.value() == window(xv, wv, i as int, j as int, d as int, ks as int) % modulus(),
        decreases kd - d,
    {
        let ghost before_plane = window(xv, wv, i as int, j as int, d as int, ks as int);
        assert(xv[d as int].len() >= i + ks);
        assert(wv[d as int].len() >= ks);
        assert(x[d as int].len() == xv[d as int].len());
        let mut ki: usize = 0;
        while ki < ks
            invariant
                xv == x.deep_view(),
                wv == w.deep_view(),
                d < kd,
                kd <= x.len(),
                kd <= w.len(),
                xv[d as int].len() >= i + ks,
                x[d as int].len() >= i + ks,
                forall|ki: int| 0 <= ki < ks ==> #[trigger] xv[d as int][i + ki].len() >= j + ks,
                wv[d as int].len() >= ks,
                forall|ki: int| 0 <= ki < ks ==> #[trigger] wv[d as int][ki].len() >= ks,
                ki <= ks,
                acc.value() == (before_plane + window_plane(xv[d as int], wv[d as int], i as int, j as int, ki as int, ks as int)) % modulus(),
            decreases ks - ki,
        {
            let ghost before_row = before_plane + window_plane(xv[d as int], wv[d as int], i as int, j as int, ki as int, ks as int);
            assert(xv[d as int][i + ki].len() >= j + ks);
            assert(wv[d as int][ki as int].len() >= ks);
            let ghost xr = xv[d as int][i + ki];
            let ghost wr = wv[d as int][ki as int];
            assert(x[d as int][i + ki].len() == xr.len());
            let mut kj: usize = 0;
            while kj < ks
                invariant
                    xv == x.deep_view(),
                    wv == w.deep_view(),
                    d < kd,
                    kd <= x.len(),
                    kd <= w.len(),
                    ki < ks,
                    xv[d as int].len() >= i + ks,
                    wv[d as int].len() >= ks,
                    xr == xv[d as int][i + ki],
                    wr == wv[d as int][ki as int],
                    xr.len() >= j + ks,
                    x[d as int].len() >= i + ks,
                    x[d as int][i + ki].len() >= j + ks,
                    wr.len() >= ks,
                    kj <= ks,
                    acc.value() == (before_row + window_row(xr, wr, j as int, kj as int)) % modulus(),
                decreases ks - kj,
            {
                let t = x[d][i + ki][j + kj].mul(&w[d][ki][kj]);
                let ghost prod = xr[j + kj] * wr[kj as int];
                assert(t.value() == prod % modulus());
                let ghost s = before_row + window_row(xr, wr, j as int, kj as int);
                let next = acc.add(&t);
                proof {
                    lemma_add_mod_noop(s as int, prod as int, modulus() as int);
                    lemma_mod_twice(prod as int, modulus() as int);
                    assert(window_row(xr, wr, j as int, kj + 1) == window_row(xr, wr, j as int, kj as int) + prod);
                }
                acc = next;
                kj = kj + 1;
            }
            ki = ki + 1;
        }
        d = d + 1;
    }
    acc
}

/// Convolves `x` with the kernels `w`, adding the bias `b[f]` to every
/// element of output plane `f`.
pub fn conv2d(x: &Tensor3, w: &Tensor4, b: &Vec<Scalar>) -> (r: Tensor3)
    requires
        conv_defined(x.deep_view(), w.deep_view(), b.deep_view()),
    ensures
        r.deep_view() == conv_spec(x.deep_view(), w.deep_view(), b.deep_view()),
{
    let ghost xv = x.deep_view();
    let ghost wv = w.deep_view();
    let ghost bv = b.deep_view();
    let ghost target = conv_spec(xv, wv, bv);
    let fm = w.len();
    let kd = w[0].len();
    let ks = w[0][0].len();
    let out = x[0].len() - ks + 1;
    let mut r: Tensor3 = Vec::new();
    let mut f: usize = 0;
    while f < fm
        invariant
            xv == x.deep_view(),
            wv == w.deep_view(),
            bv == b.deep_view(),
            target == conv_spec(xv, wv, bv),
            conv_defined(xv, wv, bv),
            fm == w.len(),
            kd == wv[0].len(),
            ks == wv[0][0].len(),
            out == conv_out_size(xv, wv),
            f <= fm,
            r.deep_view() == target.take(f as int),
        decreases fm - f,
    {
        let mut plane: Matrix = Vec::new();
        let mut i: usize = 0;
        while i < out
            invariant
                xv == x.deep_view(),
                wv == w.deep_view(),
                bv == b.deep_view(),
                target == conv_spec(xv, wv, bv),
                conv_defined(xv, wv, bv),
                fm == w.len(),
                kd == wv[0].len(),
                ks == wv[0][0].len(),
                out == conv_out_size(xv, wv),
                f < fm,
                i <= out,
                plane.deep_view() == target[f as int].take(i as int),
            decreases out - i,
        {
            let mut row: Vec<Scalar> = Vec::new();
            let mut j: usize = 0;
            while j < out
                invariant
                    xv == x.deep_view(),
                    wv == w.deep_view(),
                    bv == b.deep_view(),
                    target == conv_spec(xv, wv, bv),
                    conv_defined(xv, wv, bv),
                    fm == w.len(),
                    kd == wv[0].len(),
                    ks == wv[0][0].len(),
                    out == conv_out_size(xv, wv),
                    f < fm,
                    i < out,
                    j <= out,
                    row.deep_view() == target[f as int][i as int].take(j as int),
                decreases out - j,
            {
                assert(w[f as int].deep_view() == wv[f as int]);
                assert(x.deep_view() == xv);
                let win = window_sum(x, &w[f], i, j, kd, ks);
                let e = win.add(&b[f]);
                proof {
                    let wsum = window(xv, wv[f as int], i as int, j as int, kd as int, ks as int);
                    lemma_value_below_modulus(b[f as int]);
                    lemma_add_mod_noop(wsum as int, bv[f as int] as int, modulus() as int);
                    vstd::arithmetic::div_mod::lemma_small_mod(bv[f as int], modulus());
                    assert(e.value() == target[f as int][i as int][j as int]);
                }
                let ghost before = row;
                row.push(e);
                proof { lemma_push_deep_view(before, row, e); }
                assert(row.deep_view() =~= target[f as int][i as int].take(j + 1));
                j = j + 1;
            }
            assert(row.deep_view() =~= target[f as int][i as int]);
            let ghost before = plane;
            let ghost last = row;
            plane.push(row);
            proof { lemma_push_deep_view(before, plane, last); }
            assert(plane.deep_view() =~= target[f as int].take(i + 1));
            i = i + 1;
        }
        assert(plane.deep_view() =~= target[f as int]);
        let ghost before = r;
        let ghost last = plane;
        r.push(plane);
        proof { lemma_push_deep_view(before, r, last); }
        assert(r.deep_view() =~= target.take(f + 1));
        f = f + 1;
    }
    assert(r.deep_view() =~= target);
    r
}

// ---------------------------------------------------------------------------
// Pooling
// ---------------------------------------------------------------------------

/// The larger of two values.
pub open spec fn max_nat(a: nat, b: nat) -> nat {
    if a < b {
        b
    } else {
        a
    }
}

/// The largest value in the 2 x 2 window of the plane `p` whose top left
/// corner is row `i`, column `j`.
pub open spec fn window_max(p: Seq<Seq<nat>>, i: int, j: int) -> nat {
    max_nat(max_nat(max_nat(p[i][j], p[i][j + 1]), p[i + 1][j]), p[i + 1][j + 1])
}

/// Max pooling over 2 x 2 windows with stride 1: output element `(i, j)` of
/// plane `f` is the largest value (field elements read as numbers below the
/// modulus) in the window of plane `f` at `(i, j)`. The output planes are
/// square, one smaller than the row count of the first input plane.
pub open spec fn pool_spec(x: Seq<Seq<Seq<nat>>>) -> Seq<Seq<Seq<nat>>> {
    let n = x[0].len() - 1;
    Seq::new(x.len(), |f: int| Seq::new(n as nat, |i: int| Seq::new(n as nat, |j: int| window_max(x[f], i, j))))
}

/// The inputs on which pooling reads only elements that exist: at least two
/// rows in the first plane, and every plane square at least that size.
pub open spec fn pool_defined(x: Seq<Seq<Seq<nat>>>) -> bool {
    &&& x.len() >= 1
    &&& x[0].len() >= 2
    &&& planes_cover(x, x.len() as int, x[0].len() as int, x[0].len() as int)
}

/// Whether pooling `x` reads only elements that exist.
pub fn pool_ok(x: &Tensor3) -> (r: bool)
    ensures
        r == pool_defined(x.deep_view()),
{
    if x.len() < 1 || x[0].len() < 2 {
        return false;
    }
    planes_cover_exec(x, x.len(), x[0].len(), x[0].len())
}

/// Applies max pooling to every plane of `x`.
pub fn pool(x: &Tensor3) -> (r: Tensor3)
    requires
        pool_defined(x.deep_view()),
    ensures
        r.deep_view() == pool_spec(x.deep_view()),
{
    let ghost xv = x.deep_view();
    let ghost target = pool_spec(xv);
    let planes = x.len();
    let n = x[0].len() - 1;
    let mut r: Tensor3 = Vec::new();
    let mut f: usize = 0;
    while f < planes
        invariant
            xv == x.deep_view(),
            target == pool_spec(xv),
            pool_defined(xv),
            planes == x.len(),
            n == xv[0].len() - 1,
            f <= planes,
            r.deep_view() == target.take(f as int),
        decreases planes - f,
    {
        assert(xv[f as int].len() >= xv[0].len());
        let mut plane: Matrix = Vec::new();
        let mut i: usize = 0;
        while i < n
            invariant
                xv == x.deep_view(),
                target == pool_spec(xv),
                pool_defined(xv),
                planes == x.len(),
                n == xv[0].len() - 1,
                f < planes,
                i <= n,
                plane.deep_view() == target[f as int].take(i as int),
            decreases n - i,
        {
            let mut row: Vec<Scalar> = Vec::new();
            let mut j: usize = 0;
            while j < n
                invariant
                    xv == x.deep_view(),
                    target == pool_spec(xv),
                    pool_defined(xv),
                    planes == x.len(),
                    n == xv[0].len() - 1,
                    f < planes,
                    i < n,
                    j <= n,
                    row.deep_view() == target[f as int][i as int].take(j as int),
                decreases n - j,
            {
                assert(xv[f as int].len() >= xv[0].len());
                assert(xv[f as int][i as int].len() >= xv[0].len());
                assert(xv[f as int][i + 1].len() >= xv[0].len());
                let mut e = x[f][i][j];
                let c = x[f][i][j + 1];
                if e.less_than(&c) {
                    e = c;
                }
                let c = x[f][i + 1][j];
                if e.less_than(&c) {
                    e = c;
                }
                let c = x[f][i + 1][j + 1];
                if e.less_than(&c) {
                    e = c;
                }
                assert(e.value() == target[f as int][i as int][j as int]);
                let ghost before = row;
                row.push(e);
                proof { lemma_push_deep_view(before, row, e); }
                assert(row.deep_view() =~= target[f as int][i as int].take(j + 1));
                j = j + 1;
            }
            assert(row.deep_view() =~= target[f as int][i as int]);
            let ghost before = plane;
            let ghost last = row;
            plane.push(row);
            proof { lemma_push_deep_view(before, plane, last); }
            assert(plane.deep_view() =~= target[f as int].take(i + 1));
            i = i + 1;
        }
        assert(plane.deep_view() =~= target[f as int]);
        let ghost before = r;
        let ghost last = plane;
        r.push(plane);
        proof { lemma_push_deep_view(before, r, last); }
        assert(r.deep_view() =~= target.take(f + 1));
        f = f + 1;
    }
    assert(r.deep_view() =~= target);
    r
}

// ---------------------------------------------------------------------------
// Flattening
// ---------------------------------------------------------------------------

/// The rows of a plane, one after the other.
pub open spec fn flatten2(x: Seq<Seq<nat>>) -> Seq<nat>
    decreases x.len(),
{
    if x.len() == 0 {
        Seq::empty()
    } else {
        flatten2(x.drop_last()) + x.last()
    }
}

/// The planes of a stack, each flattened, one after the other.
pub open spec fn flatten3(x: Seq<Seq<Seq<nat>>>) -> Seq<nat>
    decreases x.len(),
{
    if x.len() == 0 {
        Seq::empty()
    } else {
        flatten3(x.drop_last()) + flatten2(x.last())
    }
}

/// The elements of `x` in order of plane, row and column.
pub fn flatten(x: &Tensor3) -> (r: Vec<Scalar>)
    ensures
        r.deep_view() == flatten3(x.deep_view()),
{
    let ghost xv = x.deep_view();
    let mut r: Vec<Scalar> = Vec::new();
    let mut f: usize = 0;
    while f < x.len()
        invariant
            xv == x.deep_view(),
            f <= x.len(),
            r.deep_view() == flatten3(xv.take(f as int)),
        decreases x.len() - f,
    {
        let ghost start = r.deep_view();
        let mut i: usize = 0;
        while i < x[f].len()
            invariant
                xv == x.deep_view(),
                f < x.len(),
                i <= x[f as int].len(),
                start == flatten3(xv.take(f as int)),
                r.deep_view() == start + flatten2(xv[f as int].take(i as int)),
            decreases x[f as int].len() - i,
        {
            let ghost row_start = r.deep_view();
            let mut j: usize = 0;
            while j < x[f][i].len()
                invariant
                    xv == x.deep_view(),
                    f < x.len(),
                    i < x[f as int].len(),
                    j <= x[f as int][i as int].len(),
                    row_start == start + flatten2(xv[f as int].take(i as int)),
                    r.deep_view() == row_start + xv[f as int][i as int].take(j as int),
                decreases x[f as int][i as int].len() - j,
            {
                let e = x[f][i][j];
                let ghost before = r;
                r.push(e);
                proof { lemma_push_deep_view(before, r, e); }
                assert(r.deep_view() =~= row_start + xv[f as int][i as int].take(j + 1));
                j = j + 1;
            }
            proof {
                let rows = xv[f as int].take(i + 1);
                assert(rows.drop_last() =~= xv[f as int].take(i as int));
                assert(xv[f as int][i as int].take(j as int) =~= xv[f as int][i as int]);
                assert(r.deep_view() =~= start + flatten2(rows));
            }
            i = i + 1;
        }
        proof {
            let planes = xv.take(f + 1);
            assert(planes.drop_last() =~= xv.take(f as int));
            assert(xv[f as int].take(i as int) =~= xv[f as int]);
            assert(r.deep_view() =~= flatten3(planes));
        }
        f = f + 1;
    }
    assert(xv.take(f as int) =~= xv);
    r
}

// ---------------------------------------------------------------------------
// Dense layers
// ---------------------------------------------------------------------------

/// `sum_{j < n} x[j] * row[j]`.
pub open spec fn dot(x: Seq<nat>, row: Seq<nat>, n: int) -> nat
    decreases n,
{
    if n <= 0 {
        0
    } else {
        dot(x, row, n - 1) + x[n - 1] * row[n - 1]
    }
}

/// A dense layer: output `i` is the dot product of the input with row `i` of
/// the weights, over the row's length, plus bias `i`, in the field.
pub open spec fn dense_spec(x: Seq<nat>, w: Seq<Seq<nat>>, b: Seq<nat>) -> Seq<nat> {
    Seq::new(w.len(), |i: int| (dot(x, w[i], w[i].len() as int) + b[i]) % modulus())
}

/// The inputs on which a dense layer reads only elements that exist: a bias
/// per row and no row longer than the input.
pub open spec fn dense_defined(x: Seq<nat>, w: Seq<Seq<nat>>, b: Seq<nat>) -> bool {
    &&& b.len() >= w.len()
    &&& forall|i: int| 0 <= i < w.len() ==> #[trigger] w[i].len() <= x.len()
}

/// Whether the dense layer with weights `w` and biases `b` reads only
/// elements of `x` that exist.
pub fn dense_ok(x: &Vec<Scalar>, w: &Matrix, b: &Vec<Scalar>) -> (r: bool)
    ensures
        r == dense_defined(x.deep_view(), w.deep_view(), b.deep_view()),
{
    let ghost wv = w.deep_view();
    if b.len() < w.len() {
        return false;
    }
    let mut i: usize = 0;
    while i < w.len()
        invariant
            wv == w.deep_view(),
            i <= w.len(),
            forall|k: int| 0 <= k < i ==> #[trigger] wv[k].len() <= x.deep_view().len(),
        decreases w.len() - i,
    {
        assert(w[i as int].len() == wv[i as int].len());
        if w[i].len() > x.len() {
            return false;
        }
        i = i + 1;
    }
    true
}

/// Applies the dense layer with weights `w` and biases `b` to `x`.
pub fn dense(x: &Vec<Scalar>, w: &Matrix, b: &Vec<Scalar>) -> (r: Vec<Scalar>)
    requires
        dense_defined(x.deep_view(), w.deep_view(), b.deep_view()),
    ensures
        r.deep_view() == dense_spec(x.deep_view(), w.deep_view(), b.deep_view()),
{
    let ghost xv = x.deep_view();
    let ghost wv = w.deep_view();
    let ghost bv = b.deep_view();
    let ghost target = dense_spec(xv, wv, bv);
    let mut r: Vec<Scalar> = Vec::new();
    let mut i: usize = 0;
    while i < w.len()
        invariant
            xv == x.deep_view(),
            wv == w.deep_view(),
            bv == b.deep_view(),
            target == dense_spec(xv, wv, bv),
            dense_defined(xv, wv, bv),
            i <= w.len(),
            r.deep_view() == target.take(i as int),
        decreases w.len() - i,
    {
        let ghost row = wv[i as int];
        assert(row.len() <= xv.len());
        let mut acc = Scalar::zero();
        let mut j: usize = 0;
        while j < w[i].len()
            invariant
                xv == x.deep_view(),
                wv == w.deep_view(),
                i < w.len(),
                row == wv[i as int],
                row.len() <= xv.len(),
                j <= row.len(),
                acc.value() == dot(xv, row, j as int) % modulus(),
            decreases w[i as int].len() - j,
        {
            let t = x[j].mul(&w[i][j]);
            let ghost prod = xv[j as int] * row[j as int];
            let ghost s = dot(xv, row, j as int);
            let next = acc.add(&t);
            proof {
                lemma_add_mod_noop(s as int, prod as int, modulus() as int);
                lemma_mod_twice(s as int, modulus() as int);
                lemma_mod_twice(prod as int, modulus() as int);
            }
            acc = next;
            j = j + 1;
        }
        let e = acc.add(&b[i]);
        proof {
            let s = dot(xv, row, row.len() as int);
            lemma_value_below_modulus(b[i as int]);
            vstd::arithmetic::div_mod::lemma_small_mod(bv[i as int], modulus());
            lemma_add_mod_noop(s as int, bv[i as int] as int, modulus() as int);
            assert(e.value() == target[i as int]);
        }
        let ghost before = r;
        r.push(e);
        proof { lemma_push_deep_view(before, r, e); }
        assert(r.deep_view() =~= target.take(i + 1));
        i = i + 1;
    }
    assert(r.deep_view() =~= target);
    r
}

/// Whether `v` holds an element equal to `t`.
pub fn contains_value(v: &Vec<Scalar>, t: &Scalar) -> (r: bool)
    ensures
        r == v.deep_view().contains(t.value()),
{
    let ghost vv = v.deep_view();
    let mut found = false;
    let mut i: usize = 0;
    while i < v.len()
        invariant
            vv == v.deep_view(),
            i <= v.len(),
            found == (exists|k: int| 0 <= k < i && vv[k] == t.value()),
        decreases v.len() - i,
    {
        let hit = v[i].equals(t);
        assert(vv[i as int] == v[i as int].value());
        if hit {
            found = true;
        }
        assert(found == (exists|k: int| 0 <= k < i + 1 && vv[k] == t.value())) by {
            if hit {
                assert(0 <= i < i + 1 && vv[i as int] == t.value());
            } else {
                assert forall|k: int| 0 <= k < i + 1 && vv[k] == t.value() implies k < i by {}
            }
        }
        i = i + 1;
    }
    proof {
        if found {
            let k = choose|k: int| 0 <= k < i && vv[k] == t.value();
            assert(vv.contains(t.value()));
        } else {
            assert(!vv.contains(t.value()));
        }
    }
    found
}

// ---------------------------------------------------------------------------
// Laws
// ---------------------------------------------------------------------------

/// Padding keeps every plane: the result has as many planes as `x`, each
/// with two more rows and columns than the first plane of `x`; element
/// `(i, j)` of plane `d` of `x` sits at `(i + 1, j + 1)` of plane `d`, and
/// every element outside those positions is zero.
pub proof fn lemma_pad_places_every_element(x: Seq<Seq<Seq<nat>>>)
    requires
        pad_defined(x),
    ensures
        pad_spec(x).len() == x.len(),
        forall|d: int|
            0 <= d < x.len() ==> #[trigger] pad_spec(x)[d].len() == x[0].len() + 2,
        forall|d: int, i: int|
            0 <= d < x.len() && 0 <= i < x[0].len() + 2 ==> #[trigger] pad_spec(x)[d][i].len() == x[0][0].len() + 2,
        forall|d: int, i: int, j: int|
            0 <= d < x.len() && 0 <= i < x[0].len() && 0 <= j < x[0][0].len()
                ==> #[trigger] pad_spec(x)[d][i + 1][j + 1] == x[d][i][j],
        forall|d: int, i: int, j: int|
            0 <= d < x.len() && 0 <= i < x[0].len() + 2 && 0 <= j < x[0][0].len() + 2
                && (i == 0 || j == 0 || i == x[0].len() + 1 || j == x[0][0].len() + 1)
                ==> #[trigger] pad_spec(x)[d][i][j] == 0,
{
}

/// Max pooling keeps every plane, each `n - 1` square where `n` is the row
/// count of the first input plane, and element `(i, j)` is the largest of
/// the four elements of the window at `(i, j)`: no smaller than any of them,
/// and equal to one of them.
pub proof fn lemma_pool_takes_window_maximum(x: Seq<Seq<Seq<nat>>>)
    requires
        pool_defined(x),
    ensures
        pool_spec(x).len() == x.len(),
        forall|f: int| 0 <= f < x.len() ==> #[trigger] pool_spec(x)[f].len() == x[0].len() - 1,
        forall|f: int, i: int|
            0 <= f < x.len() && 0 <= i < x[0].len() - 1 ==> #[trigger] pool_spec(x)[f][i].len() == x[0].len() - 1,
        forall|f: int, i: int, j: int|
            0 <= f < x.len() && 0 <= i < x[0].len() - 1 && 0 <= j < x[0].len() - 1 ==> {
                let m = #[trigger] pool_spec(x)[f][i][j];
                &&& x[f][i][j] <= m
                &&& x[f][i][j + 1] <= m
                &&& x[f][i + 1][j] <= m
                &&& x[f][i + 1][j + 1] <= m
                &&& (m == x[f][i][j] || m == x[f][i][j + 1] || m == x[f][i + 1][j] || m == x[f][i + 1][j + 1])
            },
{
}

/// Appending `x[n] * v`'s term to the end of a row of length `n`: the prefix
/// of the longer row sums as the shorter one.
proof fn lemma_dot_prefix(x: Seq<nat>, row: Seq<nat>, v: nat, n: int)
    requires
        0 <= n <= row.len(),
    ensures
        dot(x, row.push(v), n) == dot(x, row, n),
    decreases n,
{
    if n > 0 {
        lemma_dot_prefix(x, row, v, n - 1);
    }
}

/// A dense layer's output `i` is the bias alone for an empty row, and
/// appending a weight `v` to row `i` (of length `n`, below the input's
/// length) adds exactly `x[n] * v` to output `i`, in the field, leaving the
/// other outputs as they were.
pub proof fn lemma_dense_sums_every_term(x: Seq<nat>, w: Seq<Seq<nat>>, b: Seq<nat>, i: int, v: nat)
    requires
        0 <= i < w.len(),
        w[i].len() < x.len(),
    ensures
        dense_spec(x, w, b).len() == w.len(),
        w[i].len() == 0 ==> dense_spec(x, w, b)[i] == b[i] % modulus(),
        dense_spec(x, w.update(i, w[i].push(v)), b)[i]
            == (dense_spec(x, w, b)[i] + x[w[i].len() as int] * v) % modulus(),
        forall|k: int|
            0 <= k < w.len() && k != i ==> #[trigger] dense_spec(x, w.update(i, w[i].push(v)), b)[k]
                == dense_spec(x, w, b)[k],
{
    let row = w[i];
    let n = row.len() as int;
    lemma_dot_prefix(x, row, v, n);
    let w2 = w.update(i, row.push(v));
    assert(w2[i] == row.push(v));
    assert(dot(x, row.push(v), n + 1) == dot(x, row, n) + x[n] * v);
    let s = dot(x, row, n) + b[i];
    lemma_add_mod_noop(s as int, (x[n] * v) as int, modulus() as int);
    lemma_mod_twice((x[n] * v) as int, modulus() as int);
}

/// Replacing element `c` of an input row by `v` moves a kernel row's sum by
/// the weight times the change, when `c` lies under the kernel row, and not
/// at all otherwise.
proof fn lemma_window_row_update(xr: Seq<nat>, wr: Seq<nat>, j: int, n: int, c: int, v: nat)
    requires
        0 <= j,
        0 <= n,
        j + n <= xr.len(),
        0 <= c < xr.len(),
    ensures
        window_row(xr.update(c, v), wr, j, n) + (if j <= c < j + n { xr[c] * wr[c - j] } else { 0 })
            == window_row(xr, wr, j, n) + (if j <= c < j + n { v * wr[c - j] } else { 0 }),
    decreases n,
{
    if n > 0 {
        lemma_window_row_update(xr, wr, j, n - 1, c, v);
        let k = j + n - 1;
        assert(xr.update(c, v)[k] == if k == c { v } else { xr[k] });
    }
}

/// As `lemma_window_row_update`, for element `(r, c)` of an input plane and
/// a kernel plane of `m` rows.
proof fn lemma_window_plane_update(
    xp: Seq<Seq<nat>>,
    wp: Seq<Seq<nat>>,
    i: int,
    j: int,
    m: int,
    n: int,
    r: int,
    c: int,
    v: nat,
)
    requires
        0 <= i,
        0 <= j,
        0 <= m,
        0 <= n,
        i + m <= xp.len(),
        forall|k: int| i <= k < i + m ==> j + n <= #[trigger] xp[k].len(),
        0 <= r < xp.len(),
        0 <= c < xp[r].len(),
    ensures
        window_plane(xp.update(r, xp[r].update(c, v)), wp, i, j, m, n) + (if i <= r < i + m && j <= c < j + n {
            xp[r][c] * wp[r - i][c - j]
        } else {
            0
        }) == window_plane(xp, wp, i, j, m, n) + (if i <= r < i + m && j <= c < j + n {
            v * wp[r - i][c - j]
        } else {
            0
        }),
    decreases m,
{
    if m > 0 {
        lemma_window_plane_update(xp, wp, i, j, m - 1, n, r, c, v);
        let k = i + m - 1;
        let xp2 = xp.update(r, xp[r].update(c, v));
        assert(j + n <= xp[k].len());
        if k == r {
            assert(xp2[k] == xp[r].update(c, v));
            lemma_window_row_update(xp[r], wp[m - 1], j, n, c, v);
        } else {
            assert(xp2[k] == xp[k]);
        }
    }
}

/// As `lemma_window_row_update`, for element `(d, r, c)` of the input and a
/// kernel of depth `kd` and size `ks`.
proof fn lemma_window_update(
    x: Seq<Seq<Seq<nat>>>,
    w: Seq<Seq<Seq<nat>>>,
    i: int,
    j: int,
    kd: int,
    ks: int,
    d: int,
    r: int,
    c: int,
    v: nat,
)
    requires
        0 <= i,
        0 <= j,
        0 <= kd <= x.len(),
        0 <= ks,
        forall|e: int|
            #![trigger x[e]]
            0 <= e < kd ==> {
                &&& i + ks <= x[e].len()
                &&& forall|k: int| i <= k < i + ks ==> j + ks <= #[trigger] x[e][k].len()
            },
        0 <= d < x.len(),
        0 <= r < x[d].len(),
        0 <= c < x[d][r].len(),
    ensures
        window(x.update(d, x[d].update(r, x[d][r].update(c, v))), w, i, j, kd, ks) + (if d < kd && i <= r < i
            + ks && j <= c < j + ks {
            x[d][r][c] * w[d][r - i][c - j]
        } else {
            0
        }) == window(x, w, i, j, kd, ks) + (if d < kd && i <= r < i + ks && j <= c < j + ks {
            v * w[d][r - i][c - j]
        } else {
            0
        }),
    decreases kd,
{
    if kd > 0 {
        lemma_window_update(x, w, i, j, kd - 1, ks, d, r, c, v);
        let e = kd - 1;
        let x2 = x.update(d, x[d].update(r, x[d][r].update(c, v)));
        assert(i + ks <= x[e].len());
        if e == d {
            assert(x2[e] == x[d].update(r, x[d][r].update(c, v)));
            lemma_window_plane_update(x[d], w[d], i, j, ks, ks, r, c, v);
        } else {
            assert(x2[e] == x[e]);
        }
    }
}

/// A convolution is linear in every input element under its kernel: where
/// element `(d, r, c)` of the input, with `d` below the kernel depth, lies in
/// the window of output `(i, j)`, replacing it by `v` moves output
/// `(f, i, j)` by `(v - x[d][r][c])` times the matching weight of kernel
/// `f`, in the field. Planes, rows and columns are all counted: the kernel's
/// full depth, size and position take part.
#[verifier::rlimit(50)]
pub proof fn lemma_conv_linear_in_each_input(
    x: Seq<Seq<Seq<nat>>>,
    w: Seq<Seq<Seq<Seq<nat>>>>,
    b: Seq<nat>,
    f: int,
    i: int,
    j: int,
    d: int,
    r: int,
    c: int,
    v: nat,
)
    requires
        conv_defined(x, w, b),
        0 <= f < w.len(),
        0 <= i < conv_out_size(x, w),
        0 <= j < conv_out_size(x, w),
        0 <= d < w[0].len(),
        i <= r < i + w[0][0].len(),
        j <= c < j + w[0][0].len(),
    ensures
        ({
            let x2 = x.update(d, x[d].update(r, x[d][r].update(c, v)));
            let wt = w[f][d][r - i][c - j];
            (conv_spec(x2, w, b)[f][i][j] + x[d][r][c] * wt) % modulus() == (conv_spec(x, w, b)[f][i][j] + v
                * wt) % modulus()
        }),
{
    let kd = w[0].len() as int;
    let ks = w[0][0].len() as int;
    let n0 = x[0].len() as int;
    let x2 = x.update(d, x[d].update(r, x[d][r].update(c, v)));
    let wt = w[f][d][r - i][c - j];
    assert(x[d].len() >= n0);
    assert(x[d][r].len() >= n0);
    assert forall|e: int|
        #![trigger x[e]]
        0 <= e < kd implies {
            &&& i + ks <= x[e].len()
            &&& forall|k: int| i <= k < i + ks ==> j + ks <= #[trigger] x[e][k].len()
        } by {
        assert(x[e].len() >= n0);
        assert forall|k: int| i <= k < i + ks implies j + ks <= #[trigger] x[e][k].len() by {
            assert(x[e][k].len() >= n0);
        }
    }
    lemma_window_update(x, w[f], i, j, kd, ks, d, r, c, v);
    assert(x2.len() == x.len());
    assert(x2[0].len() == x[0].len());
    let w1 = window(x, w[f], i, j, kd, ks);
    let w2 = window(x2, w[f], i, j, kd, ks);
    assert(conv_spec(x2, w, b)[f][i][j] == (w2 + b[f]) % modulus());
    assert(conv_spec(x, w, b)[f][i][j] == (w1 + b[f]) % modulus());
    let a = x[d][r][c] * wt;
    let t = v * wt;
    assert(w2 + a == w1 + t);
    lemma_add_mod_noop((w2 + b[f]) as int, a as int, modulus() as int);
    lemma_add_mod_noop((w1 + b[f]) as int, t as int, modulus() as int);
    lemma_mod_twice((w2 + b[f]) as int, modulus() as int);
    lemma_mod_twice((w1 + b[f]) as int, modulus() as int);
    assert((w2 + b[f]) + a == (w1 + b[f]) + t);
}

/// The kernel windows cover every plane below the kernel depth.
proof fn lemma_conv_windows_in_range(x: Seq<Seq<Seq<nat>>>, w: Seq<Seq<Seq<Seq<nat>>>>, b: Seq<nat>, i: int, j: int)
    requires
        conv_defined(x, w, b),
        w[0][0].len() >= 1,
        0 <= i < conv_out_size(x, w),
        0 <= j < conv_out_size(x, w),
    ensures
        forall|e: int|
            #![trigger x[e]]
            0 <= e < w[0].len() ==> {
                &&& i + w[0][0].len() <= x[e].len()
                &&& forall|k: int| i <= k < i + w[0][0].len() ==> j + w[0][0].len() <= #[trigger] x[e][k].len()
            },
{
    let ks = w[0][0].len() as int;
    let n0 = x[0].len() as int;
    assert forall|e: int|
        #![trigger x[e]]
        0 <= e < w[0].len() implies {
            &&& i + ks <= x[e].len()
            &&& forall|k: int| i <= k < i + ks ==> j + ks <= #[trigger] x[e][k].len()
        } by {
        assert(x[e].len() >= n0);
        assert forall|k: int| i <= k < i + ks implies j + ks <= #[trigger] x[e][k].len() by {
            assert(x[e][k].len() >= n0);
        }
    }
}

/// An output element of a convolution does not depend on input elements
/// outside its window: replacing an element of a plane at or beyond the
/// kernel depth, or of a row or column that the window at `(i, j)` does not
/// cover, leaves output `(f, i, j)` as it was.
pub proof fn lemma_conv_ignores_inputs_outside_window(
    x: Seq<Seq<Seq<nat>>>,
    w: Seq<Seq<Seq<Seq<nat>>>>,
    b: Seq<nat>,
    f: int,
    i: int,
    j: int,
    d: int,
    r: int,
    c: int,
    v: nat,
)
    requires
        conv_defined(x, w, b),
        0 <= f < w.len(),
        0 <= i < conv_out_size(x, w),
        0 <= j < conv_out_size(x, w),
        0 <= d < x.len(),
        0 <= r < x[d].len(),
        0 <= c < x[d][r].len(),
        !(d < w[0].len() && i <= r < i + w[0][0].len() && j <= c < j + w[0][0].len()),
    ensures
        conv_spec(x.update(d, x[d].update(r, x[d][r].update(c, v))), w, b)[f][i][j] == conv_spec(x, w, b)[f][i][j],
{
    let kd = w[0].len() as int;
    let ks = w[0][0].len() as int;
    let x2 = x.update(d, x[d].update(r, x[d][r].update(c, v)));
    if ks >= 1 {
        lemma_conv_windows_in_range(x, w, b, i, j);
        lemma_window_update(x, w[f], i, j, kd, ks, d, r, c, v);
    } else {
        lemma_window_empty_kernel(x, w[f], i, j, kd);
        lemma_window_empty_kernel(x2, w[f], i, j, kd);
    }
    assert(x2.len() == x.len());
    assert(x2[0].len() == x[0].len());
}

/// A kernel of size 0 sums to zero.
proof fn lemma_window_empty_kernel(x: Seq<Seq<Seq<nat>>>, w: Seq<Seq<Seq<nat>>>, i: int, j: int, kd: int)
    ensures
        window(x, w, i, j, kd, 0) == 0,
    decreases kd,
{
    if kd > 0 {
        lemma_window_empty_kernel(x, w, i, j, kd - 1);
    }
}

/// On an input whose elements are all zero, every output element of a
/// convolution is the bias of its kernel.
pub proof fn lemma_conv_of_zeros_is_bias(x: Seq<Seq<Seq<nat>>>, w: Seq<Seq<Seq<Seq<nat>>>>, b: Seq<nat>, f: int, i: int, j: int)
    requires
        conv_defined(x, w, b),
        forall|e: int, k: int, l: int|
            0 <= e < x.len() && 0 <= k < x[e].len() && 0 <= l < x[e][k].len() ==> #[trigger] x[e][k][l] == 0,
        0 <= f < w.len(),
        0 <= i < conv_out_size(x, w),
        0 <= j < conv_out_size(x, w),
    ensures
        conv_spec(x, w, b)[f][i][j] == b[f] % modulus(),
{
    let kd = w[0].len() as int;
    let ks = w[0][0].len() as int;
    if ks >= 1 {
        lemma_conv_windows_in_range(x, w, b, i, j);
        lemma_window_zero(x, w[f], i, j, kd, ks);
    } else {
        lemma_window_empty_kernel(x, w[f], i, j, kd);
    }
}

/// A kernel laid on zeros sums to zero.
proof fn lemma_window_zero(x: Seq<Seq<Seq<nat>>>, w: Seq<Seq<Seq<nat>>>, i: int, j: int, kd: int, ks: int)
    requires
        0 <= i,
        0 <= j,
        0 <= kd <= x.len(),
        0 <= ks,
        forall|e: int|
            #![trigger x[e]]
            0 <= e < kd ==> {
                &&& i + ks <= x[e].len()
                &&& forall|k: int| i <= k < i + ks ==> j + ks <= #[trigger] x[e][k].len()
            },
        forall|e: int, k: int, l: int|
            0 <= e < x.len() && 0 <= k < x[e].len() && 0 <= l < x[e][k].len() ==> #[trigger] x[e][k][l] == 0,
    ensures
        window(x, w, i, j, kd, ks) == 0,
    decreases kd,
{
    if kd > 0 {
        lemma_window_zero(x, w, i, j, kd - 1, ks);
        lemma_window_plane_zero(x[kd - 1], w[kd - 1], i, j, ks, ks);
    }
}

/// A kernel plane laid on zeros sums to zero.
proof fn lemma_window_plane_zero(xp: Seq<Seq<nat>>, wp: Seq<Seq<nat>>, i: int, j: int, m: int, n: int)
    requires
        0 <= i,
        0 <= j,
        0 <= m,
        i + m <= xp.len(),
        forall|k: int| i <= k < i + m ==> j + n <= #[trigger] xp[k].len(),
        forall|k: int, l: int| 0 <= k < xp.len() && 0 <= l < xp[k].len() ==> #[trigger] xp[k][l] == 0,
    ensures
        window_plane(xp, wp, i, j, m, n) == 0,
    decreases m,
{
    if m > 0 {
        lemma_window_plane_zero(xp, wp, i, j, m - 1, n);
        lemma_window_row_zero(xp[i + m - 1], wp[m - 1], j, n);
    }
}

/// A kernel row laid on zeros sums to zero.
proof fn lemma_window_row_zero(xr: Seq<nat>, wr: Seq<nat>, j: int, n: int)
    requires
        0 <= j,
        j + n <= xr.len(),
        forall|l: int| 0 <= l < xr.len() ==> #[trigger] xr[l] == 0,
    ensures
        window_row(xr, wr, j, n) == 0,
    decreases n,
{
    if n > 0 {
        lemma_window_row_zero(xr, wr, j, n - 1);
    }
}

/// A convolution has one output plane per kernel, each a square whose side
/// is the row count of the first input plane, less the kernel size, plus one.
pub proof fn lemma_conv_shape(x: Seq<Seq<Seq<nat>>>, w: Seq<Seq<Seq<Seq<nat>>>>, b: Seq<nat>)
    requires
        conv_defined(x, w, b),
    ensures
        conv_spec(x, w, b).len() == w.len(),
        forall|f: int| 0 <= f < w.len() ==> #[trigger] conv_spec(x, w, b)[f].len() == x[0].len() - w[0][0].len() + 1,
        forall|f: int, i: int|
            0 <= f < w.len() && 0 <= i < x[0].len() - w[0][0].len() + 1 ==> #[trigger] conv_spec(x, w, b)[f][i].len()
                == x[0].len() - w[0][0].len() + 1,
{
}

/// Flattening a plane of `rows` rows of `cols` elements lists them row after
/// row: element `(i, j)` at position `i * cols + j`.
proof fn lemma_flatten2_index(x: Seq<Seq<nat>>, cols: int)
    requires
        0 <= cols,
        forall|i: int| 0 <= i < x.len() ==> #[trigger] x[i].len() == cols,
    ensures
        flatten2(x).len() == x.len() * cols,
        forall|i: int, j: int|
            0 <= i < x.len() && 0 <= j < cols ==> flatten2(x)[i * cols + j] == #[trigger] x[i][j],
    decreases x.len(),
{
    if x.len() > 0 {
        let rest = x.drop_last();
        lemma_flatten2_index(rest, cols);
        let n = rest.len() as int;
        assert(flatten2(x) == flatten2(rest) + x.last());
        assert(n * cols + cols == (n + 1) * cols) by (nonlinear_arith);
        assert forall|i: int, j: int| 0 <= i < x.len() && 0 <= j < cols implies flatten2(x)[i * cols + j] == #[trigger] x[i][j] by {
            if i < n {
                assert(rest[i] == x[i]);
                assert(i * cols + j < n * cols) by (nonlinear_arith)
                    requires
                        i < n,
                        j < cols,
                        0 <= j;
            } else {
                assert(i == n);
            }
        }
    }
}

/// Flattening a stack of `planes` planes, each `rows` by `cols`, lists their
/// elements plane after plane, row after row: element `(f, i, j)` at position
/// `(f * rows + i) * cols + j`, and nothing else.
pub proof fn lemma_flatten_index(x: Seq<Seq<Seq<nat>>>, rows: int, cols: int)
    requires
        0 <= rows,
        0 <= cols,
        forall|f: int| 0 <= f < x.len() ==> #[trigger] x[f].len() == rows,
        forall|f: int, i: int| 0 <= f < x.len() && 0 <= i < rows ==> #[trigger] x[f][i].len() == cols,
    ensures
        flatten3(x).len() == x.len() * rows * cols,
        forall|f: int, i: int, j: int|
            0 <= f < x.len() && 0 <= i < rows && 0 <= j < cols ==> flatten3(x)[(f * rows + i) * cols + j]
                == #[trigger] x[f][i][j],
    decreases x.len(),
{
    if x.len() == 0 {
        assert(x.len() * rows * cols == 0) by (nonlinear_arith)
            requires
                x.len() == 0;
    }
    if x.len() > 0 {
        let rest = x.drop_last();
        let n = rest.len() as int;
        lemma_flatten_index(rest, rows, cols);
        assert forall|i: int| 0 <= i < x.last().len() implies #[trigger] x.last()[i].len() == cols by {
            assert(x[n][i].len() == cols);
        }
        lemma_flatten2_index(x.last(), cols);
        assert(flatten3(x) == flatten3(rest) + flatten2(x.last()));
        assert(x.last().len() == rows);
        assert(flatten2(x.last()).len() == rows * cols);
        assert(n * rows * cols + rows * cols == (n + 1) * rows * cols) by (nonlinear_arith);
        assert(x.len() == n + 1);
        assert(flatten3(x).len() == flatten3(rest).len() + flatten2(x.last()).len());
        assert(flatten3(x).len() == x.len() * rows * cols);
        assert forall|f: int, i: int, j: int|
            0 <= f < x.len() && 0 <= i < rows && 0 <= j < cols implies flatten3(x)[(f * rows + i) * cols + j]
                == #[trigger] x[f][i][j] by {
            if f < n {
                assert(rest[f] == x[f]);
                assert((f * rows + i) * cols + j < n * rows * cols) by (nonlinear_arith)
                    requires
                        f < n,
                        0 <= i < rows,
                        0 <= j < cols;
            } else {
                assert(f == n);
                assert((f * rows + i) * cols + j == n * rows * cols + (i * cols + j)) by (nonlinear_arith)
                    requires
                        f == n;
                assert(0 <= i * cols + j < rows * cols) by (nonlinear_arith)
                    requires
                        0 <= i < rows,
                        0 <= j < cols;
                assert(x.last() == x[f]);
            }
        }
    }
}

} // verus!
