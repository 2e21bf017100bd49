//! Dense two-dimensional fixed-point matrix with shape-checked arithmetic.
//!
//! A matrix holds a flat row-major buffer of raw fixed-point values whose
//! length always equals `width * height`; the entry at row `y`, column `x`
//! sits at flat index `y * width + x`.

use vstd::prelude::*;
use vstd::pervasive::VecAdditionalExecFns;
use crate::EngineError;
use crate::fx::{fx_add, fx_add_spec, fx_mul, fx_mul_spec, FX_ONE};
use crate::rng::{low64, seed_after, RandomGenerator};

verus! {

/// The raw value of an entry drawn for random initialization: the draw,
/// scaled from `[0, 2^64)` down to the fixed-point range `[-1, 1)`.
pub open spec fn unit_entry(draw: u64) -> i64 {
    ((draw >> 47) - FX_ONE) as i64
}

/// The entries a generator at seed `s` yields for `n` draws, in draw order.
pub open spec fn rand_seq(s: u128, n: nat) -> Seq<i64> {
    Seq::new(n, |k: int| unit_entry(low64(seed_after(s, (k + 1) as nat))))
}

/// Elementwise saturating sum of two equally long buffers.
pub open spec fn add_seq(a: Seq<i64>, b: Seq<i64>) -> Seq<i64> {
    Seq::new(a.len(), |k: int| fx_add_spec(a[k] as int, b[k] as int) as i64)
}

/// Elementwise addition of equally long buffers is commutative.
pub proof fn lemma_add_seq_commutes(a: Seq<i64>, b: Seq<i64>)
    requires
        a.len() == b.len(),
    ensures
        add_seq(a, b) == add_seq(b, a),
{
    assert(add_seq(a, b) =~= add_seq(b, a));
}

/// A row-major flat index stays below the buffer length.
#[verifier::nonlinear]
pub proof fn lemma_flat_index(y: int, x: int, w: int, h: int)
    requires
        0 <= y < h,
        0 <= x < w,
    ensures
        0 <= y * w + x < w * h,
{
}

/// A row's base offset and its end stay within the buffer length.
#[verifier::nonlinear]
pub proof fn lemma_row_base(y: int, w: int, h: int)
    requires
        0 <= y < h,
        0 <= w,
    ensures
        0 <= y * w,
        y * w + w <= w * h,
{
}

/// Whether a flat buffer of length `n` fits a `width` by `height` shape
/// exactly, even where the product would overflow the machine word.
fn shape_len_ok(width: usize, height: usize, n: usize) -> (r: bool)
    ensures
        r <==> n as int == width * height,
{
    proof {
        assert((width as int) * (height as int) < 0xffff_ffff_ffff_ffff_ffff_ffff_ffff_ffff
            && (width as int) * (height as int) >= 0) by (nonlinear_arith)
            requires
                0 <= width as int <= 0xffff_ffff_ffff_ffff,
                0 <= height as int <= 0xffff_ffff_ffff_ffff,
        ;
    }
    let p: u128 = (width as u128) * (height as u128);
    p == (n as u128)
}

/// Equal flat indices of a row-major layout name equal cells.
#[verifier::nonlinear]
pub proof fn lemma_flat_index_injective(y1: int, x1: int, y2: int, x2: int, w: int)
    requires
        0 <= x1 < w,
        0 <= x2 < w,
        0 <= y1,
        0 <= y2,
        y1 * w + x1 == y2 * w + x2,
    ensures
        y1 == y2 && x1 == x2,
{
}

/// Dense matrix of raw fixed-point values.
pub struct Matrix {
    width: usize,
    height: usize,
    vec: Vec<i64>,
}

/// The value of an output cell of the matrix product: the cell's initial
/// content, accumulated with the saturating products of the operands' entries
/// over the contracted dimension, in index order.
pub open spec fn dot_sum(init: int, lhs: Matrix, rhs: Matrix, y: int, x: int, n: int) -> int
    decreases n,
{
    if n <= 0 {
        init
    } else {
        fx_add_spec(
            dot_sum(init, lhs, rhs, y, x, n - 1),
            fx_mul_spec(lhs.entry(y, n - 1) as int, rhs.entry(n - 1, x) as int),
        )
    }
}

impl Clone for Matrix {
    /// A clone has the same shape and the same entries.
    fn clone(&self) -> (r: Self)
        ensures
            r@ == self@,
            r.width_spec() == self.width_spec(),
            r.height_spec() == self.height_spec(),
    {
        Matrix { width: self.width, height: self.height, vec: self.to_vec() }
    }
}

impl View for Matrix {
    type V = Seq<i64>;

    /// The flat row-major buffer.
    closed spec fn view(&self) -> Seq<i64> {
        self.vec@
    }
}

impl Matrix {
    /// Number of columns.
    pub closed spec fn width_spec(self) -> usize {
        self.width
    }

    /// Number of rows.
    pub closed spec fn height_spec(self) -> usize {
        self.height
    }

    /// The buffer length always equals `width * height`.
    pub open spec fn wf(self) -> bool {
        self@.len() == self.width_spec() * self.height_spec()
    }

    /// The entry at row `y`, column `x`.
    pub open spec fn entry(self, y: int, x: int) -> i64 {
        self@[y * self.width_spec() + x]
    }

    /// Both dimensions agree with another matrix's.
    pub open spec fn same_shape(self, other: Matrix) -> bool {
        self.width_spec() == other.width_spec() && self.height_spec() == other.height_spec()
    }

    pub fn width(&self) -> (r: usize)
        ensures
            r == self.width_spec(),
    {
        self.width
    }

    pub fn height(&self) -> (r: usize)
        ensures
            r == self.height_spec(),
    {
        self.height
    }

    /// A matrix of the given shape with every entry zero.
    pub fn new(width: usize, height: usize) -> (m: Matrix)
        requires
            width * height <= usize::MAX,
        ensures
            m.wf(),
            m.width_spec() == width,
            m.height_spec() == height,
            forall|k: int| 0 <= k < m@.len() ==> m@[k] == 0i64,
    {
        let n = width * height;
        let mut vec: Vec<i64> = Vec::new();
        let mut k: usize = 0;
        while k < n
            invariant
                vec@.len() == k,
                k <= n,
                forall|j: int| 0 <= j < k ==> vec@[j] == 0i64,
            decreases n - k,
        {
            vec.push(0i64);
            k = k + 1;
        }
        Matrix { width, height, vec }
    }

    /// A matrix filled row-major from a flat buffer; the buffer length must
    /// equal `width * height`, else the shape is refused.
    pub fn from(width: usize, height: usize, values: &Vec<i64>) -> (r: Result<Matrix, EngineError>)
        ensures
            r is Ok <==> values@.len() == width * height,
            r matches Ok(m) ==> m.wf() && m.width_spec() == width && m.height_spec() == height
                && m@ == values@,
            r is Err ==> r == Err::<Matrix, EngineError>(EngineError::ShapeMismatch),
    {
        if shape_len_ok(width, height, values.len()) {
            {
                let n = values.len();
                let mut vec: Vec<i64> = Vec::new();
                let mut k: usize = 0;
                while k < n
                    invariant
                        vec@.len() == k,
                        k <= n,
                        n == values@.len(),
                        forall|j: int| 0 <= j < k ==> vec@[j] == values@[j],
                    decreases n - k,
                {
                    vec.push(values[k]);
                    k = k + 1;
                }
                proof {
                    assert(vec@ =~= values@);
                }
                Ok(Matrix { width, height, vec })
            }
        } else {
            Err(EngineError::ShapeMismatch)
        }
    }

    /// Set every entry to the given value.
    pub fn fill(&mut self, n: i64)
        requires
            old(self).wf(),
        ensures
            final(self).wf(),
            final(self).same_shape(*old(self)),
            final(self)@.len() == old(self)@.len(),
            forall|k: int| 0 <= k < final(self)@.len() ==> final(self)@[k] == n,
    {
        let len = self.vec.len();
        let mut k: usize = 0;
        while k < len
            invariant
                self.vec@.len() == len,
                self.width == old(self).width_spec(),
                self.height == old(self).height_spec(),
                k <= len,
                forall|j: int| 0 <= j < k ==> self.vec@[j] == n,
            decreases len - k,
        {
            self.vec.set(k, n);
            k = k + 1;
        }
    }

    /// A matrix of the given shape with every entry drawn from the
    /// generator, in row-major order, scaled into `[-1, 1)`.
    pub fn rand(width: usize, height: usize, rng: &mut RandomGenerator) -> (m: Matrix)
        requires
            width * height <= usize::MAX,
        ensures
            m.wf(),
            m.width_spec() == width,
            m.height_spec() == height,
            m@ == rand_seq(old(rng).seed_spec(), (width * height) as nat),
            final(rng).seed_spec() == seed_after(old(rng).seed_spec(), (width * height) as nat),
    {
        let ghost seed0 = rng.seed_spec();
        let n = width * height;
        let mut vec: Vec<i64> = Vec::new();
        let mut k: usize = 0;
        while k < n
            invariant
                vec@.len() == k,
                k <= n,
                rng.seed_spec() == seed_after(seed0, k as nat),
                forall|j: int| 0 <= j < k ==> vec@[j] == unit_entry(
                    low64(seed_after(seed0, (j + 1) as nat)),
                ),
            decreases n - k,
        {
            let r = rng.rand();
            proof {
                assert(r >> 47 <= 0x1ffff) by (bit_vector);
            }
            let v: i64 = (r >> 47) as i64 - FX_ONE;
            vec.push(v);
            k = k + 1;
        }
        proof {
            assert(vec@ =~= rand_seq(seed0, n as nat));
        }
        Matrix { width, height, vec }
    }

    /// A matrix of the same shape with every entry zero.
    pub fn zero_like(&self) -> (m: Matrix)
        requires
            self.wf(),
        ensures
            m.wf(),
            m.same_shape(*self),
            m@.len() == self@.len(),
            forall|k: int| 0 <= k < m@.len() ==> m@[k] == 0i64,
    {
        let n = self.vec.len();
        let mut vec: Vec<i64> = Vec::new();
        let mut k: usize = 0;
        while k < n
            invariant
                vec@.len() == k,
                k <= n,
                forall|j: int| 0 <= j < k ==> vec@[j] == 0i64,
            decreases n - k,
        {
            vec.push(0i64);
            k = k + 1;
        }
        Matrix { width: self.width, height: self.height, vec }
    }

    /// Flatten the entries row-major into a vector.
    pub fn to_vec(&self) -> (r: Vec<i64>)
        ensures
            r@ == self@,
    {
        let len = self.vec.len();
        let mut r: Vec<i64> = Vec::new();
        let mut k: usize = 0;
        while k < len
            invariant
                r@.len() == k,
                k <= len,
                len == self.vec@.len(),
                forall|j: int| 0 <= j < k ==> r@[j] == self.vec@[j],
            decreases len - k,
        {
            r.push(self.vec[k]);
            k = k + 1;
        }
        proof {
            assert(r@ =~= self@);
        }
        r
    }

    /// A copy of one row as a vector; a row index at or beyond the height
    /// is refused.
    pub fn row(&self, index: usize) -> (r: Result<Vec<i64>, EngineError>)
        requires
            self.wf(),
        ensures
            r is Ok <==> index < self.height_spec(),
            r matches Ok(v) ==> v@ == self@.subrange(
                index * self.width_spec(),
                index * self.width_spec() + self.width_spec(),
            ),
            r is Err ==> r == Err::<Vec<i64>, EngineError>(EngineError::IndexOutOfRange),
    {
        if index >= self.height {
            return Err(EngineError::IndexOutOfRange);
        }
        let total = self.vec.len();
        proof {
            lemma_row_base(index as int, self.width_spec() as int, self.height_spec() as int);
            assert(index * self.width_spec() + self.width_spec() <= total);
        }
        let base = index * self.width;
        let mut r: Vec<i64> = Vec::new();
        let mut k: usize = 0;
        while k < self.width
            invariant
                r@.len() == k,
                k <= self.width,
                self.wf(),
                index < self.height_spec(),
                base == index * self.width_spec(),
                total == self.vec@.len(),
                base + self.width <= total,
                forall|j: int| 0 <= j < k ==> r@[j] == self.vec@[base + j],
            decreases self.width - k,
        {
            r.push(self.vec[base + k]);
            k = k + 1;
        }
        proof {
            assert(r@ =~= self@.subrange(
                index * self.width_spec(),
                index * self.width_spec() + self.width_spec(),
            ));
        }
        Ok(r)
    }

    /// The entry at row `y`, column `x`.
    pub fn get(&self, y: usize, x: usize) -> (r: i64)
        requires
            self.wf(),
            y < self.height_spec(),
            x < self.width_spec(),
        ensures
            r == self.entry(y as int, x as int),
    {
        let total = self.vec.len();
        proof {
            lemma_flat_index(y as int, x as int, self.width_spec() as int,
                self.height_spec() as int);
            lemma_row_base(y as int, self.width_spec() as int, self.height_spec() as int);
            assert(y * self.width_spec() + x < total);
        }
        self.vec[y * self.width + x]
    }

    /// Matrix product of `lhs` and `rhs`, accumulated into the existing
    /// contents of `self` (the caller zeroes `self` first for a fresh
    /// product). `self` must already have shape (`lhs` height, `rhs` width)
    /// and the operands' inner dimensions must agree, else the shapes are
    /// refused and nothing changes.
    pub fn dot(&mut self, lhs: &Matrix, rhs: &Matrix) -> (r: Result<(), EngineError>)
        requires
            old(self).wf(),
            lhs.wf(),
            rhs.wf(),
        ensures
            final(self).wf(),
            final(self).same_shape(*old(self)),
            final(self)@.len() == old(self)@.len(),
            r is Ok <==> (lhs.width_spec() == rhs.height_spec() && old(self).width_spec()
                == rhs.width_spec() && old(self).height_spec() == lhs.height_spec()),
            r is Err ==> final(self)@ == old(self)@ && r == Err::<(), EngineError>(
                EngineError::ShapeMismatch,
            ),
            forall|y: int, x: int|
                r is Ok && 0 <= y < old(self).height_spec() && 0 <= x < old(self).width_spec()
                    ==> #[trigger] final(self).entry(y, x) as int == dot_sum(
                    old(self).entry(y, x) as int,
                    *lhs,
                    *rhs,
                    y,
                    x,
                    lhs.width_spec() as int,
                ),
    {
        if !(lhs.width == rhs.height && self.width == rhs.width && self.height == lhs.height) {
            return Err(EngineError::ShapeMismatch);
        }
        let w = self.width;
        let h = self.height;
        let n = lhs.width;
        let total = self.vec.len();
        let mut y: usize = 0;
        while y < h
            invariant
                self.wf(),
                lhs.wf(),
                rhs.wf(),
                self.width_spec() == w,
                self.height_spec() == h,
                w == old(self).width_spec(),
                h == old(self).height_spec(),
                n == lhs.width_spec(),
                lhs.width_spec() == rhs.height_spec(),
                w == rhs.width_spec(),
                h == lhs.height_spec(),
                total == self@.len(),
                self@.len() == old(self)@.len(),
                y <= h,
                forall|yy: int, xx: int|
                    0 <= yy < y && 0 <= xx < w ==> #[trigger] self.entry(yy, xx) as int
                        == dot_sum(old(self).entry(yy, xx) as int, *lhs, *rhs, yy, xx, n as int),
                forall|yy: int, xx: int|
                    y <= yy < h && 0 <= xx < w ==> #[trigger] self.entry(yy, xx) == old(
                        self,
                    ).entry(yy, xx),
            decreases h - y,
        {
            let mut x: usize = 0;
            while x < w
                invariant
                    self.wf(),
                    lhs.wf(),
                    rhs.wf(),
                    self.width_spec() == w,
                    self.height_spec() == h,
                    w == old(self).width_spec(),
                    h == old(self).height_spec(),
                    n == lhs.width_spec(),
                    lhs.width_spec() == rhs.height_spec(),
                    w == rhs.width_spec(),
                    h == lhs.height_spec(),
                    total == self@.len(),
                    self@.len() == old(self)@.len(),
                    y < h,
                    x <= w,
                    forall|yy: int, xx: int|
                        0 <= yy < y && 0 <= xx < w ==> #[trigger] self.entry(yy, xx) as int
                            == dot_sum(
                            old(self).entry(yy, xx) as int,
                            *lhs,
                            *rhs,
                            yy,
                            xx,
                            n as int,
                        ),
                    forall|xx: int|
                        0 <= xx < x ==> #[trigger] self.entry(y as int, xx) as int == dot_sum(
                            old(self).entry(y as int, xx) as int,
                            *lhs,
                            *rhs,
                            y as int,
                            xx,
                            n as int,
                        ),
                    forall|xx: int|
                        x <= xx < w ==> #[trigger] self.entry(y as int, xx) == old(self).entry(
                            y as int,
                            xx,
                        ),
                    forall|yy: int, xx: int|
                        y < yy < h && 0 <= xx < w ==> #[trigger] self.entry(yy, xx) == old(
                            self,
                        ).entry(yy, xx),
                decreases w - x,
            {
                proof {
                    lemma_flat_index(y as int, x as int, w as int, h as int);
                    lemma_row_base(y as int, w as int, h as int);
                }
                let idx = y * w + x;
                let mut acc: i64 = self.vec[idx];
                proof {
                    assert(idx as int == (y as int) * (w as int) + (x as int));
                    assert(self.entry(y as int, x as int) == old(self).entry(y as int, x as int));
                    assert(acc == self.entry(y as int, x as int));
                }
                let mut i: usize = 0;
                while i < n
                    invariant
                        lhs.wf(),
                        rhs.wf(),
                        n == lhs.width_spec(),
                        lhs.width_spec() == rhs.height_spec(),
                        w == rhs.width_spec(),
                        h == lhs.height_spec(),
                        y < h,
                        x < w,
                        i <= n,
                        acc as int == dot_sum(
                            old(self).entry(y as int, x as int) as int,
                            *lhs,
                            *rhs,
                            y as int,
                            x as int,
                            i as int,
                        ),
                    decreases n - i,
                {
                    let a = lhs.get(y, i);
                    let b = rhs.get(i, x);
                    acc = fx_add(acc, fx_mul(a, b));
                    i = i + 1;
                }
                let ghost prev = *self;
                self.vec.set(idx, acc);
                proof {
                    assert(idx as int == (y as int) * (w as int) + (x as int));
                    assert forall|yy: int, xx: int|
                        0 <= yy < h && 0 <= xx < w && !(yy == y as int && xx == x as int) implies
                        #[trigger] self.entry(yy, xx) == prev.entry(yy, xx) by {
                        lemma_flat_index(yy, xx, w as int, h as int);
                        if yy * (w as int) + xx == (y as int) * (w as int) + x as int {
                            lemma_flat_index_injective(yy, xx, y as int, x as int, w as int);
                        }
                    }
                    assert(self.entry(y as int, x as int) == acc);
                }
                x = x + 1;
            }
            y = y + 1;
        }
        Ok(())
    }

    /// Elementwise saturating addition in place; unequal shapes are refused
    /// and nothing changes.
    pub fn add_assign(&mut self, rhs: &Matrix) -> (r: Result<(), EngineError>)
        requires
            old(self).wf(),
            rhs.wf(),
        ensures
            final(self).wf(),
            final(self).same_shape(*old(self)),
            r is Ok <==> old(self).same_shape(*rhs),
            r is Ok ==> final(self)@ == add_seq(old(self)@, rhs@),
            r is Err ==> final(self)@ == old(self)@ && r == Err::<(), EngineError>(
                EngineError::ShapeMismatch,
            ),
    {
        if !(self.width == rhs.width && self.height == rhs.height) {
            return Err(EngineError::ShapeMismatch);
        }
        let len = self.vec.len();
        let mut k: usize = 0;
        while k < len
            invariant
                self.wf(),
                rhs.wf(),
                self.width_spec() == old(self).width_spec(),
                self.height_spec() == old(self).height_spec(),
                old(self).same_shape(*rhs),
                len == self@.len(),
                self@.len() == old(self)@.len(),
                rhs@.len() == len,
                k <= len,
                forall|j: int|
                    0 <= j < k ==> self@[j] as int == fx_add_spec(
                        old(self)@[j] as int,
                        rhs@[j] as int,
                    ),
                forall|j: int| k <= j < len ==> self@[j] == old(self)@[j],
            decreases len - k,
        {
            let v = fx_add(self.vec[k], rhs.vec[k]);
            self.vec.set(k, v);
            k = k + 1;
        }
        proof {
            assert(self@ =~= add_seq(old(self)@, rhs@));
        }
        Ok(())
    }

    /// Apply a unary function to every entry in place; each new entry is a
    /// possible output of the function on the old entry at the same place.
    pub fn map<F: Fn(i64) -> i64>(&mut self, f: F)
        requires
            old(self).wf(),
            forall|v: i64| #[trigger] f.requires((v,)),
        ensures
            final(self).wf(),
            final(self).same_shape(*old(self)),
            final(self)@.len() == old(self)@.len(),
            forall|k: int|
                0 <= k < final(self)@.len() ==> #[trigger] f.ensures(
                    (old(self)@[k],),
                    final(self)@[k],
                ),
    {
        let len = self.vec.len();
        let mut k: usize = 0;
        while k < len
            invariant
                self.wf(),
                self.width_spec() == old(self).width_spec(),
                self.height_spec() == old(self).height_spec(),
                len == self@.len(),
                self@.len() == old(self)@.len(),
                k <= len,
                forall|v: i64| #[trigger] f.requires((v,)),
                forall|j: int| 0 <= j < k ==> #[trigger] f.ensures((old(self)@[j],), self@[j]),
                forall|j: int| k <= j < len ==> self@[j] == old(self)@[j],
            decreases len - k,
        {
            let v = self.vec[k];
            let w = f(v);
            self.vec.set(k, w);
            k = k + 1;
        }
    }
}

} // verus!
