//! 4x4 matrices in 16.16 fixed-point, stored column-major.
//!
//! The mathematical model of a matrix is a sequence of sixteen integers;
//! multiplication divides each four-term dot product by `FX_ONE` (rounding
//! toward zero) and clamps the result into the admissible entry range, so
//! that products of well-formed matrices are again well-formed.

use vstd::prelude::*;

verus! {

use crate::fixed::{
    clamp_entry, clamp_to_entry, div_trunc, tdiv, ENTRY_LIMIT, FX_ONE, VAL_LIMIT,
};
use vstd::arithmetic::div_mod::{lemma_div_multiples_vanish, lemma_div_basics};

/// A 4x4 transform matrix; entry (row `r`, column `c`) lives at `c * 4 + r`.
pub struct Mat4 {
    pub e: Vec<i64>,
}

/// Well-formedness of the mathematical model: sixteen bounded entries.
pub open spec fn mat_wf(m: Seq<int>) -> bool {
    &&& m.len() == 16
    &&& forall|i: int|
        0 <= i < 16 ==> -(ENTRY_LIMIT as int) <= #[trigger] m[i] <= ENTRY_LIMIT as int
}

/// The identity matrix: `FX_ONE` on the diagonal, zero elsewhere.
pub open spec fn mat_identity() -> Seq<int> {
    Seq::new(16, |i: int| if i % 5 == 0 { FX_ONE as int } else { 0 })
}

/// Entry (row `r`, column `c`) of a fixed-point matrix product.
pub open spec fn mul_entry(a: Seq<int>, b: Seq<int>, c: int, r: int) -> int {
    clamp_entry(
        tdiv(
            a[r] * b[c * 4] + a[4 + r] * b[c * 4 + 1] + a[8 + r] * b[c * 4 + 2] + a[12 + r] * b[c
                * 4 + 3],
            FX_ONE as int,
        ),
    )
}

/// Fixed-point matrix product.
pub open spec fn mat_mul(a: Seq<int>, b: Seq<int>) -> Seq<int> {
    Seq::new(16, |i: int| mul_entry(a, b, i / 4, i % 4))
}

/// The matrix that translates by `(x, y, z)`.
pub open spec fn mat_translation(x: int, y: int, z: int) -> Seq<int> {
    seq![
        FX_ONE as int, 0, 0, 0,
        0, FX_ONE as int, 0, 0,
        0, 0, FX_ONE as int, 0,
        x, y, z, FX_ONE as int,
    ]
}

/// The matrix that scales each axis independently.
pub open spec fn mat_scaling(x: int, y: int, z: int) -> Seq<int> {
    seq![
        x, 0, 0, 0,
        0, y, 0, 0,
        0, 0, z, 0,
        0, 0, 0, FX_ONE as int,
    ]
}

/// Rotation matrix of the quaternion `(x, y, z, w)`. The quaternion need not
/// be normalized: each entry is divided by the squared norm, which matches
/// the matrix of the normalized quaternion in exact arithmetic. A zero
/// quaternion carries no orientation and yields the identity.
pub open spec fn mat_rotation(x: int, y: int, z: int, w: int) -> Seq<int> {
    let n = x * x + y * y + z * z + w * w;
    let one = FX_ONE as int;
    if n == 0 {
        mat_identity()
    } else {
        seq![
            clamp_entry(one - tdiv(2 * one * (y * y + z * z), n)),
            clamp_entry(tdiv(2 * one * (x * y + w * z), n)),
            clamp_entry(tdiv(2 * one * (x * z - w * y), n)),
            0,
            clamp_entry(tdiv(2 * one * (x * y - w * z), n)),
            clamp_entry(one - tdiv(2 * one * (x * x + z * z), n)),
            clamp_entry(tdiv(2 * one * (y * z + w * x), n)),
            0,
            clamp_entry(tdiv(2 * one * (x * z + w * y), n)),
            clamp_entry(tdiv(2 * one * (y * z - w * x), n)),
            clamp_entry(one - tdiv(2 * one * (x * x + y * y), n)),
            0,
            0, 0, 0, one,
        ]
    }
}

impl View for Mat4 {
    type V = Seq<int>;

    open spec fn view(&self) -> Seq<int> {
        self.e@.map_values(|v: i64| v as int)
    }
}

/// Product of two bounded matrix entries; fits comfortably in `i128`.
fn mul_entry_term(a: i64, b: i64) -> (r: i128)
    requires
        -ENTRY_LIMIT <= a <= ENTRY_LIMIT,
        -ENTRY_LIMIT <= b <= ENTRY_LIMIT,
    ensures
        r == (a as int) * (b as int),
        -0x1000_0000_0000_0000_0000_0000_0000_0000i128 <= r
            <= 0x1000_0000_0000_0000_0000_0000_0000_0000i128,
{
    assert(-0x1000_0000_0000_0000_0000_0000_0000_0000i128 <= (a as i128) * (b as i128)
        <= 0x1000_0000_0000_0000_0000_0000_0000_0000i128) by (nonlinear_arith)
        requires
            -0x4000_0000_0000_0000i128 <= (a as i128) <= 0x4000_0000_0000_0000i128,
            -0x4000_0000_0000_0000i128 <= (b as i128) <= 0x4000_0000_0000_0000i128,
    ;
    (a as i128) * (b as i128)
}

/// Product of two bounded animation values; fits comfortably in `i128`.
pub(crate) fn mul_val(a: i64, b: i64) -> (r: i128)
    requires
        -VAL_LIMIT <= a <= VAL_LIMIT,
        -VAL_LIMIT <= b <= VAL_LIMIT,
    ensures
        r == (a as int) * (b as int),
        -0x1_0000_0000_0000_0000_0000i128 <= r <= 0x1_0000_0000_0000_0000_0000i128,
{
    assert(-0x1_0000_0000_0000_0000_0000i128 <= (a as i128) * (b as i128)
        <= 0x1_0000_0000_0000_0000_0000i128) by (nonlinear_arith)
        requires
            -0x100_0000_0000i128 <= (a as i128) <= 0x100_0000_0000i128,
            -0x100_0000_0000i128 <= (b as i128) <= 0x100_0000_0000i128,
    ;
    (a as i128) * (b as i128)
}

/// `tdiv(2 * FX_ONE * s, n)`, clamped into the entry range.
fn rot_off_diag(s: i128, n: i128) -> (r: i64)
    requires
        0 < n,
        -0x8_0000_0000_0000_0000_0000i128 <= s <= 0x8_0000_0000_0000_0000_0000i128,
    ensures
        r as int == clamp_entry(tdiv(2 * (FX_ONE as int) * (s as int), n as int)),
{
    let p: i128 = 2 * (FX_ONE as i128) * s;
    let q = div_trunc(p, n);
    clamp_to_entry(q)
}

/// `FX_ONE - tdiv(2 * FX_ONE * s, n)`, clamped into the entry range.
fn rot_diag(s: i128, n: i128) -> (r: i64)
    requires
        0 < n,
        0 <= s <= 0x8_0000_0000_0000_0000_0000i128,
    ensures
        r as int == clamp_entry(FX_ONE as int - tdiv(2 * (FX_ONE as int) * (s as int), n as int)),
{
    let p: i128 = 2 * (FX_ONE as i128) * s;
    let q = div_trunc(p, n);
    clamp_to_entry((FX_ONE as i128) - q)
}

impl Mat4 {
    /// A matrix is well-formed when its model is.
    pub open spec fn wf(&self) -> bool {
        mat_wf(self@)
    }

    /// The identity transform.
    pub fn identity() -> (r: Mat4)
        ensures
            r@ == mat_identity(),
            r.wf(),
    {
        let mut e: Vec<i64> = Vec::new();
        for i in 0..16usize
            invariant
                e@.len() == i,
                forall|j: int| 0 <= j < i ==> (#[trigger] e@[j]) as int == mat_identity()[j],
        {
            if i % 5 == 0 {
                e.push(FX_ONE);
            } else {
                e.push(0);
            }
        }
        let r = Mat4 { e };
        proof {
            assert(r@ =~= mat_identity());
        }
        r
    }

    /// Build a matrix directly from its sixteen column-major entries.
    pub fn from_entries(entries: Vec<i64>) -> (r: Mat4)
        requires
            entries@.len() == 16,
            forall|i: int|
                0 <= i < 16 ==> -ENTRY_LIMIT <= #[trigger] entries@[i] <= ENTRY_LIMIT,
        ensures
            r@ == entries@.map_values(|v: i64| v as int),
            r.wf(),
    {
        Mat4 { e: entries }
    }

    /// The matrix that translates by `(x, y, z)`.
    pub fn translation(x: i64, y: i64, z: i64) -> (r: Mat4)
        requires
            -VAL_LIMIT <= x <= VAL_LIMIT,
            -VAL_LIMIT <= y <= VAL_LIMIT,
            -VAL_LIMIT <= z <= VAL_LIMIT,
        ensures
            r@ == mat_translation(x as int, y as int, z as int),
            r.wf(),
    {
        let mut e: Vec<i64> = Vec::new();
        e.push(FX_ONE);
        e.push(0);
        e.push(0);
        e.push(0);
        e.push(0);
        e.push(FX_ONE);
        e.push(0);
        e.push(0);
        e.push(0);
        e.push(0);
        e.push(FX_ONE);
        e.push(0);
        e.push(x);
        e.push(y);
        e.push(z);
        e.push(FX_ONE);
        let r = Mat4 { e };
        proof {
            assert(r@ =~= mat_translation(x as int, y as int, z as int));
        }
        r
    }

    /// The matrix that scales the axes by `(x, y, z)`.
    pub fn scaling(x: i64, y: i64, z: i64) -> (r: Mat4)
        requires
            -VAL_LIMIT <= x <= VAL_LIMIT,
            -VAL_LIMIT <= y <= VAL_LIMIT,
            -VAL_LIMIT <= z <= VAL_LIMIT,
        ensures
            r@ == mat_scaling(x as int, y as int, z as int),
            r.wf(),
    {
        let mut e: Vec<i64> = Vec::new();
        e.push(x);
        e.push(0);
        e.push(0);
        e.push(0);
        e.push(0);
        e.push(y);
        e.push(0);
        e.push(0);
        e.push(0);
        e.push(0);
        e.push(z);
        e.push(0);
        e.push(0);
        e.push(0);
        e.push(0);
        e.push(FX_ONE);
        let r = Mat4 { e };
        proof {
            assert(r@ =~= mat_scaling(x as int, y as int, z as int));
        }
        r
    }

    /// Rotation matrix of a (not necessarily normalized) quaternion.
    pub fn rotation(x: i64, y: i64, z: i64, w: i64) -> (r: Mat4)
        requires
            -VAL_LIMIT <= x <= VAL_LIMIT,
            -VAL_LIMIT <= y <= VAL_LIMIT,
            -VAL_LIMIT <= z <= VAL_LIMIT,
            -VAL_LIMIT <= w <= VAL_LIMIT,
        ensures
            r@ == mat_rotation(x as int, y as int, z as int, w as int),
            r.wf(),
    {
        let xx = mul_val(x, x);
        let yy = mul_val(y, y);
        let zz = mul_val(z, z);
        let ww = mul_val(w, w);
        let xy = mul_val(x, y);
        let xz = mul_val(x, z);
        let yz = mul_val(y, z);
        let wx = mul_val(w, x);
        let wy = mul_val(w, y);
        let wz = mul_val(w, z);
        proof {
            assert(xx >= 0 && yy >= 0 && zz >= 0 && ww >= 0) by (nonlinear_arith)
                requires
                    xx == (x as int) * (x as int),
                    yy == (y as int) * (y as int),
                    zz == (z as int) * (z as int),
                    ww == (w as int) * (w as int),
            ;
        }
        let n: i128 = xx + yy + zz + ww;
        if n == 0 {
            proof {
                assert(mat_rotation(x as int, y as int, z as int, w as int) == mat_identity());
            }
            Mat4::identity()
        } else {
            assert(n > 0) by (nonlinear_arith)
                requires
                    n == (x as int) * (x as int) + (y as int) * (y as int) + (z as int) * (z as int)
                        + (w as int) * (w as int),
                    n != 0,
            ;
            let mut e: Vec<i64> = Vec::new();
            e.push(rot_diag(yy + zz, n));
            e.push(rot_off_diag(xy + wz, n));
            e.push(rot_off_diag(xz - wy, n));
            e.push(0);
            e.push(rot_off_diag(xy - wz, n));
            e.push(rot_diag(xx + zz, n));
            e.push(rot_off_diag(yz + wx, n));
            e.push(0);
            e.push(rot_off_diag(xz + wy, n));
            e.push(rot_off_diag(yz - wx, n));
            e.push(rot_diag(xx + yy, n));
            e.push(0);
            e.push(0);
            e.push(0);
            e.push(0);
            e.push(FX_ONE);
            let r = Mat4 { e };
            proof {
                assert(r@ =~= mat_rotation(x as int, y as int, z as int, w as int));
            }
            r
        }
    }

    /// Fixed-point matrix product `self * other`.
    pub fn mul(&self, other: &Mat4) -> (r: Mat4)
        requires
            self.wf(),
            other.wf(),
        ensures
            r@ == mat_mul(self@, other@),
            r.wf(),
    {
        let mut e: Vec<i64> = Vec::new();
        for i in 0..16usize
            invariant
                self.wf(),
                other.wf(),
                e@.len() == i,
                forall|j: int| 0 <= j < i ==> (#[trigger] e@[j]) as int == mat_mul(self@, other@)[
                    j
                ],
        {
            let c = i / 4;
            let r = i % 4;
            proof {
                assert forall|j: int| 0 <= j < 16 implies -ENTRY_LIMIT <= #[trigger] self.e@[j]
                    <= ENTRY_LIMIT by {
                    assert(self@[j] == self.e@[j] as int);
                }
                assert forall|j: int| 0 <= j < 16 implies -ENTRY_LIMIT <= #[trigger] other.e@[j]
                    <= ENTRY_LIMIT by {
                    assert(other@[j] == other.e@[j] as int);
                }
            }
            let p0 = mul_entry_term(self.e[r], other.e[c * 4]);
            let p1 = mul_entry_term(self.e[4 + r], other.e[c * 4 + 1]);
            let p2 = mul_entry_term(self.e[8 + r], other.e[c * 4 + 2]);
            let p3 = mul_entry_term(self.e[12 + r], other.e[c * 4 + 3]);
            let sum: i128 = p0 + p1 + p2 + p3;
            let q = div_trunc(sum, FX_ONE as i128);
            e.push(clamp_to_entry(q));
        }
        let out = Mat4 { e };
        proof {
            assert(out@ =~= mat_mul(self@, other@));
        }
        out
    }
}

/// Multiplying by the identity on the left leaves a well-formed matrix
/// unchanged.
pub proof fn lemma_mat_mul_identity_left(m: Seq<int>)
    requires
        mat_wf(m),
    ensures
        mat_mul(mat_identity(), m) == m,
{
    let one = FX_ONE as int;
    assert forall|i: int| 0 <= i < 16 implies #[trigger] mat_mul(mat_identity(), m)[i] == m[i] by {
        let c = i / 4;
        let r = i % 4;
        let v = m[c * 4 + r];
        assert(mat_identity()[r] == if r == 0 { one } else { 0 });
        assert(mat_identity()[4 + r] == if r == 1 { one } else { 0 });
        assert(mat_identity()[8 + r] == if r == 2 { one } else { 0 });
        assert(mat_identity()[12 + r] == if r == 3 { one } else { 0 });
        let sum = mat_identity()[r] * m[c * 4] + mat_identity()[4 + r] * m[c * 4 + 1]
            + mat_identity()[8 + r] * m[c * 4 + 2] + mat_identity()[12 + r] * m[c * 4 + 3];
        assert(sum == one * v) by (nonlinear_arith)
            requires
                sum == (if r == 0 { one } else { 0 }) * m[c * 4] + (if r == 1 { one } else { 0 })
                    * m[c * 4 + 1] + (if r == 2 { one } else { 0 }) * m[c * 4 + 2] + (if r == 3 {
                    one
                } else {
                    0
                }) * m[c * 4 + 3],
                0 <= r < 4,
                v == m[c * 4 + r],
        ;
        lemma_tdiv_multiples_vanish(v, one);
        assert(i == c * 4 + r);
    }
    assert(mat_mul(mat_identity(), m) =~= m);
}

/// Multiplying by the identity on the right leaves a well-formed matrix
/// unchanged.
pub proof fn lemma_mat_mul_identity_right(m: Seq<int>)
    requires
        mat_wf(m),
    ensures
        mat_mul(m, mat_identity()) == m,
{
    let one = FX_ONE as int;
    assert forall|i: int| 0 <= i < 16 implies #[trigger] mat_mul(m, mat_identity())[i] == m[i] by {
        let c = i / 4;
        let r = i % 4;
        let v = m[c * 4 + r];
        assert(mat_identity()[c * 4] == if c == 0 { one } else { 0 });
        assert(mat_identity()[c * 4 + 1] == if c == 1 { one } else { 0 });
        assert(mat_identity()[c * 4 + 2] == if c == 2 { one } else { 0 });
        assert(mat_identity()[c * 4 + 3] == if c == 3 { one } else { 0 });
        let sum = m[r] * mat_identity()[c * 4] + m[4 + r] * mat_identity()[c * 4 + 1] + m[8 + r]
            * mat_identity()[c * 4 + 2] + m[12 + r] * mat_identity()[c * 4 + 3];
        assert(sum == one * v) by (nonlinear_arith)
            requires
                sum == m[r] * (if c == 0 { one } else { 0 }) + m[4 + r] * (if c == 1 { one } else {
                    0
                }) + m[8 + r] * (if c == 2 { one } else { 0 }) + m[12 + r] * (if c == 3 {
                    one
                } else {
                    0
                }),
                0 <= c < 4,
                v == m[c * 4 + r],
        ;
        lemma_tdiv_multiples_vanish(v, one);
        assert(i == c * 4 + r);
    }
    assert(mat_mul(m, mat_identity()) =~= m);
}

/// `tdiv(d * v, d) == v` for a positive `d`.
proof fn lemma_tdiv_multiples_vanish(v: int, d: int)
    requires
        0 < d,
    ensures
        tdiv(d * v, d) == v,
{
    lemma_div_basics(d);
    if v >= 0 {
        assert(d * v >= 0) by (nonlinear_arith)
            requires
                d > 0,
                v >= 0,
        ;
        lemma_div_multiples_vanish(v, d);
    } else {
        assert(d * v < 0) by (nonlinear_arith)
            requires
                d > 0,
                v < 0,
        ;
        assert(-(d * v) == d * (-v)) by (nonlinear_arith);
        lemma_div_multiples_vanish(-v, d);
    }
}

/// The product of well-formed matrices is well-formed.
pub proof fn lemma_mat_mul_wf(a: Seq<int>, b: Seq<int>)
    requires
        a.len() == 16,
        b.len() == 16,
    ensures
        mat_wf(mat_mul(a, b)),
{
}

} // verus!
