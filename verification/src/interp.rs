//! Exact threshold recovery: given `limit + 1` samples `(x_i, y_i)` of a
//! polynomial of degree `limit` over the scalar field, the constant term
//! `f(0)` is recovered by Lagrange interpolation at zero, in exact modular
//! arithmetic. A repeated sample point makes the problem singular and is
//! rejected, never silently mis-answered.
use vstd::prelude::*;

verus! {

use crate::errors::RlnError;
use crate::field::{fr_order, in_field, Scalar};
use vstd::arithmetic::div_mod::{
    lemma_add_mod_noop, lemma_mod_add_multiples_vanish, lemma_mod_multiples_vanish,
    lemma_mul_mod_noop_left, lemma_mul_mod_noop_right, lemma_small_mod,
};

/// The integer samples that a sequence of scalar pairs stands for.
pub open spec fn shares_model(s: Seq<(Scalar, Scalar)>) -> Seq<(int, int)> {
    s.map_values(|p: (Scalar, Scalar)| (p.0@, p.1@))
}

/// All sample points are pairwise distinct.
pub open spec fn distinct_points(sh: Seq<(int, int)>) -> bool {
    forall|a: int, b: int| 0 <= a < b < sh.len() ==> sh[a].0 != sh[b].0
}

/// Some sample in `sh` uses the evaluation point `x`.
pub open spec fn has_point(sh: Seq<(int, int)>, x: int) -> bool {
    exists|j: int| 0 <= j < sh.len() && (#[trigger] sh[j]).0 == x
}

/// All sample points are canonical field representatives.
pub open spec fn points_in_field(sh: Seq<(int, int)>) -> bool {
    forall|a: int| 0 <= a < sh.len() ==> in_field(#[trigger] sh[a].0)
}

/// All sample values are canonical field representatives.
pub open spec fn values_in_field(sh: Seq<(int, int)>) -> bool {
    forall|a: int| 0 <= a < sh.len() ==> in_field(#[trigger] sh[a].1)
}

/// `b` is the multiplicative inverse of `a` in the scalar field.
pub open spec fn is_inv(a: int, b: int) -> bool {
    0 <= b < fr_order() && (a * b) % fr_order() == 1
}

/// The multiplicative inverse of `a` modulo the field order, or `0` when
/// none exists (that is, when `a` is a multiple of the order).
pub open spec fn inv_mod(a: int) -> int {
    if exists|b: int| is_inv(a, b) {
        choose|b: int| is_inv(a, b)
    } else {
        0
    }
}

/// One factor `x_j / (x_j - x_i)` of the Lagrange basis polynomial for
/// sample `i`, evaluated at zero.
pub open spec fn lag_factor(sh: Seq<(int, int)>, i: int, j: int) -> int {
    (sh[j].0 * inv_mod((sh[j].0 - sh[i].0) % fr_order())) % fr_order()
}

/// The product of the first `n` Lagrange factors for sample `i`, reduced
/// after every step.
pub open spec fn lag_coeff_prefix(sh: Seq<(int, int)>, i: int, n: int) -> int
    decreases n,
{
    if n <= 0 {
        1
    } else if n - 1 == i {
        lag_coeff_prefix(sh, i, n - 1)
    } else {
        (lag_coeff_prefix(sh, i, n - 1) * lag_factor(sh, i, n - 1)) % fr_order()
    }
}

/// The Lagrange basis polynomial for sample `i`, evaluated at zero.
pub open spec fn lag_coeff(sh: Seq<(int, int)>, i: int) -> int {
    lag_coeff_prefix(sh, i, sh.len() as int)
}

/// The sum of the first `n` terms `y_i * l_i(0)`, reduced after every step.
pub open spec fn lag_sum_prefix(sh: Seq<(int, int)>, n: int) -> int
    decreases n,
{
    if n <= 0 {
        0
    } else {
        (lag_sum_prefix(sh, n - 1) + (sh[n - 1].1 * lag_coeff(sh, n - 1)) % fr_order())
            % fr_order()
    }
}

/// The value at zero of the unique polynomial of degree below `sh.len()`
/// through the samples `sh`, by the Lagrange interpolation formula.
pub open spec fn lagrange_at_zero(sh: Seq<(int, int)>) -> int {
    lag_sum_prefix(sh, sh.len() as int)
}

/// A multiplicative inverse in a field is unique, so any witness equals
/// `inv_mod`.
proof fn lemma_inv_unique(a: int, b: int)
    requires
        is_inv(a, b),
    ensures
        inv_mod(a) == b,
{
    let m = fr_order();
    assert(exists|c: int| is_inv(a, c));
    let c = choose|c: int| is_inv(a, c);
    assert(is_inv(a, c));
    lemma_mul_mod_noop_right(b, a * c, m);
    assert((b * ((a * c) % m)) % m == (b * (a * c)) % m);
    lemma_small_mod(b as nat, m as nat);
    assert((b * 1) % m == b);
    assert(b * (a * c) == (b * a) * c) by (nonlinear_arith);
    lemma_mul_mod_noop_left(b * a, c, m);
    assert((((b * a) % m) * c) % m == ((b * a) * c) % m);
    assert(a * b == b * a) by (nonlinear_arith);
    assert((1 * c) % m == c % m);
    lemma_small_mod(c as nat, m as nat);
    assert(b == c);
}

/// Two distinct canonical representatives differ by something that is not
/// a multiple of the field order.
proof fn lemma_diff_mod_nonzero(a: int, b: int)
    requires
        in_field(a),
        in_field(b),
        a != b,
    ensures
        (a - b) % fr_order() != 0,
{
    let m = fr_order();
    if a > b {
        lemma_small_mod((a - b) as nat, m as nat);
    } else {
        lemma_mod_add_multiples_vanish(a - b, m);
        lemma_small_mod((a - b + m) as nat, m as nat);
    }
}

/// With a single sample the interpolating polynomial is the constant `y`,
/// so the recovered value is that sample's value: the degenerate
/// one-share threshold reads the secret off directly.
pub proof fn lemma_single_share_recovery(x: int, y: int)
    requires
        in_field(y),
    ensures
        lagrange_at_zero(seq![(x, y)]) == y,
{
    let sh = seq![(x, y)];
    assert(lag_coeff_prefix(sh, 0, 0) == 1);
    assert(lag_coeff_prefix(sh, 0, 1) == lag_coeff_prefix(sh, 0, 0));
    assert(lag_coeff(sh, 0) == 1);
    lemma_small_mod(y as nat, fr_order() as nat);
    assert(lag_sum_prefix(sh, 0) == 0);
    assert(lag_sum_prefix(sh, 1) == (lag_sum_prefix(sh, 0) + (sh[0].1 * lag_coeff(sh, 0))
        % fr_order()) % fr_order());
    assert(lag_sum_prefix(sh, 1) == y);
}

/// Interpolation correctness for a line: two samples of a degree-one
/// polynomial `c0 + c1 x` at distinct points recover the constant term
/// `c0` exactly. The premise that the difference of the two points has a
/// modular inverse holds of every distinct pair, because the field order
/// is prime; primality is a fact of the outside field arithmetic and is
/// not provable here, so invertibility enters as a premise.
pub proof fn lemma_two_share_recovery(x1: int, y1: int, x2: int, y2: int, c0: int, c1: int)
    requires
        in_field(c0),
        y1 == (c0 + c1 * x1) % fr_order(),
        y2 == (c0 + c1 * x2) % fr_order(),
        exists|b: int| #[trigger] is_inv((x2 - x1) % fr_order(), b),
    ensures
        lagrange_at_zero(seq![(x1, y1), (x2, y2)]) == c0,
{
    let m = fr_order();
    let sh = seq![(x1, y1), (x2, y2)];
    let d21 = (x2 - x1) % m;
    let d12 = (x1 - x2) % m;
    let i21 = inv_mod(d21);
    assert(is_inv(d21, i21));
    assert(i21 != 0) by {
        if i21 == 0 {
            assert(d21 * 0 == 0) by (nonlinear_arith);
        }
    }
    // The inverse of the negated difference is the negated inverse.
    let i12n = m - i21;
    assert((x1 - x2) * i12n == m * (x1 - x2) + (x2 - x1) * i21) by (nonlinear_arith)
        requires
            i12n == m - i21,
    ;
    lemma_mod_multiples_vanish(x1 - x2, (x2 - x1) * i21, m);
    lemma_mul_mod_noop_left(x2 - x1, i21, m);
    assert(((x2 - x1) * i21) % m == 1);
    assert(((x1 - x2) * i12n) % m == 1);
    lemma_mul_mod_noop_left(x1 - x2, i12n, m);
    assert(is_inv(d12, i12n));
    lemma_inv_unique(d12, i12n);
    let i12 = inv_mod(d12);
    assert(i12 == m - i21);
    // Unfold the Lagrange chain for two samples.
    let t0 = (x2 * i21) % m;
    let t1 = (x1 * i12) % m;
    assert(lag_factor(sh, 0, 1) == t0);
    assert(lag_factor(sh, 1, 0) == t1);
    assert(lag_coeff_prefix(sh, 0, 0) == 1);
    assert(lag_coeff_prefix(sh, 0, 1) == 1);
    assert(lag_coeff_prefix(sh, 0, 2) == (1 * t0) % m);
    lemma_small_mod(t0 as nat, m as nat);
    assert(lag_coeff(sh, 0) == t0);
    assert(lag_coeff_prefix(sh, 1, 0) == 1);
    assert(lag_coeff_prefix(sh, 1, 1) == (1 * t1) % m);
    assert(lag_coeff_prefix(sh, 1, 2) == lag_coeff_prefix(sh, 1, 1));
    lemma_small_mod(t1 as nat, m as nat);
    assert(lag_coeff(sh, 1) == t1);
    assert(lag_sum_prefix(sh, 0) == 0);
    assert(lag_sum_prefix(sh, 1) == (0 + (y1 * t0) % m) % m);
    lemma_small_mod(((y1 * t0) % m) as nat, m as nat);
    assert(lag_sum_prefix(sh, 1) == (y1 * t0) % m);
    assert(lagrange_at_zero(sh) == ((y1 * t0) % m + (y2 * t1) % m) % m);
    lemma_add_mod_noop(y1 * t0, y2 * t1, m);
    assert(lagrange_at_zero(sh) == (y1 * t0 + y2 * t1) % m);
    // Collapse the reductions inside each term, then substitute the samples.
    lemma_mul_mod_noop_right(y1, x2 * i21, m);
    lemma_mul_mod_noop_right(y2, x1 * i12, m);
    lemma_add_mod_noop(y1 * (x2 * i21), y2 * (x1 * i12), m);
    assert(lagrange_at_zero(sh) == (y1 * (x2 * i21) + y2 * (x1 * i12)) % m);
    lemma_mul_mod_noop_left(c0 + c1 * x1, x2 * i21, m);
    lemma_mul_mod_noop_left(c0 + c1 * x2, x1 * i12, m);
    lemma_add_mod_noop((c0 + c1 * x1) * (x2 * i21), (c0 + c1 * x2) * (x1 * i12), m);
    assert(lagrange_at_zero(sh) == ((c0 + c1 * x1) * (x2 * i21) + (c0 + c1 * x2) * (x1 * i12))
        % m);
    // The multiple of the order vanishes; what is left is c0 times
    // (x2 - x1) times its inverse.
    let a = c0 + c1 * x1;
    let b = c0 + c1 * x2;
    assert(a * (x2 * i21) + b * (x1 * i12) == m * (b * x1) + (a * x2 - b * x1) * i21)
        by (nonlinear_arith)
        requires
            i12 == m - i21,
    ;
    assert(a * x2 - b * x1 == c0 * (x2 - x1)) by (nonlinear_arith)
        requires
            a == c0 + c1 * x1,
            b == c0 + c1 * x2,
    ;
    assert((a * x2 - b * x1) * i21 == (c0 * (x2 - x1)) * i21) by (nonlinear_arith)
        requires
            a * x2 - b * x1 == c0 * (x2 - x1),
    ;
    assert(a * (x2 * i21) + b * (x1 * i12) == m * (b * x1) + (c0 * (x2 - x1)) * i21);
    lemma_mod_multiples_vanish(b * x1, (c0 * (x2 - x1)) * i21, m);
    assert(lagrange_at_zero(sh) == ((c0 * (x2 - x1)) * i21) % m);
    assert((c0 * (x2 - x1)) * i21 == c0 * ((x2 - x1) * i21)) by (nonlinear_arith);
    lemma_mul_mod_noop_right(c0, (x2 - x1) * i21, m);
    assert(lagrange_at_zero(sh) == (c0 * 1) % m);
    lemma_small_mod(c0 as nat, m as nat);
}

/// Reports whether two samples share an evaluation point.
fn has_duplicate_points(shares: &Vec<(Scalar, Scalar)>) -> (r: bool)
    ensures
        r == !distinct_points(shares_model(shares@)),
{
    let ghost sh = shares_model(shares@);
    let n = shares.len();
    let mut i: usize = 0;
    while i < n
        invariant
            i <= n,
            n == shares@.len(),
            sh == shares_model(shares@),
            forall|a: int, b: int| 0 <= a < i && a < b < n ==> sh[a].0 != sh[b].0,
        decreases n - i,
    {
        let mut j: usize = i + 1;
        while j < n
            invariant
                i < n,
                i + 1 <= j <= n,
                n == shares@.len(),
                sh == shares_model(shares@),
                forall|b: int| i < b < j ==> sh[i as int].0 != sh[b].0,
            decreases n - j,
        {
            if shares[i].0.eq_value(&shares[j].0) {
                proof {
                    assert(sh[i as int].0 == sh[j as int].0);
                    assert(!distinct_points(sh));
                }
                return true;
            }
            j += 1;
        }
        i += 1;
    }
    false
}

/// Computes the Lagrange basis coefficient `l_i(0)` for sample `i`.
fn lag_coeff_exec(shares: &Vec<(Scalar, Scalar)>, i: usize) -> (r: Scalar)
    requires
        i < shares@.len(),
        distinct_points(shares_model(shares@)),
        points_in_field(shares_model(shares@)),
    ensures
        r@ == lag_coeff(shares_model(shares@), i as int),
{
    let ghost sh = shares_model(shares@);
    let n = shares.len();
    let mut coeff = Scalar::from_u64(1);
    let mut j: usize = 0;
    while j < n
        invariant
            j <= n,
            i < n,
            n == shares@.len(),
            sh == shares_model(shares@),
            distinct_points(sh),
            points_in_field(sh),
            coeff@ == lag_coeff_prefix(sh, i as int, j as int),
        decreases n - j,
    {
        if j != i {
            let diff = shares[j].0.sub(&shares[i].0);
            proof {
                assert(sh[j as int].0 != sh[i as int].0);
                lemma_diff_mod_nonzero(sh[j as int].0, sh[i as int].0);
            }
            match diff.inverse() {
                Some(inv) => {
                    proof {
                        lemma_inv_unique(diff@, inv@);
                    }
                    let factor = shares[j].0.mul(&inv);
                    coeff = coeff.mul(&factor);
                }
                None => {
                    proof {
                        assert(false);
                    }
                }
            }
        }
        j += 1;
    }
    coeff
}

/// Recovers `f(0)` from `limit + 1` distinct-point samples of a polynomial
/// `f` of degree `limit` over the scalar field. A repeated point is
/// rejected as singular; on success the result is exactly the Lagrange
/// interpolation of the samples at zero.
pub fn recover_key(shares: &Vec<(Scalar, Scalar)>) -> (r: Result<Scalar, RlnError>)
    requires
        shares@.len() >= 1,
        points_in_field(shares_model(shares@)),
    ensures
        r is Err <==> !distinct_points(shares_model(shares@)),
        r matches Err(e) ==> e == RlnError::SingularShareSet,
        r matches Ok(s) ==> s@ == lagrange_at_zero(shares_model(shares@)) && in_field(s@),
{
    let ghost sh = shares_model(shares@);
    if has_duplicate_points(shares) {
        return Err(RlnError::SingularShareSet);
    }
    let n = shares.len();
    let mut sum = Scalar::from_u64(0);
    let mut i: usize = 0;
    while i < n
        invariant
            i <= n,
            n == shares@.len(),
            sh == shares_model(shares@),
            distinct_points(sh),
            points_in_field(sh),
            sum@ == lag_sum_prefix(sh, i as int),
        decreases n - i,
    {
        let coeff = lag_coeff_exec(shares, i);
        let term = shares[i].1.mul(&coeff);
        sum = sum.add(&term);
        i += 1;
    }
    Ok(sum)
}

} // verus!
