//! Shamir threshold sharing over the scalar field: a secret becomes the
//! constant term of a random polynomial, shares are its values at
//! x = 1..=n, and reconstruction evaluates the Lagrange basis at zero.
use crate::field::{fr_add, fr_invert, fr_mul, fr_sub, scalar_modulus, Fr};
use crate::sig::VerifyError;
use crate::wire::{extend_bytes, le_val};
use vstd::prelude::*;

verus! {

broadcast use crate::field::lemma_fr_len;

/// Modular addition in the scalar field.
pub open spec fn add_mod(a: nat, b: nat) -> nat {
    (a + b) % scalar_modulus()
}

/// Modular subtraction in the scalar field.
pub open spec fn sub_mod(a: nat, b: nat) -> nat {
    (((a + scalar_modulus() - b) as int) % (scalar_modulus() as int)) as nat
}

/// Modular multiplication in the scalar field.
pub open spec fn mul_mod(a: nat, b: nat) -> nat {
    (a * b) % scalar_modulus()
}

/// The multiplicative inverse modulo the field order, where one exists.
pub open spec fn mod_inv(a: nat) -> nat {
    choose|y: nat| y < scalar_modulus() && #[trigger] ((y * a) % scalar_modulus()) == 1
}

/// Inverses modulo the order are unique below the order.
pub proof fn lemma_mod_inverse_unique(a: nat, y1: nat, y2: nat)
    requires
        y1 < scalar_modulus(),
        y2 < scalar_modulus(),
        (y1 * a) % scalar_modulus() == 1,
        (y2 * a) % scalar_modulus() == 1,
    ensures
        y1 == y2,
{
    let q = scalar_modulus() as int;
    let ai = a as int;
    let i1 = y1 as int;
    let i2 = y2 as int;
    vstd::arithmetic::div_mod::lemma_small_mod(y1, scalar_modulus());
    vstd::arithmetic::div_mod::lemma_small_mod(y2, scalar_modulus());
    // y1 == (y1 * ((y2 * a) % q)) % q == (y1 * y2 * a) % q, and symmetrically.
    vstd::arithmetic::div_mod::lemma_mul_mod_noop_right(i1, i2 * ai, q);
    vstd::arithmetic::div_mod::lemma_mul_mod_noop_right(i2, i1 * ai, q);
    vstd::arithmetic::mul::lemma_mul_is_associative(i1, i2, ai);
    vstd::arithmetic::mul::lemma_mul_is_associative(i2, i1, ai);
    assert(i1 * (i2 * ai) == i2 * (i1 * ai)) by {
        vstd::arithmetic::mul::lemma_mul_is_commutative(i1, i2);
        vstd::arithmetic::mul::lemma_mul_is_associative(i2, i1, ai);
    }
    assert(i1 == (i1 * ((i2 * ai) % q)) % q);
    assert(i2 == (i2 * ((i1 * ai) % q)) % q);
}

/// x^j modulo the order, folded as the evaluator computes it.
pub open spec fn xpow(x: nat, j: int) -> nat
    decreases j,
{
    if j <= 0 {
        1
    } else {
        mul_mod(xpow(x, j - 1), x)
    }
}

/// The first `j` terms of the polynomial value at `x`.
pub open spec fn poly_eval_prefix(coeffs: Seq<nat>, x: nat, j: int) -> nat
    decreases j,
{
    if j <= 0 {
        0
    } else {
        add_mod(poly_eval_prefix(coeffs, x, j - 1), mul_mod(coeffs[j - 1], xpow(x, j - 1)))
    }
}

/// The polynomial value `sum coeffs[j] * x^j` modulo the order.
pub open spec fn poly_eval(coeffs: Seq<nat>, x: nat) -> nat {
    poly_eval_prefix(coeffs, x, coeffs.len() as int)
}

/// The shares are the values of a polynomial with the secret as constant
/// term and `max(k, 1)` coefficients, at x = 1..=n in order.
pub open spec fn shamir_shares_of(
    coeffs: Seq<nat>,
    secret: nat,
    shares: Seq<(u8, Fr)>,
    k: int,
) -> bool {
    &&& coeffs.len() == if k <= 0 {
        1int
    } else {
        k
    }
    &&& coeffs[0] == secret
    &&& forall|c: int| 0 <= c < coeffs.len() ==> #[trigger] coeffs[c] < scalar_modulus()
    &&& forall|i: int|
        0 <= i < shares.len() ==> (#[trigger] shares[i]).1.val() == poly_eval(
            coeffs,
            (i + 1) as nat,
        )
}

/// Splits a secret into `n` shares with threshold `k`: share `x` is
/// `(x, f(x))` for a polynomial `f` with constant term `secret` and
/// `k - 1` random higher coefficients.
pub fn split_secret(secret: &Fr, n: u8, k: u8) -> (r: Vec<(u8, Fr)>)
    requires
        secret.wf(),
    ensures
        r@.len() == n as int,
        forall|i: int| 0 <= i < n as int ==> (#[trigger] r@[i]).0 == i + 1,
        forall|i: int| 0 <= i < n as int ==> (#[trigger] r@[i]).1.wf(),
        exists|coeffs: Seq<nat>| #[trigger] shamir_shares_of(coeffs, secret.val(), r@, k as int),
{
    let mut coeffs: Vec<Fr> = Vec::new();
    coeffs.push(*secret);
    let mut j: usize = 1;
    while j < k as usize
        invariant
            secret.wf(),
            1 <= j,
            j <= (if k as int <= 0 { 1int } else { k as int }),
            coeffs@.len() == j,
            coeffs@[0] == *secret,
            forall|c: int| 0 <= c < j ==> (#[trigger] coeffs@[c]).wf(),
        decreases k as int - j,
    {
        coeffs.push(Fr::random());
        j = j + 1;
    }
    let ghost cvals = coeffs@.map_values(|f: Fr| f.val());

    let mut shares: Vec<(u8, Fr)> = Vec::new();
    let mut idx: usize = 0;
    while idx < n as usize
        invariant
            secret.wf(),
            coeffs@.len() == (if k as int <= 0 { 1int } else { k as int }),
            coeffs@[0] == *secret,
            forall|c: int| 0 <= c < coeffs@.len() ==> (#[trigger] coeffs@[c]).wf(),
            cvals == coeffs@.map_values(|f: Fr| f.val()),
            idx <= n as int,
            shares@.len() == idx,
            forall|i: int| 0 <= i < idx ==> (#[trigger] shares@[i]).0 == i + 1,
            forall|i: int| 0 <= i < idx ==> (#[trigger] shares@[i]).1.wf(),
            forall|i: int|
                0 <= i < idx ==> (#[trigger] shares@[i]).1.val() == poly_eval(
                    cvals,
                    (i + 1) as nat,
                ),
        decreases n as int - idx,
    {
        let x: u8 = (idx + 1) as u8;
        let x_scalar = Fr::from_u64(x as u64);
        let mut y = Fr::zero();
        let mut x_pow = Fr::one();
        let mut c: usize = 0;
        while c < coeffs.len()
            invariant
                coeffs@.len() >= 1,
                forall|t: int| 0 <= t < coeffs@.len() ==> (#[trigger] coeffs@[t]).wf(),
                cvals == coeffs@.map_values(|f: Fr| f.val()),
                x_scalar.wf(),
                x_scalar.val() == x as nat,
                c <= coeffs@.len(),
                y.wf(),
                x_pow.wf(),
                y.val() == poly_eval_prefix(cvals, x as nat, c as int),
                x_pow.val() == xpow(x as nat, c as int),
            decreases coeffs@.len() - c,
        {
            let term = fr_mul(&coeffs[c], &x_pow);
            y = fr_add(&y, &term);
            x_pow = fr_mul(&x_pow, &x_scalar);
            c = c + 1;
        }
        shares.push((x, y));
        idx = idx + 1;
    }
    proof {
        assert(shamir_shares_of(cvals, secret.val(), shares@, k as int));
    }
    shares
}

/// The indices of a share list.
pub open spec fn share_xs(shares: Seq<(u8, Fr)>) -> Seq<u8> {
    shares.map_values(|s: (u8, Fr)| s.0)
}

/// The first `m` factors of the Lagrange numerator for share `j`:
/// the product of `-x_m` over the other shares.
pub open spec fn lag_num_prefix(xs: Seq<u8>, j: int, m: int) -> nat
    decreases m,
{
    if m <= 0 {
        1
    } else if m - 1 == j {
        lag_num_prefix(xs, j, m - 1)
    } else {
        mul_mod(lag_num_prefix(xs, j, m - 1), sub_mod(0, xs[m - 1] as nat))
    }
}

/// The first `m` factors of the Lagrange denominator for share `j`:
/// the product of `x_j - x_m` over the other shares.
pub open spec fn lag_den_prefix(xs: Seq<u8>, j: int, m: int) -> nat
    decreases m,
{
    if m <= 0 {
        1
    } else if m - 1 == j {
        lag_den_prefix(xs, j, m - 1)
    } else {
        mul_mod(lag_den_prefix(xs, j, m - 1), sub_mod(xs[j] as nat, xs[m - 1] as nat))
    }
}

/// The full Lagrange numerator for share `j`.
pub open spec fn lag_num(xs: Seq<u8>, j: int) -> nat {
    lag_num_prefix(xs, j, xs.len() as int)
}

/// The full Lagrange denominator for share `j`.
pub open spec fn lag_den(xs: Seq<u8>, j: int) -> nat {
    lag_den_prefix(xs, j, xs.len() as int)
}

/// The first `j` summands of the Lagrange interpolation at zero.
pub open spec fn lagrange_prefix(shares: Seq<(u8, Fr)>, j: int) -> nat
    decreases j,
{
    if j <= 0 {
        0
    } else {
        add_mod(
            lagrange_prefix(shares, j - 1),
            mul_mod(
                shares[j - 1].1.val(),
                mul_mod(
                    lag_num(share_xs(shares), j - 1),
                    mod_inv(lag_den(share_xs(shares), j - 1)),
                ),
            ),
        )
    }
}

/// The Lagrange interpolation of the shares at x = 0.
pub open spec fn lagrange_at_zero(shares: Seq<(u8, Fr)>) -> nat {
    lagrange_prefix(shares, shares.len() as int)
}

/// Some share's Lagrange denominator vanishes, so no basis exists.
pub open spec fn degenerate_shares(shares: Seq<(u8, Fr)>) -> bool {
    exists|j: int| 0 <= j < shares.len() && #[trigger] lag_den(share_xs(shares), j) == 0
}

/// Every share value is a canonical scalar.
pub open spec fn shares_wf(shares: Seq<(u8, Fr)>) -> bool {
    forall|i: int| 0 <= i < shares.len() ==> (#[trigger] shares[i]).1.wf()
}

/// Reconstructs the secret from shares by Lagrange interpolation at zero.
/// Fails exactly when no shares are given or some denominator is not
/// invertible, which is what duplicate share indices produce.
pub fn reconstruct_secret(shares: &Vec<(u8, Fr)>) -> (r: Result<Fr, VerifyError>)
    requires
        shares_wf(shares@),
    ensures
        r is Err <==> (shares@.len() == 0 || degenerate_shares(shares@)),
        r matches Ok(f) ==> f.wf() && f.val() == lagrange_at_zero(shares@),
{
    if shares.len() == 0 {
        return Err(VerifyError::CryptoError);
    }
    let ghost xs = share_xs(shares@);
    proof {
        assert(xs.len() == shares@.len());
    }
    let mut secret = Fr::zero();
    let mut j: usize = 0;
    while j < shares.len()
        invariant
            shares_wf(shares@),
            xs == share_xs(shares@),
            xs.len() == shares@.len(),
            j <= shares@.len(),
            secret.wf(),
            secret.val() == lagrange_prefix(shares@, j as int),
            forall|t: int| 0 <= t < j ==> #[trigger] lag_den(share_xs(shares@), t) != 0,
        decreases shares@.len() - j,
    {
        let xj = Fr::from_u64(shares[j].0 as u64);
        let zero = Fr::zero();
        let mut numerator = Fr::one();
        let mut denominator = Fr::one();
        let mut m: usize = 0;
        while m < shares.len()
            invariant
                shares_wf(shares@),
                xs == share_xs(shares@),
                xs.len() == shares@.len(),
                j < shares@.len(),
                m <= shares@.len(),
                zero.wf(),
                zero.val() == 0,
                xj.wf(),
                xj.val() == xs[j as int] as nat,
                numerator.wf(),
                denominator.wf(),
                numerator.val() == lag_num_prefix(xs, j as int, m as int),
                denominator.val() == lag_den_prefix(xs, j as int, m as int),
            decreases shares@.len() - m,
        {
            if m != j {
                let xm = Fr::from_u64(shares[m].0 as u64);
                let minus_xm = fr_sub(&zero, &xm);
                let xj_minus_xm = fr_sub(&xj, &xm);
                numerator = fr_mul(&numerator, &minus_xm);
                denominator = fr_mul(&denominator, &xj_minus_xm);
            }
            m = m + 1;
        }
        let denom_inv = match fr_invert(&denominator) {
            Some(v) => v,
            None => {
                proof {
                    assert(lag_den(share_xs(shares@), j as int) == 0);
                }
                return Err(VerifyError::CryptoError);
            },
        };
        proof {
            assert(exists|y: nat|
                y < scalar_modulus() && #[trigger] ((y * denominator.val()) % scalar_modulus())
                    == 1) by {
                assert((denom_inv.val() * denominator.val()) % scalar_modulus() == 1);
            }
            lemma_mod_inverse_unique(
                denominator.val(),
                denom_inv.val(),
                mod_inv(denominator.val()),
            );
        }
        let basis = fr_mul(&numerator, &denom_inv);
        let term = fr_mul(&shares[j].1, &basis);
        secret = fr_add(&secret, &term);
        j = j + 1;
    }
    Ok(secret)
}

/// A duplicated share index zeroes that share's Lagrange denominator from
/// the duplicate onward.
pub proof fn lemma_duplicate_zeroes_denominator(xs: Seq<u8>, j: int, d: int, m: int)
    requires
        0 <= j < xs.len(),
        0 <= d < xs.len(),
        d != j,
        xs[d] == xs[j],
        d < m <= xs.len(),
    ensures
        lag_den_prefix(xs, j, m) == 0,
    decreases m,
{
    let q = scalar_modulus() as int;
    if m - 1 == d {
        assert(sub_mod(xs[j] as nat, xs[d] as nat) == 0) by {
            vstd::arithmetic::div_mod::lemma_mod_self_0(q);
        }
        assert(lag_den_prefix(xs, j, m) == mul_mod(lag_den_prefix(xs, j, m - 1), 0));
        vstd::arithmetic::div_mod::lemma_small_mod(0, scalar_modulus());
    } else {
        lemma_duplicate_zeroes_denominator(xs, j, d, m - 1);
        if m - 1 == j {
        } else {
            assert(lag_den_prefix(xs, j, m) == mul_mod(0, sub_mod(xs[j] as nat, xs[m - 1] as nat)));
            vstd::arithmetic::div_mod::lemma_small_mod(0, scalar_modulus());
        }
    }
}

/// Law: shares with a duplicated index cannot be reconstructed — the
/// share list is degenerate, so `reconstruct_secret` returns an error.
pub proof fn lemma_duplicate_shares_fail(shares: Seq<(u8, Fr)>, i: int, d: int)
    requires
        0 <= i < shares.len(),
        0 <= d < shares.len(),
        i != d,
        shares[i].0 == shares[d].0,
    ensures
        degenerate_shares(shares),
{
    let xs = share_xs(shares);
    lemma_duplicate_zeroes_denominator(xs, i, d, xs.len() as int);
    assert(lag_den(xs, i) == 0);
}

/// Law: with threshold 1 every single share reconstructs the secret:
/// the polynomial is constant, and the one-point Lagrange basis is 1.
pub proof fn lemma_single_share_reconstructs(
    coeffs: Seq<nat>,
    secret: nat,
    shares: Seq<(u8, Fr)>,
    i: int,
)
    requires
        secret < scalar_modulus(),
        shamir_shares_of(coeffs, secret, shares, 1),
        0 <= i < shares.len(),
    ensures
        lagrange_at_zero(seq![shares[i]]) == secret,
        !degenerate_shares(seq![shares[i]]),
{
    let q = scalar_modulus();
    let single = seq![shares[i]];
    let xs = share_xs(single);
    assert(xs.len() == 1);
    // The share value is the constant polynomial's value: the secret.
    assert(shares[i].1.val() == poly_eval(coeffs, (i + 1) as nat));
    assert(xpow((i + 1) as nat, 0) == 1);
    assert(poly_eval_prefix(coeffs, (i + 1) as nat, 0) == 0);
    assert(poly_eval_prefix(coeffs, (i + 1) as nat, 1) == add_mod(0, mul_mod(secret, 1)));
    vstd::arithmetic::div_mod::lemma_small_mod(secret, q);
    vstd::arithmetic::mul::lemma_mul_basics(secret as int);
    assert(mul_mod(secret, 1) == secret);
    assert(add_mod(0, secret) == secret);
    let y = shares[i].1.val();
    assert(y == secret);
    // Numerator and denominator are empty products.
    assert(lag_num_prefix(xs, 0, 0) == 1);
    assert(lag_num_prefix(xs, 0, 1) == lag_num_prefix(xs, 0, 0));
    assert(lag_den_prefix(xs, 0, 0) == 1);
    assert(lag_den_prefix(xs, 0, 1) == lag_den_prefix(xs, 0, 0));
    assert(lag_num(xs, 0) == 1);
    assert(lag_den(xs, 0) == 1);
    vstd::arithmetic::div_mod::lemma_small_mod(1, q);
    assert((1nat * 1nat) % q == 1) by {
        vstd::arithmetic::div_mod::lemma_small_mod(1, q);
    }
    lemma_mod_inverse_unique(1, 1, mod_inv(1));
    assert(mod_inv(1) == 1);
    assert(mul_mod(1, 1) == 1);
    vstd::arithmetic::mul::lemma_mul_basics(y as int);
    assert(mul_mod(y, 1) == y);
    assert(lagrange_prefix(single, 0) == 0);
    assert(single[0].1.val() == y);
    assert(lagrange_prefix(single, 1) == add_mod(
        lagrange_prefix(single, 0),
        mul_mod(single[0].1.val(), mul_mod(lag_num(xs, 0), mod_inv(lag_den(xs, 0)))),
    ));
    assert(lagrange_prefix(single, 1) == add_mod(0, y));
    assert(lagrange_at_zero(single) == secret);
}

/// A zero multiplier never yields a unit.
proof fn lemma_zero_not_inverse(d: nat)
    ensures
        (0nat * d) % scalar_modulus() != 1,
{
    vstd::arithmetic::div_mod::lemma_small_mod(0, scalar_modulus());
}

/// Law: with threshold 2, any two of the shares that `split_secret` laid
/// out reconstruct the secret, given an inverse of the first share's
/// Lagrange denominator. Such an inverse always exists because the group
/// order is prime; reconstruction obtains it from the field library, so
/// this lemma takes it as a witness rather than assuming primality.
pub proof fn lemma_two_shares_reconstruct(
    coeffs: Seq<nat>,
    secret: nat,
    shares: Seq<(u8, Fr)>,
    i: int,
    j: int,
    i0: nat,
)
    requires
        secret < scalar_modulus(),
        shamir_shares_of(coeffs, secret, shares, 2),
        0 <= i < shares.len(),
        0 <= j < shares.len(),
        i != j,
        shares[i].0 == i + 1,
        shares[j].0 == j + 1,
        i0 < scalar_modulus(),
        (i0 * lag_den(share_xs(seq![shares[i], shares[j]]), 0)) % scalar_modulus() == 1,
    ensures
        lagrange_at_zero(seq![shares[i], shares[j]]) == secret,
{
    let q = scalar_modulus();
    let qi = q as int;
    let pair = seq![shares[i], shares[j]];
    let xs = share_xs(pair);
    assert(xs.len() == 2);
    assert(xs[0] == shares[i].0 && xs[1] == shares[j].0);
    let x1 = shares[i].0 as int;
    let x2 = shares[j].0 as int;
    assert(1 <= x1 < 256 && 1 <= x2 < 256 && x1 != x2);

    // Close the folded numerators and denominators.
    assert(lag_num_prefix(xs, 0, 0) == 1 && lag_den_prefix(xs, 0, 0) == 1);
    assert(lag_num_prefix(xs, 0, 1) == 1 && lag_den_prefix(xs, 0, 1) == 1);
    assert(lag_num_prefix(xs, 0, 2) == mul_mod(1, sub_mod(0, x2 as nat)));
    assert(lag_den_prefix(xs, 0, 2) == mul_mod(1, sub_mod(x1 as nat, x2 as nat)));
    assert(lag_num_prefix(xs, 1, 0) == 1 && lag_den_prefix(xs, 1, 0) == 1);
    assert(lag_num_prefix(xs, 1, 1) == mul_mod(1, sub_mod(0, x1 as nat)));
    assert(lag_den_prefix(xs, 1, 1) == mul_mod(1, sub_mod(x2 as nat, x1 as nat)));
    assert(lag_num_prefix(xs, 1, 2) == lag_num_prefix(xs, 1, 1));
    assert(lag_den_prefix(xs, 1, 2) == lag_den_prefix(xs, 1, 1));

    // The positive residues of the differences and negations.
    vstd::arithmetic::div_mod::lemma_mod_bound(x1 + qi - x2, qi);
    vstd::arithmetic::div_mod::lemma_mod_bound(x2 + qi - x1, qi);
    vstd::arithmetic::div_mod::lemma_small_mod((qi - x1) as nat, q);
    vstd::arithmetic::div_mod::lemma_small_mod((qi - x2) as nat, q);
    assert(sub_mod(0, x1 as nat) as int == qi - x1);
    assert(sub_mod(0, x2 as nat) as int == qi - x2);
    let dv0 = sub_mod(x1 as nat, x2 as nat);
    let dv1 = sub_mod(x2 as nat, x1 as nat);
    if x1 > x2 {
        vstd::arithmetic::div_mod::lemma_small_mod((x1 - x2) as nat, q);
        vstd::arithmetic::div_mod::lemma_mod_multiples_vanish(1, x2 - x1 + qi, qi);
        vstd::arithmetic::div_mod::lemma_small_mod((x2 - x1 + qi) as nat, q);
        assert(dv0 as int == x1 - x2);
        assert(dv1 as int == x2 - x1 + qi);
    } else {
        vstd::arithmetic::div_mod::lemma_small_mod((x1 - x2 + qi) as nat, q);
        vstd::arithmetic::div_mod::lemma_small_mod((x2 - x1) as nat, q);
        assert(dv0 as int == x1 - x2 + qi);
        assert(dv1 as int == x2 - x1);
    }
    assert(dv0 as int + dv1 as int == qi);
    assert(dv0 != 0 && dv1 != 0);

    // Close the products with one: a unit factor is no factor.
    vstd::arithmetic::mul::lemma_mul_basics(dv0 as int);
    vstd::arithmetic::mul::lemma_mul_basics(dv1 as int);
    vstd::arithmetic::div_mod::lemma_small_mod(dv0, q);
    vstd::arithmetic::div_mod::lemma_small_mod(dv1, q);
    vstd::arithmetic::div_mod::lemma_small_mod((qi - x1) as nat, q);
    vstd::arithmetic::div_mod::lemma_small_mod((qi - x2) as nat, q);
    vstd::arithmetic::mul::lemma_mul_basics(qi - x1);
    vstd::arithmetic::mul::lemma_mul_basics(qi - x2);
    let n0 = lag_num(xs, 0);
    let n1 = lag_num(xs, 1);
    assert(n0 as int == qi - x2);
    assert(n1 as int == qi - x1);
    assert(lag_den(xs, 0) == dv0);
    assert(lag_den(xs, 1) == dv1);

    // i0 inverts dv0, and q - i0 inverts dv1.
    assert(i0 != 0) by {
        if i0 == 0 {
            lemma_zero_not_inverse(dv0);
        }
    }
    let i1 = (q - i0) as nat;
    assert((i1 * dv1) % q == 1) by {
        let ii = i0 as int;
        let dd = dv0 as int;
        let lhs = (qi - ii) * (qi - dd);
        assert(lhs == qi * (qi - ii - dd) + ii * dd) by (nonlinear_arith)
            requires
                lhs == (qi - ii) * (qi - dd),
        ;
        vstd::arithmetic::div_mod::lemma_mod_multiples_vanish(qi - ii - dd, ii * dd, qi);
        assert(lhs % qi == (ii * dd) % qi);
        assert(dv1 as int == qi - dd);
        assert(i1 as int * dv1 as int == lhs);
    }
    // Both inverse values match the specification's chosen ones.
    lemma_mod_inverse_unique(dv0, i0, mod_inv(dv0));
    lemma_mod_inverse_unique(dv1, i1, mod_inv(dv1));
    assert(mod_inv(lag_den(xs, 0)) == i0);
    assert(mod_inv(lag_den(xs, 1)) == i1);

    // Close the share values: a degree-one polynomial at x1 and x2.
    let a0 = coeffs[0] as int;
    let a1 = coeffs[1] as int;
    assert(xpow(shares[i].0 as nat, 0) == 1);
    assert(xpow(shares[j].0 as nat, 0) == 1);
    vstd::arithmetic::mul::lemma_mul_basics(x1);
    vstd::arithmetic::mul::lemma_mul_basics(x2);
    vstd::arithmetic::div_mod::lemma_small_mod(x1 as nat, q);
    vstd::arithmetic::div_mod::lemma_small_mod(x2 as nat, q);
    assert(xpow(shares[i].0 as nat, 1) as int == x1);
    assert(xpow(shares[j].0 as nat, 1) as int == x2);
    vstd::arithmetic::mul::lemma_mul_basics(a0);
    vstd::arithmetic::div_mod::lemma_small_mod(coeffs[0], q);
    let y1 = shares[i].1.val();
    let y2 = shares[j].1.val();
    assert(y1 == poly_eval(coeffs, (i + 1) as nat));
    assert(y2 == poly_eval(coeffs, (j + 1) as nat));
    assert(poly_eval_prefix(coeffs, (i + 1) as nat, 0) == 0);
    assert(poly_eval_prefix(coeffs, (i + 1) as nat, 1) == add_mod(0, mul_mod(coeffs[0], 1)));
    assert(poly_eval_prefix(coeffs, (i + 1) as nat, 2) == add_mod(
        poly_eval_prefix(coeffs, (i + 1) as nat, 1),
        mul_mod(coeffs[1], xpow((i + 1) as nat, 1)),
    ));
    assert(poly_eval_prefix(coeffs, (j + 1) as nat, 0) == 0);
    assert(poly_eval_prefix(coeffs, (j + 1) as nat, 1) == add_mod(0, mul_mod(coeffs[0], 1)));
    assert(poly_eval_prefix(coeffs, (j + 1) as nat, 2) == add_mod(
        poly_eval_prefix(coeffs, (j + 1) as nat, 1),
        mul_mod(coeffs[1], xpow((j + 1) as nat, 1)),
    ));
    assert(y1 as int == (a0 + (a1 * x1) % qi) % qi);
    assert(y2 as int == (a0 + (a1 * x2) % qi) % qi);
    // Congruent plain forms of the share values.
    let p = a0 + a1 * x1;
    let sv = a0 + a1 * x2;
    vstd::arithmetic::div_mod::lemma_add_mod_noop(a0, a1 * x1, qi);
    vstd::arithmetic::div_mod::lemma_add_mod_noop(a0, a1 * x2, qi);
    vstd::arithmetic::div_mod::lemma_mod_twice(a1 * x1, qi);
    vstd::arithmetic::div_mod::lemma_mod_twice(a1 * x2, qi);
    assert(y1 as int == p % qi);
    assert(y2 as int == sv % qi);

    // The interpolation folds to (T1 + T2) % q.
    let t1 = mul_mod(y1, mul_mod(n0, i0));
    let t2 = mul_mod(y2, mul_mod(n1, i1));
    assert(lagrange_prefix(pair, 0) == 0);
    assert(lagrange_prefix(pair, 1) == add_mod(0, t1));
    assert(lagrange_prefix(pair, 2) == add_mod(add_mod(0, t1), t2));
    vstd::arithmetic::div_mod::lemma_mod_bound(t1 as int, qi);
    vstd::arithmetic::div_mod::lemma_small_mod(t1, q);
    assert(add_mod(0, t1) == t1);
    assert(lagrange_at_zero(pair) == (t1 + t2) % q);

    // Un-mod the two summands.
    vstd::arithmetic::div_mod::lemma_mul_mod_noop_general(y1 as int, n0 as int * i0 as int, qi);
    vstd::arithmetic::div_mod::lemma_mul_mod_noop_general(y2 as int, n1 as int * i1 as int, qi);
    vstd::arithmetic::div_mod::lemma_mul_mod_noop_general(p, n0 as int * i0 as int, qi);
    vstd::arithmetic::div_mod::lemma_mul_mod_noop_general(sv, n1 as int * i1 as int, qi);
    assert(t1 as int == (p * (n0 as int * i0 as int)) % qi);
    assert(t2 as int == (sv * (n1 as int * i1 as int)) % qi);
    vstd::arithmetic::div_mod::lemma_add_mod_noop(
        p * (n0 as int * i0 as int),
        sv * (n1 as int * i1 as int),
        qi,
    );
    vstd::arithmetic::div_mod::lemma_mod_twice(p * (n0 as int * i0 as int), qi);
    vstd::arithmetic::div_mod::lemma_mod_twice(sv * (n1 as int * i1 as int), qi);
    let total = p * ((qi - x2) * i0 as int) + sv * ((qi - x1) * (qi - i0 as int));
    assert(lagrange_at_zero(pair) as int == total % qi);

    // The whole sum is a multiple of q next to i0 * a0 * (x1 - x2).
    let ii = i0 as int;
    let k = p * ii + sv * (qi - x1 - ii);
    let t_a = p * ((qi - x2) * ii);
    let t_b = sv * ((qi - x1) * (qi - ii));
    assert(total == t_a + t_b);
    assert(t_a == qi * (p * ii) - p * x2 * ii) by (nonlinear_arith)
        requires
            t_a == p * ((qi - x2) * ii),
    ;
    assert(t_b == qi * (sv * (qi - x1 - ii)) + sv * x1 * ii) by (nonlinear_arith)
        requires
            t_b == sv * ((qi - x1) * (qi - ii)),
    ;
    assert(qi * k == qi * (p * ii) + qi * (sv * (qi - x1 - ii))) by (nonlinear_arith)
        requires
            k == p * ii + sv * (qi - x1 - ii),
    ;
    assert(sv * x1 - p * x2 == a0 * (x1 - x2)) by (nonlinear_arith)
        requires
            p == a0 + a1 * x1,
            sv == a0 + a1 * x2,
    ;
    assert(ii * (a0 * (x1 - x2)) == sv * x1 * ii - p * x2 * ii) by (nonlinear_arith)
        requires
            sv * x1 - p * x2 == a0 * (x1 - x2),
    ;
    assert(total == qi * k + ii * (a0 * (x1 - x2)));
    vstd::arithmetic::div_mod::lemma_mod_multiples_vanish(k, ii * (a0 * (x1 - x2)), qi);
    assert(total % qi == (ii * (a0 * (x1 - x2))) % qi);

    // Replace the difference with its residue and cancel the inverse.
    let c: int = if x1 > x2 { 0 } else { 1 };
    assert(x1 - x2 == dv0 as int - qi * c);
    assert(ii * (a0 * (x1 - x2)) == qi * (-(ii * a0 * c)) + a0 * (ii * dv0 as int))
        by (nonlinear_arith)
        requires
            x1 - x2 == dv0 as int - qi * c,
    ;
    vstd::arithmetic::div_mod::lemma_mod_multiples_vanish(
        -(ii * a0 * c),
        a0 * (ii * dv0 as int),
        qi,
    );
    vstd::arithmetic::div_mod::lemma_mul_mod_noop_right(a0, ii * dv0 as int, qi);
    vstd::arithmetic::mul::lemma_mul_basics(a0);
    vstd::arithmetic::div_mod::lemma_small_mod(secret, q);
    assert(total % qi == a0 % qi);
    assert(lagrange_at_zero(pair) == secret);
}

/// Splits a 32-byte canonical secret into `total` 33-byte shares
/// (`index || value`) needing `threshold` of them to reconstruct.
pub fn split_secret_safe(secret: Vec<u8>, threshold: u8, total: u8) -> (r: Result<
    Vec<Vec<u8>>,
    VerifyError,
>)
    ensures
        r is Err <==> (secret@.len() != 32 || le_val(secret@) >= scalar_modulus()),
        r == Err::<Vec<Vec<u8>>, VerifyError>(VerifyError::InvalidKey) <==> r is Err,
        r matches Ok(out) ==> {
            &&& out@.len() == total as int
            &&& forall|i: int|
                0 <= i < out@.len() ==> (#[trigger] out@[i])@.len() == 33 && out@[i]@[0] == i + 1
            &&& exists|coeffs: Seq<nat>, shares: Seq<(u8, Fr)>|
                #[trigger] shamir_shares_of(coeffs, le_val(secret@), shares, threshold as int)
                    && shares.len() == total as int && forall|i: int|
                    0 <= i < out@.len() ==> le_val((#[trigger] out@[i])@.subrange(1, 33))
                        == shares[i].1.val()
        },
{
    if secret.len() != 32 {
        return Err(VerifyError::InvalidKey);
    }
    let scalar = match Fr::from_bytes(secret.as_slice()) {
        Some(s) => s,
        None => { return Err(VerifyError::InvalidKey) },
    };
    let shares = split_secret(&scalar, total, threshold);
    let mut out: Vec<Vec<u8>> = Vec::new();
    let mut i: usize = 0;
    while i < shares.len()
        invariant
            shares@.len() == total as int,
            forall|t: int| 0 <= t < shares@.len() ==> (#[trigger] shares@[t]).0 == t + 1,
            forall|t: int| 0 <= t < shares@.len() ==> (#[trigger] shares@[t]).1.wf(),
            i <= shares@.len(),
            out@.len() == i,
            forall|t: int|
                0 <= t < i ==> (#[trigger] out@[t])@.len() == 33 && out@[t]@[0] == t + 1 && out@[t]@.subrange(
                    1,
                    33,
                ) == shares@[t].1@,
        decreases shares@.len() - i,
    {
        let mut share_bytes: Vec<u8> = Vec::new();
        share_bytes.push(shares[i].0);
        let vb = shares[i].1.to_bytes();
        extend_bytes(&mut share_bytes, vb.as_slice());
        proof {
            assert(share_bytes@.subrange(1, 33) =~= shares@[i as int].1@);
        }
        out.push(share_bytes);
        i = i + 1;
    }
    proof {
        let ghost_shares = shares@;
        let coeffs = choose|coeffs: Seq<nat>|
            #[trigger] shamir_shares_of(coeffs, scalar.val(), shares@, threshold as int);
        assert(shamir_shares_of(coeffs, le_val(secret@), ghost_shares, threshold as int)
            && ghost_shares.len() == total as int && forall|i: int|
            0 <= i < out@.len() ==> le_val((#[trigger] out@[i])@.subrange(1, 33))
                == ghost_shares[i].1.val());
    }
    Ok(out)
}

/// Parses 33-byte shares and reconstructs the 32-byte secret.
/// The share list parsed from the wire form: each element's index byte
/// and scalar-value bytes.
pub open spec fn parsed_wire_shares(shares: Seq<Vec<u8>>, parsed: Seq<(u8, Fr)>) -> bool {
    &&& parsed.len() == shares.len()
    &&& forall|i: int|
        0 <= i < parsed.len() ==> (#[trigger] parsed[i]).0 == shares[i]@[0] && parsed[i].1.wf()
            && parsed[i].1@ == shares[i]@.subrange(1, 33)
}

/// Parses 33-byte shares (`index || value`) and reconstructs the 32-byte
/// secret: the result is the canonical encoding of the Lagrange
/// interpolation of the parsed shares at zero, and reconstruction fails
/// exactly on an empty or degenerate list.
pub fn reconstruct_secret_safe(shares: Vec<Vec<u8>>) -> (r: Result<Vec<u8>, VerifyError>)
    ensures
        r == Err::<Vec<u8>, VerifyError>(VerifyError::InvalidKey) <==> (exists|i: int|
            0 <= i < shares@.len() && ((#[trigger] shares@[i])@.len() != 33 || le_val(
                shares@[i]@.subrange(1, 33),
            ) >= scalar_modulus())),
        r is Err ==> (r == Err::<Vec<u8>, VerifyError>(VerifyError::InvalidKey) || r == Err::<
            Vec<u8>,
            VerifyError,
        >(VerifyError::CryptoError)),
        !(r == Err::<Vec<u8>, VerifyError>(VerifyError::InvalidKey)) ==> exists|
            parsed: Seq<(u8, Fr)>,
        |
            {
                &&& #[trigger] parsed_wire_shares(shares@, parsed)
                &&& (r == Err::<Vec<u8>, VerifyError>(VerifyError::CryptoError) <==> (parsed.len()
                    == 0 || degenerate_shares(parsed)))
                &&& (r matches Ok(out) ==> out@.len() == 32 && le_val(out@) == lagrange_at_zero(
                    parsed,
                ))
            },
{
    let mut parsed: Vec<(u8, Fr)> = Vec::new();
    let mut i: usize = 0;
    while i < shares.len()
        invariant
            i <= shares@.len(),
            parsed@.len() == i,
            forall|t: int|
                0 <= t < i ==> (#[trigger] shares@[t])@.len() == 33 && le_val(
                    shares@[t]@.subrange(1, 33),
                ) < scalar_modulus(),
            forall|t: int|
                0 <= t < i ==> (#[trigger] parsed@[t]).0 == shares@[t]@[0] && parsed@[t].1.wf()
                    && parsed@[t].1@ == shares@[t]@.subrange(1, 33),
        decreases shares@.len() - i,
    {
        let share = &shares[i];
        if share.len() != 33 {
            return Err(VerifyError::InvalidKey);
        }
        let idx = share[0];
        let sb = vstd::slice::slice_subrange(share.as_slice(), 1, 33);
        match Fr::from_bytes(sb) {
            Some(v) => {
                parsed.push((idx, v));
            },
            None => {
                return Err(VerifyError::InvalidKey);
            },
        }
        i = i + 1;
    }
    proof {
        assert(parsed_wire_shares(shares@, parsed@));
    }
    let secret = match reconstruct_secret(&parsed) {
        Ok(s) => s,
        Err(_) => {
            return Err(VerifyError::CryptoError);
        },
    };
    let sb = secret.to_bytes();
    let out = vstd::slice::slice_to_vec(sb.as_slice());
    proof {
        assert(le_val(out@) == lagrange_at_zero(parsed@));
    }
    Ok(out)
}

} // verus!
