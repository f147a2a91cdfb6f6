//! Facts about arithmetic in the scalar field.

use vstd::prelude::*;

use crate::group::mul_mod;
use crate::group::pow_mod;
use crate::group::scalar_field_order;

verus! {


/// `mul_mod` is below the field order.
pub proof fn lemma_mul_mod_bound(a: nat, b: nat)
    ensures
        mul_mod(a, b) < scalar_field_order(),
{
    vstd::arithmetic::div_mod::lemma_mod_bound((a * b) as int, scalar_field_order() as int);
}

/// `mul_mod` is commutative.
pub proof fn lemma_mul_mod_comm(a: nat, b: nat)
    ensures
        mul_mod(a, b) == mul_mod(b, a),
{
    assert(a * b == b * a) by (nonlinear_arith);
}

/// Reducing either factor modulo the order does not change the product.
pub proof fn lemma_mul_mod_noop(a: nat, b: nat)
    ensures
        mul_mod(a % scalar_field_order(), b) == mul_mod(a, b),
        mul_mod(a, b % scalar_field_order()) == mul_mod(a, b),
{
    let m = scalar_field_order() as int;
    vstd::arithmetic::div_mod::lemma_mul_mod_noop_general(a as int, b as int, m);
}

/// `mul_mod` is associative.
pub proof fn lemma_mul_mod_assoc(a: nat, b: nat, c: nat)
    ensures
        mul_mod(mul_mod(a, b), c) == mul_mod(a, mul_mod(b, c)),
{
    let m = scalar_field_order() as int;
    vstd::arithmetic::div_mod::lemma_mul_mod_noop_general((a * b) as int, c as int, m);
    vstd::arithmetic::div_mod::lemma_mul_mod_noop_general(a as int, (b * c) as int, m);
    assert((a * b) * c == a * (b * c)) by (nonlinear_arith);
}

/// `mul_mod(1, x) == x` for `x` below the field order.
pub proof fn lemma_mul_mod_one_left(x: nat)
    requires
        x < scalar_field_order(),
    ensures
        mul_mod(1, x) == x,
{
    assert(1 * x == x) by (nonlinear_arith);
    vstd::arithmetic::div_mod::lemma_small_mod(x, scalar_field_order());
}

/// `mul_mod(x, 1) == x` for `x` below the field order.
pub proof fn lemma_mul_mod_one_right(x: nat)
    requires
        x < scalar_field_order(),
    ensures
        mul_mod(x, 1) == x,
{
    lemma_mul_mod_comm(x, 1);
    lemma_mul_mod_one_left(x);
}

/// `b^(e+1) == b^e * b`.
pub proof fn lemma_pow_mod_step(b: nat, e: nat)
    ensures
        pow_mod(b, e + 1) == mul_mod(pow_mod(b, e), b),
{
    lemma_mul_mod_comm(b, pow_mod(b, e));
}


/// `x` is a unit of the scalar field: nonzero and invertible.  Because the
/// order is prime the two are equivalent, but the engine only ever needs the
/// invertible direction, which stays inside ordinary modular arithmetic.
pub open spec fn is_unit(x: nat) -> bool {
    &&& 0 < x < scalar_field_order()
    &&& exists|inv: nat| #[trigger] mul_mod(x, inv) == 1
}

/// One is a unit.
pub proof fn lemma_unit_one()
    ensures
        is_unit(1),
{
    vstd::arithmetic::div_mod::lemma_small_mod(1, scalar_field_order());
    assert(1 * 1 == 1) by (nonlinear_arith);
    assert(mul_mod(1, 1nat) == 1);
}

/// A product of units is a unit; in particular it is nonzero.
pub proof fn lemma_unit_mul(a: nat, b: nat)
    requires
        is_unit(a),
        is_unit(b),
    ensures
        is_unit(mul_mod(a, b)),
{
    let ainv = choose|ainv: nat| #[trigger] mul_mod(a, ainv) == 1;
    let binv = choose|binv: nat| #[trigger] mul_mod(b, binv) == 1;
    let cinv = mul_mod(ainv, binv);
    // (a*b) * (ainv*binv) == ((a*ainv) * b) * binv == 1 (mod r)
    lemma_mul_mod_assoc(mul_mod(a, b), ainv, binv);
    lemma_mul_mod_assoc(a, b, ainv);
    lemma_mul_mod_comm(b, ainv);
    lemma_mul_mod_assoc(a, ainv, b);
    lemma_mul_mod_noop(mul_mod(a, ainv), b);
    lemma_mul_mod_one_left(b);
    lemma_mul_mod_noop(b, binv);
    assert(mul_mod(mul_mod(mul_mod(a, b), ainv), binv) == 1);
    assert(mul_mod(mul_mod(a, b), cinv) == 1);
    lemma_mul_mod_bound(a, b);
    if mul_mod(a, b) == 0 {
        assert(0 * cinv == 0) by (nonlinear_arith);
        vstd::arithmetic::div_mod::lemma_small_mod(0, scalar_field_order());
        assert(mul_mod(0, cinv) == 0);
    }
}

/// A power of a unit is a unit.
pub proof fn lemma_unit_pow(b: nat, e: nat)
    requires
        is_unit(b),
    ensures
        is_unit(pow_mod(b, e)),
    decreases e,
{
    if e == 0 {
        lemma_unit_one();
    } else {
        lemma_unit_pow(b, (e - 1) as nat);
        lemma_unit_mul(b, pow_mod(b, (e - 1) as nat));
    }
}

/// Swapping the middle factors of a four-way product.
pub proof fn lemma_mul_mod_rearrange(a: nat, b: nat, c: nat, d: nat)
    ensures
        mul_mod(mul_mod(a, b), mul_mod(c, d)) == mul_mod(mul_mod(a, c), mul_mod(b, d)),
{
    // Both sides equal a*b*c*d reduced once.
    lemma_mul_mod_assoc(mul_mod(a, b), c, d);
    lemma_mul_mod_assoc(a, b, c);
    lemma_mul_mod_comm(b, c);
    lemma_mul_mod_assoc(a, c, b);
    lemma_mul_mod_assoc(mul_mod(a, c), b, d);
}

/// `(a*b)^e == a^e * b^e`.
pub proof fn lemma_pow_mod_mul(a: nat, b: nat, e: nat)
    ensures
        pow_mod(mul_mod(a, b), e) == mul_mod(pow_mod(a, e), pow_mod(b, e)),
    decreases e,
{
    if e == 0 {
        lemma_unit_like_one();
    } else {
        let e1 = (e - 1) as nat;
        lemma_pow_mod_mul(a, b, e1);
        // (ab)^e = (ab) * (ab)^(e-1) = (ab) * (a^(e-1) b^(e-1))
        //        = (a * a^(e-1)) * (b * b^(e-1)) = a^e * b^e
        lemma_mul_mod_noop_left_arg(a, b, e1);
        lemma_mul_mod_rearrange(a, b, pow_mod(a, e1), pow_mod(b, e1));
    }
}

/// `mul_mod(1, 1) == 1`.
pub proof fn lemma_unit_like_one()
    ensures
        mul_mod(1, 1nat) == 1,
{
    assert(1 * 1nat == 1) by (nonlinear_arith);
    vstd::arithmetic::div_mod::lemma_small_mod(1, scalar_field_order());
}

/// Multiplying by a reduced product equals multiplying by the raw product.
proof fn lemma_mul_mod_noop_left_arg(a: nat, b: nat, e1: nat)
    ensures
        pow_mod(mul_mod(a, b), e1 + 1) == mul_mod(mul_mod(a, b), pow_mod(mul_mod(a, b), e1)),
{
}

/// `1^e == 1`.
pub proof fn lemma_pow_mod_one(e: nat)
    ensures
        pow_mod(1, e) == 1,
    decreases e,
{
    if e == 0 {
    } else {
        lemma_pow_mod_one((e - 1) as nat);
        lemma_unit_like_one();
    }
}

} // verus!
