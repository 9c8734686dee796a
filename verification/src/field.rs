use vstd::prelude::*;

verus! {

/// The Goldilocks prime, `2^64 - 2^32 + 1`. Every wire value lies in `[0, P)`.
pub const P: u64 = 0xFFFF_FFFF_0000_0001;

/// Field addition, on canonical representatives.
pub open spec fn f_add(a: int, b: int) -> int {
    if a + b >= P { a + b - P } else { a + b }
}

/// Field subtraction, on canonical representatives.
pub open spec fn f_sub(a: int, b: int) -> int {
    if a - b < 0 { a - b + P } else { a - b }
}

/// Field negation, on canonical representatives.
pub open spec fn f_neg(a: int) -> int {
    if a == 0 { 0 } else { P - a }
}

/// Field multiplication, on canonical representatives.
pub open spec fn f_mul(a: int, b: int) -> int {
    (a * b) % (P as int)
}

/// Adds two field elements.
pub fn field_add(a: u64, b: u64) -> (r: u64)
    requires
        a < P,
        b < P,
    ensures
        r == f_add(a as int, b as int),
        r < P,
{
    let s: u128 = a as u128 + b as u128;
    if s >= P as u128 {
        (s - P as u128) as u64
    } else {
        s as u64
    }
}

/// Subtracts two field elements.
pub fn field_sub(a: u64, b: u64) -> (r: u64)
    requires
        a < P,
        b < P,
    ensures
        r == f_sub(a as int, b as int),
        r < P,
{
    if a >= b {
        a - b
    } else {
        a + (P - b)
    }
}

/// Negates a field element.
pub fn field_neg(a: u64) -> (r: u64)
    requires
        a < P,
    ensures
        r == f_neg(a as int),
        r < P,
{
    if a == 0 { 0 } else { P - a }
}

/// Field exponentiation by squaring, on canonical representatives.
pub open spec fn f_pow(b: int, e: nat) -> int
    decreases e,
{
    if e == 0 {
        1
    } else if e % 2 == 1 {
        f_mul(f_pow(f_mul(b, b), (e / 2) as nat), b)
    } else {
        f_pow(f_mul(b, b), (e / 2) as nat)
    }
}

/// The multiplicative inverse of a nonzero field element, by Fermat's little
/// theorem: `x^(P-2) * x == x^(P-1) == 1` for `x != 0` in a prime field.
pub open spec fn f_inv(b: int) -> int {
    f_pow(b, (P - 2) as nat)
}

/// Multiplies two field elements.
pub fn field_mul(a: u64, b: u64) -> (r: u64)
    requires
        a < P,
        b < P,
    ensures
        r == f_mul(a as int, b as int),
        r < P,
{
    proof {
        assert((a as int) * (b as int) < (P as int) * (P as int)) by (nonlinear_arith)
            requires
                a < P,
                b < P,
        ;
        vstd::arithmetic::div_mod::lemma_mod_bound((a as int) * (b as int), P as int);
    }
    let p: u128 = (a as u128 * b as u128) % (P as u128);
    p as u64
}

/// Raises a field element to a power, by squaring.
pub fn field_pow(b: u64, e: u64) -> (r: u64)
    requires
        b < P,
    ensures
        r == f_pow(b as int, e as nat),
        r < P,
    decreases e,
{
    if e == 0 {
        1
    } else {
        let bb = field_mul(b, b);
        let h = field_pow(bb, e / 2);
        if e % 2 == 1 {
            field_mul(h, b)
        } else {
            h
        }
    }
}

/// Computes the multiplicative inverse of a nonzero field element.
pub fn field_inv(b: u64) -> (r: u64)
    requires
        b < P,
    ensures
        r == f_inv(b as int),
        r < P,
{
    field_pow(b, P - 2)
}

/// `f_pow` stays in the canonical range.
pub proof fn lemma_f_pow_bounded(b: int, e: nat)
    requires
        0 <= b < P,
    ensures
        0 <= f_pow(b, e) < P,
    decreases e,
{
    if e != 0 {
        lemma_f_pow_bounded(f_mul(b, b), (e / 2) as nat);
    }
}

} // verus!
