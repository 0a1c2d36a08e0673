//! Arithmetic in the Goldilocks prime field, on canonical `u64` representatives.
use vstd::prelude::*;

verus! {

/// The Goldilocks prime, 2^64 - 2^32 + 1.
pub const ORDER: u64 = 0xFFFF_FFFF_0000_0001;

/// `p - 1`, the largest canonical element.
pub const NEG_ONE: u64 = 0xFFFF_FFFF_0000_0000;

pub open spec fn p() -> int {
    ORDER as int
}

/// A canonical field element.
pub open spec fn is_canonical(a: u64) -> bool {
    a < ORDER
}

pub open spec fn add_spec(a: int, b: int) -> int {
    (a + b) % p()
}

pub open spec fn sub_spec(a: int, b: int) -> int {
    (a - b) % p()
}

pub open spec fn mul_spec(a: int, b: int) -> int {
    (a * b) % p()
}

pub open spec fn neg_spec(a: int) -> int {
    (-a) % p()
}

/// Field addition.
pub fn field_add(a: u64, b: u64) -> (r: u64)
    requires
        a < ORDER,
        b < ORDER,
    ensures
        r == add_spec(a as int, b as int),
        r < ORDER,
{
    let s: u128 = a as u128 + b as u128;
    (s % (ORDER as u128)) as u64
}

/// Field subtraction.
pub fn field_sub(a: u64, b: u64) -> (r: u64)
    requires
        a < ORDER,
        b < ORDER,
    ensures
        r == sub_spec(a as int, b as int),
        r < ORDER,
{
    if a >= b {
        let r = a - b;
        assert((a - b) % p() == a - b) by {
            vstd::arithmetic::div_mod::lemma_small_mod((a - b) as nat, p() as nat);
        }
        r
    } else {
        let r = ORDER - (b - a);
        assert((a - b) % p() == p() + (a - b)) by {
            vstd::arithmetic::div_mod::lemma_mod_add_multiples_vanish((a - b) as int, p());
            vstd::arithmetic::div_mod::lemma_small_mod((p() + (a - b)) as nat, p() as nat);
        }
        r
    }
}

/// Field negation.
pub fn field_neg(a: u64) -> (r: u64)
    requires
        a < ORDER,
    ensures
        r == neg_spec(a as int),
        r < ORDER,
{
    field_sub(0, a)
}

/// Field multiplication.
pub fn field_mul(a: u64, b: u64) -> (r: u64)
    requires
        a < ORDER,
        b < ORDER,
    ensures
        r == mul_spec(a as int, b as int),
        r < ORDER,
{
    assert((a as int) * (b as int) < 0x1_0000_0000_0000_0000_0000_0000_0000_0000int) by (nonlinear_arith)
        requires
            a < 0x1_0000_0000_0000_0000int,
            b < 0x1_0000_0000_0000_0000int,
    ;
    assert(0 <= (a as int) * (b as int)) by (nonlinear_arith);
    let m: u128 = (a as u128) * (b as u128);
    (m % (ORDER as u128)) as u64
}

/// Reduces any `u64` to its canonical representative.
pub fn from_noncanonical_u64(a: u64) -> (r: u64)
    ensures
        r == (a as int) % p(),
        r < ORDER,
{
    if a >= ORDER {
        proof {
            vstd::arithmetic::div_mod::lemma_fundamental_div_mod_converse(a as int, p(), 1, a - p());
        }
        a - ORDER
    } else {
        proof {
            vstd::arithmetic::div_mod::lemma_small_mod(a as nat, p() as nat);
        }
        a
    }
}

/// Whether `y` is a multiplicative inverse of `x`.
pub open spec fn is_inverse(x: int, y: int) -> bool {
    (x * y) % p() == 1
}

proof fn lemma_coeff_step(sa: int, sb: int, q: int)
    ensures
        ((sa % p()) - ((q % p()) * (sb % p())) % p()) % p() == (sa - q * sb) % p(),
{
    vstd::arithmetic::div_mod::lemma_mul_mod_noop(q, sb, p());
    vstd::arithmetic::div_mod::lemma_sub_mod_noop(sa, q * sb, p());
}

proof fn lemma_no_inverse(x: int, g: int, u1: int, u2: int)
    requires
        g >= 2,
        x == u1 * g,
        p() == u2 * g,
    ensures
        forall|y: int| !is_inverse(x, y),
{
    assert forall|y: int| !is_inverse(x, y) by {
        if is_inverse(x, y) {
            let k = (x * y) / p();
            vstd::arithmetic::div_mod::lemma_fundamental_div_mod(x * y, p());
            assert(x * y == p() * k + 1);
            let m = u1 * y - k * u2;
            assert(g * m == 1) by (nonlinear_arith)
                requires
                    x == u1 * g,
                    p() == u2 * g,
                    x * y == p() * k + 1,
                    m == u1 * y - k * u2,
            ;
            assert(false) by (nonlinear_arith)
                requires
                    g >= 2,
                    g * m == 1,
            ;
        }
    }
}

/// The multiplicative inverse of `x`, found with the extended Euclidean algorithm;
/// `None` exactly when `x` has none.
pub fn field_inverse(x: u64) -> (r: Option<u64>)
    requires
        x < ORDER,
    ensures
        r matches Some(y) ==> y < ORDER && is_inverse(x as int, y as int),
        r is None ==> forall|y: int| !is_inverse(x as int, y),
{
    let mut a: u64 = ORDER;
    let mut b: u64 = x;
    let mut ca: u64 = 0;
    let mut cb: u64 = 1;
    // a == sa * x + ta * p and b == sb * x + tb * p, with ca, cb the coefficients mod p;
    // x == u1 * a + v1 * b and p == u2 * a + v2 * b.
    let ghost mut sa: int = 0;
    let ghost mut ta: int = 1;
    let ghost mut sb: int = 1;
    let ghost mut tb: int = 0;
    let ghost mut u1: int = 0;
    let ghost mut v1: int = 1;
    let ghost mut u2: int = 1;
    let ghost mut v2: int = 0;
    proof {
        vstd::arithmetic::div_mod::lemma_small_mod(1, p() as nat);
    }
    while b != 0
        invariant
            a > 0,
            a <= ORDER,
            b < ORDER,
            ca < ORDER,
            cb < ORDER,
            a == sa * x + ta * p(),
            b == sb * x + tb * p(),
            ca == sa % p(),
            cb == sb % p(),
            x == u1 * a + v1 * b,
            p() == u2 * a + v2 * b,
        decreases b,
    {
        let q = a / b;
        let rem = a % b;
        let qc = from_noncanonical_u64(q);
        let prod = field_mul(qc, cb);
        let nc = field_sub(ca, prod);
        proof {
            lemma_coeff_step(sa, sb, q as int);
            vstd::arithmetic::div_mod::lemma_fundamental_div_mod(a as int, b as int);
            assert(a == b * q + rem);
            let nsb = sa - q * sb;
            let ntb = ta - q * tb;
            assert(rem == nsb * x + ntb * p()) by (nonlinear_arith)
                requires
                    a == sa * x + ta * p(),
                    b == sb * x + tb * p(),
                    a == b * q + rem,
                    nsb == sa - q * sb,
                    ntb == ta - q * tb,
            ;
            let nu1 = u1 * q + v1;
            let nu2 = u2 * q + v2;
            assert(x == nu1 * b + u1 * rem) by (nonlinear_arith)
                requires
                    x == u1 * a + v1 * b,
                    a == b * q + rem,
                    nu1 == u1 * q + v1,
            ;
            assert(p() == nu2 * b + u2 * rem) by (nonlinear_arith)
                requires
                    p() == u2 * a + v2 * b,
                    a == b * q + rem,
                    nu2 == u2 * q + v2,
            ;
            sa = sb;
            ta = tb;
            sb = nsb;
            tb = ntb;
            v1 = u1;
            u1 = nu1;
            v2 = u2;
            u2 = nu2;
        }
        a = b;
        b = rem;
        ca = cb;
        cb = nc;
    }
    if a == 1 {
        proof {
            assert(x * sa == 1 - ta * p()) by (nonlinear_arith)
                requires
                    1 == sa * x + ta * p(),
            ;
            vstd::arithmetic::div_mod::lemma_mul_mod_noop_right(x as int, sa, p());
            vstd::arithmetic::div_mod::lemma_mod_multiples_vanish(-ta, 1, p());
            assert(p() * (-ta) + 1 == 1 - ta * p()) by (nonlinear_arith);
        }
        Some(ca)
    } else {
        proof {
            assert(x == u1 * a) by (nonlinear_arith)
                requires
                    x == u1 * a + v1 * b,
                    b == 0,
            ;
            assert(p() == u2 * a) by (nonlinear_arith)
                requires
                    p() == u2 * a + v2 * b,
                    b == 0,
            ;
            lemma_no_inverse(x as int, a as int, u1, u2);
        }
        None
    }
}

/// The inverse of `x` in `[0, p)`, when there is one.
pub open spec fn inverse_spec(x: int) -> Option<u64> {
    if exists|y: u64| y < ORDER && is_inverse(x, y as int) {
        Some(choose|y: u64| y < ORDER && is_inverse(x, y as int))
    } else {
        None
    }
}

/// An element has at most one inverse in `[0, p)`.
pub proof fn lemma_inverse_unique(x: int, y: int, z: int)
    requires
        0 <= y < p(),
        0 <= z < p(),
        is_inverse(x, y),
        is_inverse(x, z),
    ensures
        y == z,
{
    // y == y * (x * z) == (y * x) * z == z, all mod p
    vstd::arithmetic::div_mod::lemma_mul_mod_noop_right(y, x * z, p());
    vstd::arithmetic::div_mod::lemma_mul_mod_noop_left(y * x, z, p());
    assert(y * (x * z) == (y * x) * z) by (nonlinear_arith);
    assert(y * x == x * y) by (nonlinear_arith);
    vstd::arithmetic::div_mod::lemma_small_mod(y as nat, p() as nat);
    vstd::arithmetic::div_mod::lemma_small_mod(z as nat, p() as nat);
    assert(y * 1 == y);
    assert(1 * z == z);
}

/// The inverse of a nonzero canonical element, or `None` when it has none.
pub fn checked_inverse(x: u64) -> (r: Option<u64>)
    requires
        x < ORDER,
    ensures
        r == inverse_spec(x as int),
{
    let r = field_inverse(x);
    match r {
        Some(y) => {
            proof {
                let c = choose|c: u64| c < ORDER && is_inverse(x as int, c as int);
                lemma_inverse_unique(x as int, y as int, c as int);
            }
            r
        },
        None => {
            assert(!(exists|y: u64| y < ORDER && is_inverse(x as int, y as int)));
            r
        },
    }
}

} // verus!
