use vstd::arithmetic::div_mod::{
    lemma_mod_add_multiples_vanish, lemma_mod_bound, lemma_mod_multiples_vanish, lemma_small_mod,
    lemma_sub_mod_noop, lemma_mul_mod_noop_left, lemma_add_mod_noop,
};
use vstd::prelude::*;

verus! {

/// The Mersenne prime `2^61 - 1`, the modulus of the base field.
pub const FIELD_MOD: u64 = 0x1FFFFFFFFFFFFFFF;

/// An element of the quadratic extension of the prime field modulo
/// `2^61 - 1`, stored as `real + image * i` with `i * i == -1`.
/// Both components are kept reduced, below the modulus.
#[derive(Clone, Copy, Debug, PartialEq, Eq, Structural)]
pub struct Mersenne61Ext {
    pub real: u64,
    pub image: u64,
}

pub open spec fn f_wf(a: Mersenne61Ext) -> bool {
    a.real < FIELD_MOD && a.image < FIELD_MOD
}

pub open spec fn f_zero() -> Mersenne61Ext {
    Mersenne61Ext { real: 0, image: 0 }
}

pub open spec fn f_one() -> Mersenne61Ext {
    Mersenne61Ext { real: 1, image: 0 }
}

/// The fixed generator of the order-`2^62` subgroup.
pub open spec fn f_root_of_unity() -> Mersenne61Ext {
    Mersenne61Ext { real: 2147483648, image: 1033321771269002680 }
}

pub open spec fn f_add(a: Mersenne61Ext, b: Mersenne61Ext) -> Mersenne61Ext {
    Mersenne61Ext {
        real: (((a.real + b.real) as int) % (FIELD_MOD as int)) as u64,
        image: (((a.image + b.image) as int) % (FIELD_MOD as int)) as u64,
    }
}

pub open spec fn f_neg(a: Mersenne61Ext) -> Mersenne61Ext {
    Mersenne61Ext {
        real: (((FIELD_MOD - a.real) as int) % (FIELD_MOD as int)) as u64,
        image: (((FIELD_MOD - a.image) as int) % (FIELD_MOD as int)) as u64,
    }
}

pub open spec fn f_sub(a: Mersenne61Ext, b: Mersenne61Ext) -> Mersenne61Ext {
    f_add(a, f_neg(b))
}

/// Real part of the product before reduction: `(a.r + a.i·i)(b.r + b.i·i)`
/// has real part `a.r·b.r - a.i·b.i` since `i·i == -1`.
pub open spec fn mul_raw_real(a: Mersenne61Ext, b: Mersenne61Ext) -> int {
    a.real * b.real - a.image * b.image
}

/// Imaginary part of the product before reduction.
pub open spec fn mul_raw_image(a: Mersenne61Ext, b: Mersenne61Ext) -> int {
    a.real * b.image + a.image * b.real
}

pub open spec fn f_mul(a: Mersenne61Ext, b: Mersenne61Ext) -> Mersenne61Ext {
    Mersenne61Ext {
        real: (mul_raw_real(a, b) % (FIELD_MOD as int)) as u64,
        image: (mul_raw_image(a, b) % (FIELD_MOD as int)) as u64,
    }
}

pub open spec fn f_pow(a: Mersenne61Ext, e: nat) -> Mersenne61Ext
    decreases e,
{
    if e == 0 {
        f_one()
    } else {
        f_mul(a, f_pow(a, (e - 1) as nat))
    }
}

pub proof fn lemma_f_mul_wf(a: Mersenne61Ext, b: Mersenne61Ext)
    ensures
        f_wf(f_mul(a, b)),
{
    lemma_mod_bound(mul_raw_real(a, b), FIELD_MOD as int);
    lemma_mod_bound(mul_raw_image(a, b), FIELD_MOD as int);
}

pub proof fn lemma_f_add_wf(a: Mersenne61Ext, b: Mersenne61Ext)
    ensures
        f_wf(f_add(a, b)),
        f_wf(f_neg(a)),
        f_wf(f_sub(a, b)),
{
    lemma_mod_bound((a.real + b.real) as int, FIELD_MOD as int);
    lemma_mod_bound((a.image + b.image) as int, FIELD_MOD as int);
    lemma_mod_bound((FIELD_MOD - a.real) as int, FIELD_MOD as int);
    lemma_mod_bound((FIELD_MOD - a.image) as int, FIELD_MOD as int);
    lemma_mod_bound((a.real + f_neg(b).real) as int, FIELD_MOD as int);
    lemma_mod_bound((a.image + f_neg(b).image) as int, FIELD_MOD as int);
    lemma_mod_bound((FIELD_MOD - b.real) as int, FIELD_MOD as int);
    lemma_mod_bound((FIELD_MOD - b.image) as int, FIELD_MOD as int);
}

pub proof fn lemma_f_mul_comm(a: Mersenne61Ext, b: Mersenne61Ext)
    ensures
        f_mul(a, b) == f_mul(b, a),
{
    assert(mul_raw_real(a, b) == mul_raw_real(b, a)) by (nonlinear_arith);
    assert(mul_raw_image(a, b) == mul_raw_image(b, a)) by (nonlinear_arith);
}

/// Congruence: multiplying after reducing one factor pair leaves the reduced
/// product unchanged.
proof fn lemma_mul_reduce_left(a: Mersenne61Ext, b: Mersenne61Ext, c: Mersenne61Ext)
    ensures
        f_mul(f_mul(a, b), c) == (Mersenne61Ext {
            real: ((mul_raw_real(a, b) * c.real - mul_raw_image(a, b) * c.image) % (
            FIELD_MOD as int)) as u64,
            image: ((mul_raw_real(a, b) * c.image + mul_raw_image(a, b) * c.real) % (
            FIELD_MOD as int)) as u64,
        }),
{
    let m = FIELD_MOD as int;
    let ab = f_mul(a, b);
    let rr = mul_raw_real(a, b);
    let ri = mul_raw_image(a, b);
    assert(ab.real == rr % m && ab.image == ri % m);
    // real component
    lemma_mul_mod_noop_left(rr, c.real as int, m);
    lemma_mul_mod_noop_left(ri, c.image as int, m);
    lemma_sub_mod_noop((rr % m) * c.real, (ri % m) * c.image, m);
    lemma_sub_mod_noop(rr * c.real, ri * c.image, m);
    assert(((rr % m) * c.real) % m == (rr * c.real) % m);
    assert(((ri % m) * c.image) % m == (ri * c.image) % m);
    assert(mul_raw_real(ab, c) % m == ((rr % m) * c.real - (ri % m) * c.image) % m);
    assert(((rr % m) * c.real - (ri % m) * c.image) % m == (rr * c.real - ri * c.image) % m);
    // imaginary component
    lemma_mul_mod_noop_left(rr, c.image as int, m);
    lemma_mul_mod_noop_left(ri, c.real as int, m);
    lemma_add_mod_noop((rr % m) * c.image, (ri % m) * c.real, m);
    lemma_add_mod_noop(rr * c.image, ri * c.real, m);
    assert(((rr % m) * c.image) % m == (rr * c.image) % m);
    assert(((ri % m) * c.real) % m == (ri * c.real) % m);
    assert(mul_raw_image(ab, c) % m == ((rr % m) * c.image + (ri % m) * c.real) % m);
    assert(((rr % m) * c.image + (ri % m) * c.real) % m == (rr * c.image + ri * c.real) % m);
}

/// The raw (unreduced) product of complex-style pairs is associative.
#[verifier::rlimit(60)]
proof fn lemma_raw_assoc(ar: int, ai: int, br: int, bi: int, cr: int, ci: int)
    ensures
        (ar * br - ai * bi) * cr - (ar * bi + ai * br) * ci == (cr * br - ci * bi) * ar - (cr * bi
            + ci * br) * ai,
        (ar * br - ai * bi) * ci + (ar * bi + ai * br) * cr == (cr * br - ci * bi) * ai + (cr * bi
            + ci * br) * ar,
{
    broadcast use vstd::arithmetic::mul::group_mul_properties;

    assert((ar * br - ai * bi) * cr == ar * br * cr - ai * bi * cr) by (nonlinear_arith);
    assert((ar * bi + ai * br) * ci == ar * bi * ci + ai * br * ci) by (nonlinear_arith);
    assert((cr * br - ci * bi) * ar == cr * br * ar - ci * bi * ar) by (nonlinear_arith);
    assert((cr * bi + ci * br) * ai == cr * bi * ai + ci * br * ai) by (nonlinear_arith);
    assert((ar * br - ai * bi) * ci == ar * br * ci - ai * bi * ci) by (nonlinear_arith);
    assert((ar * bi + ai * br) * cr == ar * bi * cr + ai * br * cr) by (nonlinear_arith);
    assert((cr * br - ci * bi) * ai == cr * br * ai - ci * bi * ai) by (nonlinear_arith);
    assert((cr * bi + ci * br) * ar == cr * bi * ar + ci * br * ar) by (nonlinear_arith);
    assert(ar * br * cr == cr * br * ar) by (nonlinear_arith);
    assert(ai * bi * cr == cr * bi * ai) by (nonlinear_arith);
    assert(ar * bi * ci == ci * bi * ar) by (nonlinear_arith);
    assert(ai * br * ci == ci * br * ai) by (nonlinear_arith);
    assert(ar * br * ci == ci * br * ar) by (nonlinear_arith);
    assert(ai * bi * ci == ci * bi * ai) by (nonlinear_arith);
    assert(ar * bi * cr == cr * bi * ar) by (nonlinear_arith);
    assert(ai * br * cr == cr * br * ai) by (nonlinear_arith);
}

pub proof fn lemma_f_mul_assoc(a: Mersenne61Ext, b: Mersenne61Ext, c: Mersenne61Ext)
    ensures
        f_mul(f_mul(a, b), c) == f_mul(a, f_mul(b, c)),
{
    let m = FIELD_MOD as int;
    lemma_mul_reduce_left(a, b, c);
    lemma_f_mul_comm(a, f_mul(b, c));
    lemma_f_mul_comm(b, c);
    lemma_mul_reduce_left(c, b, a);
    lemma_raw_assoc(
        a.real as int,
        a.image as int,
        b.real as int,
        b.image as int,
        c.real as int,
        c.image as int,
    );
    assert(mul_raw_real(a, b) * c.real - mul_raw_image(a, b) * c.image == mul_raw_real(c, b)
        * a.real - mul_raw_image(c, b) * a.image);
    assert(mul_raw_real(a, b) * c.image + mul_raw_image(a, b) * c.real == mul_raw_real(c, b)
        * a.image + mul_raw_image(c, b) * a.real);
}

pub proof fn lemma_f_mul_one(a: Mersenne61Ext)
    requires
        f_wf(a),
    ensures
        f_mul(f_one(), a) == a,
        f_mul(a, f_one()) == a,
{
    let m = FIELD_MOD as int;
    assert(mul_raw_real(f_one(), a) == a.real) by (nonlinear_arith);
    assert(mul_raw_image(f_one(), a) == a.image) by (nonlinear_arith);
    lemma_small_mod(a.real as nat, FIELD_MOD as nat);
    lemma_small_mod(a.image as nat, FIELD_MOD as nat);
    lemma_f_mul_comm(a, f_one());
}

pub proof fn lemma_f_pow_wf(a: Mersenne61Ext, e: nat)
    ensures
        f_wf(f_pow(a, e)),
    decreases e,
{
    if e == 0 {
    } else {
        lemma_f_mul_wf(a, f_pow(a, (e - 1) as nat));
    }
}

/// Powers of a square are powers with doubled exponent.
pub proof fn lemma_f_pow_square(a: Mersenne61Ext, e: nat)
    ensures
        f_pow(f_mul(a, a), e) == f_pow(a, 2 * e),
    decreases e,
{
    if e > 0 {
        lemma_f_pow_square(a, (e - 1) as nat);
        lemma_f_mul_assoc(a, a, f_pow(a, (2 * e - 2) as nat));
        assert(f_pow(a, (2 * e - 1) as nat) == f_mul(a, f_pow(a, (2 * e - 2) as nat)));
        assert(f_pow(a, 2 * e) == f_mul(a, f_pow(a, (2 * e - 1) as nat)));
    }
}

/// Reduces a value below `2 * FIELD_MOD` into the field range.
fn try_sub(x: u64) -> (r: u64)
    requires
        x < 2 * FIELD_MOD,
    ensures
        r as int == (x as int) % (FIELD_MOD as int),
{
    let m = FIELD_MOD;
    if x >= m {
        proof {
            lemma_mod_add_multiples_vanish((x - m) as int, m as int);
            lemma_small_mod((x - m) as nat, m as nat);
        }
        x - m
    } else {
        proof {
            lemma_small_mod(x as nat, m as nat);
        }
        x
    }
}

impl Mersenne61Ext {
    /// The real component of this element.
    pub fn get_real(&self) -> (r: u64)
        ensures
            r == self.real,
    {
        self.real
    }

    /// Embeds a machine integer into the field.
    pub fn from_int(x: u64) -> (r: Self)
        requires
            x < FIELD_MOD,
        ensures
            r == (Mersenne61Ext { real: x, image: 0 }),
            f_wf(r),
    {
        Mersenne61Ext { real: x, image: 0 }
    }

    pub fn is_zero(&self) -> (r: bool)
        ensures
            r == (*self == f_zero()),
    {
        self.real == 0 && self.image == 0
    }

    /// Field addition, componentwise modulo `FIELD_MOD`.
    pub fn add(self, rhs: Self) -> (r: Self)
        requires
            f_wf(self),
            f_wf(rhs),
        ensures
            r == f_add(self, rhs),
            f_wf(r),
    {
        proof {
            lemma_f_add_wf(self, rhs);
        }
        Mersenne61Ext {
            real: try_sub(self.real + rhs.real),
            image: try_sub(self.image + rhs.image),
        }
    }

    /// Additive inverse.
    pub fn neg(self) -> (r: Self)
        requires
            f_wf(self),
        ensures
            r == f_neg(self),
            f_wf(r),
    {
        proof {
            lemma_f_add_wf(self, self);
        }
        Mersenne61Ext {
            real: try_sub(FIELD_MOD - self.real),
            image: try_sub(FIELD_MOD - self.image),
        }
    }

    /// Field subtraction.
    pub fn sub(self, rhs: Self) -> (r: Self)
        requires
            f_wf(self),
            f_wf(rhs),
        ensures
            r == f_sub(self, rhs),
            f_wf(r),
    {
        proof {
            lemma_f_add_wf(self, rhs);
        }
        self.add(rhs.neg())
    }

    /// Field multiplication in the quadratic extension.
    pub fn mul(self, rhs: Self) -> (r: Self)
        requires
            f_wf(self),
            f_wf(rhs),
        ensures
            r == f_mul(self, rhs),
            f_wf(r),
    {
        proof {
            let bound = FIELD_MOD as int;
            vstd::arithmetic::mul::lemma_mul_upper_bound(
                self.real as int,
                bound,
                rhs.real as int,
                bound,
            );
            vstd::arithmetic::mul::lemma_mul_upper_bound(
                self.image as int,
                bound,
                rhs.image as int,
                bound,
            );
            vstd::arithmetic::mul::lemma_mul_upper_bound(
                self.real as int,
                bound,
                rhs.image as int,
                bound,
            );
            vstd::arithmetic::mul::lemma_mul_upper_bound(
                self.image as int,
                bound,
                rhs.real as int,
                bound,
            );
        }
        let m128 = FIELD_MOD as u128;
        let ac = ((self.real as u128) * (rhs.real as u128)) % m128;
        let bd = ((self.image as u128) * (rhs.image as u128)) % m128;
        let ad_bc = ((self.real as u128) * (rhs.image as u128) + (self.image as u128) * (
        rhs.real as u128)) % m128;
        let real_part = ((ac + m128 - bd) % m128) as u64;
        let image_part = ad_bc as u64;
        proof {
            let m = FIELD_MOD as int;
            let xx = (self.real as int) * (rhs.real as int);
            let yy = (self.image as int) * (rhs.image as int);
            lemma_mod_bound(xx, m);
            lemma_mod_bound(yy, m);
            lemma_mod_bound(mul_raw_image(self, rhs), m);
            lemma_mod_bound(mul_raw_real(self, rhs), m);
            lemma_mod_add_multiples_vanish(xx % m - yy % m, m);
            lemma_sub_mod_noop(xx, yy, m);
            assert((xx % m + m - yy % m) % m == (xx % m - yy % m) % m);
            assert((xx % m - yy % m) % m == (xx - yy) % m);
            lemma_f_mul_wf(self, rhs);
        }
        Mersenne61Ext { real: real_part, image: image_part }
    }

    /// Raises this element to the power `e` by binary exponentiation.
    pub fn pow(self, e: u64) -> (r: Self)
        requires
            f_wf(self),
        ensures
            r == f_pow(self, e as nat),
            f_wf(r),
    {
        self.pow_wide(e as u128)
    }

    /// Binary exponentiation with a wide exponent.
    fn pow_wide(self, e: u128) -> (r: Self)
        requires
            f_wf(self),
        ensures
            r == f_pow(self, e as nat),
            f_wf(r),
    {
        let mut ret = Mersenne61Ext { real: 1, image: 0 };
        let mut base = self;
        let mut rest: u128 = e;
        proof {
            lemma_f_pow_wf(self, e as nat);
            lemma_f_mul_one(f_pow(self, e as nat));
        }
        loop
            invariant
                f_wf(ret),
                f_wf(base),
                f_mul(ret, f_pow(base, rest as nat)) == f_pow(self, e as nat),
            ensures
                ret == f_pow(self, e as nat),
            decreases rest,
        {
            if rest == 0 {
                proof {
                    lemma_f_mul_one(ret);
                    assert(f_pow(base, 0) == f_one());
                    lemma_f_mul_comm(ret, f_one());
                }
                break;
            }
            let ghost old_ret = ret;
            let ghost old_base = base;
            let ghost old_rest = rest as nat;
            if rest % 2 == 1 {
                ret = ret.mul(base);
                rest = rest - 1;
                proof {
                    lemma_f_mul_assoc(old_ret, old_base, f_pow(old_base, (old_rest - 1) as nat));
                    assert(f_pow(old_base, old_rest) == f_mul(
                        old_base,
                        f_pow(old_base, (old_rest - 1) as nat),
                    ));
                    assert(f_mul(ret, f_pow(base, rest as nat)) == f_pow(self, e as nat));
                }
            }
            let ghost mid_ret = ret;
            let ghost mid_rest = rest as nat;
            base = base.mul(base);
            rest = rest / 2;
            proof {
                lemma_f_pow_square(old_base, rest as nat);
                assert(2 * (rest as nat) == mid_rest);
                assert(f_pow(base, rest as nat) == f_pow(old_base, mid_rest));
            }
        }
        ret
    }

    /// The multiplicative inverse, computed as the `p^2 - 2` power, `p`
    /// being the field characteristic; the zero element maps to zero.
    pub fn inverse(&self) -> (r: Self)
        requires
            f_wf(*self),
        ensures
            r == f_pow(*self, ((FIELD_MOD as int) * (FIELD_MOD as int) - 2) as nat),
            f_wf(r),
    {
        let p = FIELD_MOD as u128;
        self.pow_wide(p * p - 2)
    }

    /// Draws a uniformly random field element.
    pub fn random_element() -> (r: Self)
        ensures
            f_wf(r),
    {
        Mersenne61Ext { real: random_u64_below(FIELD_MOD), image: random_u64_below(FIELD_MOD) }
    }

    /// The canonical byte encoding: the real component, little endian.
    pub fn to_bytes(&self) -> (r: Vec<u8>)
        ensures
            r@ == u64_le_bytes(self.real),
    {
        let mut v: Vec<u8> = Vec::new();
        v.push((self.real & 0xff) as u8);
        v.push(((self.real >> 8) & 0xff) as u8);
        v.push(((self.real >> 16) & 0xff) as u8);
        v.push(((self.real >> 24) & 0xff) as u8);
        v.push(((self.real >> 32) & 0xff) as u8);
        v.push(((self.real >> 40) & 0xff) as u8);
        v.push(((self.real >> 48) & 0xff) as u8);
        v.push(((self.real >> 56) & 0xff) as u8);
        proof {
            assert(v@ =~= u64_le_bytes(self.real));
        }
        v
    }

    /// The constant `2^60`, which is the inverse of two: doubling it gives
    /// `2^61 = 1 mod (2^61 - 1)`.
    pub fn inverse_2() -> (r: Self)
        ensures
            r == (Mersenne61Ext { real: 0x1000000000000000, image: 0 }),
            f_wf(r),
            f_mul(r, Mersenne61Ext { real: 2, image: 0 }) == f_one(),
    {
        Mersenne61Ext { real: 0x1000000000000000, image: 0 }
    }

    /// A fixed multiplicative generator of the subgroup of order `2^62`
    /// used to build evaluation domains.
    pub fn root_of_unity() -> (r: Self)
        ensures
            r == f_root_of_unity(),
            f_wf(r),
    {
        Mersenne61Ext { real: 2147483648, image: 1033321771269002680 }
    }

    /// The log2 of the order of `root_of_unity`.
    pub fn log_order() -> (r: u64)
        ensures
            r == 62,
    {
        62
    }
}

/// The little-endian byte view of a machine integer.
pub open spec fn u64_le_bytes(x: u64) -> Seq<u8> {
    seq![
        (x & 0xff) as u8,
        ((x >> 8) & 0xff) as u8,
        ((x >> 16) & 0xff) as u8,
        ((x >> 24) & 0xff) as u8,
        ((x >> 32) & 0xff) as u8,
        ((x >> 40) & 0xff) as u8,
        ((x >> 48) & 0xff) as u8,
        ((x >> 56) & 0xff) as u8,
    ]
}

/// Relies on rand::Rng::gen_range, applied to rand::thread_rng: it returns
/// a value inside the given half-open range.
#[verifier::external_body]
pub(crate) fn random_u64_below(bound: u64) -> (r: u64)
    requires
        bound > 0,
    ensures
        r < bound,
{
    rand::Rng::gen_range(&mut rand::thread_rng(), 0..bound)
}

/// Byte encoding of a committed leaf pair: the encodings of both elements,
/// concatenated.
pub fn pair_to_bytes(a: Mersenne61Ext, b: Mersenne61Ext) -> (r: Vec<u8>)
    ensures
        r@ == u64_le_bytes(a.real) + u64_le_bytes(b.real),
{
    let mut v = a.to_bytes();
    let mut w = b.to_bytes();
    v.append(&mut w);
    proof {
        assert(v@ =~= u64_le_bytes(a.real) + u64_le_bytes(b.real));
    }
    v
}

} // verus!
