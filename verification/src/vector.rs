use vstd::prelude::*;
use vstd::arithmetic::power2::{pow2, lemma_pow2_adds, lemma_pow2_pos, lemma_pow2_strictly_increases, lemma2_to64, lemma2_to64_rest};
use vstd::arithmetic::mul::lemma_mul_inequality;

verus! {

/// A vertex coordinate triple. Each component holds the IEEE 754 single
/// precision bit pattern of the coordinate, so that all of the geometry can
/// be reasoned about over plain integers.
#[derive(Clone, Copy, PartialEq, Eq, Structural, Debug)]
pub struct Vec3f {
    pub x: u32,
    pub y: u32,
    pub z: u32,
}

/// A triple of unsigned vertex indices: one indexed triangle.
#[derive(Clone, Copy, PartialEq, Eq, Structural, Debug)]
pub struct Vec3u {
    pub x: u32,
    pub y: u32,
    pub z: u32,
}

pub open spec fn f32_sign(b: u32) -> bool {
    b / 0x8000_0000 == 1
}

pub open spec fn f32_exp(b: u32) -> int {
    (b as int / 0x80_0000) % 0x100
}

pub open spec fn f32_frac(b: u32) -> int {
    b as int % 0x80_0000
}

/// Not a number: all exponent bits set and a nonzero fraction.
pub open spec fn f32_is_nan(b: u32) -> bool {
    f32_exp(b) == 255 && f32_frac(b) != 0
}

/// The integer significand of the magnitude: `|value| = f32_sig(b) * 2^f32_bexp(b)`.
pub open spec fn f32_sig(b: u32) -> int {
    if f32_exp(b) == 0 {
        f32_frac(b)
    } else {
        f32_frac(b) + 0x80_0000
    }
}

/// The binary exponent that goes with `f32_sig`.
pub open spec fn f32_bexp(b: u32) -> int {
    if f32_exp(b) == 0 {
        -149
    } else {
        f32_exp(b) - 150
    }
}

/// The magnitude of the coordinate times 10^5, rounded half away from zero:
/// `|value| * 10^5 = f32_sig * 3125 * 2^(f32_bexp + 5)`.
pub open spec fn quant_mag(b: u32) -> int {
    let t = f32_sig(b) * 3125;
    let k = f32_bexp(b) + 5;
    if k >= 0 {
        t * pow2(k as nat)
    } else {
        (t + pow2((- k - 1) as nat)) / (pow2((- k) as nat) as int)
    }
}

/// The quantized value of a coordinate held as its bit pattern: the
/// coordinate times 10^5, rounded half away from zero and saturated to the
/// 32-bit signed range. An infinity saturates; a NaN quantizes to zero.
#[verifier::opaque]
pub open spec fn quant_spec(b: u32) -> int {
    if f32_exp(b) == 255 {
        if f32_frac(b) != 0 {
            0
        } else if f32_sign(b) {
            -0x8000_0000
        } else {
            0x7fff_ffff
        }
    } else {
        let q = quant_mag(b);
        if f32_sign(b) {
            if q > 0x8000_0000 {
                -0x8000_0000
            } else {
                -q
            }
        } else {
            if q > 0x7fff_ffff {
                0x7fff_ffff
            } else {
                q
            }
        }
    }
}

/// 2^k as a machine integer.
pub fn pow2_u64(k: u32) -> (r: u64)
    requires
        k <= 63,
    ensures
        r == pow2(k as nat),
{
    let mut r: u64 = 1;
    let mut i: u32 = 0;
    proof {
        lemma2_to64();
    }
    while i < k
        invariant
            i <= k <= 63,
            r == pow2(i as nat),
        decreases k - i,
    {
        proof {
            lemma_pow2_adds(i as nat, 1);
            lemma2_to64();
            lemma2_to64_rest();
            assert(pow2((i + 1) as nat) == pow2(i as nat) * 2);
            if (i + 1) < 63 {
                lemma_pow2_strictly_increases((i + 1) as nat, 63);
            }
            assert(pow2((i + 1) as nat) <= pow2(63));
        }
        r = r * 2;
        i = i + 1;
    }
    r
}

/// Quantizes one coordinate, given as its bit pattern.
pub fn quant(bits: u32) -> (r: i64)
    ensures
        r == quant_spec(bits),
{
    proof {
        reveal(quant_spec);
    }
    let sign: bool = bits / 0x8000_0000 == 1;
    let e: u32 = (bits / 0x80_0000) % 0x100;
    let f: u32 = bits % 0x80_0000;
    if e == 255 {
        if f != 0 {
            0
        } else if sign {
            -0x8000_0000
        } else {
            0x7fff_ffff
        }
    } else {
        let sig: u64 = if e == 0 { f as u64 } else { f as u64 + 0x80_0000 };
        assert(sig == f32_sig(bits));
        assert(sig < 0x100_0000);
        let t: u64 = sig * 3125;
        assert(t == f32_sig(bits) * 3125);
        assert(t < 0x10_0000_0000) by {
            lemma_mul_inequality(sig as int, 0xFF_FFFF, 3125);
        }
        if e >= 145 {
            // The scaled magnitude is at least 2^23 * 3125 > i32::MAX: saturate.
            proof {
                let k = (f32_bexp(bits) + 5) as nat;
                lemma_pow2_pos(k);
                assert(t >= 0x80_0000 * 3125) by {
                    lemma_mul_inequality(0x80_0000, sig as int, 3125);
                }
                assert(t * pow2(k) >= t) by {
                    vstd::arithmetic::mul::lemma_mul_left_inequality(t as int, 1, pow2(k) as int);
                }
                assert(quant_mag(bits) > 0x8000_0000);
            }
            if sign {
                -0x8000_0000
            } else {
                0x7fff_ffff
            }
        } else {
            let ee: u32 = if e == 0 { 1 } else { e };
            let kk: u32 = 145 - ee;
            assert(f32_bexp(bits) + 5 == - (kk as int));
            let q: u64 = if kk >= 40 {
                proof {
                    lemma_pow2_strictly_increases(36, (kk - 1) as nat);
                    lemma_pow2_adds((kk - 1) as nat, 1);
                    lemma2_to64();
                    lemma2_to64_rest();
                    assert(pow2(kk as nat) == pow2((kk - 1) as nat) * 2);
                    assert(t + pow2((kk - 1) as nat) < pow2(kk as nat));
                    vstd::arithmetic::div_mod::lemma_basic_div(
                        t + pow2((kk - 1) as nat),
                        pow2(kk as nat) as int,
                    );
                    assert(quant_mag(bits) == 0);
                }
                0
            } else {
                let h: u64 = pow2_u64(kk - 1);
                let d: u64 = pow2_u64(kk);
                proof {
                    lemma_pow2_adds((kk - 1) as nat, 1);
                    lemma2_to64();
                    lemma_pow2_pos(kk as nat);
                }
                (t + h) / d
            };
            if sign {
                if q > 0x8000_0000 {
                    -0x8000_0000
                } else {
                    0 - (q as i64)
                }
            } else {
                if q > 0x7fff_ffff {
                    0x7fff_ffff
                } else {
                    q as i64
                }
            }
        }
    }
}

/// The quantized coordinate triple of a vertex.
pub open spec fn qx(v: Vec3f) -> int {
    quant_spec(v.x)
}

pub open spec fn qy(v: Vec3f) -> int {
    quant_spec(v.y)
}

pub open spec fn qz(v: Vec3f) -> int {
    quant_spec(v.z)
}

/// Tolerance equality: two vertices are the same point when all three
/// quantized coordinates agree.
pub open spec fn quant_eq(a: Vec3f, b: Vec3f) -> bool {
    qx(a) == qx(b) && qy(a) == qy(b) && qz(a) == qz(b)
}

/// The deterministic total order on vertices: lexicographic over the
/// quantized (x, y, z) triple.
pub open spec fn quant_lt(a: Vec3f, b: Vec3f) -> bool {
    ||| qx(a) < qx(b)
    ||| (qx(a) == qx(b) && qy(a) < qy(b))
    ||| (qx(a) == qx(b) && qy(a) == qy(b) && qz(a) < qz(b))
}

/// Whether two coordinates agree after quantization.
pub fn almost_equal(x: u32, y: u32) -> (r: bool)
    ensures
        r == (quant_spec(x) == quant_spec(y)),
{
    quant(x) == quant(y)
}

impl Vec3f {
    /// Tolerance equality over all three components.
    pub fn almost_equal(&self, other: &Vec3f) -> (r: bool)
        ensures
            r == quant_eq(*self, *other),
    {
        quant(self.x) == quant(other.x) && quant(self.y) == quant(other.y) && quant(self.z)
            == quant(other.z)
    }

    /// The strict quantized lexicographic order.
    pub fn quant_less(&self, other: &Vec3f) -> (r: bool)
        ensures
            r == quant_lt(*self, *other),
    {
        let ax = quant(self.x);
        let bx = quant(other.x);
        if ax != bx {
            ax < bx
        } else {
            let ay = quant(self.y);
            let by = quant(other.y);
            if ay != by {
                ay < by
            } else {
                quant(self.z) < quant(other.z)
            }
        }
    }
}

/// The quantized value of any coordinate lies in the 32-bit signed range.
pub proof fn lemma_quant_bounds(b: u32)
    ensures
        -0x8000_0000 <= quant_spec(b) <= 0x7fff_ffff,
{
    reveal(quant_spec);
    if f32_exp(b) != 255 {
        let t = f32_sig(b) * 3125;
        let k = f32_bexp(b) + 5;
        vstd::arithmetic::mul::lemma_mul_nonnegative(f32_sig(b), 3125);
        if k >= 0 {
            vstd::arithmetic::mul::lemma_mul_nonnegative(t, pow2(k as nat) as int);
        } else {
            lemma_pow2_pos((- k) as nat);
            vstd::arithmetic::div_mod::lemma_div_basics_4(
                t + pow2((- k - 1) as nat),
                pow2((- k) as nat) as int,
            );
        }
    }
}

/// The sign-magnitude integer key that orders finite IEEE 754 single
/// precision values; both zeros map to zero.
pub open spec fn f32_key(b: u32) -> int {
    if f32_sign(b) {
        -(b as int % 0x8000_0000)
    } else {
        b as int % 0x8000_0000
    }
}

/// The strict IEEE 754 order on coordinates held as bit patterns: false
/// whenever either side is NaN.
pub open spec fn f32_lt(a: u32, b: u32) -> bool {
    !f32_is_nan(a) && !f32_is_nan(b) && f32_key(a) < f32_key(b)
}

/// Compares two coordinates held as bit patterns.
pub fn f32_lt_bits(a: u32, b: u32) -> (r: bool)
    ensures
        r == f32_lt(a, b),
{
    let ea: u32 = (a / 0x80_0000) % 0x100;
    let fa: u32 = a % 0x80_0000;
    let eb: u32 = (b / 0x80_0000) % 0x100;
    let fb: u32 = b % 0x80_0000;
    if (ea == 255 && fa != 0) || (eb == 255 && fb != 0) {
        return false;
    }
    let ka: i64 = if a / 0x8000_0000 == 1 {
        0 - ((a % 0x8000_0000) as i64)
    } else {
        (a % 0x8000_0000) as i64
    };
    let kb: i64 = if b / 0x8000_0000 == 1 {
        0 - ((b % 0x8000_0000) as i64)
    } else {
        (b % 0x8000_0000) as i64
    };
    ka < kb
}

/// The four little-endian bytes of a 32-bit value.
pub open spec fn le4(x: u32) -> Seq<u8> {
    seq![
        (x as int % 0x100) as u8,
        ((x as int / 0x100) % 0x100) as u8,
        ((x as int / 0x1_0000) % 0x100) as u8,
        ((x as int / 0x100_0000) % 0x100) as u8,
    ]
}

/// The 32-bit value read from four little-endian bytes.
pub open spec fn u32_of_le4(s: Seq<u8>) -> int {
    s[0] + s[1] * 0x100 + s[2] * 0x1_0000 + s[3] * 0x100_0000
}

/// Reading back the four little-endian bytes of a value recovers it.
pub proof fn lemma_le4_roundtrip(x: u32)
    ensures
        u32_of_le4(le4(x)) == x,
{
}

/// Appends the four little-endian bytes of a value.
pub fn push_u32_le(out: &mut Vec<u8>, x: u32)
    ensures
        final(out)@ == old(out)@ + le4(x),
{
    out.push((x % 0x100) as u8);
    out.push(((x / 0x100) % 0x100) as u8);
    out.push(((x / 0x1_0000) % 0x100) as u8);
    out.push(((x / 0x100_0000) % 0x100) as u8);
    assert(final(out)@ =~= old(out)@ + le4(x));
}

/// The twelve little-endian bytes of a coordinate triple: the stored bit
/// patterns, emitted unchanged.
pub open spec fn vec3f_le_bytes(v: Vec3f) -> Seq<u8> {
    le4(v.x) + le4(v.y) + le4(v.z)
}

/// The twelve little-endian bytes of an index triple.
pub open spec fn vec3u_le_bytes(v: Vec3u) -> Seq<u8> {
    le4(v.x) + le4(v.y) + le4(v.z)
}

impl Vec3f {
    /// The little-endian byte encoding of the vertex: each component's
    /// stored bit pattern, so one encode and decode cycle is bit exact.
    pub fn to_le_bytes_as_f32(&self) -> (r: Vec<u8>)
        ensures
            r@ == vec3f_le_bytes(*self),
    {
        let mut out: Vec<u8> = Vec::new();
        push_u32_le(&mut out, self.x);
        push_u32_le(&mut out, self.y);
        push_u32_le(&mut out, self.z);
        assert(out@ =~= vec3f_le_bytes(*self));
        out
    }
}

/// The little-endian bytes of an index triple converted to single
/// precision values first.
pub open spec fn vec3u_f32_le_bytes(v: Vec3u) -> Seq<u8> {
    le4(crate::floatops::f32_of_u32(v.x)) + le4(crate::floatops::f32_of_u32(v.y)) + le4(
        crate::floatops::f32_of_u32(v.z),
    )
}

impl Vec3u {
    /// The little-endian byte encoding of the triple after converting each
    /// component to the nearest single precision value.
    pub fn to_le_bytes_as_f32(&self) -> (r: Vec<u8>)
        ensures
            r@ == vec3u_f32_le_bytes(*self),
    {
        let mut out: Vec<u8> = Vec::new();
        push_u32_le(&mut out, crate::floatops::u32_to_f32_bits(self.x));
        push_u32_le(&mut out, crate::floatops::u32_to_f32_bits(self.y));
        push_u32_le(&mut out, crate::floatops::u32_to_f32_bits(self.z));
        assert(out@ =~= vec3u_f32_le_bytes(*self));
        out
    }

    /// The little-endian byte encoding of the index triple as three
    /// unsigned 32-bit values.
    pub fn to_le_bytes_as_u32(&self) -> (r: Vec<u8>)
        ensures
            r@ == vec3u_le_bytes(*self),
    {
        let mut out: Vec<u8> = Vec::new();
        push_u32_le(&mut out, self.x);
        push_u32_le(&mut out, self.y);
        push_u32_le(&mut out, self.z);
        assert(out@ =~= vec3u_le_bytes(*self));
        out
    }
}

/// The product of two bounded factors is bounded by the product of the
/// bounds.
pub proof fn lemma_abs_mul_bound(x: int, y: int, bx: int, by: int)
    requires
        -bx <= x <= bx,
        -by <= y <= by,
        0 <= bx,
        0 <= by,
    ensures
        -(bx * by) <= x * y <= bx * by,
{
    assert(-(bx * by) <= x * y <= bx * by) by (nonlinear_arith)
        requires
            -bx <= x <= bx,
            -by <= y <= by,
            0 <= bx,
            0 <= by,
    ;
}

} // verus!
