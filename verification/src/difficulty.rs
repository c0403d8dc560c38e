//! The difficulty scaler: a pure transformation on encoded targets.
//!
//! A target is a `u32`: the top byte counts the leading zero bytes of the
//! 32-byte hash threshold, the low 24 bits are the mantissa written just
//! after those zeros. The estimated work of a target is
//! `256^zeros * 0xffffff / mantissa`: more zeros or a smaller mantissa
//! mean a harder puzzle.
//!
//! `scale_target` multiplies that estimated work by a rational factor
//! `num / den`, converting the encoding to work terms and back as the
//! design asks: the pool advertises targets scaled by `SCALE_NUM /
//! SCALE_DEN`, an order of magnitude easier than the node's. Results are
//! clamped to the easiest representable target when the scaled work falls
//! below it and to the hardest when it rises above it. A mantissa of zero
//! encodes no finite work; it is read as the hardest mantissa, one.

use vstd::arithmetic::div_mod::{lemma_div_denominator, lemma_div_is_ordered};
use vstd::arithmetic::mul::lemma_mul_inequality;
use vstd::arithmetic::power::{
    lemma_pow0, lemma_pow1, lemma_pow_adds, lemma_pow_increases, lemma_pow_positive, pow,
};
use vstd::prelude::*;

verus! {

/// Numerator of the pool's scale factor on estimated work.
pub const SCALE_NUM: u32 = 1;

/// Denominator of the pool's scale factor: advertised puzzles ask a
/// tenth of the node's estimated work.
pub const SCALE_DEN: u32 = 10;

/// Easiest representable target: no zero bytes, all-ones mantissa.
pub const TARGET_EASIEST: u32 = 0x00ff_ffff;

/// Hardest representable target: 255 zero bytes, mantissa one.
pub const TARGET_HARDEST: u32 = 0xff00_0001;

/// Zero-byte count of an encoded target.
pub open spec fn zeros_of(t: u32) -> nat {
    (t >> 24) as nat
}

/// Mantissa of an encoded target.
pub open spec fn mantissa_of(t: u32) -> nat {
    (t & 0x00ff_ffff) as nat
}

/// Mantissa read for work estimates: a zero mantissa counts as one.
pub open spec fn mantissa_pos(t: u32) -> nat {
    if mantissa_of(t) == 0 {
        1
    } else {
        mantissa_of(t)
    }
}

/// Exact comparison of two targets' estimated work, free of rounding:
/// `256^z1 * M / m1 <= 256^z2 * M / m2`, cross-multiplied (the shared
/// factor `M = 0xffffff` cancels).
pub open spec fn work_le(a: u32, b: u32) -> bool {
    pow(256, zeros_of(a)) * mantissa_pos(b) <= pow(256, zeros_of(b)) * mantissa_pos(a)
}

/// Encoding of a zero count and a mantissa as a target word.
pub open spec fn encode(z: nat, m: nat) -> u32
    recommends
        z <= 255,
        1 <= m <= 0x00ff_ffff,
{
    (z * 0x0100_0000 + m) as u32
}

/// Scaled mantissa `r / num` pushed down into range: while it exceeds
/// the largest mantissa, trade a factor 256 of it against one zero byte.
/// Runs out of zeros only for work below the easiest target, which is
/// then returned.
pub open spec fn scale_down(z: nat, r: nat, num: nat) -> u32
    recommends
        1 <= num,
    decreases z,
{
    let q = r / num;
    if q > 0x00ff_ffff {
        if z == 0 {
            TARGET_EASIEST
        } else {
            scale_down((z - 1) as nat, r / 256, num)
        }
    } else if q == 0 {
        scale_up(z, r, num)
    } else {
        encode(z, q)
    }
}

/// Scaled mantissa pushed up into range: while `r / num` rounds to
/// nothing, trade one zero byte against a factor 256 of it. Running out
/// of zero bytes means work above the hardest target, which is then
/// returned.
pub open spec fn scale_up(z: nat, r: nat, num: nat) -> u32
    recommends
        1 <= num,
        z <= 255,
    decreases 255 - z,
{
    if z >= 255 {
        TARGET_HARDEST
    } else if (r * 256) / num >= 1 {
        encode(z + 1, (r * 256) / num)
    } else {
        scale_up(z + 1, r * 256, num)
    }
}

/// The scaled target: mantissa multiplied by `den / num` (work scales by
/// `num / den`), renormalized into the encoding's ranges.
pub open spec fn spec_scale(t: u32, num: nat, den: nat) -> u32
    recommends
        1 <= num,
        1 <= den,
{
    scale_down(zeros_of(t), mantissa_pos(t) * den, num)
}

/// Exec mirror of `scale_down`.
fn scale_down_exec(z: u32, r: u64, num: u32) -> (res: u32)
    requires
        1 <= num,
        z <= 255,
    ensures
        res == scale_down(z as nat, r as nat, num as nat),
    decreases z,
{
    let q: u64 = r / (num as u64);
    if q > 0x00ff_ffff {
        if z == 0 {
            TARGET_EASIEST
        } else {
            scale_down_exec(z - 1, r / 256, num)
        }
    } else if q == 0 {
        proof {
            lemma_div_zero_below(r, num as u64);
        }
        scale_up_exec(z, r, num)
    } else {
        proof {
            lemma_encode_bits(z, q as u32);
        }
        (z << 24) | (q as u32)
    }
}

/// A quotient of zero puts the dividend below the divisor.
proof fn lemma_div_zero_below(r: u64, num: u64)
    requires
        1 <= num,
        r / num == 0,
    ensures
        r < num,
{
    assert(r < num) by (nonlinear_arith)
        requires
            1 <= num,
            r / num == 0,
    ;
}

/// Exec mirror of `scale_up`.
fn scale_up_exec(z: u32, r: u64, num: u32) -> (res: u32)
    requires
        1 <= num,
        z <= 255,
        r < num,
    ensures
        res == scale_up(z as nat, r as nat, num as nat),
    decreases 255 - z,
{
    if z == 255 {
        TARGET_HARDEST
    } else {
        let r2: u64 = r * 256;
        let q: u64 = r2 / (num as u64);
        proof {
            assert(q < 256) by (nonlinear_arith)
                requires
                    q == r2 / (num as u64),
                    r2 < 256 * (num as u64),
                    1 <= num,
            ;
        }
        if q >= 1 {
            proof {
                lemma_encode_bits((z + 1) as u32, q as u32);
            }
            ((z + 1) << 24) | (q as u32)
        } else {
            proof {
                lemma_div_zero_below(r2, num as u64);
            }
            scale_up_exec(z + 1, r2, num)
        }
    }
}

/// Bit packing of a zero count and an in-range mantissa agrees with the
/// arithmetic form used by `encode`.
proof fn lemma_encode_bits(z: u32, m: u32)
    requires
        z <= 255,
        m <= 0x00ff_ffff,
    ensures
        (z << 24) | m == encode(z as nat, m as nat),
{
    assert((z << 24) | m == z * 0x0100_0000 + m) by (bit_vector)
        requires
            z <= 255,
            m <= 0x00ff_ffff,
    ;
}

/// Splitting of the target word into its zero count and mantissa.
proof fn lemma_split_bits(t: u32)
    ensures
        t >> 24 <= 255,
        t & 0x00ff_ffff <= 0x00ff_ffff,
{
    assert(t >> 24 <= 255 && t & 0x00ff_ffff <= 0x00ff_ffff) by (bit_vector);
}

/// Scale a target's estimated work by `num / den`.
///
/// The result is `spec_scale(t, num, den)`: the mantissa is multiplied
/// by `den`, divided by `num`, and renormalized against the zero-byte
/// count, clamping at the easiest and hardest representable targets.
pub fn scale_target(t: u32, num: u32, den: u32) -> (res: u32)
    requires
        1 <= num,
        1 <= den,
    ensures
        res == spec_scale(t, num as nat, den as nat),
{
    proof {
        lemma_split_bits(t);
    }
    let z: u32 = t >> 24;
    let m: u32 = t & 0x00ff_ffff;
    let mp: u64 = if m == 0 {
        1
    } else {
        m as u64
    };
    proof {
        assert(mp * (den as u64) <= 0x00ff_ffff * 0xffff_ffffu64) by (nonlinear_arith)
            requires
                1 <= mp <= 0x00ff_ffff,
                den <= 0xffff_ffffu64,
        ;
    }
    scale_down_exec(z, mp * (den as u64), num)
}

/// Scaling with factor one returns the target unchanged, except that a
/// zero mantissa is first read as one.
pub proof fn lemma_scale_identity(t: u32, c: nat)
    requires
        1 <= c,
    ensures
        mantissa_of(t) >= 1 ==> spec_scale(t, c, c) == t,
        mantissa_of(t) == 0 ==> spec_scale(t, c, c) == encode(zeros_of(t), 1),
{
    assert(t >> 24 <= 255 && t & 0x00ff_ffff <= 0x00ff_ffff) by (bit_vector);
    let m = mantissa_pos(t);
    let z = zeros_of(t);
    assert((m * c) / c == m) by (nonlinear_arith)
        requires
            c >= 1,
            m >= 1,
    ;
    assert(scale_down(z, m * c, c) == encode(z, m));
    if mantissa_of(t) >= 1 {
        assert(t >> 24 == t / 0x0100_0000 && t & 0x00ff_ffff == t % 0x0100_0000)
            by (bit_vector);
        assert(t == (t / 0x0100_0000) * 0x0100_0000 + t % 0x0100_0000);
        assert(encode(z, m) == t);
    }
}

/// An encoded word splits back into the zero count and mantissa it was
/// built from.
proof fn lemma_encode_split(z: nat, m: nat)
    requires
        z <= 255,
        1 <= m <= 0x00ff_ffff,
    ensures
        zeros_of(encode(z, m)) == z,
        mantissa_of(encode(z, m)) == m,
        mantissa_pos(encode(z, m)) == m,
{
    let zz = z as u32;
    let mm = m as u32;
    let x = encode(z, m);
    assert(x == zz * 0x0100_0000 + mm);
    assert(x >> 24 == zz && x & 0x00ff_ffff == mm) by (bit_vector)
        requires
            x == zz * 0x0100_0000 + mm,
            zz <= 255,
            mm <= 0x00ff_ffff,
    ;
}

/// No target asks less work than the easiest representable one.
pub proof fn lemma_easiest_min(x: u32)
    ensures
        work_le(TARGET_EASIEST, x),
{
    lemma_split_bits(x);
    assert(0x00ff_ffffu32 >> 24 == 0 && 0x00ff_ffffu32 & 0x00ff_ffff == 0x00ff_ffff)
        by (bit_vector);
    lemma_pow_positive(256, zeros_of(x));
    lemma_mul_inequality(1, pow(256, zeros_of(x)), 0x00ff_ffff);
    lemma_pow0(256);
}

/// No target asks more work than the hardest representable one.
pub proof fn lemma_hardest_max(x: u32)
    ensures
        work_le(x, TARGET_HARDEST),
{
    lemma_split_bits(x);
    assert(0xff00_0001u32 >> 24 == 255 && 0xff00_0001u32 & 0x00ff_ffff == 1) by (bit_vector);
    assert(zeros_of(TARGET_HARDEST) == 255);
    assert(mantissa_pos(TARGET_HARDEST) == 1);
    assert(zeros_of(x) <= 255);
    lemma_pow_increases(256, zeros_of(x), 255);
    assert(pow(256, zeros_of(x)) <= pow(256, 255));
    lemma_pow_positive(256, 255);
    lemma_mul_inequality(1, mantissa_pos(x) as int, pow(256, 255));
    assert(1 * pow(256, 255) <= mantissa_pos(x) * pow(256, 255));
}

/// Shape of a down-normalized result whose raw quotient overflows the
/// mantissa: either the easiest-target clamp, or an exponent below the
/// starting one with a mantissa of at least two bytes.
proof fn lemma_down_big(z: nat, r: nat, num: nat)
    requires
        1 <= num,
        z <= 255,
        r / num > 0x00ff_ffff,
    ensures
        ({
            let res = scale_down(z, r, num);
            res == TARGET_EASIEST || (zeros_of(res) < z && 0x0001_0000 <= mantissa_of(res)
                <= 0x00ff_ffff && mantissa_pos(res) == mantissa_of(res))
        }),
    decreases z,
{
    let q = r / num;
    if z == 0 {
    } else {
        let r2 = r / 256;
        let q2 = r2 / num;
        lemma_div_denominator(r as int, 256, num as int);
        lemma_div_denominator(r as int, num as int, 256);
        assert(q2 == q / 256);
        lemma_div_is_ordered(0x0100_0000, q as int, 256);
        assert(q2 >= 0x0001_0000);
        if q2 > 0x00ff_ffff {
            lemma_down_big((z - 1) as nat, r2, num);
        } else {
            lemma_encode_split((z - 1) as nat, q2);
        }
    }
}

/// Shape of an up-normalized result: either the hardest-target clamp,
/// or an exponent above the starting one with a one-byte mantissa.
proof fn lemma_up_shape(z: nat, r: nat, num: nat)
    requires
        1 <= num,
        1 <= r,
        r < num,
        z <= 255,
    ensures
        ({
            let res = scale_up(z, r, num);
            res == TARGET_HARDEST || (z < zeros_of(res) <= 255 && 1 <= mantissa_of(res) <= 255
                && mantissa_pos(res) == mantissa_of(res))
        }),
    decreases 255 - z,
{
    if z >= 255 {
    } else {
        let q = (r * 256) / num;
        assert(q < 256) by (nonlinear_arith)
            requires
                q == (r * 256) / num,
                r < num,
                1 <= num,
        ;
        if q >= 1 {
            lemma_encode_split(z + 1, q);
        } else {
            assert(r * 256 < num) by (nonlinear_arith)
                requires
                    (r * 256) / num == 0,
                    1 <= num,
                    0 <= r * 256,
            ;
            lemma_up_shape(z + 1, r * 256, num);
        }
    }
}

/// Monotonicity of up-normalization in the scaled mantissa.
proof fn lemma_up_mono(z: nat, r1: nat, r2: nat, num: nat)
    requires
        1 <= num,
        1 <= r2 <= r1,
        r1 < num,
        z <= 255,
    ensures
        work_le(scale_up(z, r1, num), scale_up(z, r2, num)),
    decreases 255 - z,
{
    if z >= 255 {
        assert(scale_up(z, r1, num) == TARGET_HARDEST);
        assert(scale_up(z, r2, num) == TARGET_HARDEST);
        lemma_hardest_max(TARGET_HARDEST);
    } else {
        let q1 = (r1 * 256) / num;
        let q2 = (r2 * 256) / num;
        lemma_mul_inequality(r2 as int, r1 as int, 256);
        lemma_div_is_ordered((r2 * 256) as int, (r1 * 256) as int, num as int);
        assert(q1 < 256) by (nonlinear_arith)
            requires
                q1 == (r1 * 256) / num,
                r1 < num,
                1 <= num,
        ;
        if q2 >= 1 {
            assert(scale_up(z, r1, num) == encode(z + 1, q1));
            assert(scale_up(z, r2, num) == encode(z + 1, q2));
            lemma_encode_split(z + 1, q1);
            lemma_encode_split(z + 1, q2);
            lemma_pow_positive(256, z + 1);
            assert(zeros_of(encode(z + 1, q1)) == z + 1 && mantissa_pos(encode(z + 1, q1)) == q1);
            assert(zeros_of(encode(z + 1, q2)) == z + 1 && mantissa_pos(encode(z + 1, q2)) == q2);
            assert(pow(256, (z + 1) as nat) * q2 <= pow(256, (z + 1) as nat) * q1)
                by (nonlinear_arith)
                requires
                    q2 <= q1,
                    pow(256, (z + 1) as nat) >= 0,
            ;
            assert(work_le(encode(z + 1, q1), encode(z + 1, q2)));
        } else if q1 >= 1 {
            assert(scale_up(z, r1, num) == encode(z + 1, q1));
            assert(scale_up(z, r2, num) == scale_up(z + 1, r2 * 256, num));
            lemma_encode_split(z + 1, q1);
            let res1 = encode(z + 1, q1);
            assert(r2 * 256 < num) by (nonlinear_arith)
                requires
                    (r2 * 256) / num == 0,
                    1 <= num,
                    0 <= r2 * 256,
            ;
            assert(1 <= r2 * 256) by (nonlinear_arith)
                requires
                    1 <= r2,
            ;
            lemma_up_shape(z + 1, r2 * 256, num);
            let res2 = scale_up(z + 1, r2 * 256, num);
            if res2 == TARGET_HARDEST {
                lemma_hardest_max(res1);
            } else {
                let z2 = zeros_of(res2);
                let k = (z2 - (z + 1)) as nat;
                lemma_pow_adds(256, z + 1, k);
                lemma_pow_positive(256, (z + 1) as nat);
                lemma_pow_increases(256, 1, k);
                lemma_pow1(256);
                assert(pow(256, (z + 1) as nat) * mantissa_pos(res2) <= pow(256, z2)
                    * mantissa_pos(res1)) by (nonlinear_arith)
                    requires
                        pow(256, z2) == pow(256, (z + 1) as nat) * pow(256, k),
                        pow(256, (z + 1) as nat) >= 1,
                        pow(256, k) >= 256,
                        mantissa_pos(res2) <= 255,
                        mantissa_pos(res1) >= 1,
                ;
                assert(work_le(res1, res2));
            }
        } else {
            assert(scale_up(z, r1, num) == scale_up(z + 1, r1 * 256, num));
            assert(scale_up(z, r2, num) == scale_up(z + 1, r2 * 256, num));
            assert(r1 * 256 < num) by (nonlinear_arith)
                requires
                    (r1 * 256) / num == 0,
                    1 <= num,
                    0 <= r1 * 256,
            ;
            assert(1 <= r2 * 256) by (nonlinear_arith)
                requires
                    1 <= r2,
            ;
            lemma_up_mono(z + 1, r1 * 256, r2 * 256, num);
        }
    }
}

/// Monotonicity of the full normalization in the scaled mantissa: a
/// larger scaled mantissa (less work) never normalizes to a result
/// asking more work.
proof fn lemma_down_mono(z: nat, r1: nat, r2: nat, num: nat)
    requires
        1 <= num,
        1 <= r2 <= r1,
        z <= 255,
    ensures
        work_le(scale_down(z, r1, num), scale_down(z, r2, num)),
    decreases z,
{
    let q1 = r1 / num;
    let q2 = r2 / num;
    lemma_div_is_ordered(r2 as int, r1 as int, num as int);
    if q2 > 0x00ff_ffff {
        if z == 0 {
            assert(scale_down(z, r1, num) == TARGET_EASIEST);
            assert(scale_down(z, r2, num) == TARGET_EASIEST);
            lemma_easiest_min(TARGET_EASIEST);
        } else {
            assert(scale_down(z, r1, num) == scale_down((z - 1) as nat, r1 / 256, num));
            assert(scale_down(z, r2, num) == scale_down((z - 1) as nat, r2 / 256, num));
            assert(r2 >= 0x0100_0000) by (nonlinear_arith)
                requires
                    r2 / num > 0x00ff_ffff,
                    1 <= num,
            ;
            lemma_div_is_ordered(0x0100_0000, r2 as int, 256);
            lemma_div_is_ordered(r2 as int, r1 as int, 256);
            lemma_down_mono((z - 1) as nat, r1 / 256, r2 / 256, num);
        }
    } else if q1 > 0x00ff_ffff {
        lemma_down_big(z, r1, num);
        let res1 = scale_down(z, r1, num);
        if q2 >= 1 {
            assert(scale_down(z, r2, num) == encode(z, q2));
            lemma_encode_split(z, q2);
            let res2 = encode(z, q2);
            if res1 == TARGET_EASIEST {
                lemma_easiest_min(res2);
            } else {
                let z1 = zeros_of(res1);
                let k = (z - z1) as nat;
                lemma_pow_adds(256, z1, k);
                lemma_pow_positive(256, z1);
                lemma_pow_increases(256, 1, k);
                lemma_pow1(256);
                assert(pow(256, z1) * mantissa_pos(res2) <= pow(256, z) * mantissa_pos(res1))
                    by (nonlinear_arith)
                    requires
                        pow(256, z) == pow(256, z1) * pow(256, k),
                        pow(256, z1) >= 1,
                        pow(256, k) >= 256,
                        mantissa_pos(res2) <= 0x00ff_ffff,
                        mantissa_pos(res1) >= 0x0001_0000,
                ;
                assert(work_le(res1, res2));
            }
        } else {
            assert(r2 < num) by (nonlinear_arith)
                requires
                    r2 / num == 0,
                    1 <= num,
            ;
            assert(scale_down(z, r2, num) == scale_up(z, r2, num));
            lemma_up_shape(z, r2, num);
            let res2 = scale_up(z, r2, num);
            if res2 == TARGET_HARDEST {
                lemma_hardest_max(res1);
            } else if res1 == TARGET_EASIEST {
                lemma_easiest_min(res2);
            } else {
                let z1 = zeros_of(res1);
                let z2 = zeros_of(res2);
                let k = (z2 - z1) as nat;
                assert(z1 < z && z < z2);
                lemma_pow_adds(256, z1, k);
                lemma_pow_positive(256, z1);
                lemma_pow_increases(256, 2, k);
                lemma_pow_adds(256, 1, 1);
                lemma_pow1(256);
                assert(pow(256, 2) == 65536);
                assert(pow(256, z1) * mantissa_pos(res2) <= pow(256, z2) * mantissa_pos(res1))
                    by (nonlinear_arith)
                    requires
                        pow(256, z2) == pow(256, z1) * pow(256, k),
                        pow(256, z1) >= 1,
                        pow(256, k) >= 65536,
                        mantissa_pos(res2) <= 255,
                        mantissa_pos(res1) >= 1,
                ;
                assert(work_le(res1, res2));
            }
        }
    } else {
        if q2 >= 1 {
            assert(scale_down(z, r1, num) == encode(z, q1));
            assert(scale_down(z, r2, num) == encode(z, q2));
            lemma_encode_split(z, q1);
            lemma_encode_split(z, q2);
            lemma_pow_positive(256, z);
            assert(pow(256, z) * q2 <= pow(256, z) * q1) by (nonlinear_arith)
                requires
                    q2 <= q1,
                    pow(256, z) >= 0,
            ;
            assert(work_le(encode(z, q1), encode(z, q2)));
        } else if q1 >= 1 {
            assert(scale_down(z, r1, num) == encode(z, q1));
            lemma_encode_split(z, q1);
            let res1 = encode(z, q1);
            assert(r2 < num) by (nonlinear_arith)
                requires
                    r2 / num == 0,
                    1 <= num,
            ;
            assert(scale_down(z, r2, num) == scale_up(z, r2, num));
            lemma_up_shape(z, r2, num);
            let res2 = scale_up(z, r2, num);
            if res2 == TARGET_HARDEST {
                lemma_hardest_max(res1);
            } else {
                let z2 = zeros_of(res2);
                let k = (z2 - z) as nat;
                lemma_pow_adds(256, z, k);
                lemma_pow_positive(256, z);
                lemma_pow_increases(256, 1, k);
                lemma_pow1(256);
                assert(pow(256, z) * mantissa_pos(res2) <= pow(256, z2) * mantissa_pos(res1))
                    by (nonlinear_arith)
                    requires
                        pow(256, z2) == pow(256, z) * pow(256, k),
                        pow(256, z) >= 1,
                        pow(256, k) >= 256,
                        mantissa_pos(res2) <= 255,
                        mantissa_pos(res1) >= 1,
                ;
                assert(work_le(res1, res2));
            }
        } else {
            assert(r1 < num) by (nonlinear_arith)
                requires
                    r1 / num == 0,
                    1 <= num,
            ;
            assert(scale_down(z, r1, num) == scale_up(z, r1, num));
            assert(scale_down(z, r2, num) == scale_up(z, r2, num));
            lemma_up_mono(z, r1, r2, num);
        }
    }
}

/// Scaling keeps the work order of targets that share an exponent: of
/// two targets with the same zero-byte count, the one asking no more
/// work scales to a target asking no more work, under any one factor.
///
/// Across different exponents the law can fail: rounding on a scaled
/// mantissa near the bottom of its range can reorder works that were
/// nearly equal, so those inputs are left out.
pub proof fn lemma_scale_monotone_same_zeros(t1: u32, t2: u32, num: u32, den: u32)
    requires
        1 <= num,
        1 <= den,
        zeros_of(t1) == zeros_of(t2),
        work_le(t1, t2),
    ensures
        work_le(spec_scale(t1, num as nat, den as nat), spec_scale(t2, num as nat, den as nat)),
{
    lemma_split_bits(t1);
    lemma_split_bits(t2);
    lemma_pow_positive(256, zeros_of(t1));
    assert(mantissa_pos(t2) <= mantissa_pos(t1)) by (nonlinear_arith)
        requires
            pow(256, zeros_of(t1)) * mantissa_pos(t2) <= pow(256, zeros_of(t1)) * mantissa_pos(
                t1,
            ),
            pow(256, zeros_of(t1)) >= 1,
    ;
    lemma_mul_inequality(mantissa_pos(t2) as int, mantissa_pos(t1) as int, den as int);
    assert(1 <= mantissa_pos(t2) * den) by (nonlinear_arith)
        requires
            1 <= mantissa_pos(t2),
            1 <= den,
    ;
    lemma_down_mono(
        zeros_of(t1),
        (mantissa_pos(t1) * den) as nat,
        (mantissa_pos(t2) * den) as nat,
        num as nat,
    );
}

} // verus!
