//! Integer groundwork of the value coercion engine: powers of two, bit
//! lengths, and the little-endian byte encoding of machine values. Values
//! travel through the engine as byte buffers; this module fixes what those
//! bytes mean.

use vstd::prelude::*;

verus! {

/// Two to the `k`.
pub open spec fn p2(k: nat) -> int
    decreases k,
{
    if k == 0 {
        1
    } else {
        2 * p2((k - 1) as nat)
    }
}

pub proof fn lemma_p2_pos(k: nat)
    ensures
        p2(k) >= 1,
    decreases k,
{
    if k > 0 {
        lemma_p2_pos((k - 1) as nat);
    }
}

pub proof fn lemma_p2_mono(a: nat, b: nat)
    requires
        a <= b,
    ensures
        p2(a) <= p2(b),
    decreases b,
{
    if a < b {
        lemma_p2_mono(a, (b - 1) as nat);
        lemma_p2_pos((b - 1) as nat);
    }
}

pub proof fn lemma_p2_add(a: nat, b: nat)
    ensures
        p2(a + b) == p2(a) * p2(b),
    decreases a,
{
    if a > 0 {
        lemma_p2_add((a - 1) as nat, b);
        assert(p2(a + b) == 2 * p2((a - 1 + b) as nat));
        assert(2 * (p2((a - 1) as nat) * p2(b)) == (2 * p2((a - 1) as nat)) * p2(b))
            by (nonlinear_arith);
    }
}

/// Two to the `k`, executably, for exponents below 128.
pub fn pow2_u128(k: u32) -> (r: u128)
    requires
        k < 128,
    ensures
        r as int == p2(k as nat),
        r >= 1,
{
    let mut r: u128 = 1;
    let mut i: u32 = 0;
    proof {
        lemma_p2_mono(k as nat, 127);
        lemma_p2_127();
    }
    while i < k
        invariant
            i <= k < 128,
            r as int == p2(i as nat),
            p2(k as nat) <= p2(127),
            p2(127) == 0x8000_0000_0000_0000_0000_0000_0000_0000,
        decreases k - i,
    {
        proof {
            lemma_p2_mono((i + 1) as nat, k as nat);
        }
        r = r * 2;
        i = i + 1;
    }
    proof {
        lemma_p2_pos(k as nat);
    }
    r
}

#[verifier::rlimit(50)]
pub proof fn lemma_p2_127()
    ensures
        p2(127) == 0x8000_0000_0000_0000_0000_0000_0000_0000,
        p2(128) == 0x1_0000_0000_0000_0000_0000_0000_0000_0000,
        p2(120) == 0x100_0000_0000_0000_0000_0000_0000_0000,
        p2(63) == 0x8000_0000_0000_0000,
        p2(64) == 0x1_0000_0000_0000_0000,
        p2(52) == 0x10_0000_0000_0000,
        p2(53) == 0x20_0000_0000_0000,
        p2(23) == 0x80_0000,
        p2(24) == 0x100_0000,
        p2(32) == 0x1_0000_0000,
        p2(31) == 0x8000_0000,
        p2(16) == 0x1_0000,
        p2(15) == 0x8000,
        p2(8) == 0x100,
        p2(7) == 0x80,
        p2(11) == 0x800,
        p2(51) == 0x8_0000_0000_0000,
        p2(22) == 0x40_0000,
        p2(29) == 0x2000_0000,
{
    assert(p2(0) == 1 && p2(1) == 2 && p2(2) == 4 && p2(3) == 8 && p2(4) == 0x10
        && p2(5) == 0x20 && p2(6) == 0x40 && p2(7) == 0x80 && p2(8) == 0x100) by {
        reveal_with_fuel(p2, 9);
    }
    lemma_p2_add(8, 3);
    assert(p2(11) == 0x100 * 8);
    lemma_p2_add(8, 7);
    assert(p2(15) == 0x100 * 0x80);
    lemma_p2_add(8, 8);
    assert(p2(16) == 0x100 * 0x100);
    lemma_p2_add(16, 6);
    assert(p2(22) == 0x1_0000 * 0x40);
    lemma_p2_add(16, 7);
    assert(p2(23) == 0x1_0000 * 0x80);
    lemma_p2_add(16, 8);
    assert(p2(24) == 0x1_0000 * 0x100);
    lemma_p2_add(16, 15);
    assert(p2(31) == 0x1_0000 * 0x8000);
    lemma_p2_add(22, 7);
    assert(p2(29) == 0x40_0000 * 0x80);
    lemma_p2_add(16, 16);
    assert(p2(32) == 0x1_0000 * 0x1_0000);
    lemma_p2_add(32, 16);
    assert(p2(48) == 0x1_0000_0000 * 0x1_0000);
    lemma_p2_add(48, 3);
    assert(p2(51) == 0x1_0000_0000_0000 * 8);
    lemma_p2_add(48, 4);
    assert(p2(52) == 0x1_0000_0000_0000 * 0x10);
    lemma_p2_add(48, 5);
    assert(p2(53) == 0x1_0000_0000_0000 * 0x20);
    lemma_p2_add(48, 8);
    assert(p2(56) == 0x1_0000_0000_0000 * 0x100);
    lemma_p2_add(32, 31);
    assert(p2(63) == 0x1_0000_0000 * 0x8000_0000);
    lemma_p2_add(32, 32);
    assert(p2(64) == 0x1_0000_0000 * 0x1_0000_0000);
    lemma_p2_add(64, 56);
    assert(p2(120) == 0x1_0000_0000_0000_0000 * 0x100_0000_0000_0000);
    lemma_p2_add(64, 63);
    assert(p2(127) == 0x1_0000_0000_0000_0000 * 0x8000_0000_0000_0000);
    lemma_p2_add(64, 64);
    assert(p2(128) == 0x1_0000_0000_0000_0000 * 0x1_0000_0000_0000_0000);
}

/// The bit length of `m`: zero for zero, else the position of the top set
/// bit plus one.
pub open spec fn bitlen(m: int) -> nat
    decreases m,
{
    if m <= 0 {
        0
    } else {
        1 + bitlen(m / 2)
    }
}

pub proof fn lemma_bitlen_bounds(m: int)
    requires
        m >= 1,
    ensures
        bitlen(m) >= 1,
        p2((bitlen(m) - 1) as nat) <= m < p2(bitlen(m)),
    decreases m,
{
    if m == 1 {
        assert(bitlen(1) == 1 && p2(0) == 1 && p2(1) == 2) by {
            reveal_with_fuel(bitlen, 2);
            reveal_with_fuel(p2, 2);
        }
    } else {
        lemma_bitlen_bounds(m / 2);
        let k = bitlen(m / 2);
        assert(bitlen(m) == 1 + k);
        assert(p2((1 + k - 1) as nat) == p2(k));
        assert(p2((1 + k) as nat) == 2 * p2(k));
        assert(p2(k) == 2 * p2((k - 1) as nat));
    }
}

/// The bit length of `m`, executably.
pub fn bitlen_u128(m: u128) -> (r: u32)
    ensures
        r as nat == bitlen(m as int),
        r <= 128,
{
    let mut mm: u128 = m;
    let mut c: u32 = 0;
    proof {
        lemma_p2_127();
        lemma_bitlen_le(m as int, 128);
    }
    while mm > 0
        invariant
            bitlen(m as int) == c + bitlen(mm as int),
            bitlen(m as int) <= 128,
        decreases mm,
    {
        mm = mm / 2;
        c = c + 1;
        proof {
            assert(c <= bitlen(m as int)) by {
                lemma_bitlen_nonneg(mm as int);
            }
        }
    }
    c
}

pub proof fn lemma_bitlen_nonneg(m: int)
    ensures
        bitlen(m) >= 0,
{
}

/// A value below two to the `k` has bit length at most `k`.
pub proof fn lemma_bitlen_le(m: int, k: nat)
    requires
        0 <= m < p2(k),
    ensures
        bitlen(m) <= k,
    decreases k,
{
    if m > 0 {
        lemma_bitlen_bounds(m);
        if bitlen(m) > k {
            lemma_p2_mono(k, (bitlen(m) - 1) as nat);
        }
    }
}

// ------------------------------------------------------------------
// Little-endian bytes.
// ------------------------------------------------------------------

/// The unsigned value of a little-endian byte string.
pub open spec fn le_val(bs: Seq<u8>) -> int
    decreases bs.len(),
{
    if bs.len() == 0 {
        0
    } else {
        bs[0] + 256 * le_val(bs.skip(1))
    }
}

pub proof fn lemma_le_val_bounds(bs: Seq<u8>)
    ensures
        0 <= le_val(bs) < p2((8 * bs.len()) as nat),
    decreases bs.len(),
{
    if bs.len() == 0 {
    } else {
        lemma_le_val_bounds(bs.skip(1));
        lemma_p2_add(8, (8 * (bs.len() - 1)) as nat);
        assert(p2(8) == 256) by {
            reveal_with_fuel(p2, 9);
        }
    }
}

/// The little-endian byte string of `v`, `n` bytes long; `v` is taken
/// modulo two to the `8n`.
pub open spec fn le_bytes(v: int, n: nat) -> Seq<u8>
    decreases n,
{
    if n == 0 {
        Seq::empty()
    } else {
        seq![(v % 256) as u8] + le_bytes(v / 256, (n - 1) as nat)
    }
}

pub proof fn lemma_le_bytes_len(v: int, n: nat)
    ensures
        le_bytes(v, n).len() == n,
    decreases n,
{
    if n > 0 {
        lemma_le_bytes_len(v / 256, (n - 1) as nat);
    }
}

/// Encoding then decoding gives the value back, modulo the width.
pub proof fn lemma_le_roundtrip(v: int, n: nat)
    requires
        0 <= v < p2((8 * n) as nat),
    ensures
        le_val(le_bytes(v, n)) == v,
    decreases n,
{
    if n > 0 {
        lemma_p2_add(8, (8 * (n - 1)) as nat);
        assert(p2(8) == 256) by {
            reveal_with_fuel(p2, 9);
        }
        lemma_le_roundtrip(v / 256, (n - 1) as nat);
        assert(le_bytes(v, n).skip(1) =~= le_bytes(v / 256, (n - 1) as nat));
    }
}

/// Reads the `n`-byte little-endian value at `[from, from + n)` of `bs`.
pub fn read_le(bs: &Vec<u8>, from: usize, n: usize) -> (r: u128)
    requires
        from + n <= bs@.len(),
        n <= 16,
    ensures
        r as int == le_val(bs@.subrange(from as int, from + n)),
{
    let ghost sub = bs@.subrange(from as int, from + n);
    let blen = bs.len();
    let mut acc: u128 = 0;
    let mut i: usize = n;
    proof {
        assert(sub.skip(n as int) =~= Seq::<u8>::empty());
    }
    while i > 0
        invariant
            i <= n <= 16,
            from + n <= bs@.len(),
            blen == bs@.len(),
            sub == bs@.subrange(from as int, from + n),
            sub.len() == n,
            acc as int == le_val(sub.skip(i as int)),
            (acc as int) < p2((8 * (n - i)) as nat),
        decreases i,
    {
        proof {
            lemma_le_val_bounds(sub.skip(i - 1));
            assert(sub.skip(i - 1)[0] == bs@[from + i - 1]);
            assert(sub.skip(i - 1).skip(1) =~= sub.skip(i as int));
            lemma_p2_mono((8 * (n - i)) as nat, 120);
            lemma_p2_127();
            assert(p2(120) == 0x100_0000_0000_0000_0000_0000_0000_0000) by {
                reveal_with_fuel(p2, 129);
            }
        }
        i = i - 1;
        acc = acc * 256 + bs[from + i] as u128;
        proof {
            lemma_p2_add(8, (8 * (n - i - 1)) as nat);
            assert(p2(8) == 256) by {
                reveal_with_fuel(p2, 9);
            }
            lemma_le_val_bounds(sub.skip(i as int));
        }
    }
    proof {
        assert(sub.skip(0) =~= sub);
    }
    acc
}

// ------------------------------------------------------------------
// Binary floating-point bit patterns, as pure integer arithmetic.
// ------------------------------------------------------------------

/// The value of a floating-point bit pattern: not-a-number, a signed
/// infinity, or a signed finite magnitude `m` scaled by two to the `l`.
pub ghost enum FloatVal {
    Nan,
    Inf(bool),
    Fin { neg: bool, m: int, l: int },
}

/// `m` divided by two to the `sh`, rounded to nearest with ties to even.
pub open spec fn rne(m: int, sh: nat) -> int {
    let q = m / p2(sh);
    let r = m % p2(sh);
    if 2 * r > p2(sh) || (2 * r == p2(sh) && q % 2 == 1) {
        q + 1
    } else {
        q
    }
}

/// `rne`, executably, for any shift width.
pub fn rne_u128(m: u128, sh: u32) -> (r: u128)
    ensures
        r as int == rne(m as int, sh as nat),
        r as int <= (m as int) / p2(sh as nat) + 1,
{
    proof {
        lemma_p2_127();
    }
    if sh == 0 {
        proof {
            assert(p2(0) == 1) by {
                reveal_with_fuel(p2, 2);
            }
        }
        return m;
    }
    if sh >= 128 {
        proof {
            lemma_p2_mono(128, sh as nat);
            lemma_p2_pos(sh as nat);
            if sh > 128 {
                lemma_p2_mono(129, sh as nat);
                assert(p2(129) == 2 * p2(128));
            }
            assert((m as int) / p2(sh as nat) == 0) by {
                vstd::arithmetic::div_mod::lemma_basic_div(m as int, p2(sh as nat));
            }
            assert((m as int) % p2(sh as nat) == m as int) by {
                vstd::arithmetic::div_mod::lemma_small_mod(m as nat, p2(sh as nat) as nat);
            }
        }
        if sh == 128 {
            if m > 0x8000_0000_0000_0000_0000_0000_0000_0000 {
                return 1;
            } else {
                return 0;
            }
        }
        return 0;
    }
    let p = pow2_u128(sh);
    let q = m / p;
    let r = m % p;
    proof {
        assert(p >= 2) by {
            lemma_p2_mono(1, sh as nat);
            assert(p2(1) == 2) by {
                reveal_with_fuel(p2, 2);
            }
        }
        vstd::arithmetic::div_mod::lemma_div_is_ordered_by_denominator(m as int, 2, p as int);
        lemma_p2_mono(sh as nat, 127);
        assert(r < p);
    }
    if 2 * r > p || (2 * r == p && q % 2 == 1) {
        q + 1
    } else {
        q
    }
}

/// The fields of a 64-bit float pattern: sign, exponent field, fraction.
pub open spec fn f64_fields(bits: int) -> (bool, int, int) {
    (bits / p2(63) == 1, (bits / p2(52)) % p2(11), bits % p2(52))
}

/// The value of a 64-bit float pattern.
pub open spec fn f64_val(bits: int) -> FloatVal {
    let (neg, ef, fr) = f64_fields(bits);
    if ef == 0x7ff {
        if fr == 0 {
            FloatVal::Inf(neg)
        } else {
            FloatVal::Nan
        }
    } else if ef == 0 {
        FloatVal::Fin { neg, m: fr, l: -1074 }
    } else {
        FloatVal::Fin { neg, m: p2(52) + fr, l: ef - 1023 - 52 }
    }
}

/// The fields of a 32-bit float pattern.
pub open spec fn f32_fields(bits: int) -> (bool, int, int) {
    (bits / p2(31) == 1, (bits / p2(23)) % p2(8), bits % p2(23))
}

/// The value of a 32-bit float pattern.
pub open spec fn f32_val(bits: int) -> FloatVal {
    let (neg, ef, fr) = f32_fields(bits);
    if ef == 0xff {
        if fr == 0 {
            FloatVal::Inf(neg)
        } else {
            FloatVal::Nan
        }
    } else if ef == 0 {
        FloatVal::Fin { neg, m: fr, l: -149 }
    } else {
        FloatVal::Fin { neg, m: p2(23) + fr, l: ef - 127 - 23 }
    }
}

/// The bit pattern of the float nearest `±m` times two to the `l` (ties to
/// even), in the format with `prec` mantissa bits (hidden bit included),
/// greatest exponent `emax` and `ebits` exponent field bits.
pub open spec fn enc_fin(neg: bool, m: int, l: int, prec: nat, emax: int, ebits: nat) -> int {
    let sign_term = if neg {
        p2((prec - 1 + ebits) as nat)
    } else {
        0
    };
    if m == 0 {
        sign_term
    } else {
        let emin = 1 - emax;
        let k = bitlen(m) - 1;
        let e = k + l;
        let tl = if e >= emin {
            e - (prec - 1)
        } else {
            emin - (prec - 1)
        };
        let q0 = if tl <= l {
            m * p2((l - tl) as nat)
        } else {
            rne(m, (tl - l) as nat)
        };
        let q = if q0 >= p2(prec) {
            q0 / 2
        } else {
            q0
        };
        let tl2 = if q0 >= p2(prec) {
            tl + 1
        } else {
            tl
        };
        if q == 0 {
            sign_term
        } else if q < p2((prec - 1) as nat) {
            sign_term + q
        } else {
            let eunb = tl2 + (prec - 1);
            if eunb > emax {
                sign_term + (p2(ebits) - 1) * p2((prec - 1) as nat)
            } else {
                sign_term + (eunb + emax) * p2((prec - 1) as nat) + (q - p2(
                    (prec - 1) as nat,
                ))
            }
        }
    }
}

/// The fields of a 64-bit float pattern, executably.
pub fn f64_split(bits: u64) -> (r: (bool, u32, u64))
    ensures
        ({
            let (neg, ef, fr) = f64_fields(bits as int);
            r.0 == neg && r.1 as int == ef && r.2 as int == fr
        }),
{
    proof {
        lemma_p2_127();
    }
    let neg = bits / 0x8000_0000_0000_0000 == 1;
    let ef = ((bits / 0x10_0000_0000_0000) % 0x800) as u32;
    let fr = bits % 0x10_0000_0000_0000;
    (neg, ef, fr)
}

/// The fields of a 32-bit float pattern, executably.
pub fn f32_split(bits: u32) -> (r: (bool, u32, u32))
    ensures
        ({
            let (neg, ef, fr) = f32_fields(bits as int);
            r.0 == neg && r.1 as int == ef && r.2 as int == fr
        }),
{
    proof {
        lemma_p2_127();
    }
    let neg = bits / 0x8000_0000 == 1;
    let ef = (bits / 0x80_0000) % 0x100;
    let fr = bits % 0x80_0000;
    (neg, ef, fr)
}

/// `enc_fin`, executably, for the 32-bit and 64-bit formats.
pub fn enc_fin_exec(neg: bool, m: u128, l: i64, prec: u32, emax: i64, ebits: u32) -> (r: u64)
    requires
        (prec == 53 && emax == 1023 && ebits == 11) || (prec == 24 && emax == 127
            && ebits == 8),
        -1074 <= l <= 1024,
    ensures
        r as int == enc_fin(neg, m as int, l as int, prec as nat, emax as int, ebits as nat),
        ebits == 8 ==> r < 0x1_0000_0000,
{
    proof {
        lemma_p2_127();
    }
    let sign_term: u64 = if neg {
        if ebits == 11 {
            0x8000_0000_0000_0000
        } else {
            0x8000_0000
        }
    } else {
        0
    };
    assert(sign_term as int == if neg { p2((prec - 1 + ebits) as nat) } else { 0int });
    if m == 0 {
        return sign_term;
    }
    proof {
        lemma_bitlen_bounds(m as int);
        lemma_bitlen_le(m as int, 128);
    }
    let k: u32 = bitlen_u128(m) - 1;
    let ghost ki = k as int;
    let e: i64 = k as i64 + l;
    let emin: i64 = 1 - emax;
    let tl: i64 = if e >= emin {
        e - (prec as i64 - 1)
    } else {
        emin - (prec as i64 - 1)
    };
    let pp = pow2_u128(prec);
    let q0: u128 = if tl <= l {
        let sh: u32 = (l - tl) as u32;
        assert(sh + ki + 1 <= prec as int);
        let pm = pow2_u128(sh);
        proof {
            assert((m as int) * (pm as int) < p2((ki + 1) as nat) * (pm as int))
                by (nonlinear_arith)
                requires
                    (m as int) < p2((ki + 1) as nat),
                    (pm as int) >= 1,
            ;
            lemma_p2_add((ki + 1) as nat, sh as nat);
            lemma_p2_mono((ki + 1 + sh) as nat, prec as nat);
        }
        m * pm
    } else {
        let sh: u32 = (tl - l) as u32;
        assert(ki + 1 <= prec + sh);
        proof {
            lemma_p2_add(prec as nat, sh as nat);
            lemma_p2_mono((ki + 1) as nat, (prec + sh) as nat);
            lemma_p2_pos(sh as nat);
            assert((m as int) / p2(sh as nat) < p2(prec as nat)) by (nonlinear_arith)
                requires
                    0 <= (m as int) < p2(prec as nat) * p2(sh as nat),
                    p2(sh as nat) >= 1,
                    p2(prec as nat) >= 1,
            ;
        }
        rne_u128(m, sh)
    };
    assert((q0 as int) <= p2(prec as nat));
    let q: u128 = if q0 >= pp {
        q0 / 2
    } else {
        q0
    };
    let tl2: i64 = if q0 >= pp {
        tl + 1
    } else {
        tl
    };
    if q == 0 {
        return sign_term;
    }
    let ph = pow2_u128(prec - 1);
    proof {
        assert(p2(prec as nat) == 2 * p2((prec - 1) as nat));
        assert((q as int) < p2(prec as nat));
    }
    if q < ph {
        return sign_term + (q as u64);
    }
    let eunb: i64 = tl2 + (prec as i64 - 1);
    if eunb > emax {
        let efmax: u64 = if ebits == 11 {
            0x7ff
        } else {
            0xff
        };
        assert(efmax as int == p2(ebits as nat) - 1);
        proof {
            if ebits == 8 {
                assert(ph as int == p2(23));
            }
        }
        return sign_term + efmax * (ph as u64);
    }
    assert(eunb >= emin);
    let efield: u64 = (eunb + emax) as u64;
    proof {
        assert(1 <= efield <= 2046);
        assert(ph as int <= p2(52)) by {
            lemma_p2_mono((prec - 1) as nat, 52);
        }
        assert((efield as int) * (ph as int) <= 2046 * 0x10_0000_0000_0000)
            by (nonlinear_arith)
            requires
                1 <= (efield as int) <= 2046,
                1 <= (ph as int) <= 0x10_0000_0000_0000,
        ;
        assert((q as int) - (ph as int) < ph as int);
        if ebits == 8 {
            assert(efield <= 254);
            assert(ph as int == p2(23));
            assert((efield as int) * (ph as int) <= 254 * 0x80_0000)
                by (nonlinear_arith)
                requires
                    1 <= (efield as int) <= 254,
                    (ph as int) == 0x80_0000,
            ;
        }
    }
    sign_term + efield * (ph as u64) + ((q - ph) as u64)
}

/// The 64-bit widening of a 32-bit float pattern: exact for every finite
/// value; a not-a-number pattern keeps its sign and payload.
pub open spec fn f32b_to_f64b_spec(bits: int) -> int {
    let (neg, ef, fr) = f32_fields(bits);
    let sign_term = if neg {
        p2(63)
    } else {
        0
    };
    match f32_val(bits) {
        FloatVal::Nan => sign_term + 0x7ff * p2(52) + fr * p2(29),
        FloatVal::Inf(_) => sign_term + 0x7ff * p2(52),
        FloatVal::Fin { m, l, .. } => enc_fin(neg, m, l, 53, 1023, 11),
    }
}

/// `f32b_to_f64b_spec`, executably.
pub fn f32b_to_f64b(bits: u32) -> (r: u64)
    ensures
        r as int == f32b_to_f64b_spec(bits as int),
{
    proof {
        lemma_p2_127();
    }
    let (neg, ef, fr) = f32_split(bits);
    let sign_term: u64 = if neg {
        0x8000_0000_0000_0000
    } else {
        0
    };
    if ef == 0xff {
        if fr == 0 {
            sign_term + 0x7ff0_0000_0000_0000
        } else {
            sign_term + 0x7ff0_0000_0000_0000 + (fr as u64) * 0x2000_0000
        }
    } else if ef == 0 {
        enc_fin_exec(neg, fr as u128, -149, 53, 1023, 11)
    } else {
        enc_fin_exec(neg, (0x80_0000 + fr) as u128, ef as i64 - 150, 53, 1023, 11)
    }
}

/// The 32-bit narrowing of a 64-bit float pattern: round to nearest with
/// ties to even, overflowing to infinity; a not-a-number pattern becomes the
/// canonical quiet not-a-number of its sign.
pub open spec fn f64b_to_f32b_spec(bits: int) -> int {
    let (neg, ef, fr) = f64_fields(bits);
    let sign_term = if neg {
        p2(31)
    } else {
        0
    };
    match f64_val(bits) {
        FloatVal::Nan => sign_term + 0x7fc0_0000,
        FloatVal::Inf(_) => sign_term + 0x7f80_0000,
        FloatVal::Fin { m, l, .. } => enc_fin(neg, m, l, 24, 127, 8),
    }
}

/// `f64b_to_f32b_spec`, executably.
pub fn f64b_to_f32b(bits: u64) -> (r: u32)
    ensures
        r as int == f64b_to_f32b_spec(bits as int),
{
    proof {
        lemma_p2_127();
    }
    let (neg, ef, fr) = f64_split(bits);
    let sign_term: u32 = if neg {
        0x8000_0000
    } else {
        0
    };
    if ef == 0x7ff {
        if fr == 0 {
            sign_term + 0x7f80_0000
        } else {
            sign_term + 0x7fc0_0000
        }
    } else if ef == 0 {
        enc_fin_exec(neg, fr as u128, -1074, 24, 127, 8) as u32
    } else {
        enc_fin_exec(neg, (0x10_0000_0000_0000 + fr) as u128, ef as i64 - 1075, 24, 127, 8)
            as u32
    }
}

/// The 64-bit float pattern nearest the signed integer `±mag`.
pub open spec fn int_to_f64b_spec(neg: bool, mag: int) -> int {
    enc_fin(neg, mag, 0, 53, 1023, 11)
}

/// `int_to_f64b_spec`, executably.
pub fn int_to_f64b(neg: bool, mag: u128) -> (r: u64)
    ensures
        r as int == int_to_f64b_spec(neg, mag as int),
{
    enc_fin_exec(neg, mag, 0, 53, 1023, 11)
}

/// The 32-bit float pattern nearest the signed integer `±mag`.
pub open spec fn int_to_f32b_spec(neg: bool, mag: int) -> int {
    enc_fin(neg, mag, 0, 24, 127, 8)
}

/// `int_to_f32b_spec`, executably.
pub fn int_to_f32b(neg: bool, mag: u128) -> (r: u32)
    ensures
        r as int == int_to_f32b_spec(neg, mag as int),
{
    int_to_f32b_inner(neg, mag)
}

fn int_to_f32b_inner(neg: bool, mag: u128) -> (r: u32)
    ensures
        r as int == enc_fin(neg, mag as int, 0, 24, 127, 8),
{
    enc_fin_exec(neg, mag, 0, 24, 127, 8) as u32
}

/// The integer magnitude of a finite float value, truncated toward zero.
pub open spec fn trunc_mag(m: int, l: int) -> int {
    if l >= 0 {
        m * p2(l as nat)
    } else {
        m / p2((-l) as nat)
    }
}

/// The 64-bit float pattern read as an integer: truncated toward zero and
/// saturated to `[lo, hi]`; not-a-number reads as zero.
pub open spec fn f64b_as_int_spec(bits: int, lo: int, hi: int) -> int {
    match f64_val(bits) {
        FloatVal::Nan => 0,
        FloatVal::Inf(neg) => if neg {
            lo
        } else {
            hi
        },
        FloatVal::Fin { neg, m, l } => {
            let mag = trunc_mag(m, l);
            let v = if neg {
                -mag
            } else {
                mag
            };
            if v < lo {
                lo
            } else if v > hi {
                hi
            } else {
                v
            }
        },
    }
}

/// `f64b_as_int_spec`, executably.
pub fn f64b_as_int(bits: u64, lo: i128, hi: i128) -> (r: i128)
    requires
        lo <= 0 < hi,
    ensures
        r as int == f64b_as_int_spec(bits as int, lo as int, hi as int),
{
    proof {
        lemma_p2_127();
    }
    let (neg, ef, fr) = f64_split(bits);
    if ef == 0x7ff {
        if fr != 0 {
            return 0;
        }
        if neg {
            return lo;
        }
        return hi;
    }
    let m: u64 = if ef == 0 {
        fr
    } else {
        0x10_0000_0000_0000 + fr
    };
    let l: i64 = if ef == 0 {
        -1074
    } else {
        ef as i64 - 1075
    };
    if m == 0 {
        proof {
            lemma_p2_pos((-l) as nat);
            lemma_p2_pos(l as nat);
            if l < 0 {
                vstd::arithmetic::div_mod::lemma_basic_div(0, p2((-l) as nat));
            }
        }
        return 0;
    }
    proof {
        lemma_bitlen_bounds(m as int);
        lemma_bitlen_le(m as int, 54);
        assert(p2(54) == 2 * p2(53));
    }
    let k: u32 = bitlen_u128(m as u128) - 1;
    let mag: u128 = if l >= 0 {
        if k as i64 + l >= 127 {
            proof {
                lemma_p2_pos(l as nat);
                assert((m as int) * p2(l as nat) >= p2(k as nat) * p2(l as nat))
                    by (nonlinear_arith)
                    requires
                        (m as int) >= p2(k as nat),
                        p2(l as nat) >= 1,
                ;
                lemma_p2_add(k as nat, l as nat);
                lemma_p2_mono(127, (k + l) as nat);
            }
            if neg {
                return lo;
            }
            return hi;
        }
        let pl = pow2_u128(l as u32);
        proof {
            assert((m as int) * (pl as int) < p2((k + 1) as nat) * (pl as int))
                by (nonlinear_arith)
                requires
                    (m as int) < p2((k + 1) as nat),
                    (pl as int) >= 1,
            ;
            lemma_p2_add((k + 1) as nat, l as nat);
            lemma_p2_mono((k + 1 + l) as nat, 127);
        }
        (m as u128) * pl
    } else {
        let nl: u32 = if l < -127 {
            128
        } else {
            (-l) as u32
        };
        if nl >= 128 {
            proof {
                lemma_p2_mono(54, (-l) as nat);
                assert((m as int) / p2((-l) as nat) == 0) by {
                    vstd::arithmetic::div_mod::lemma_basic_div(
                        m as int,
                        p2((-l) as nat),
                    );
                }
            }
            0
        } else {
            let pl = pow2_u128(nl);
            (m as u128) / pl
        }
    };
    proof {
        lemma_p2_pos((-l) as nat);
        if l < 0 {
            vstd::arithmetic::div_mod::lemma_div_is_ordered_by_denominator(
                m as int,
                1,
                p2((-l) as nat),
            );
            vstd::arithmetic::div_mod::lemma_div_by_self(1);
        }
    }
    assert(mag as int == trunc_mag(m as int, l as int));
    assert((mag as int) < p2(127));
    if neg {
        let v: i128 = -(mag as i128);
        if v < lo {
            lo
        } else {
            v
        }
    } else {
        let v: i128 = mag as i128;
        if v > hi {
            hi
        } else {
            v
        }
    }
}

/// The `n`-byte little-endian encoding of `v`.
pub fn write_le(v: u128, n: usize) -> (r: Vec<u8>)
    requires
        n <= 16,
    ensures
        r@ == le_bytes(v as int, n as nat),
        r@.len() == n,
{
    let mut out: Vec<u8> = Vec::new();
    let mut cur: u128 = v;
    let mut i: usize = 0;
    while i < n
        invariant
            i <= n,
            out@.len() == i,
            le_bytes(v as int, n as nat) == out@ + le_bytes(
                cur as int,
                (n - i) as nat,
            ),
        decreases n - i,
    {
        let ghost out0 = out@;
        let ghost cur0 = cur as int;
        let b: u8 = (cur % 256) as u8;
        out.push(b);
        cur = cur / 256;
        proof {
            assert(le_bytes(cur0, (n - i) as nat) == seq![(cur0 % 256) as u8]
                + le_bytes(cur0 / 256, (n - i - 1) as nat));
            assert(out0 + le_bytes(cur0, (n - i) as nat) =~= out0.push(b) + le_bytes(
                cur as int,
                (n - i - 1) as nat,
            ));
        }
        i = i + 1;
    }
    proof {
        lemma_le_bytes_len(v as int, n as nat);
        assert(le_bytes(cur as int, 0) =~= Seq::<u8>::empty());
        assert(out@ + Seq::<u8>::empty() =~= out@);
    }
    out
}

/// The signed (two's-complement) value of a little-endian byte string.
pub open spec fn sval(bs: Seq<u8>) -> int {
    if le_val(bs) >= p2((8 * bs.len() - 1) as nat) {
        le_val(bs) - p2((8 * bs.len()) as nat)
    } else {
        le_val(bs)
    }
}

/// Reads the signed little-endian value of all of `bs`.
pub fn read_sext(bs: &Vec<u8>) -> (v: i128)
    requires
        1 <= bs@.len() <= 16,
    ensures
        v as int == sval(bs@),
{
    let n = bs.len();
    let u = read_le(bs, 0, n);
    proof {
        assert(bs@.subrange(0, n as int) =~= bs@);
        lemma_le_val_bounds(bs@);
        lemma_p2_127();
        assert(p2((8 * n) as nat) == 2 * p2((8 * n - 1) as nat));
        lemma_p2_mono((8 * n - 1) as nat, 127);
    }
    let half: u128 = if n == 16 {
        0x8000_0000_0000_0000_0000_0000_0000_0000
    } else {
        pow2_u128((8 * n - 1) as u32)
    };
    if u < half {
        u as i128
    } else if n == 16 {
        -((u128::MAX - u) as i128) - 1
    } else {
        let pow = pow2_u128((8 * n) as u32);
        -((pow - u) as i128)
    }
}

/// The nonnegative remainder of `v` modulo two to the `k`.
pub fn emod_exec(v: i128, k: u32) -> (r: u128)
    requires
        8 <= k <= 128,
    ensures
        r as int == (v as int) % p2(k as nat),
{
    proof {
        lemma_p2_127();
        lemma_p2_pos(k as nat);
    }
    let u: u128 = if v >= 0 {
        v as u128
    } else {
        u128::MAX - ((-(v + 1)) as u128)
    };
    proof {
        if v < 0 {
            assert(u as int == v + p2(128));
        }
        lemma_p2_add(k as nat, (128 - k) as nat);
        vstd::arithmetic::div_mod::lemma_mod_multiples_vanish(
            p2((128 - k) as nat),
            v as int,
            p2(k as nat),
        );
        assert((u as int) % p2(k as nat) == (v as int) % p2(k as nat));
    }
    if k == 128 {
        proof {
            vstd::arithmetic::div_mod::lemma_small_mod(u as nat, p2(128) as nat);
        }
        u
    } else {
        u % pow2_u128(k)
    }
}

/// Integer round trip through a value slot: a signed value written into an
/// `n`-byte integer slot and read back signed is unchanged whenever it fits
/// the slot, so narrowing only ever drops high bits and widening
/// sign-extends exactly.
pub proof fn lemma_signed_slot_round_trip(v: int, n: nat)
    requires
        1 <= n <= 16,
        -p2((8 * n - 1) as nat) <= v < p2((8 * n - 1) as nat),
    ensures
        sval(le_bytes(v % p2((8 * n) as nat), n)) == v,
{
    let w = (8 * n) as nat;
    let m = p2(w);
    lemma_p2_pos(w);
    lemma_p2_pos((w - 1) as nat);
    assert(m == 2 * p2((w - 1) as nat));
    let u = v % m;
    if v >= 0 {
        vstd::arithmetic::div_mod::lemma_small_mod(v as nat, m as nat);
        assert(u == v);
        lemma_le_roundtrip(u, n);
        lemma_le_bytes_len(u, n);
    } else {
        assert(0 <= v + m < m);
        vstd::arithmetic::div_mod::lemma_mod_multiples_vanish(1, v, m);
        vstd::arithmetic::div_mod::lemma_small_mod((v + m) as nat, m as nat);
        assert(u == v + m);
        lemma_le_roundtrip(u, n);
        lemma_le_bytes_len(u, n);
        assert(le_val(le_bytes(u, n)) == u);
        assert(u >= p2((w - 1) as nat));
    }
}

} // verus!
