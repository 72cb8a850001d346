//! Shannon entropy of a byte string in fixed point.
//!
//! The classifier only needs the entropy through threshold comparisons, so
//! the value is computed deterministically in milli-bits: the entropy of a
//! string of length `n` with byte counts `c_b` is
//! `(1/n) * sum over b of c_b * log2(n / c_b)`, and each logarithm is
//! evaluated by a binary fixed-point expansion with ten fractional bits.

use vstd::prelude::*;

verus! {

/// Two to the power `n`.
pub open spec fn two_pow(n: nat) -> nat
    decreases n,
{
    if n == 0 {
        1
    } else {
        2 * two_pow((n - 1) as nat)
    }
}

/// floor(log2(p / q)) for 1 <= q <= p: the largest k with q * 2^k <= p.
pub open spec fn floor_log2_ratio(p: nat, q: nat) -> nat
    decreases p - q,
    when 1 <= q <= p
{
    if 2 * q > p {
        0
    } else {
        1 + floor_log2_ratio(p, 2 * q)
    }
}

/// Binary expansion of the fractional part of log2: `y` is a 16.16
/// fixed-point value in [1, 2); each step squares it and extracts one bit,
/// accumulating into `acc`.
pub open spec fn frac_bits(y: nat, acc: nat, n: nat) -> nat
    decreases n,
{
    if n == 0 {
        acc
    } else {
        let y2 = (y * y) / 65536;
        if y2 >= 131072 {
            frac_bits(y2 / 2, 2 * acc + 1, (n - 1) as nat)
        } else {
            frac_bits(y2, 2 * acc, (n - 1) as nat)
        }
    }
}

/// log2(p / q) in milli-bits, for 1 <= q <= p: integer part exact,
/// fractional part from a ten-bit binary expansion.
pub open spec fn log2_milli(p: nat, q: nat) -> nat {
    let k = floor_log2_ratio(p, q);
    let y0 = (p * 65536) / (q * two_pow(k));
    k * 1000 + (frac_bits(y0, 0, 10) * 1000) / 1024
}

/// How many positions of `s` hold the byte `b`.
pub open spec fn count_byte(s: Seq<u8>, b: u8) -> nat
    decreases s.len(),
{
    if s.len() == 0 {
        0
    } else {
        count_byte(s.drop_last(), b) + if s.last() == b {
            1nat
        } else {
            0nat
        }
    }
}

/// Sum over byte values below `b` of `c * log2(len / c)` in milli-bits,
/// where `c` is the count of that byte value.
pub open spec fn entropy_sum(s: Seq<u8>, b: int) -> nat
    decreases b,
    when b >= 0
{
    if b <= 0 {
        0
    } else {
        let c = count_byte(s, (b - 1) as u8);
        entropy_sum(s, b - 1) + if c > 0 {
            c * log2_milli(s.len(), c)
        } else {
            0nat
        }
    }
}

/// Shannon entropy of `s` in milli-bits.
pub open spec fn spec_entropy_milli(s: Seq<u8>) -> nat {
    if s.len() == 0 {
        0
    } else {
        entropy_sum(s, 256) / s.len()
    }
}

/// A byte count never exceeds the string's length.
pub proof fn lemma_count_le_len(s: Seq<u8>, b: u8)
    ensures
        count_byte(s, b) <= s.len(),
    decreases s.len(),
{
    if s.len() > 0 {
        lemma_count_le_len(s.drop_last(), b);
    }
}

/// Unfolding a count across one appended element.
pub proof fn lemma_count_take_step(s: Seq<u8>, b: u8, i: int)
    requires
        0 <= i < s.len(),
    ensures
        count_byte(s.take(i + 1), b) == count_byte(s.take(i), b) + if s[i] == b {
            1nat
        } else {
            0nat
        },
{
    assert(s.take(i + 1).drop_last() =~= s.take(i));
    assert(s.take(i + 1).last() == s[i]);
}

/// The doubled base still fits below `p` after the full expansion.
proof fn lemma_floor_log2_bound(p: nat, q: nat)
    requires
        1 <= q <= p,
    ensures
        q * two_pow(floor_log2_ratio(p, q)) <= p,
        floor_log2_ratio(p, q) <= p - q,
    decreases p - q,
{
    if 2 * q > p {
        assert(floor_log2_ratio(p, q) == 0);
        assert(two_pow(0) == 1);
    } else {
        lemma_floor_log2_bound(p, 2 * q);
        let k = floor_log2_ratio(p, 2 * q);
        assert(floor_log2_ratio(p, q) == 1 + k);
        assert((2 * q) * two_pow(k) <= p);
        lemma_two_pow_step(k);
        assert(q * two_pow(k + 1) == (2 * q) * two_pow(k)) by (nonlinear_arith)
            requires
                two_pow(k + 1) == 2 * two_pow(k),
        ;
    }
}

proof fn lemma_two_pow_step(k: nat)
    ensures
        two_pow(k + 1) == 2 * two_pow(k),
{
}

/// The fractional accumulator stays below 2^n more than it started with.
proof fn lemma_frac_bits_bound(y: nat, acc: nat, n: nat)
    ensures
        frac_bits(y, acc, n) < (acc + 1) * two_pow(n),
    decreases n,
{
    if n == 0 {
        assert((acc + 1) * two_pow(0) == acc + 1) by (nonlinear_arith)
            requires
                two_pow(0) == 1,
        ;
    } else {
        let m = (n - 1) as nat;
        let y2 = (y * y) / 65536;
        lemma_two_pow_step(m);
        assert((2 * acc + 2) * two_pow(m) == (acc + 1) * two_pow(n)) by (nonlinear_arith)
            requires
                two_pow(n) == 2 * two_pow(m),
        ;
        if y2 >= 131072 {
            lemma_frac_bits_bound(y2 / 2, 2 * acc + 1, m);
            assert(frac_bits(y, acc, n) == frac_bits(y2 / 2, 2 * acc + 1, m));
        } else {
            lemma_frac_bits_bound(y2, 2 * acc, m);
            assert(frac_bits(y, acc, n) == frac_bits(y2, 2 * acc, m));
            assert((2 * acc + 1) * two_pow(m) <= (2 * acc + 2) * two_pow(m)) by (nonlinear_arith)
                requires
                    two_pow(m) >= 0,
            ;
        }
    }
}

/// A milli-bit logarithm of a ratio bounded by 253 is below 8000.
pub proof fn lemma_log2_milli_bound(p: nat, q: nat)
    requires
        1 <= q <= p <= 253,
    ensures
        log2_milli(p, q) < 8000,
{
    lemma_floor_log2_bound(p, q);
    let k = floor_log2_ratio(p, q);
    assert(two_pow(k) <= q * two_pow(k)) by (nonlinear_arith)
        requires
            q >= 1,
    ;
    assert(two_pow(k) <= 253);
    assert(k <= 7) by {
        if k >= 8 {
            lemma_two_pow_monotone(8, k);
            reveal_with_fuel(two_pow, 9);
            assert(two_pow(8) == 256);
        }
    }
    let y0 = (p * 65536) / (q * two_pow(k));
    lemma_frac_bits_bound(y0, 0, 10);
    assert(two_pow(10) == 1024) by {
        reveal_with_fuel(two_pow, 11);
    }
    assert(frac_bits(y0, 0, 10) <= 1023);
    assert((frac_bits(y0, 0, 10) * 1000) / 1024 <= 999) by (nonlinear_arith)
        requires
            frac_bits(y0, 0, 10) <= 1023,
    ;
}

proof fn lemma_two_pow_monotone(a: nat, b: nat)
    requires
        a <= b,
    ensures
        two_pow(a) <= two_pow(b),
    decreases b,
{
    if a < b {
        lemma_two_pow_monotone(a, (b - 1) as nat);
    }
}

/// Exec computation of `log2_milli`.
pub fn log2_milli_exec(p: u64, q: u64) -> (r: u64)
    requires
        1 <= q <= p <= 100000,
    ensures
        r == log2_milli(p as nat, q as nat),
        r < 18000,
{
    let mut k: u64 = 0;
    let mut qq: u64 = q;
    while 2 * qq <= p
        invariant
            1 <= q <= p <= 100000,
            1 <= qq <= p,
            k <= 17,
            qq >= two_pow(k as nat),
            qq == q * two_pow(k as nat),
            floor_log2_ratio(p as nat, q as nat) == k + floor_log2_ratio(p as nat, qq as nat),
        decreases p - qq,
    {
        proof {
            lemma_two_pow_step(k as nat);
            assert(q * two_pow((k + 1) as nat) == 2 * (q * two_pow(k as nat))) by (nonlinear_arith)
                requires
                    two_pow((k + 1) as nat) == 2 * two_pow(k as nat),
            ;
            assert(floor_log2_ratio(p as nat, qq as nat) == 1 + floor_log2_ratio(
                p as nat,
                (2 * qq) as nat,
            ));
            if k + 1 > 17 {
                lemma_two_pow_monotone(18, (k + 1) as nat);
                reveal_with_fuel(two_pow, 19);
                assert(two_pow(18) == 262144);
                assert(q * two_pow((k + 1) as nat) >= two_pow((k + 1) as nat))
                    by (nonlinear_arith)
                    requires
                        q >= 1,
                ;
                assert(2 * qq >= 262144);
                assert(false);
            }
        }
        qq = 2 * qq;
        k = k + 1;
    }
    proof {
        assert(floor_log2_ratio(p as nat, qq as nat) == 0);
        assert(k == floor_log2_ratio(p as nat, q as nat));
    }
    let y0: u64 = (p * 65536) / qq;
    proof {
        assert(y0 == (p as nat * 65536) / (q as nat * two_pow(k as nat)));
        assert(y0 >= 65536) by (nonlinear_arith)
            requires
                qq >= 1 && qq <= p && p <= 100000 && y0 == (p as int * 65536) / (qq as int),
        ;
        assert(y0 < 131072) by (nonlinear_arith)
            requires
                qq >= 1 && p < 2 * qq && y0 == (p as int * 65536) / (qq as int),
        ;
    }
    let mut y: u64 = y0;
    let mut acc: u64 = 0;
    let mut i: u64 = 0;
    while i < 10
        invariant
            i <= 10,
            65536 <= y < 131072,
            acc < two_pow(i as nat),
            frac_bits(y0 as nat, 0, 10) == frac_bits(y as nat, acc as nat, (10 - i) as nat),
        decreases 10 - i,
    {
        proof {
            lemma_two_pow_step(i as nat);
            reveal_with_fuel(two_pow, 11);
            assert(two_pow(10) == 1024);
            lemma_two_pow_monotone(i as nat, 10);
            assert(acc < 1024);
            assert(y * y < 131072 * 131072) by (nonlinear_arith)
                requires
                    y < 131072,
            ;
            assert(y * y >= 65536 * 65536) by (nonlinear_arith)
                requires
                    y >= 65536,
            ;
        }
        let y2: u64 = (y * y) / 65536;
        proof {
            assert(y2 >= 65536);
            assert(y2 < 262144);
        }
        if y2 >= 131072 {
            y = y2 / 2;
            acc = 2 * acc + 1;
        } else {
            y = y2;
            acc = 2 * acc;
        }
        i = i + 1;
    }
    proof {
        assert(acc == frac_bits(y0 as nat, 0, 10));
        reveal_with_fuel(two_pow, 11);
        assert(acc < 1024);
    }
    k * 1000 + (acc * 1000) / 1024
}

/// Shannon entropy of the byte string in milli-bits, computed exactly as
/// `spec_entropy_milli` states it.
pub fn entropy_milli(s: &Vec<u8>) -> (r: u64)
    requires
        s@.len() <= 253,
    ensures
        r == spec_entropy_milli(s@),
{
    let n = s.len();
    if n == 0 {
        return 0;
    }
    // per-byte counts
    let mut counts: Vec<u64> = Vec::new();
    let mut b: usize = 0;
    while b < 256
        invariant
            b <= 256,
            counts@.len() == b,
            forall|k: int| 0 <= k < b ==> counts@[k] == 0,
        decreases 256 - b,
    {
        counts.push(0);
        b += 1;
    }
    let mut i: usize = 0;
    while i < n
        invariant
            n == s@.len() <= 253,
            i <= n,
            counts@.len() == 256,
            forall|k: int| 0 <= k < 256 ==> counts@[k] == count_byte(s@.take(i as int), k as u8),
        decreases n - i,
    {
        let bv = s[i] as usize;
        proof {
            lemma_count_le_len(s@.take(i as int), s@[i as int]);
            assert(counts@[bv as int] <= i);
        }
        counts[bv] = counts[bv] + 1;
        proof {
            assert forall|k: int| 0 <= k < 256 implies counts@[k] == count_byte(
                s@.take(i as int + 1),
                k as u8,
            ) by {
                lemma_count_take_step(s@, k as u8, i as int);
            }
        }
        i += 1;
    }
    proof {
        assert(s@.take(n as int) =~= s@);
    }
    // milli-bit sum
    let mut sum: u64 = 0;
    let mut b: usize = 0;
    while b < 256
        invariant
            n == s@.len(),
            1 <= n <= 253,
            counts@.len() == 256,
            forall|k: int| 0 <= k < 256 ==> counts@[k] == count_byte(s@, k as u8),
            b <= 256,
            sum == entropy_sum(s@, b as int),
            sum <= b * 253 * 8000,
        decreases 256 - b,
    {
        let c = counts[b];
        proof {
            lemma_count_le_len(s@, b as u8);
        }
        if c > 0 {
            let l = log2_milli_exec(n as u64, c);
            proof {
                lemma_log2_milli_bound(n as nat, c as nat);
                assert(c * l <= 253 * 8000) by (nonlinear_arith)
                    requires
                        c <= 253 && l < 8000,
                ;
            }
            sum = sum + c * l;
        }
        b += 1;
    }
    sum / (n as u64)
}

/// The entropy sum, hence the entropy, is bounded.
pub proof fn lemma_entropy_sum_bound(s: Seq<u8>, b: int)
    requires
        1 <= s.len() <= 253,
        b >= 0,
    ensures
        entropy_sum(s, b) <= b * 253 * 8000,
    decreases b,
{
    if b > 0 {
        lemma_entropy_sum_bound(s, b - 1);
        let c = count_byte(s, (b - 1) as u8);
        lemma_count_le_len(s, (b - 1) as u8);
        if c > 0 {
            lemma_log2_milli_bound(s.len(), c);
            assert(c * log2_milli(s.len(), c) <= 253 * 8000) by (nonlinear_arith)
                requires
                    c <= 253 && log2_milli(s.len(), c) < 8000,
            ;
        }
        assert((b - 1) * 253 * 8000 + 253 * 8000 == b * 253 * 8000) by (nonlinear_arith);
    }
}

/// The fixed-point entropy fits comfortably in milli-bits.
pub proof fn lemma_entropy_milli_bound(s: Seq<u8>)
    requires
        s.len() <= 253,
    ensures
        spec_entropy_milli(s) <= 256 * 253 * 8000,
{
    if s.len() > 0 {
        lemma_entropy_sum_bound(s, 256);
        assert(entropy_sum(s, 256) / s.len() <= 256 * 253 * 8000) by (nonlinear_arith)
            requires
                s.len() >= 1 && entropy_sum(s, 256) <= 256 * 253 * 8000,
        ;
    }
}

} // verus!
