//! The RFC 1071 Internet checksum: one's-complement sums of 16-bit
//! big-endian words with end-around carry, over an arbitrary byte region.

use vstd::prelude::*;
use vstd::arithmetic::div_mod::{
    lemma_fundamental_div_mod, lemma_mod_multiples_basic, lemma_mod_multiples_vanish,
    lemma_mod_sub_multiples_vanish, lemma_small_mod,
};

verus! {

/// Sum of the 16-bit big-endian words of `b`, starting at byte index `i`.
/// An unpaired final byte is the high byte of a word whose low byte is zero.
pub open spec fn words_sum(b: Seq<u8>, i: int) -> int
    decreases b.len() - i,
{
    if i + 2 <= b.len() {
        b[i] * 256 + b[i + 1] + words_sum(b, i + 2)
    } else if i + 1 == b.len() {
        b[i] * 256
    } else {
        0
    }
}

/// One carry fold: the high 16 bits of `x` added onto its low 16 bits.
pub open spec fn fold_carry(x: int) -> int {
    x % 0x10000 + x / 0x10000
}

/// The RFC 1071 checksum of a word sum `x`: fold the carries twice (two
/// folds suffice for any 32-bit sum) and take the one's complement of the
/// 16-bit result.
pub open spec fn checksum16(x: int) -> int {
    0xFFFF - fold_carry(fold_carry(x))
}

/// A byte region passes verification when the checksum over all of its
/// words, received checksum field included, comes out zero (equivalently,
/// the folded sum is 0xFFFF).
pub open spec fn checksum_ok(b: Seq<u8>) -> bool {
    checksum16(words_sum(b, 0)) == 0
}

/// A word sum is nonnegative and bounded by 0xFFFF per (possibly half-)
/// word: twice the sum of the bytes from `i` on is at most
/// `(b.len() - i + 1) * 0xFFFF`.
pub proof fn lemma_words_sum_bounds(b: Seq<u8>, i: int)
    requires
        i <= b.len(),
    ensures
        0 <= words_sum(b, i),
        2 * words_sum(b, i) <= (b.len() - i + 1) * 0xFFFF,
    decreases b.len() - i,
{
    if i + 2 <= b.len() {
        lemma_words_sum_bounds(b, i + 2);
    }
}

/// Folding preserves the value modulo 0xFFFF, because 0x10000 is congruent
/// to 1.
proof fn lemma_fold_carry_congruent(x: int)
    requires
        0 <= x,
    ensures
        fold_carry(x) % 0xFFFF == x % 0xFFFF,
{
    lemma_fundamental_div_mod(x, 0x10000);
    assert(x == 0xFFFF * (x / 0x10000) + fold_carry(x));
    lemma_mod_multiples_vanish(x / 0x10000, fold_carry(x), 0xFFFF);
}

/// Two folds bring any 32-bit word sum down to 16 bits; the result keeps
/// the residue modulo 0xFFFF and is zero exactly for a zero sum.
pub proof fn lemma_double_fold(x: int)
    requires
        0 <= x <= 0xFFFF_FFFF,
    ensures
        0 <= fold_carry(fold_carry(x)) <= 0xFFFF,
        fold_carry(fold_carry(x)) % 0xFFFF == x % 0xFFFF,
        (fold_carry(fold_carry(x)) == 0) <==> (x == 0),
{
    lemma_fundamental_div_mod(x, 0x10000);
    let y = fold_carry(x);
    lemma_fundamental_div_mod(y, 0x10000);
    let z = fold_carry(y);
    lemma_fold_carry_congruent(x);
    lemma_fold_carry_congruent(y);
}

/// The complement of the folded sum is zero exactly when the sum is a
/// nonzero multiple of 0xFFFF.
pub proof fn lemma_checksum_zero_iff(x: int)
    requires
        0 <= x <= 0xFFFF_FFFF,
    ensures
        (checksum16(x) == 0) <==> (x % 0xFFFF == 0 && x != 0),
{
    lemma_double_fold(x);
    let z = fold_carry(fold_carry(x));
    if z == 0xFFFF {
        lemma_mod_multiples_basic(1, 0xFFFF);
        assert(0xFFFFint % 0xFFFF == 0) by {
            assert(1 * 0xFFFFint == 0xFFFF);
        }
    }
    if x % 0xFFFF == 0 && x != 0 && z < 0xFFFF {
        lemma_small_mod(z as nat, 0xFFFF);
    }
}

/// Two regions whose remaining bytes agree, position for position, have the
/// same word sum.
pub proof fn lemma_words_sum_shift(a: Seq<u8>, b: Seq<u8>, i: int, j: int)
    requires
        0 <= i <= a.len(),
        0 <= j <= b.len(),
        a.len() - i == b.len() - j,
        forall|m: int| 0 <= m < a.len() - i ==> #[trigger] a[i + m] == b[j + m],
    ensures
        words_sum(a, i) == words_sum(b, j),
    decreases a.len() - i,
{
    if i + 2 <= a.len() {
        assert(a[i + 0] == b[j + 0]);
        assert(a[i + 1] == b[j + 1]);
        assert forall|m: int| 0 <= m < a.len() - (i + 2) implies #[trigger] a[i + 2 + m] == b[j + 2 + m] by {
            assert(a[i + (m + 2)] == b[j + (m + 2)]);
        }
        lemma_words_sum_shift(a, b, i + 2, j + 2);
    } else if i + 1 == a.len() {
        assert(a[i + 0] == b[j + 0]);
    }
}

/// Splitting a region at an even offset splits its word sum: the bytes in
/// `[i, k)` contribute the word sum of that subrange.
pub proof fn lemma_words_sum_split(b: Seq<u8>, i: int, k: int)
    requires
        0 <= i <= k <= b.len(),
        (k - i) % 2 == 0,
    ensures
        words_sum(b, i) == words_sum(b.subrange(i, k), 0) + words_sum(b, k),
    decreases k - i,
{
    let p = b.subrange(i, k);
    if i == k {
        assert(words_sum(p, 0) == 0);
    } else {
        assert(k - i != 1) by {
            if k - i == 1 {
                lemma_small_mod(1, 2);
            }
        }
        lemma_mod_sub_multiples_vanish(k - i, 2);
        lemma_words_sum_split(b, i + 2, k);
        let q = b.subrange(i + 2, k);
        assert forall|m: int| 0 <= m < p.len() - 2 implies #[trigger] p[2 + m] == q[0 + m] by {
            assert(p[2 + m] == b[i + 2 + m]);
            assert(q[m] == b[i + 2 + m]);
        }
        lemma_words_sum_shift(p, q, 2, 0);
        assert(words_sum(p, 0) == p[0] * 256 + p[1] + words_sum(p, 2));
    }
}

/// Replacing the byte at `j` moves the word sum by the difference, weighted
/// by the byte's position within its word: 256 for a high byte, 1 for a low
/// byte.
pub proof fn lemma_words_sum_update(b: Seq<u8>, i: int, j: int, v: u8)
    requires
        0 <= i <= j < b.len(),
    ensures
        words_sum(b.update(j, v), i) == words_sum(b, i) + (v - b[j]) * (
        if (j - i) % 2 == 0 {
            256int
        } else {
            1int
        }),
    decreases j - i,
{
    let c = b.update(j, v);
    if j >= i + 2 {
        lemma_words_sum_update(b, i + 2, j, v);
        lemma_mod_sub_multiples_vanish(j - i - 2, 2);
        assert((j - (i + 2)) % 2 == (j - i) % 2);
    } else {
        assert forall|m: int| 0 <= m < c.len() - (i + 2) implies #[trigger] c[i + 2 + m] == b[i + 2 + m] by {
            assert(i + 2 + m != j);
        }
        if i + 2 <= b.len() {
            lemma_words_sum_shift(c, b, i + 2, i + 2);
        }
        if j == i {
            lemma_mod_multiples_basic(0, 2);
            assert((j - i) % 2 == 0) by {
                assert(0int * 2 == 0);
            }
        } else {
            assert(j == i + 1);
            lemma_small_mod(1, 2);
        }
    }
}

/// An odd-length region checksums exactly as if a zero byte were appended:
/// the unpaired final byte counts as the high byte of a word whose low
/// byte is zero.
pub proof fn lemma_zero_padding(b: Seq<u8>, i: int)
    requires
        0 <= i,
    ensures
        words_sum(b.push(0), i) == words_sum(b, i),
    decreases b.len() + 1 - i,
{
    let c = b.push(0);
    assert(c.len() == b.len() + 1);
    if i + 2 <= b.len() {
        lemma_zero_padding(b, i + 2);
        assert(c[i] == b[i]);
        assert(c[i + 1] == b[i + 1]);
        assert(words_sum(c, i) == c[i] * 256 + c[i + 1] + words_sum(c, i + 2));
    } else if i + 1 == b.len() {
        assert(c[i] == b[i]);
        assert(c[i + 1] == 0);
        assert(words_sum(c, i + 2) == 0);
        assert(words_sum(c, i) == c[i] * 256 + c[i + 1] + words_sum(c, i + 2));
    } else if i == b.len() {
        assert(c[i] == 0);
        assert(words_sum(c, i) == c[i] * 256);
    } else {
        assert(words_sum(c, i) == 0);
    }
}

/// Sums the 16-bit big-endian words of `data` into a 32-bit accumulator,
/// zero-padding an unpaired final byte.
pub fn wide_word_sum(data: &[u8]) -> (r: u32)
    requires
        data@.len() <= 0xFFFF,
    ensures
        r == words_sum(data@, 0),
{
    let n: usize = data.len();
    let mut sum: u32 = 0;
    let mut i: usize = 0;
    while i + 2 <= n
        invariant
            data@.len() == n,
            n <= 0xFFFF,
            i <= n,
            sum + words_sum(data@, i as int) == words_sum(data@, 0),
            2 * sum <= i * 0xFFFF,
        decreases n - i,
    {
        let w: u32 = (data[i] as u32) * 256 + (data[i + 1] as u32);
        sum = sum + w;
        i = i + 2;
    }
    if i < n {
        assert(i + 1 == n);
        sum = sum + (data[i] as u32) * 256;
    }
    sum
}

/// Computes the RFC 1071 one's-complement checksum of `data`: the word sum
/// with the carries folded back in twice, complemented.
pub fn compute(data: &[u8]) -> (r: u16)
    requires
        data@.len() <= 0xFFFF,
    ensures
        r == checksum16(words_sum(data@, 0)),
{
    let sum: u32 = wide_word_sum(data);
    proof {
        lemma_words_sum_bounds(data@, 0);
        lemma_double_fold(sum as int);
    }
    let carry: u32 = sum % 0x10000 + sum / 0x10000;
    let folded: u32 = carry % 0x10000 + carry / 0x10000;
    0xFFFF - (folded as u16)
}

/// Verifies a received checksum: with the checksum field included in
/// `data`, the region is valid exactly when the computed complement is
/// zero.
pub fn verify(data: &[u8]) -> (r: bool)
    requires
        data@.len() <= 0xFFFF,
    ensures
        r == checksum_ok(data@),
{
    compute(data) == 0
}

/// Corrupting any single byte of a region that passes checksum verification
/// makes verification fail: the word sum moves by a nonzero amount whose
/// magnitude is below 0xFFFF, so it leaves the zero residue class that
/// verification demands.
pub proof fn lemma_corruption_detected(b: Seq<u8>, j: int, v: u8)
    requires
        b.len() <= 0xFFFF,
        0 <= j < b.len(),
        v != b[j],
        checksum_ok(b),
    ensures
        !checksum_ok(b.update(j, v)),
{
    let c = b.update(j, v);
    let s = words_sum(b, 0);
    let s2 = words_sum(c, 0);
    let w: int = if j % 2 == 0 {
        256int
    } else {
        1int
    };
    lemma_words_sum_update(b, 0, j, v);
    assert(s2 == s + (v - b[j]) * w);
    let delta = (v - b[j]) * w;
    assert(-0xFF00 <= delta <= 0xFF00 && delta != 0) by {
        assert(-255 <= v - b[j] <= 255);
    }
    lemma_words_sum_bounds(b, 0);
    lemma_words_sum_bounds(c, 0);
    lemma_checksum_zero_iff(s);
    let q = s / 0xFFFF;
    lemma_fundamental_div_mod(s, 0xFFFF);
    assert(s == 0xFFFF * q);
    if delta > 0 {
        lemma_mod_multiples_vanish(q, delta, 0xFFFF);
        lemma_small_mod(delta as nat, 0xFFFF);
        assert(s2 % 0xFFFF == delta);
    } else {
        lemma_mod_multiples_vanish(q - 1, 0xFFFF + delta, 0xFFFF);
        assert(s2 == 0xFFFF * (q - 1) + (0xFFFF + delta));
        lemma_small_mod((0xFFFF + delta) as nat, 0xFFFF);
        assert(s2 % 0xFFFF == 0xFFFF + delta);
    }
    lemma_checksum_zero_iff(s2);
}

} // verus!
