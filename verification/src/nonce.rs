//! Fixed-width little-endian nonce counters: value, successor, and the
//! monotonicity facts the framing relies on.

use vstd::prelude::*;

verus! {

/// `256^n`, the number of values a counter of `n` bytes can take.
pub open spec fn pow256(n: nat) -> nat
    decreases n,
{
    if n == 0 {
        1
    } else {
        256 * pow256((n - 1) as nat)
    }
}

/// The numeric value of a little-endian byte string.
pub open spec fn le_val(s: Seq<u8>) -> nat
    decreases s.len(),
{
    if s.len() == 0 {
        0nat
    } else {
        s[0] as nat + 256 * le_val(s.skip(1))
    }
}

/// The successor of a fixed-width little-endian counter, wrapping around at
/// `256^len`.
pub open spec fn inc_le(s: Seq<u8>) -> Seq<u8>
    decreases s.len(),
{
    if s.len() == 0 {
        s
    } else if s[0] == 255 {
        seq![0u8] + inc_le(s.skip(1))
    } else {
        seq![(s[0] + 1) as u8] + s.skip(1)
    }
}

/// `256^n` is positive, and at least 256 once the counter has a byte.
pub proof fn lemma_pow256_pos(n: nat)
    ensures
        pow256(n) >= 1,
        n > 0 ==> pow256(n) >= 256,
    decreases n,
{
    if n > 0 {
        lemma_pow256_pos((n - 1) as nat);
    }
}

/// A counter of `n` bytes holds a value below `256^n`.
pub proof fn lemma_le_val_bound(s: Seq<u8>)
    ensures
        le_val(s) < pow256(s.len()),
    decreases s.len(),
{
    if s.len() > 0 {
        lemma_le_val_bound(s.skip(1));
        assert(256 * le_val(s.skip(1)) <= 256 * (pow256((s.len() - 1) as nat) - 1))
            by (nonlinear_arith)
            requires
                le_val(s.skip(1)) <= pow256((s.len() - 1) as nat) - 1,
        ;
    }
}

/// The successor keeps the width of the counter.
pub proof fn lemma_inc_le_len(s: Seq<u8>)
    ensures
        inc_le(s).len() == s.len(),
    decreases s.len(),
{
    if s.len() > 0 && s[0] == 255 {
        lemma_inc_le_len(s.skip(1));
    }
}

/// The successor increments the counter value by one, modulo `256^len`.
pub proof fn lemma_inc_le_val(s: Seq<u8>)
    ensures
        le_val(inc_le(s)) == (le_val(s) + 1) % pow256(s.len()),
    decreases s.len(),
{
    if s.len() == 0 {
        assert((le_val(s) + 1) % pow256(s.len()) == 0);
    } else if s[0] == 255 {
        let t = s.skip(1);
        let p: int = pow256(t.len()) as int;
        let x: int = (le_val(t) + 1) as int;
        lemma_pow256_pos(t.len());
        lemma_inc_le_val(t);
        assert(inc_le(s).skip(1) =~= inc_le(t));
        assert(le_val(inc_le(s)) == 256 * le_val(inc_le(t)));
        assert(le_val(s) + 1 == 256 * (le_val(t) + 1));
        vstd::arithmetic::div_mod::lemma_truncate_middle(x, 256, p);
        assert((256 * x) % (256 * p) == 256 * (x % p));
    } else {
        let t = s.skip(1);
        assert(inc_le(s).skip(1) =~= t);
        assert(le_val(inc_le(s)) == s[0] + 1 + 256 * le_val(t));
        lemma_le_val_bound(s);
        vstd::arithmetic::div_mod::lemma_small_mod(le_val(s) + 1, pow256(s.len()));
    }
}

/// While the counter is not about to wrap, its successor is strictly larger:
/// consecutive nonces never repeat.
pub proof fn lemma_inc_le_monotonic(s: Seq<u8>)
    requires
        le_val(s) + 1 < pow256(s.len()),
    ensures
        le_val(inc_le(s)) == le_val(s) + 1,
        le_val(inc_le(s)) > le_val(s),
{
    lemma_inc_le_val(s);
    vstd::arithmetic::div_mod::lemma_small_mod(le_val(s) + 1, pow256(s.len()));
}

/// The counter after `k` increments.
pub open spec fn iter_inc(s: Seq<u8>, k: nat) -> Seq<u8>
    decreases k,
{
    if k == 0 {
        s
    } else {
        inc_le(iter_inc(s, (k - 1) as nat))
    }
}

/// After `k` increments the counter holds `(start + k) mod 256^len`.
pub proof fn lemma_iter_inc_val(s: Seq<u8>, k: nat)
    ensures
        iter_inc(s, k).len() == s.len(),
        le_val(iter_inc(s, k)) == (le_val(s) + k) % pow256(s.len()),
    decreases k,
{
    let p = pow256(s.len()) as int;
    lemma_pow256_pos(s.len());
    if k == 0 {
        lemma_le_val_bound(s);
        vstd::arithmetic::div_mod::lemma_small_mod(le_val(s), pow256(s.len()));
    } else if s.len() == 0 {
        lemma_iter_inc_val(s, (k - 1) as nat);
        assert(iter_inc(s, k).len() == 0);
    } else {
        lemma_iter_inc_val(s, (k - 1) as nat);
        lemma_inc_le_len(iter_inc(s, (k - 1) as nat));
        lemma_inc_le_val(iter_inc(s, (k - 1) as nat));
        vstd::arithmetic::div_mod::lemma_add_mod_noop(le_val(s) + k - 1, 1, p);
        vstd::arithmetic::div_mod::lemma_small_mod(1, pow256(s.len()));
    }
}

/// The all-zero counter of width `n`.
pub open spec fn zero_nonce(n: nat) -> Seq<u8> {
    Seq::new(n, |i: int| 0u8)
}

/// The all-zero counter holds the value zero.
pub proof fn lemma_zero_nonce_val(n: nat)
    ensures
        zero_nonce(n).len() == n,
        le_val(zero_nonce(n)) == 0,
    decreases n,
{
    if n > 0 {
        lemma_zero_nonce_val((n - 1) as nat);
        assert(zero_nonce(n).skip(1) =~= zero_nonce((n - 1) as nat));
    }
}

/// Nonce monotonicity: starting from the all-zero nonce, the values taken by
/// the counter over its first `256^n` uses are exactly `0, 1, 2, ...` in
/// order — strictly increasing, with no repeats.
pub proof fn lemma_nonce_sequence_strictly_increasing(n: nat, i: nat, j: nat)
    requires
        i < j < pow256(n),
    ensures
        le_val(iter_inc(zero_nonce(n), i)) == i,
        le_val(iter_inc(zero_nonce(n), j)) == j,
        le_val(iter_inc(zero_nonce(n), i)) < le_val(iter_inc(zero_nonce(n), j)),
{
    lemma_zero_nonce_val(n);
    lemma_iter_inc_val(zero_nonce(n), i);
    lemma_iter_inc_val(zero_nonce(n), j);
    vstd::arithmetic::div_mod::lemma_small_mod(i, pow256(n));
    vstd::arithmetic::div_mod::lemma_small_mod(j, pow256(n));
}

/// Advances a little-endian counter by one in place, wrapping at the
/// counter's width.
pub fn nonce_increment(v: &mut Vec<u8>)
    ensures
        final(v)@ == inc_le(old(v)@),
        final(v)@.len() == old(v)@.len(),
        le_val(final(v)@) == (le_val(old(v)@) + 1) % pow256(old(v)@.len()),
{
    nonce_increment_from(v, 0);
    proof {
        assert(old(v)@.skip(0) =~= old(v)@);
        assert(v@ =~= inc_le(old(v)@));
        lemma_inc_le_len(old(v)@);
        lemma_inc_le_val(old(v)@);
    }
}

/// Advances the counter `v[i..]`, leaving `v[..i]` untouched.
fn nonce_increment_from(v: &mut Vec<u8>, i: usize)
    requires
        i <= old(v).len(),
    ensures
        final(v)@ == old(v)@.take(i as int) + inc_le(old(v)@.skip(i as int)),
        final(v)@.len() == old(v)@.len(),
    decreases old(v).len() - i,
{
    if i == v.len() {
        proof {
            assert(old(v)@.take(i as int) + inc_le(old(v)@.skip(i as int)) =~= old(v)@);
        }
        return ;
    }
    let b = v[i];
    if b == 255 {
        v[i] = 0;
        nonce_increment_from(v, i + 1);
        proof {
            let s = old(v)@.skip(i as int);
            assert(s[0] == 255);
            let mid = old(v)@.update(i as int, 0u8);
            assert(mid.take(i + 1 as int) =~= old(v)@.take(i as int) + seq![0u8]);
            assert(mid.skip(i + 1 as int) =~= s.skip(1));
            assert(v@ =~= old(v)@.take(i as int) + (seq![0u8] + inc_le(s.skip(1))));
        }
    } else {
        v[i] = b + 1;
        proof {
            let s = old(v)@.skip(i as int);
            assert(s[0] == b);
            assert(v@ =~= old(v)@.take(i as int) + (seq![(b + 1) as u8] + s.skip(1)));
        }
    }
}

} // verus!
