//! The mathematical model of byte sequences as unsigned numbers.

use vstd::prelude::*;

verus! {

/// `256` raised to the power `n`.
pub open spec fn pow256(n: nat) -> nat
    decreases n,
{
    if n == 0 {
        1
    } else {
        256 * pow256((n - 1) as nat)
    }
}

/// The `n` bytes of `x`, least significant first.
pub open spec fn le_bytes(x: nat, n: nat) -> Seq<u8>
    decreases n,
{
    if n == 0 {
        seq![]
    } else {
        seq![(x % 256) as u8] + le_bytes(x / 256, (n - 1) as nat)
    }
}

/// The `n` bytes of `x`, most significant first.
pub open spec fn be_bytes(x: nat, n: nat) -> Seq<u8>
    decreases n,
{
    if n == 0 {
        seq![]
    } else {
        be_bytes(x / 256, (n - 1) as nat).push((x % 256) as u8)
    }
}

/// The number whose bytes, least significant first, are `s`.
pub open spec fn le_value(s: Seq<u8>) -> nat
    decreases s.len(),
{
    if s.len() == 0 {
        0
    } else {
        s[0] as nat + 256 * le_value(s.drop_first())
    }
}

/// The number whose bytes, most significant first, are `s`.
pub open spec fn be_value(s: Seq<u8>) -> nat
    decreases s.len(),
{
    if s.len() == 0 {
        0
    } else {
        256 * be_value(s.drop_last()) + s.last() as nat
    }
}

/// Powers of `256` are positive and grow with the exponent.
pub proof fn lemma_pow256_mono(a: nat, b: nat)
    requires
        a <= b,
    ensures
        1 <= pow256(a) <= pow256(b),
    decreases b,
{
    if b > a {
        lemma_pow256_mono(a, (b - 1) as nat);
    } else if a > 0 {
        lemma_pow256_mono((a - 1) as nat, (a - 1) as nat);
    }
}

/// Eight bytes span exactly the range of `u64`.
pub proof fn lemma_pow256_8()
    ensures
        pow256(8) == 0x1_0000_0000_0000_0000,
{
    reveal_with_fuel(pow256, 9);
}

/// Encoding into `n` bytes gives `n` bytes.
pub proof fn lemma_le_bytes_len(x: nat, n: nat)
    ensures
        le_bytes(x, n).len() == n,
    decreases n,
{
    if n > 0 {
        lemma_le_bytes_len(x / 256, (n - 1) as nat);
    }
}

/// Encoding into `n` bytes gives `n` bytes.
pub proof fn lemma_be_bytes_len(x: nat, n: nat)
    ensures
        be_bytes(x, n).len() == n,
    decreases n,
{
    if n > 0 {
        lemma_be_bytes_len(x / 256, (n - 1) as nat);
    }
}

/// Most-significant-first bytes are the least-significant-first bytes reversed.
pub proof fn lemma_be_is_reversed_le(x: nat, n: nat)
    ensures
        be_bytes(x, n) == le_bytes(x, n).reverse(),
    decreases n,
{
    if n > 0 {
        let m = (n - 1) as nat;
        lemma_be_is_reversed_le(x / 256, m);
        lemma_le_bytes_len(x / 256, m);
        let head = seq![(x % 256) as u8];
        let tail = le_bytes(x / 256, m);
        assert((head + tail).reverse() =~= tail.reverse().push((x % 256) as u8));
    }
}

/// The number that `s` stands for fits in `s.len()` bytes.
pub proof fn lemma_le_value_bound(s: Seq<u8>)
    ensures
        le_value(s) < pow256(s.len()),
    decreases s.len(),
{
    if s.len() > 0 {
        lemma_le_value_bound(s.drop_first());
    }
}

/// The number that `s` stands for fits in `s.len()` bytes.
pub proof fn lemma_be_value_bound(s: Seq<u8>)
    ensures
        be_value(s) < pow256(s.len()),
    decreases s.len(),
{
    if s.len() > 0 {
        lemma_be_value_bound(s.drop_last());
    }
}

/// Decoding least-significant-first bytes undoes encoding them.
pub proof fn lemma_le_round_trip(x: nat, n: nat)
    requires
        x < pow256(n),
    ensures
        le_value(le_bytes(x, n)) == x,
    decreases n,
{
    if n > 0 {
        let m = (n - 1) as nat;
        assert(x / 256 < pow256(m));
        lemma_le_round_trip(x / 256, m);
        let s = le_bytes(x, n);
        assert(s.drop_first() =~= le_bytes(x / 256, m));
    }
}

/// Decoding most-significant-first bytes undoes encoding them.
pub proof fn lemma_be_round_trip(x: nat, n: nat)
    requires
        x < pow256(n),
    ensures
        be_value(be_bytes(x, n)) == x,
    decreases n,
{
    if n > 0 {
        let m = (n - 1) as nat;
        assert(x / 256 < pow256(m));
        lemma_be_round_trip(x / 256, m);
        let s = be_bytes(x, n);
        assert(s.drop_last() =~= be_bytes(x / 256, m));
    }
}

/// Encoding a decoded sequence gives the sequence back.
pub proof fn lemma_le_bytes_of_value(s: Seq<u8>)
    ensures
        le_bytes(le_value(s), s.len()) == s,
    decreases s.len(),
{
    if s.len() > 0 {
        let t = s.drop_first();
        lemma_le_bytes_of_value(t);
        let x = le_value(s);
        assert(x % 256 == s[0] as nat);
        assert(x / 256 == le_value(t));
        assert(le_bytes(x, s.len()) =~= s);
    }
}

/// Encoding a decoded sequence gives the sequence back.
pub proof fn lemma_be_bytes_of_value(s: Seq<u8>)
    ensures
        be_bytes(be_value(s), s.len()) == s,
    decreases s.len(),
{
    if s.len() > 0 {
        let t = s.drop_last();
        lemma_be_bytes_of_value(t);
        let x = be_value(s);
        assert(x % 256 == s.last() as nat);
        assert(x / 256 == be_value(t));
        assert(be_bytes(x, s.len()) =~= s);
    }
}

} // verus!
