//! Little-endian words: the byte layout of `u32` and `u64` values.

use vstd::prelude::*;

verus! {

/// The number that `s` encodes, least significant byte first.
pub open spec fn le_value(s: Seq<u8>) -> nat
    decreases s.len(),
{
    if s.len() == 0 {
        0
    } else {
        s[0] as nat + 256 * le_value(s.drop_first())
    }
}

/// The `n` lowest bytes of `v`, least significant first.
pub open spec fn le_bytes(v: nat, n: nat) -> Seq<u8>
    decreases n,
{
    if n == 0 {
        Seq::empty()
    } else {
        seq![(v % 256) as u8] + le_bytes(v / 256, (n - 1) as nat)
    }
}

/// The eight-byte little-endian encodings of `ws`, one after another.
pub open spec fn words_le_bytes(ws: Seq<u64>) -> Seq<u8>
    decreases ws.len(),
{
    if ws.len() == 0 {
        Seq::empty()
    } else {
        words_le_bytes(ws.drop_last()) + le_bytes(ws.last() as nat, 8)
    }
}

pub proof fn lemma_le_bytes_len(v: nat, n: nat)
    ensures
        le_bytes(v, n).len() == n,
    decreases n,
{
    if n > 0 {
        lemma_le_bytes_len(v / 256, (n - 1) as nat);
    }
}

/// Reading back `n` bytes written from `v` gives `v`, when `v` fits in them.
pub proof fn lemma_le_value_of_le_bytes(v: nat, n: nat)
    requires
        v < pow256(n),
    ensures
        le_value(le_bytes(v, n)) == v,
    decreases n,
{
    if n > 0 {
        let rest = le_bytes(v / 256, (n - 1) as nat);
        assert(le_bytes(v, n).drop_first() =~= rest);
        assert(v / 256 < pow256((n - 1) as nat)) by (nonlinear_arith)
            requires
                v < 256 * pow256((n - 1) as nat),
        ;
        lemma_le_value_of_le_bytes(v / 256, (n - 1) as nat);
    }
}

/// `256` to the power `n`.
pub open spec fn pow256(n: nat) -> nat
    decreases n,
{
    if n == 0 {
        1
    } else {
        256 * pow256((n - 1) as nat)
    }
}

/// A value of `n` bytes stays below `256` to the power `n`.
pub proof fn lemma_le_value_bound(s: Seq<u8>)
    ensures
        le_value(s) < pow256(s.len()),
    decreases s.len(),
{
    if s.len() > 0 {
        lemma_le_value_bound(s.drop_first());
        let r = le_value(s.drop_first());
        let p = pow256((s.len() - 1) as nat);
        assert(s[0] as nat + 256 * r < 256 * p) by (nonlinear_arith)
            requires
                r < p,
                s[0] < 256,
        ;
    }
}

pub proof fn lemma_words_le_bytes_len(ws: Seq<u64>)
    ensures
        words_le_bytes(ws).len() == 8 * ws.len(),
    decreases ws.len(),
{
    if ws.len() > 0 {
        lemma_words_le_bytes_len(ws.drop_last());
        lemma_le_bytes_len(ws.last() as nat, 8);
    }
}

/// The `k`-th group of eight bytes of `words_le_bytes(ws)` reads back as `ws[k]`.
pub proof fn lemma_words_le_bytes_word(ws: Seq<u64>, k: int)
    requires
        0 <= k < ws.len(),
    ensures
        8 * k + 8 <= words_le_bytes(ws).len(),
        le_value(words_le_bytes(ws).subrange(8 * k, 8 * k + 8)) == ws[k] as nat,
    decreases ws.len(),
{
    lemma_words_le_bytes_len(ws);
    let init = ws.drop_last();
    lemma_words_le_bytes_len(init);
    lemma_le_bytes_len(ws.last() as nat, 8);
    if k == ws.len() - 1 {
        assert(words_le_bytes(ws).subrange(8 * k, 8 * k + 8) =~= le_bytes(ws.last() as nat, 8));
        lemma_pow256_8();
        lemma_le_value_of_le_bytes(ws.last() as nat, 8);
    } else {
        lemma_words_le_bytes_word(init, k);
        assert(words_le_bytes(ws).subrange(8 * k, 8 * k + 8) =~= words_le_bytes(init).subrange(
            8 * k,
            8 * k + 8,
        ));
    }
}

/// The eight bytes of `v`, least significant first.
pub fn u64_le_bytes(v: u64) -> (r: Vec<u8>)
    ensures
        r@ == le_bytes(v as nat, 8),
{
    let mut r: Vec<u8> = Vec::new();
    let mut x: u64 = v;
    let mut i: usize = 0;
    while i < 8
        invariant
            i <= 8,
            r@ + le_bytes(x as nat, (8 - i) as nat) == le_bytes(v as nat, 8),
        decreases 8 - i,
    {
        let ghost before = r@;
        r.push((x % 256) as u8);
        assert(le_bytes(x as nat, (8 - i) as nat) == seq![(x % 256) as u8] + le_bytes(
            (x / 256) as nat,
            (8 - i - 1) as nat,
        ));
        assert(r@ + le_bytes((x / 256) as nat, (8 - i - 1) as nat) =~= before + le_bytes(
            x as nat,
            (8 - i) as nat,
        ));
        x = x / 256;
        i = i + 1;
    }
    assert(le_bytes(x as nat, 0) =~= Seq::<u8>::empty());
    assert(r@ =~= r@ + le_bytes(x as nat, 0));
    r
}

/// The number that `b` encodes, least significant byte first.
pub fn le_number(b: &[u8]) -> (r: u64)
    requires
        b@.len() <= 8,
    ensures
        r as nat == le_value(b@),
{
    let mut acc: u64 = 0;
    let mut i: usize = b.len();
    while i > 0
        invariant
            i <= b@.len() <= 8,
            acc as nat == le_value(b@.subrange(i as int, b@.len() as int)),
        decreases i,
    {
        let ghost tail = b@.subrange(i as int, b@.len() as int);
        i = i - 1;
        let ghost next = b@.subrange(i as int, b@.len() as int);
        assert(next.drop_first() =~= tail);
        proof {
            lemma_le_value_bound(next);
            lemma_pow256_le_8(next.len());
        }
        acc = b[i] as u64 + 256 * acc;
    }
    assert(b@.subrange(0, b@.len() as int) =~= b@);
    acc
}

proof fn lemma_pow256_le_8(n: nat)
    requires
        n <= 8,
    ensures
        pow256(n) <= 0x1_0000_0000_0000_0000,
{
    lemma_pow256_8();
    if n > 1 {
        lemma_pow256_mono(n, 8);
    }
}

pub proof fn lemma_pow256_8()
    ensures
        pow256(0) == 1,
        pow256(4) == 0x1_0000_0000,
        pow256(8) == 0x1_0000_0000_0000_0000,
{
    reveal_with_fuel(pow256, 9);
}

proof fn lemma_pow256_mono(a: nat, b: nat)
    requires
        a <= b,
    ensures
        pow256(a) <= pow256(b),
    decreases b,
{
    if a < b {
        lemma_pow256_mono(a, (b - 1) as nat);
    }
}

} // verus!
