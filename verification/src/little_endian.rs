//! Little endian encoding of unsigned integers into bytes.
use vstd::prelude::*;

verus! {

/// The `n` least significant bytes of `x`, least significant first.
pub open spec fn le_bytes(x: nat, n: nat) -> Seq<u8>
    decreases n,
{
    if n == 0 {
        Seq::empty()
    } else {
        seq![(x % 256) as u8] + le_bytes(x / 256, (n - 1) as nat)
    }
}

/// The number whose little endian bytes are `s`.
pub open spec fn le_value(s: Seq<u8>) -> nat
    decreases s.len(),
{
    if s.len() == 0 {
        0
    } else {
        s[0] as nat + 256 * le_value(s.drop_first())
    }
}

pub open spec fn pow256(n: nat) -> nat
    decreases n,
{
    if n == 0 { 1 } else { 256 * pow256((n - 1) as nat) }
}

pub proof fn lemma_le_bytes_len(x: nat, n: nat)
    ensures
        le_bytes(x, n).len() == n,
    decreases n,
{
    if n > 0 {
        lemma_le_bytes_len(x / 256, (n - 1) as nat);
    }
}

pub proof fn lemma_le_value_bound(s: Seq<u8>)
    ensures
        le_value(s) < pow256(s.len()),
    decreases s.len(),
{
    if s.len() > 0 {
        lemma_le_value_bound(s.drop_first());
        assert(le_value(s) <= 255 + 256 * (pow256((s.len() - 1) as nat) - 1)) by (nonlinear_arith)
            requires
                le_value(s) == s[0] as nat + 256 * le_value(s.drop_first()),
                le_value(s.drop_first()) < pow256((s.len() - 1) as nat),
                s[0] <= 255,
        ;
    }
}

/// Decoding the bytes of `x` gives `x` back, modulo the range of `n` bytes.
pub proof fn lemma_le_value_of_bytes(x: nat, n: nat)
    ensures
        le_value(le_bytes(x, n)) == x % pow256(n),
    decreases n,
{
    if n > 0 {
        lemma_le_bytes_len(x / 256, (n - 1) as nat);
        lemma_le_value_of_bytes(x / 256, (n - 1) as nat);
        let s = le_bytes(x, n);
        assert(s.drop_first() =~= le_bytes(x / 256, (n - 1) as nat));
        let p = pow256((n - 1) as nat);
        assert(p > 0) by {
            lemma_pow256_positive((n - 1) as nat);
        }
        assert((x % 256) + 256 * ((x / 256) % p) == x % (256 * p)) by {
            vstd::arithmetic::div_mod::lemma_breakdown(x as int, 256, p as int);
        }
    }
}

/// Encoding the number that bytes stand for, in as many bytes, gives the bytes back.
pub proof fn lemma_le_bytes_of_value(s: Seq<u8>)
    ensures
        le_bytes(le_value(s), s.len()) == s,
    decreases s.len(),
{
    if s.len() > 0 {
        let rest = s.drop_first();
        lemma_le_bytes_of_value(rest);
        let x = le_value(s);
        assert(x % 256 == s[0] as nat && x / 256 == le_value(rest)) by (nonlinear_arith)
            requires
                x == s[0] as nat + 256 * le_value(rest),
                s[0] <= 255,
        ;
        lemma_le_bytes_len(x / 256, (s.len() - 1) as nat);
        assert(le_bytes(x, s.len()) =~= s);
    }
}

pub proof fn lemma_pow256_positive(n: nat)
    ensures
        pow256(n) > 0,
    decreases n,
{
    if n > 0 {
        lemma_pow256_positive((n - 1) as nat);
    }
}

/// Appends the `n` least significant bytes of `x` to `out`, least significant first.
pub fn push_le_bytes(out: &mut Vec<u8>, x: u64, n: usize)
    ensures
        final(out)@ == old(out)@ + le_bytes(x as nat, n as nat),
{
    let ghost start = out@;
    let mut cur: u64 = x;
    let mut i: usize = 0;
    while i < n
        invariant
            i <= n,
            out@ + le_bytes(cur as nat, (n - i) as nat) == start + le_bytes(x as nat, n as nat),
        decreases n - i,
    {
        let ghost before = out@;
        out.push((cur % 256) as u8);
        proof {
            assert(le_bytes(cur as nat, (n - i) as nat) == seq![(cur as nat % 256) as u8] + le_bytes(
                cur as nat / 256,
                (n - i - 1) as nat,
            ));
            assert(out@ + le_bytes((cur / 256) as nat, (n - i - 1) as nat) =~= before + le_bytes(
                cur as nat,
                (n - i) as nat,
            ));
        }
        cur = cur / 256;
        i = i + 1;
    }
    assert(le_bytes(cur as nat, 0) =~= Seq::<u8>::empty());
    assert(out@ =~= start + le_bytes(x as nat, n as nat));
}

/// Reads the `n` bytes of `s` at `offset` as a little endian number.
pub fn read_le(s: &Vec<u8>, offset: usize, n: usize) -> (r: u64)
    requires
        n <= 8,
        offset + n <= s@.len(),
    ensures
        r as nat == le_value(s@.subrange(offset as int, offset + n)),
{
    let len = s.len();
    let mut acc: u64 = 0;
    let mut i: usize = n;
    proof {
        assert(s@.subrange(offset + n, offset + n) =~= Seq::<u8>::empty());
    }
    while i > 0
        invariant
            i <= n <= 8,
            offset + n <= s@.len(),
            len == s@.len(),
            acc as nat == le_value(s@.subrange(offset + i, offset + n)),
        decreases i,
    {
        let ghost sub = s@.subrange(offset + i - 1, offset + n);
        proof {
            assert(sub.drop_first() =~= s@.subrange(offset + i, offset + n));
            lemma_le_value_bound(s@.subrange(offset + i, offset + n));
            lemma_pow256_le((n - i) as nat, 7);
            assert(pow256(7) == 72057594037927936) by { reveal_with_fuel(pow256, 8); }
            assert(acc < 72057594037927936);
        }
        let b = s[offset + i - 1] as u64;
        assert(acc * 256 + b < 0x1_0000_0000_0000_0000) by (nonlinear_arith)
            requires acc < 72057594037927936, b < 256;
        acc = acc * 256 + b;
        i = i - 1;
    }
    acc
}

pub proof fn lemma_pow256_le(a: nat, b: nat)
    requires
        a <= b,
    ensures
        pow256(a) <= pow256(b),
    decreases b,
{
    if a < b {
        lemma_pow256_le(a, (b - 1) as nat);
    }
}

/// Overwrites the `n` bytes of `s` at `offset` with the `n` least significant bytes of `x`.
pub fn write_le(s: &mut Vec<u8>, offset: usize, x: u64, n: usize)
    requires
        offset + n <= old(s)@.len(),
    ensures
        final(s)@ == old(s)@.subrange(0, offset as int) + le_bytes(x as nat, n as nat) + old(s)@.subrange(
            offset + n,
            old(s)@.len() as int,
        ),
{
    let ghost start = s@;
    let len = s.len();
    let mut cur: u64 = x;
    let mut i: usize = 0;
    proof {
        lemma_le_bytes_len(x as nat, n as nat);
        assert(pow256(0) == 1);
        assert(x as nat / 1 == x as nat);
    }
    while i < n
        invariant
            i <= n,
            offset + n <= start.len(),
            s@.len() == start.len(),
            len == start.len(),
            cur as nat == x as nat / pow256(i as nat),
            forall|j: int| 0 <= j < offset ==> s@[j] == start[j],
            forall|j: int| offset + n <= j < start.len() ==> s@[j] == start[j],
            forall|j: int| offset <= j < offset + i ==> s@[j] == le_bytes(x as nat, n as nat)[j - offset],
        decreases n - i,
    {
        proof {
            lemma_le_bytes_index(x as nat, n as nat, i as nat);
        }
        s.set(offset + i, (cur % 256) as u8);
        proof {
            lemma_pow256_positive(i as nat);
            vstd::arithmetic::div_mod::lemma_div_denominator(x as int, pow256(i as nat) as int, 256);
            assert(pow256((i + 1) as nat) == pow256(i as nat) * 256) by (nonlinear_arith)
                requires
                    pow256((i + 1) as nat) == 256 * pow256(i as nat),
            ;
        }
        cur = cur / 256;
        i = i + 1;
    }
    assert(s@ =~= start.subrange(0, offset as int) + le_bytes(x as nat, n as nat) + start.subrange(
        offset + n,
        start.len() as int,
    ));
}

pub proof fn lemma_le_bytes_index(x: nat, n: nat, i: nat)
    requires
        i < n,
    ensures
        le_bytes(x, n)[i as int] == ((x / pow256(i)) % 256) as u8,
    decreases i,
{
    lemma_le_bytes_len(x, n);
    lemma_le_bytes_len(x / 256, (n - 1) as nat);
    let s = le_bytes(x, n);
    let rest = le_bytes(x / 256, (n - 1) as nat);
    assert(s == seq![(x % 256) as u8] + rest);
    if i > 0 {
        assert(s[i as int] == rest[i - 1]);
        lemma_le_bytes_index(x / 256, (n - 1) as nat, (i - 1) as nat);
        lemma_pow256_positive((i - 1) as nat);
        vstd::arithmetic::div_mod::lemma_div_denominator(x as int, 256, pow256((i - 1) as nat) as int);
    } else {
        assert(s[0] == (x % 256) as u8);
        assert(pow256(0) == 1);
        assert(x / 1 == x);
    }
}

} // verus!
