//! The high score as stored on disk: eight bytes, least significant first.
use vstd::prelude::*;

verus! {

/// `256^k`.
pub open spec fn pow256(k: nat) -> nat
    decreases k,
{
    if k == 0 {
        1
    } else {
        256 * pow256((k - 1) as nat)
    }
}

/// The number that little-endian bytes stand for.
pub open spec fn le_value(s: Seq<u8>) -> nat
    decreases s.len(),
{
    if s.len() == 0 {
        0
    } else {
        s[0] as nat + 256 * le_value(s.drop_first())
    }
}

/// The `k` lowest bytes of `n`, least significant first.
pub open spec fn le_bytes(n: nat, k: nat) -> Seq<u8>
    decreases k,
{
    if k == 0 {
        Seq::empty()
    } else {
        seq![(n % 256) as u8] + le_bytes(n / 256, (k - 1) as nat)
    }
}

/// Little-endian bytes stand for a number below `256^len`.
pub proof fn lemma_le_value_bound(s: Seq<u8>)
    ensures
        le_value(s) < pow256(s.len()),
    decreases s.len(),
{
    if s.len() > 0 {
        lemma_le_value_bound(s.drop_first());
        let v = le_value(s.drop_first());
        let p = pow256((s.len() - 1) as nat);
        assert(s[0] + 256 * v < 256 * p) by (nonlinear_arith)
            requires v < p, s[0] < 256;
    }
}

/// Reading back the `k` lowest bytes of a number below `256^k` gives the number.
pub proof fn lemma_le_round_trip(n: nat, k: nat)
    requires
        n < pow256(k),
    ensures
        le_value(le_bytes(n, k)) == n,
        le_bytes(n, k).len() == k,
    decreases k,
{
    if k > 0 {
        assert(n / 256 < pow256((k - 1) as nat)) by {
            vstd::arithmetic::div_mod::lemma_div_is_ordered(n as int, (pow256(k) - 1) as int, 256);
            vstd::arithmetic::div_mod::lemma_fundamental_div_mod(n as int, 256);
            assert(n / 256 < pow256((k - 1) as nat)) by (nonlinear_arith)
                requires n < 256 * pow256((k - 1) as nat), n == 256 * (n / 256) + n % 256, n % 256 >= 0;
        }
        lemma_le_round_trip(n / 256, (k - 1) as nat);
        let s = le_bytes(n, k);
        assert(s.drop_first() =~= le_bytes(n / 256, (k - 1) as nat));
        vstd::arithmetic::div_mod::lemma_fundamental_div_mod(n as int, 256);
    }
}

/// Saving then loading the high score gives back the same value.
pub proof fn lemma_highscore_round_trip(n: u64)
    ensures
        le_bytes(n as nat, 8).len() == 8,
        le_value(le_bytes(n as nat, 8).subrange(0, 8)) == n,
{
    lemma_pow256_eight();
    lemma_le_round_trip(n as nat, 8);
    assert(le_bytes(n as nat, 8).subrange(0, 8) =~= le_bytes(n as nat, 8));
}

/// The high score as the eight bytes of the file that keeps it.
pub fn encode_highscore(n: u64) -> (r: Vec<u8>)
    ensures
        r@ == le_bytes(n as nat, 8),
{
    let mut r: Vec<u8> = Vec::new();
    let mut v: u64 = n;
    let mut i: usize = 0;
    while i < 8
        invariant
            i <= 8,
            r@ + le_bytes(v as nat, (8 - i) as nat) == le_bytes(n as nat, 8),
        decreases 8 - i,
    {
        let ghost rest = le_bytes(v as nat / 256, (8 - i - 1) as nat);
        assert(le_bytes(v as nat, (8 - i) as nat) == seq![(v as nat % 256) as u8] + rest);
        r.push((v % 256) as u8);
        assert(r@ + rest =~= le_bytes(n as nat, 8)) by {
            assert(r@ + rest =~= (r@.drop_last() + seq![(v as nat % 256) as u8]) + rest);
        }
        v = v / 256;
        i += 1;
    }
    assert(le_bytes(v as nat, 0) =~= Seq::<u8>::empty());
    assert(r@ + Seq::<u8>::empty() =~= r@);
    r
}

/// The high score that the file's bytes hold: its first eight bytes, or
/// nothing when it is shorter.
pub fn decode_highscore(bytes: &[u8]) -> (r: Option<u64>)
    ensures
        bytes@.len() >= 8 ==> r == Some(le_value(bytes@.subrange(0, 8)) as u64),
        bytes@.len() < 8 ==> r is None,
{
    if bytes.len() < 8 {
        return None;
    }
    let ghost s = bytes@.subrange(0, 8);
    let mut v: u64 = 0;
    let mut i: usize = 8;
    assert(s.subrange(8, 8) =~= Seq::<u8>::empty());
    while i > 0
        invariant
            i <= 8,
            bytes@.len() >= 8,
            s == bytes@.subrange(0, 8),
            v as nat == le_value(s.subrange(i as int, 8)),
        decreases i,
    {
        let ghost tail = s.subrange(i as int - 1, 8);
        assert(tail.drop_first() =~= s.subrange(i as int, 8));
        proof {
            lemma_le_value_bound(tail);
            lemma_pow256_eight();
            lemma_pow256_monotone(tail.len(), 8);
        }
        v = v * 256 + bytes[i - 1] as u64;
        i -= 1;
    }
    assert(s.subrange(0, 8) =~= s);
    Some(v)
}

/// `256^8 == 2^64`.
proof fn lemma_pow256_eight()
    ensures
        pow256(8) == 0x1_0000_0000_0000_0000,
{
    assert(pow256(0) == 1);
    assert(pow256(1) == 0x100);
    assert(pow256(2) == 0x1_0000);
    assert(pow256(3) == 0x100_0000);
    assert(pow256(4) == 0x1_0000_0000);
    assert(pow256(5) == 0x100_0000_0000);
    assert(pow256(6) == 0x1_0000_0000_0000);
    assert(pow256(7) == 0x100_0000_0000_0000);
}

/// `256^a <= 256^b` for `a <= b`.
proof fn lemma_pow256_monotone(a: nat, b: nat)
    requires
        a <= b,
    ensures
        pow256(a) <= pow256(b),
    decreases b,
{
    if a < b {
        lemma_pow256_monotone(a, (b - 1) as nat);
    }
}

} // verus!
