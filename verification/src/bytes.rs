//! Big-endian integers as this protocol carries them.
use vstd::prelude::*;

verus! {

/// 256 to the power `k`.
pub open spec fn pow256(k: nat) -> nat
    decreases k,
{
    if k == 0 {
        1
    } else {
        256 * pow256((k - 1) as nat)
    }
}

/// The number that the bytes `s` spell, most significant byte first.
pub open spec fn be_value(s: Seq<u8>) -> nat
    decreases s.len(),
{
    if s.len() == 0 {
        0
    } else {
        be_value(s.drop_last()) * 256 + s.last() as nat
    }
}

/// The `k` low bytes of `x`, most significant first: what `to_be_bytes`
/// gives for an integer type of `k` bytes.
pub open spec fn be_bytes(x: nat, k: nat) -> Seq<u8>
    decreases k,
{
    if k == 0 {
        Seq::empty()
    } else {
        be_bytes(x / 256, (k - 1) as nat) + seq![(x % 256) as u8]
    }
}

/// A number spelled by `k` bytes is below 256^k.
pub proof fn lemma_be_value_bound(s: Seq<u8>)
    ensures
        be_value(s) < pow256(s.len()),
    decreases s.len(),
{
    if s.len() > 0 {
        lemma_be_value_bound(s.drop_last());
        let v = be_value(s.drop_last());
        let p = pow256((s.len() - 1) as nat);
        let b = s.last();
        assert(v * 256 + b < 256 * p) by (nonlinear_arith)
            requires
                v < p,
                b < 256,
        ;
    }
}

/// `be_bytes(x, k)` has `k` bytes.
pub proof fn lemma_be_bytes_len(x: nat, k: nat)
    ensures
        be_bytes(x, k).len() == k,
    decreases k,
{
    if k > 0 {
        lemma_be_bytes_len(x / 256, (k - 1) as nat);
    }
}

/// `be_bytes(x, k)` puts the most significant byte first: byte `i` is the
/// digit of `x` in base 256 at place `k - 1 - i`.
pub proof fn lemma_be_bytes_digits(x: nat, k: nat)
    ensures
        be_bytes(x, k).len() == k,
        forall|i: int| 0 <= i < k ==> #[trigger] be_bytes(x, k)[i] == (x / pow256((k - 1 - i) as nat)) % 256,
    decreases k,
{
    lemma_be_bytes_len(x, k);
    if k > 0 {
        lemma_be_bytes_digits(x / 256, (k - 1) as nat);
        let b = be_bytes(x, k);
        let front = be_bytes(x / 256, (k - 1) as nat);
        assert forall|i: int| 0 <= i < k implies #[trigger] b[i] == (x / pow256((k - 1 - i) as nat)) % 256 by {
            if i < k - 1 {
                let e = (k - 2 - i) as nat;
                assert(b[i] == front[i]);
                lemma_pow256_positive(e);
                vstd::arithmetic::div_mod::lemma_div_denominator(x as int, 256, pow256(e) as int);
                assert(pow256((k - 1 - i) as nat) == 256 * pow256(e));
                assert(front[i] == ((x / 256) / pow256(e)) % 256);
                assert((x as int) / (256 * pow256(e) as int) == ((x as int) / 256) / (pow256(e) as int));
            } else {
                assert(pow256(0) == 1);
                assert(b[i] == (x % 256) as u8);
                assert(x / 1 == x);
            }
        }
    }
}

/// Writing back the number that `k` bytes spell gives the same `k` bytes.
pub proof fn lemma_be_bytes_of_value(s: Seq<u8>)
    ensures
        be_bytes(be_value(s), s.len()) == s,
    decreases s.len(),
{
    if s.len() > 0 {
        let v = be_value(s.drop_last());
        let last = s.last();
        assert((v * 256 + last as nat) / 256 == v && (v * 256 + last as nat) % 256 == last as nat) by (nonlinear_arith)
            requires
                last < 256,
        ;
        lemma_be_bytes_of_value(s.drop_last());
        assert(s =~= s.drop_last() + seq![last]);
    } else {
        assert(s =~= Seq::<u8>::empty());
    }
}

proof fn lemma_pow256_positive(k: nat)
    ensures
        pow256(k) >= 1,
    decreases k,
{
    if k > 0 {
        lemma_pow256_positive((k - 1) as nat);
    }
}

/// Appends the `k` low bytes of `x`, most significant first.
pub fn push_be(out: &mut Vec<u8>, x: u64, k: u32)
    ensures
        final(out)@ == old(out)@ + be_bytes(x as nat, k as nat),
    decreases k,
{
    if k > 0 {
        push_be(out, x / 256, k - 1);
        out.push((x % 256) as u8);
        assert(out@ =~= old(out)@ + be_bytes(x as nat, k as nat));
    } else {
        assert(out@ =~= old(out)@ + be_bytes(x as nat, k as nat));
    }
}

/// The number that the 16 bytes `b` spell, most significant first, as
/// `u128::from_be_bytes` reads them.
pub fn be_u128(b: &[u8]) -> (r: u128)
    requires
        b@.len() == 16,
    ensures
        r == be_value(b@),
{
    proof {
        reveal_with_fuel(pow256, 17);
        assert(pow256(16) == 0x1_0000_0000_0000_0000_0000_0000_0000_0000);
    }
    let mut acc: u128 = 0;
    let mut i: usize = 0;
    assert(b@.take(0) =~= Seq::<u8>::empty());
    while i < 16
        invariant
            i <= 16,
            b@.len() == 16,
            acc == be_value(b@.take(i as int)),
            pow256(16) == 0x1_0000_0000_0000_0000_0000_0000_0000_0000,
        decreases 16 - i,
    {
        proof {
            lemma_be_value_bound(b@.take(i as int + 1));
            lemma_pow256_monotonic((i + 1) as nat, 16);
            assert(b@.take(i as int + 1).drop_last() =~= b@.take(i as int));
        }
        acc = acc * 256 + b[i] as u128;
        i = i + 1;
    }
    assert(b@.take(16) =~= b@);
    acc
}

proof fn lemma_pow256_monotonic(j: nat, k: nat)
    requires
        j <= k,
    ensures
        pow256(j) <= pow256(k),
    decreases k,
{
    if j < k {
        lemma_pow256_monotonic(j, (k - 1) as nat);
        lemma_pow256_positive((k - 1) as nat);
    }
}

} // verus!
