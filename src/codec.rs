//! Big-endian encoding of unsigned integers as byte sequences.
use vstd::prelude::*;

verus! {

/// `256` raised to the power `n`: the number of distinct values that `n` bytes can hold.
pub open spec fn pow256(n: nat) -> nat
    decreases n,
{
    if n == 0 {
        1
    } else {
        256 * pow256((n - 1) as nat)
    }
}

/// The `n` low-order bytes of `v`, most significant byte first.
pub open spec fn be_bytes(v: nat, n: nat) -> Seq<u8>
    decreases n,
{
    if n == 0 {
        Seq::empty()
    } else {
        be_bytes(v / 256, (n - 1) as nat).push((v % 256) as u8)
    }
}

/// The unsigned integer whose big-endian encoding is `s`.
pub open spec fn be_value(s: Seq<u8>) -> nat
    decreases s.len(),
{
    if s.len() == 0 {
        0
    } else {
        (be_value(s.drop_last()) * 256 + s.last()) as nat
    }
}

/// Sixteen bytes hold exactly the values of a `u128`.
pub proof fn lemma_pow256_16()
    ensures
        pow256(16) == 0x1_0000_0000_0000_0000_0000_0000_0000_0000,
{
    reveal_with_fuel(pow256, 17);
}

/// An encoding in `n` bytes is `n` bytes long.
pub proof fn lemma_be_bytes_len(v: nat, n: nat)
    ensures
        be_bytes(v, n).len() == n,
    decreases n,
{
    if n > 0 {
        lemma_be_bytes_len(v / 256, (n - 1) as nat);
    }
}

/// A sequence of `n` bytes encodes a value below `256^n`.
pub proof fn lemma_be_value_bound(s: Seq<u8>)
    ensures
        be_value(s) < pow256(s.len()),
    decreases s.len(),
{
    if s.len() > 0 {
        let p = be_value(s.drop_last());
        let q = pow256((s.len() - 1) as nat);
        lemma_be_value_bound(s.drop_last());
        assert(p * 256 + s.last() < 256 * q) by (nonlinear_arith)
            requires
                p < q,
                s.last() < 256,
        ;
    }
}

/// Decoding the encoding of a value that fits in `n` bytes gives the value back.
pub proof fn lemma_be_round_trip(v: nat, n: nat)
    requires
        v < pow256(n),
    ensures
        be_value(be_bytes(v, n)) == v,
    decreases n,
{
    if n > 0 {
        let q = pow256((n - 1) as nat);
        assert(v / 256 < q) by (nonlinear_arith)
            requires
                v < 256 * q,
        ;
        lemma_be_round_trip(v / 256, (n - 1) as nat);
        let s = be_bytes(v, n);
        assert(s.drop_last() =~= be_bytes(v / 256, (n - 1) as nat));
        assert(v == (v / 256) * 256 + v % 256) by (nonlinear_arith);
    }
}

/// The big-endian encoding of `v` in `n` bytes.
pub fn encode_be(v: u128, n: usize) -> (r: Vec<u8>)
    requires
        n <= 16,
        v < pow256(n as nat),
    ensures
        r@ == be_bytes(v as nat, n as nat),
{
    let mut out: Vec<u8> = vec![0u8; n];
    let mut x: u128 = v;
    let mut i: usize = n;
    proof {
        lemma_be_bytes_len(v as nat, n as nat);
    }
    while i > 0
        invariant
            i <= n,
            out@.len() == n,
            be_bytes(v as nat, n as nat) =~= be_bytes(x as nat, i as nat) + out@.subrange(
                i as int,
                n as int,
            ),
        decreases i,
    {
        let ghost old_out = out@;
        let ghost head = be_bytes((x / 256) as nat, (i - 1) as nat);
        out[i - 1] = (x % 256) as u8;
        assert(out@.subrange(i - 1, n as int) =~= seq![(x % 256) as u8] + old_out.subrange(
            i as int,
            n as int,
        ));
        assert(be_bytes(x as nat, i as nat) == head.push((x % 256) as u8));
        assert(head.push((x % 256) as u8) + old_out.subrange(i as int, n as int) =~= head
            + out@.subrange(i - 1, n as int));
        x = x / 256;
        i = i - 1;
    }
    assert(out@.subrange(0, n as int) =~= out@);
    out
}

/// The unsigned integer whose big-endian encoding is `bytes`.
pub fn decode_be(bytes: &[u8]) -> (r: u128)
    requires
        bytes@.len() <= 16,
    ensures
        r as nat == be_value(bytes@),
{
    let mut acc: u128 = 0;
    let mut i: usize = 0;
    while i < bytes.len()
        invariant
            i <= bytes@.len() <= 16,
            acc as nat == be_value(bytes@.subrange(0, i as int)),
        decreases bytes@.len() - i,
    {
        let ghost next = bytes@.subrange(0, i + 1);
        assert(next.drop_last() =~= bytes@.subrange(0, i as int));
        proof {
            lemma_be_value_bound(bytes@.subrange(0, i as int));
            lemma_pow256_monotone(i as nat, 15);
            lemma_pow256_16();
        }
        acc = acc * 256 + bytes[i] as u128;
        i = i + 1;
    }
    assert(bytes@.subrange(0, i as int) =~= bytes@);
    acc
}

/// More bytes hold at least as many values.
pub proof fn lemma_pow256_monotone(a: nat, b: nat)
    requires
        a <= b,
    ensures
        pow256(a) <= pow256(b),
    decreases b,
{
    if a < b {
        lemma_pow256_monotone(a, (b - 1) as nat);
    }
}

} // verus!
