//! Small operations on byte buffers.
use vstd::prelude::*;

verus! {

/// The `len` bytes of `b` from `at` on.
pub fn copy_range(b: &[u8], at: usize, len: usize) -> (r: Vec<u8>)
    requires
        at + len <= b@.len(),
    ensures
        r@ == b@.subrange(at as int, at + len),
{
    let n = b.len();
    let mut r: Vec<u8> = Vec::new();
    let mut k: usize = 0;
    while k < len
        invariant
            k <= len,
            n == b@.len(),
            at + len <= n,
            r@ == b@.subrange(at as int, at + k),
        decreases len - k,
    {
        r.push(b[at + k]);
        k = k + 1;
        assert(r@ =~= b@.subrange(at as int, at + k));
    }
    r
}

/// `n` zero bytes.
pub open spec fn zero_bytes(n: nat) -> Seq<u8> {
    Seq::new(n, |i: int| 0u8)
}

/// Appends `n` zero bytes to `out`.
pub fn push_zeros(out: &mut Vec<u8>, n: usize)
    ensures
        final(out)@ == old(out)@ + zero_bytes(n as nat),
{
    let mut k: usize = 0;
    while k < n
        invariant
            k <= n,
            out@ == old(out)@ + zero_bytes(k as nat),
        decreases n - k,
    {
        out.push(0u8);
        k = k + 1;
        assert(out@ =~= old(out)@ + zero_bytes(k as nat));
    }
}

/// `b` read as a big-endian number.
pub open spec fn be_value(b: Seq<u8>) -> nat
    decreases b.len(),
{
    if b.len() == 0 {
        0
    } else {
        be_value(b.drop_last()) * 256 + b.last() as nat
    }
}

/// 256 to the power `k`.
pub open spec fn pow256(k: nat) -> nat
    decreases k,
{
    if k == 0 { 1 } else { 256 * pow256((k - 1) as nat) }
}

/// The `k` big-endian bytes of `n`.
pub open spec fn be_bytes(n: nat, k: nat) -> Seq<u8>
    decreases k,
{
    if k == 0 {
        Seq::empty()
    } else {
        be_bytes(n / 256, (k - 1) as nat).push((n % 256) as u8)
    }
}

/// Reading the `k` big-endian bytes of a number below 256^k gives it back.
pub proof fn lemma_be_round_trip(n: nat, k: nat)
    requires
        n < pow256(k),
    ensures
        be_bytes(n, k).len() == k,
        be_value(be_bytes(n, k)) == n,
    decreases k,
{
    if k > 0 {
        let p = pow256((k - 1) as nat);
        assert(n / 256 < p) by (nonlinear_arith)
            requires n < 256 * p;
        lemma_be_round_trip(n / 256, (k - 1) as nat);
        let b = be_bytes(n, k);
        assert(b.drop_last() =~= be_bytes(n / 256, (k - 1) as nat));
        assert(n == (n / 256) * 256 + n % 256) by (nonlinear_arith);
    }
}

/// Reads `b` as a big-endian number; `b` has at most eight bytes.
pub fn read_be(b: &[u8]) -> (r: u64)
    requires
        b@.len() <= 8,
    ensures
        r == be_value(b@),
{
    let mut r: u64 = 0;
    let mut i: usize = 0;
    while i < b.len()
        invariant
            i <= b@.len() <= 8,
            r == be_value(b@.subrange(0, i as int)),
            r < pow256(i as nat),
        decreases b@.len() - i,
    {
        let ghost pre = b@.subrange(0, i + 1);
        assert(pre.drop_last() =~= b@.subrange(0, i as int));
        proof {
            lemma_pow256_bound(i as nat);
            assert(r * 256 + b[i as int] < 256 * pow256(i as nat)) by (nonlinear_arith)
                requires r < pow256(i as nat), b[i as int] < 256;
        }
        r = r * 256 + b[i] as u64;
        i = i + 1;
    }
    assert(b@.subrange(0, b@.len() as int) =~= b@);
    r
}

proof fn lemma_pow256_bound(k: nat)
    requires
        k < 8,
    ensures
        256 * pow256(k) <= 0x1_0000_0000_0000_0000,
{
    reveal_with_fuel(pow256, 8);
}

/// The `k` big-endian bytes of `n`.
pub fn write_be(n: u64, k: usize) -> (r: Vec<u8>)
    requires
        k <= 8,
    ensures
        r@ == be_bytes(n as nat, k as nat),
    decreases k,
{
    if k == 0 {
        Vec::new()
    } else {
        let mut r = write_be(n / 256, k - 1);
        r.push((n % 256) as u8);
        r
    }
}

} // verus!
