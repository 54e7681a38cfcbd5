//! Syncsafe integers: 28 significant bits spread over four bytes, seven per
//! byte, with the high bit of every byte clear.
use vstd::prelude::*;

verus! {

/// The largest value plus one that a syncsafe integer can hold.
pub const SYNCSAFE_LIMIT: u32 = 0x1000_0000;

/// Four bytes whose high bits are all clear.
pub open spec fn is_syncsafe(b: Seq<u8>) -> bool {
    &&& b.len() == 4
    &&& forall|i: int| 0 <= i < 4 ==> #[trigger] b[i] < 0x80
}

/// The value that four syncsafe bytes stand for, most significant first.
pub open spec fn syncsafe_value(b: Seq<u8>) -> int {
    b[0] * 0x20_0000 + b[1] * 0x4000 + b[2] * 0x80 + b[3]
}

/// The four syncsafe bytes of `n`, most significant first.
pub open spec fn syncsafe_bytes(n: int) -> Seq<u8> {
    seq![
        (n / 0x20_0000) as u8,
        ((n / 0x4000) % 0x80) as u8,
        ((n / 0x80) % 0x80) as u8,
        (n % 0x80) as u8,
    ]
}

/// Encoding then decoding gives back every value below 2^28, and the encoding
/// has no high bit set.
pub proof fn lemma_syncsafe_encode_decode(n: int)
    requires
        0 <= n < SYNCSAFE_LIMIT,
    ensures
        is_syncsafe(syncsafe_bytes(n)),
        syncsafe_value(syncsafe_bytes(n)) == n,
{
    let b = syncsafe_bytes(n);
    let q3 = n / 0x80;
    let q2 = q3 / 0x80;
    let q1 = q2 / 0x80;
    assert(n / 0x4000 == q2) by (nonlinear_arith)
        requires q3 == n / 0x80, q2 == q3 / 0x80, n >= 0;
    assert(n / 0x20_0000 == q1) by (nonlinear_arith)
        requires q3 == n / 0x80, q2 == q3 / 0x80, q1 == q2 / 0x80, n >= 0;
    assert(0 <= q1 < 0x80) by (nonlinear_arith)
        requires q1 == n / 0x20_0000, 0 <= n < 0x1000_0000;
    assert(n == q3 * 0x80 + n % 0x80) by (nonlinear_arith) requires q3 == n / 0x80;
    assert(q3 == q2 * 0x80 + q3 % 0x80) by (nonlinear_arith) requires q2 == q3 / 0x80;
    assert(q2 == q1 * 0x80 + q2 % 0x80) by (nonlinear_arith) requires q1 == q2 / 0x80;
    assert(b[0] == q1);
    assert(b[1] == q2 % 0x80);
    assert(b[2] == q3 % 0x80);
    assert(b[3] == n % 0x80);
    assert(syncsafe_value(b) == n) by (nonlinear_arith)
        requires
            syncsafe_value(b) == q1 * 0x20_0000 + (q2 % 0x80) * 0x4000 + (q3 % 0x80) * 0x80 + n % 0x80,
            n == q3 * 0x80 + n % 0x80,
            q3 == q2 * 0x80 + q3 % 0x80,
            q2 == q1 * 0x80 + q2 % 0x80;
}

/// Decoding then encoding gives back every four syncsafe bytes, and the value
/// lies below 2^28.
pub proof fn lemma_syncsafe_decode_encode(b: Seq<u8>)
    requires
        is_syncsafe(b),
    ensures
        0 <= syncsafe_value(b) < SYNCSAFE_LIMIT,
        syncsafe_bytes(syncsafe_value(b)) == b,
{
    let (b0, b1, b2, b3) = (b[0] as int, b[1] as int, b[2] as int, b[3] as int);
    assert(b[0] < 0x80 && b[1] < 0x80 && b[2] < 0x80 && b[3] < 0x80);
    let n = syncsafe_value(b);
    assert(0 <= n < 0x1000_0000) by (nonlinear_arith)
        requires
            n == b0 * 0x20_0000 + b1 * 0x4000 + b2 * 0x80 + b3,
            0 <= b0 < 0x80, 0 <= b1 < 0x80, 0 <= b2 < 0x80, 0 <= b3 < 0x80;
    assert(n / 0x20_0000 == b0 && (n / 0x4000) % 0x80 == b1 && (n / 0x80) % 0x80 == b2
        && n % 0x80 == b3) by (nonlinear_arith)
        requires
            n == b0 * 0x20_0000 + b1 * 0x4000 + b2 * 0x80 + b3,
            0 <= b0 < 0x80, 0 <= b1 < 0x80, 0 <= b2 < 0x80, 0 <= b3 < 0x80;
    assert(syncsafe_bytes(n) =~= b);
}

/// Two values below 2^28 with the same syncsafe bytes are equal.
pub proof fn lemma_syncsafe_injective(m: int, n: int)
    requires
        0 <= m < SYNCSAFE_LIMIT,
        0 <= n < SYNCSAFE_LIMIT,
        syncsafe_bytes(m) == syncsafe_bytes(n),
    ensures
        m == n,
{
    lemma_syncsafe_encode_decode(m);
    lemma_syncsafe_encode_decode(n);
}

/// The four syncsafe bytes of `n`.
pub fn encode_syncsafe(n: u32) -> (r: Vec<u8>)
    requires
        n < SYNCSAFE_LIMIT,
    ensures
        r@ == syncsafe_bytes(n as int),
{
    let mut r: Vec<u8> = Vec::new();
    r.push((n / 0x20_0000) as u8);
    r.push(((n / 0x4000) % 0x80) as u8);
    r.push(((n / 0x80) % 0x80) as u8);
    r.push((n % 0x80) as u8);
    assert(r@ =~= syncsafe_bytes(n as int));
    r
}

/// The value of the four bytes of `b` from `at` on, or `None` where one of
/// them has its high bit set.
pub fn decode_syncsafe(b: &[u8], at: usize) -> (r: Option<u32>)
    requires
        at + 4 <= b@.len(),
    ensures
        r is Some <==> is_syncsafe(b@.subrange(at as int, at + 4)),
        r is Some ==> r->0 == syncsafe_value(b@.subrange(at as int, at + 4)),
        r is Some ==> r->0 < SYNCSAFE_LIMIT,
{
    let ghost w = b@.subrange(at as int, at + 4);
    let (b0, b1, b2, b3) = (b[at], b[at + 1], b[at + 2], b[at + 3]);
    assert(w[0] == b0 && w[1] == b1 && w[2] == b2 && w[3] == b3);
    if b0 >= 0x80 || b1 >= 0x80 || b2 >= 0x80 || b3 >= 0x80 {
        return None;
    }
    assert(is_syncsafe(w));
    proof {
        lemma_syncsafe_decode_encode(w);
    }
    Some((b0 as u32) * 0x20_0000 + (b1 as u32) * 0x4000 + (b2 as u32) * 0x80 + b3 as u32)
}

} // verus!
