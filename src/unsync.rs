//! Unsynchronisation: a zero byte is stuffed after a 0xFF byte so that the
//! tag never holds what looks like an MPEG sync marker.
use vstd::prelude::*;
use crate::version::Version;

verus! {

/// Whether a zero byte is stuffed between 0xFF and the byte `next` that
/// follows it. ID3v2.2 and ID3v2.3 stuff after every 0xFF that is followed by
/// a byte; ID3v2.4 only where the pair could be read as a sync marker or as a
/// stuffed pair, that is where `next` is zero or at least 0xE0.
pub open spec fn stuffs_after(v: Version, next: u8) -> bool {
    match v {
        Version::Id3v24 => next == 0 || next >= 0xE0,
        _ => true,
    }
}

/// The unsynchronised form of `s` under the rule of `v`.
pub open spec fn unsync_applied(v: Version, s: Seq<u8>) -> Seq<u8>
    decreases s.len(),
{
    if s.len() == 0 {
        s
    } else if s.len() >= 2 && s[0] == 0xFF && stuffs_after(v, s[1]) {
        seq![0xFFu8, 0u8] + unsync_applied(v, s.subrange(1, s.len() as int))
    } else {
        seq![s[0]] + unsync_applied(v, s.subrange(1, s.len() as int))
    }
}

/// `s` with every `0xFF 0x00` pair, read left to right, replaced by `0xFF`.
pub open spec fn unsync_removed(s: Seq<u8>) -> Seq<u8>
    decreases s.len(),
{
    if s.len() == 0 {
        s
    } else if s.len() >= 2 && s[0] == 0xFF && s[1] == 0 {
        seq![0xFFu8] + unsync_removed(s.subrange(2, s.len() as int))
    } else {
        seq![s[0]] + unsync_removed(s.subrange(1, s.len() as int))
    }
}

/// Whether `s` holds a `0xFF 0x00` pair.
pub open spec fn has_stuffed_pair(s: Seq<u8>) -> bool {
    exists|i: int| 0 <= i < s.len() - 1 && s[i] == 0xFF && #[trigger] s[i + 1] == 0
}

proof fn lemma_applied_first(v: Version, s: Seq<u8>)
    requires
        s.len() > 0,
    ensures
        unsync_applied(v, s).len() > 0,
        unsync_applied(v, s)[0] == s[0],
{
    let t = s.subrange(1, s.len() as int);
    if s.len() >= 2 && s[0] == 0xFF && stuffs_after(v, s[1]) {
        assert((seq![0xFFu8, 0u8] + unsync_applied(v, t))[0] == 0xFF);
    } else {
        assert((seq![s[0]] + unsync_applied(v, t))[0] == s[0]);
    }
}

/// Removing unsynchronisation undoes applying it, under the rule of every
/// revision, for every byte sequence.
pub proof fn lemma_unsync_round_trip(v: Version, s: Seq<u8>)
    ensures
        unsync_removed(unsync_applied(v, s)) == s,
    decreases s.len(),
{
    if s.len() > 0 {
        let t = s.subrange(1, s.len() as int);
        lemma_unsync_round_trip(v, t);
        let a = unsync_applied(v, t);
        if s.len() >= 2 && s[0] == 0xFF && stuffs_after(v, s[1]) {
            let w = seq![0xFFu8, 0u8] + a;
            assert(w.subrange(2, w.len() as int) =~= a);
            assert(seq![0xFFu8] + t =~= s);
        } else {
            let w = seq![s[0]] + a;
            assert(w.subrange(1, w.len() as int) =~= a);
            if s.len() >= 2 && s[0] == 0xFF {
                lemma_applied_first(v, t);
                assert(w[1] == s[1]);
            }
            assert(seq![s[0]] + t =~= s);
        }
    }
}

/// A sequence without a `0xFF 0x00` pair is its own unsynchronisation
/// removal, so removing and then applying it equals applying it alone.
pub proof fn lemma_unsync_removed_fixed(v: Version, s: Seq<u8>)
    requires
        !has_stuffed_pair(s),
    ensures
        unsync_removed(s) == s,
        unsync_applied(v, unsync_removed(s)) == unsync_applied(v, s),
    decreases s.len(),
{
    if s.len() > 0 {
        let t = s.subrange(1, s.len() as int);
        assert(!has_stuffed_pair(t)) by {
            if has_stuffed_pair(t) {
                let i = choose|i: int| 0 <= i < t.len() - 1 && t[i] == 0xFF && #[trigger] t[i + 1] == 0;
                assert(s[(i + 1) + 1] == 0);
            }
        }
        lemma_unsync_removed_fixed(v, t);
        if s.len() >= 2 && s[0] == 0xFF {
            assert(s[0int + 1] != 0);
        }
        assert(seq![s[0]] + t =~= s);
    }
}

/// Applies unsynchronisation under the rule of `v`.
pub fn apply_unsync(v: Version, s: &[u8]) -> (r: Vec<u8>)
    requires
        2 * s@.len() <= usize::MAX,
    ensures
        r@ == unsync_applied(v, s@),
{
    let n = s.len();
    let mut r: Vec<u8> = Vec::new();
    let mut i: usize = 0;
    assert(s@.subrange(0, n as int) =~= s@);
    while i < n
        invariant
            i <= n,
            n == s@.len(),
            r@.len() <= 2 * i,
            r@ + unsync_applied(v, s@.subrange(i as int, n as int)) == unsync_applied(v, s@),
        decreases n - i,
    {
        let ghost t = s@.subrange(i as int, n as int);
        assert(t.subrange(1, t.len() as int) =~= s@.subrange(i + 1, n as int));
        let ghost rest = unsync_applied(v, s@.subrange(i + 1, n as int));
        let ghost old_r = r@;
        let b = s[i];
        if b == 0xFF && i + 1 < n && (match v {
            Version::Id3v24 => s[i + 1] == 0 || s[i + 1] >= 0xE0,
            _ => true,
        }) {
            r.push(0xFFu8);
            r.push(0u8);
            assert(old_r + (seq![0xFFu8, 0u8] + rest) =~= r@ + rest);
        } else {
            r.push(b);
            assert(old_r + (seq![b] + rest) =~= r@ + rest);
        }
        i = i + 1;
    }
    assert(s@.subrange(n as int, n as int) =~= Seq::<u8>::empty());
    assert(r@ + Seq::<u8>::empty() =~= r@);
    r
}

/// Removes unsynchronisation: every `0xFF 0x00` pair becomes `0xFF`.
pub fn remove_unsync(s: &[u8]) -> (r: Vec<u8>)
    ensures
        r@ == unsync_removed(s@),
{
    let n = s.len();
    let mut r: Vec<u8> = Vec::new();
    let mut i: usize = 0;
    assert(s@.subrange(0, n as int) =~= s@);
    while i < n
        invariant
            i <= n,
            n == s@.len(),
            r@ + unsync_removed(s@.subrange(i as int, n as int)) == unsync_removed(s@),
        decreases n - i,
    {
        let ghost t = s@.subrange(i as int, n as int);
        let ghost old_r = r@;
        let b = s[i];
        if b == 0xFF && i + 1 < n && s[i + 1] == 0 {
            assert(t.subrange(2, t.len() as int) =~= s@.subrange(i + 2, n as int));
            r.push(0xFFu8);
            assert(old_r + (seq![0xFFu8] + unsync_removed(s@.subrange(i + 2, n as int)))
                =~= r@ + unsync_removed(s@.subrange(i + 2, n as int)));
            i = i + 2;
        } else {
            assert(t.subrange(1, t.len() as int) =~= s@.subrange(i + 1, n as int));
            r.push(b);
            assert(old_r + (seq![b] + unsync_removed(s@.subrange(i + 1, n as int)))
                =~= r@ + unsync_removed(s@.subrange(i + 1, n as int)));
            i = i + 1;
        }
    }
    assert(s@.subrange(n as int, n as int) =~= Seq::<u8>::empty());
    assert(r@ + Seq::<u8>::empty() =~= r@);
    r
}

/// Applying unsynchronisation never shortens a sequence.
pub proof fn lemma_applied_len(v: Version, s: Seq<u8>)
    ensures
        unsync_applied(v, s).len() >= s.len(),
    decreases s.len(),
{
    if s.len() > 0 {
        lemma_applied_len(v, s.subrange(1, s.len() as int));
    }
}

} // verus!
