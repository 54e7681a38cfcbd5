//! The values of a multi-valued text frame: ID3v2.4 separates them by a
//! zero code point.
use vstd::prelude::*;

verus! {

/// The values in `s`, split at every zero code point; an empty text holds one
/// empty value.
pub open spec fn values_of(s: Seq<u32>) -> Seq<Seq<u32>>
    decreases s.len(),
{
    if s.len() == 0 {
        seq![Seq::empty()]
    } else {
        let r = values_of(s.drop_last());
        if s.last() == 0 {
            r.push(Seq::empty())
        } else {
            r.update(r.len() - 1, r.last().push(s.last()))
        }
    }
}

/// The values `vs` joined with a zero code point between each two.
pub open spec fn joined(vs: Seq<Seq<u32>>) -> Seq<u32>
    decreases vs.len(),
{
    if vs.len() <= 1 {
        if vs.len() == 0 { Seq::empty() } else { vs[0] }
    } else {
        joined(vs.drop_last()) + seq![0u32] + vs.last()
    }
}

/// Whether `s` holds no zero code point.
pub open spec fn zero_free(s: Seq<u32>) -> bool {
    forall|i: int| 0 <= i < s.len() ==> #[trigger] s[i] != 0
}

proof fn lemma_values_nonempty(s: Seq<u32>)
    ensures
        values_of(s).len() >= 1,
    decreases s.len(),
{
    if s.len() > 0 {
        lemma_values_nonempty(s.drop_last());
    }
}

/// Joining the values of a text gives the text back.
pub proof fn lemma_join_values(s: Seq<u32>)
    ensures
        joined(values_of(s)) == s,
    decreases s.len(),
{
    if s.len() > 0 {
        let p = s.drop_last();
        lemma_join_values(p);
        lemma_values_nonempty(p);
        let r = values_of(p);
        if s.last() == 0 {
            let q = r.push(Seq::empty());
            assert(q.drop_last() =~= r);
            assert(joined(q) =~= s);
        } else {
            let q = r.update(r.len() - 1, r.last().push(s.last()));
            if r.len() == 1 {
                assert(joined(r) == r[0]);
                assert(p.push(s.last()) =~= s);
                assert(joined(q) == q[0]);
                assert(q[0] == r[0].push(s.last()));
                assert(r[0] == p);
            } else {
                assert(q.drop_last() =~= r.drop_last());
                assert(joined(r) == joined(r.drop_last()) + seq![0u32] + r.last());
                assert(q.last() == r.last().push(s.last()));
                assert(joined(q) == joined(q.drop_last()) + seq![0u32] + q.last());
                assert(p.push(s.last()) =~= s);
                assert(joined(r.drop_last()) + seq![0u32] + r.last().push(s.last()) =~= (joined(
                    r.drop_last(),
                ) + seq![0u32] + r.last()).push(s.last()));
            }
        }
    }
}

proof fn lemma_values_append(a: Seq<u32>, b: Seq<u32>)
    requires
        zero_free(b),
    ensures
        values_of(a + seq![0u32] + b) == values_of(a).push(b),
    decreases b.len(),
{
    if b.len() == 0 {
        assert((a + seq![0u32] + b).drop_last() =~= a);
        assert(b =~= Seq::<u32>::empty());
    } else {
        let c = b.drop_last();
        assert(zero_free(c));
        lemma_values_append(a, c);
        let s = a + seq![0u32] + b;
        assert(s.drop_last() =~= a + seq![0u32] + c);
        assert(s.last() == b.last() && b.last() != 0);
        assert(c.push(b.last()) =~= b);
        let r = values_of(a).push(c);
        assert(r.last() == c);
        assert(r.update(r.len() - 1, r.last().push(s.last())) =~= values_of(a).push(b));
    }
}

/// Splitting joined values gives them back, where there is at least one and
/// none holds a zero code point.
pub proof fn lemma_values_join(vs: Seq<Seq<u32>>)
    requires
        vs.len() >= 1,
        forall|i: int| 0 <= i < vs.len() ==> zero_free(#[trigger] vs[i]),
    ensures
        values_of(joined(vs)) == vs,
    decreases vs.len(),
{
    if vs.len() == 1 {
        lemma_values_zero_free(vs[0]);
        assert(vs =~= seq![vs[0]]);
    } else {
        let p = vs.drop_last();
        assert(forall|i: int| 0 <= i < p.len() ==> zero_free(#[trigger] p[i]) ) by {
            assert forall|i: int| 0 <= i < p.len() implies zero_free(#[trigger] p[i]) by {
                assert(p[i] == vs[i]);
            }
        }
        lemma_values_join(p);
        assert(zero_free(vs.last()));
        lemma_values_append(joined(p), vs.last());
        assert(p.push(vs.last()) =~= vs);
    }
}

proof fn lemma_values_zero_free(s: Seq<u32>)
    requires
        zero_free(s),
    ensures
        values_of(s) == seq![s],
    decreases s.len(),
{
    if s.len() > 0 {
        let p = s.drop_last();
        assert(zero_free(p));
        lemma_values_zero_free(p);
        assert(p.push(s.last()) =~= s);
        assert(seq![p].update(0, p.push(s.last())) =~= seq![s]);
    } else {
        assert(s =~= Seq::<u32>::empty());
    }
}

/// The values in the text `s`, split at every zero code point.
pub fn split_values(s: &[u32]) -> (r: Vec<Vec<u32>>)
    ensures
        r@.map_values(|v: Vec<u32>| v@) == values_of(s@),
{
    let mut r: Vec<Vec<u32>> = Vec::new();
    let mut cur: Vec<u32> = Vec::new();
    let mut i: usize = 0;
    assert(s@.subrange(0, 0) =~= Seq::<u32>::empty());
    while i < s.len()
        invariant
            i <= s@.len(),
            r@.map_values(|v: Vec<u32>| v@).push(cur@) == values_of(s@.subrange(0, i as int)),
        decreases s@.len() - i,
    {
        let ghost pre = s@.subrange(0, i + 1);
        assert(pre.drop_last() =~= s@.subrange(0, i as int));
        let ghost old_r = r@.map_values(|v: Vec<u32>| v@);
        let ghost old_cur = cur@;
        if s[i] == 0 {
            let done = cur;
            r.push(done);
            cur = Vec::new();
            assert(r@.map_values(|v: Vec<u32>| v@) =~= old_r.push(old_cur));
        } else {
            cur.push(s[i]);
            assert(old_r.push(old_cur).update(old_r.len() as int, old_cur.push(s[i as int])) =~= old_r.push(cur@));
        }
        i = i + 1;
    }
    assert(s@.subrange(0, s@.len() as int) =~= s@);
    let ghost before = r@.map_values(|v: Vec<u32>| v@);
    r.push(cur);
    assert(r@.map_values(|v: Vec<u32>| v@) =~= before.push(cur@));
    r
}

} // verus!
