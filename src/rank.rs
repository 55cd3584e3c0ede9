use vstd::prelude::*;

use crate::stats::{summaries_view, RgSrcInfo};

verus! {

broadcast use vstd::seq_lib::to_multiset_insert;

/// No summary is followed by one with a larger total.
pub open spec fn sorted_desc(s: Seq<(Seq<char>, nat, nat)>) -> bool {
    forall|i: int, j: int| 0 <= i < j < s.len() ==> s[i].2 >= s[j].2
}

/// The index of the first summary of `s` whose total is below `t`, or the
/// length of `s` when there is none.
pub open spec fn first_below(s: Seq<(Seq<char>, nat, nat)>, t: nat) -> int
    decreases s.len(),
{
    if s.len() == 0 {
        0
    } else if s[0].2 < t {
        0
    } else {
        1 + first_below(s.drop_first(), t)
    }
}

/// `x` placed into `s` behind every summary whose total is at least its own.
pub open spec fn insert_desc(s: Seq<(Seq<char>, nat, nat)>, x: (Seq<char>, nat, nat)) -> Seq<(Seq<char>, nat, nat)> {
    s.insert(first_below(s, x.2), x)
}

/// The summaries ordered by total, largest first. The last summary is placed
/// first and each earlier one behind those that are at least as large, so of
/// two summaries with equal totals the later one comes first.
pub open spec fn sort_desc(s: Seq<(Seq<char>, nat, nat)>) -> Seq<(Seq<char>, nat, nat)>
    decreases s.len(),
{
    if s.len() == 0 {
        Seq::empty()
    } else {
        insert_desc(sort_desc(s.drop_first()), s[0])
    }
}

/// The first `limit` summaries of `s` by total, largest first.
pub open spec fn rank_spec(s: Seq<(Seq<char>, nat, nat)>, limit: nat) -> Seq<(Seq<char>, nat, nat)> {
    let k = if limit < s.len() { limit as int } else { s.len() as int };
    sort_desc(s).take(k)
}

proof fn lemma_first_below(s: Seq<(Seq<char>, nat, nat)>, t: nat)
    ensures
        0 <= first_below(s, t) <= s.len(),
        forall|j: int| 0 <= j < first_below(s, t) ==> #[trigger] s[j].2 >= t,
        first_below(s, t) < s.len() ==> s[first_below(s, t)].2 < t,
    decreases s.len(),
{
    if s.len() > 0 && s[0].2 >= t {
        lemma_first_below(s.drop_first(), t);
        assert forall|j: int| 0 <= j < first_below(s, t) implies #[trigger] s[j].2 >= t by {
            if j > 0 {
                assert(s[j] == s.drop_first()[j - 1]);
            }
        }
    }
}

proof fn lemma_insert_desc(s: Seq<(Seq<char>, nat, nat)>, x: (Seq<char>, nat, nat))
    requires
        sorted_desc(s),
    ensures
        sorted_desc(insert_desc(s, x)),
        insert_desc(s, x).to_multiset() == s.to_multiset().insert(x),
        insert_desc(s, x).len() == s.len() + 1,
{
    lemma_first_below(s, x.2);
    let p = first_below(s, x.2);
    let r = insert_desc(s, x);
    assert forall|i: int, j: int| 0 <= i < j < r.len() implies r[i].2 >= r[j].2 by {
        if j < p {
        } else if j == p {
            assert(s[i].2 >= x.2);
        } else if i < p {
            assert(s[i].2 >= s[j - 1].2);
        } else if i == p {
            assert(s[p].2 < x.2);
            assert(s[p].2 >= s[j - 1].2 || p == j - 1);
        } else {
            assert(s[i - 1].2 >= s[j - 1].2);
        }
    }
}

/// The sort orders by total, largest first, and keeps every summary.
pub proof fn lemma_sort_desc(s: Seq<(Seq<char>, nat, nat)>)
    ensures
        sorted_desc(sort_desc(s)),
        sort_desc(s).to_multiset() == s.to_multiset(),
        sort_desc(s).len() == s.len(),
    decreases s.len(),
{
    broadcast use vstd::seq_lib::to_multiset_len;

    if s.len() > 0 {
        lemma_sort_desc(s.drop_first());
        lemma_insert_desc(sort_desc(s.drop_first()), s[0]);
        assert(s =~= s.drop_first().insert(0, s[0]));
        assert(s.drop_first().insert(0, s[0]).to_multiset() == s.drop_first().to_multiset().insert(s[0]));
    } else {
        assert(s =~= Seq::<(Seq<char>, nat, nat)>::empty());
    }
}

/// Sorts the summaries by total size, largest first, and keeps the first
/// `limit` of them.
pub fn rank(summaries: Vec<RgSrcInfo>, limit: u32) -> (r: Vec<RgSrcInfo>)
    ensures
        summaries_view(r@) == rank_spec(summaries_view(summaries@), limit as nat),
        r@.to_multiset().subset_of(summaries@.to_multiset()),
        r@.len() == if (limit as int) < summaries@.len() { limit as int } else { summaries@.len() as int },
        sorted_desc(summaries_view(r@)),
{
    let ghost orig = summaries@;
    let ghost ov = summaries_view(orig);
    let mut rest = summaries;
    let mut out: Vec<RgSrcInfo> = Vec::new();
    proof {
        assert(ov.skip(ov.len() as int) =~= Seq::<(Seq<char>, nat, nat)>::empty());
        assert(orig.skip(orig.len() as int) =~= Seq::<RgSrcInfo>::empty());
    }
    while rest.len() > 0
        invariant
            ov == summaries_view(orig),
            rest@ == orig.take(rest@.len() as int),
            rest@.len() <= orig.len(),
            summaries_view(out@) == sort_desc(ov.skip(rest@.len() as int)),
            out@.to_multiset() == orig.skip(rest@.len() as int).to_multiset(),
        decreases rest@.len(),
    {
        let x = rest.pop().unwrap();
        let ghost k = rest@.len() as int;
        let ghost sv = summaries_view(out@);
        proof {
            assert(ov.skip(k).drop_first() =~= ov.skip(k + 1));
            assert(ov.skip(k)[0] == x@);
            assert(orig.skip(k) =~= orig.skip(k + 1).insert(0, x));
            assert(orig.skip(k + 1).insert(0, x).to_multiset() == orig.skip(k + 1).to_multiset().insert(x));
            assert(rest@ =~= orig.take(k));
            lemma_first_below(sv, x@.2);
        }
        let mut p: usize = 0;
        while p < out.len() && out[p].total_size >= x.total_size
            invariant
                sv == summaries_view(out@),
                0 <= p <= out@.len(),
                p <= first_below(sv, x@.2),
                first_below(sv, x@.2) <= out@.len(),
                forall|j: int| 0 <= j < first_below(sv, x@.2) ==> #[trigger] sv[j].2 >= x@.2,
                first_below(sv, x@.2) < out@.len() ==> sv[first_below(sv, x@.2)].2 < x@.2,
            decreases out@.len() - p,
        {
            p = p + 1;
        }
        proof {
            assert(p == first_below(sv, x@.2)) by {
                if p < first_below(sv, x@.2) {
                    assert(sv[p as int].2 >= x@.2);
                }
            }
        }
        let ghost before = out@;
        out.insert(p, x);
        proof {
            assert(summaries_view(out@) =~= sv.insert(p as int, x@));
            assert(before.insert(p as int, x).to_multiset() == before.to_multiset().insert(x));
        }
    }
    proof {
        assert(ov.skip(0) =~= ov);
        assert(orig.skip(0) =~= orig);
        lemma_sort_desc(ov);
    }
    let k: usize = if (limit as usize) < out.len() { limit as usize } else { out.len() };
    let ghost full = out@;
    out.truncate(k);
    proof {
        assert(summaries_view(out@) =~= sort_desc(ov).take(k as int));
        assert(full =~= out@ + full.skip(k as int));
        vstd::seq_lib::lemma_multiset_commutative(out@, full.skip(k as int));
        assert forall|i: int, j: int| 0 <= i < j < out@.len() implies summaries_view(out@)[i].2 >= summaries_view(out@)[j].2 by {
            assert(summaries_view(out@)[i] == sort_desc(ov)[i]);
            assert(summaries_view(out@)[j] == sort_desc(ov)[j]);
        }
    }
    out
}

} // verus!
