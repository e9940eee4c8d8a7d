//! Ranking of chapter rows: by visit count descending. Ties are broken by
//! the smaller (earlier-created) id so that the order is total and page
//! boundaries are stable.

use vstd::prelude::*;
use crate::models::Chapter;

verus! {

/// `a` ranks strictly before `b`: more visits, or equally many and an
/// earlier id.
pub open spec fn rank_before(a: Chapter, b: Chapter) -> bool {
    a.visit_count > b.visit_count || (a.visit_count == b.visit_count && a.id < b.id)
}

/// Ranked from best to worst: no later element ranks before an earlier
/// one.
pub open spec fn rank_sorted(s: Seq<Chapter>) -> bool {
    forall|i: int, j: int| 0 <= i < j < s.len() ==> !rank_before(#[trigger] s[j], #[trigger] s[i])
}

/// Inserting into a ranked sequence: `c` goes in front of the first
/// element it outranks.
pub open spec fn spec_rank_insert(c: Chapter, s: Seq<Chapter>) -> Seq<Chapter>
    decreases s.len(),
{
    if s.len() == 0 {
        seq![c]
    } else if rank_before(c, s[0]) {
        s.insert(0, c)
    } else {
        spec_rank_insert(c, s.drop_first()).insert(0, s[0])
    }
}

/// Insertion sort by rank: the ranking every query presents.
pub open spec fn spec_rank_sort(s: Seq<Chapter>) -> Seq<Chapter>
    decreases s.len(),
{
    if s.len() == 0 {
        Seq::empty()
    } else {
        spec_rank_insert(s[0], spec_rank_sort(s.drop_first()))
    }
}

pub proof fn lemma_rank_insert_len(c: Chapter, s: Seq<Chapter>)
    ensures
        spec_rank_insert(c, s).len() == s.len() + 1,
    decreases s.len(),
{
    if s.len() == 0 {
    } else if rank_before(c, s[0]) {
    } else {
        lemma_rank_insert_len(c, s.drop_first());
    }
}

/// Sorting keeps the length.
pub proof fn lemma_rank_sort_len(s: Seq<Chapter>)
    ensures
        spec_rank_sort(s).len() == s.len(),
    decreases s.len(),
{
    if s.len() > 0 {
        lemma_rank_sort_len(s.drop_first());
        lemma_rank_insert_len(s[0], spec_rank_sort(s.drop_first()));
    }
}

pub proof fn lemma_rank_insert_multiset(c: Chapter, s: Seq<Chapter>)
    ensures
        spec_rank_insert(c, s).to_multiset() == s.to_multiset().insert(c),
    decreases s.len(),
{
    broadcast use vstd::seq_lib::group_to_multiset_ensures;
    broadcast use vstd::multiset::group_multiset_axioms;

    if s.len() == 0 {
        assert(seq![c] =~= s.insert(0, c));
    } else if rank_before(c, s[0]) {
    } else {
        lemma_rank_insert_multiset(c, s.drop_first());
        let t = spec_rank_insert(c, s.drop_first());
        assert(t.insert(0, s[0]).to_multiset() == t.to_multiset().insert(s[0]));
        assert(s =~= s.drop_first().insert(0, s[0]));
        assert(s.to_multiset() == s.drop_first().to_multiset().insert(s[0]));
        assert(s.drop_first().to_multiset().insert(c).insert(s[0]) =~= s.drop_first().to_multiset().insert(
            s[0],
        ).insert(c));
    }
}

/// The ranking is a permutation: same rows, same multiplicities.
pub proof fn lemma_rank_sort_multiset(s: Seq<Chapter>)
    ensures
        spec_rank_sort(s).to_multiset() == s.to_multiset(),
    decreases s.len(),
{
    broadcast use vstd::seq_lib::group_to_multiset_ensures;
    broadcast use vstd::multiset::group_multiset_axioms;

    if s.len() > 0 {
        lemma_rank_sort_multiset(s.drop_first());
        lemma_rank_insert_multiset(s[0], spec_rank_sort(s.drop_first()));
        assert(s =~= s.drop_first().insert(0, s[0]));
        assert(s.to_multiset() == s.drop_first().to_multiset().insert(s[0]));
    }
}

pub proof fn lemma_rank_insert_sorted(c: Chapter, s: Seq<Chapter>)
    requires
        rank_sorted(s),
    ensures
        rank_sorted(spec_rank_insert(c, s)),
    decreases s.len(),
{
    broadcast use vstd::seq_lib::group_to_multiset_ensures;
    broadcast use vstd::multiset::group_multiset_axioms;

    if s.len() == 0 {
    } else if rank_before(c, s[0]) {
        let out = s.insert(0, c);
        assert forall|i: int, j: int| 0 <= i < j < out.len() implies !rank_before(
            #[trigger] out[j],
            #[trigger] out[i],
        ) by {
            if i == 0 {
                assert(out[j] == s[j - 1]);
                if j > 1 {
                    assert(!rank_before(s[j - 1], s[0]));
                }
            } else {
                assert(out[i] == s[i - 1] && out[j] == s[j - 1]);
            }
        }
    } else {
        assert(rank_sorted(s.drop_first())) by {
            assert(forall|i: int, j: int|
                0 <= i < j < s.drop_first().len() ==> s.drop_first()[i] == s[i + 1]
                    && s.drop_first()[j] == s[j + 1]);
        }
        lemma_rank_insert_sorted(c, s.drop_first());
        lemma_rank_insert_multiset(c, s.drop_first());
        let t = spec_rank_insert(c, s.drop_first());
        let out = t.insert(0, s[0]);
        // every element of t is c or some element of s.drop_first(),
        // and s[0] outranks both
        assert forall|x: Chapter| t.contains(x) implies !rank_before(x, s[0]) by {
            assert(t.to_multiset().count(x) > 0);
            if x != c {
                assert(s.drop_first().to_multiset().count(x) > 0);
                assert(s.drop_first().contains(x));
                let k = choose|k: int|
                    0 <= k < s.drop_first().len() && s.drop_first()[k] == x;
                assert(s[k + 1] == x);
                assert(!rank_before(s[k + 1], s[0]));
            }
        }
        assert forall|i: int, j: int| 0 <= i < j < out.len() implies !rank_before(
            #[trigger] out[j],
            #[trigger] out[i],
        ) by {
            if i == 0 {
                assert(out[j] == t[j - 1]);
                assert(t.contains(t[j - 1]));
            } else {
                assert(out[i] == t[i - 1] && out[j] == t[j - 1]);
            }
        }
    }
}

/// The ranking really is ranked: visit counts never increase along it.
pub proof fn lemma_rank_sort_sorted(s: Seq<Chapter>)
    ensures
        rank_sorted(spec_rank_sort(s)),
    decreases s.len(),
{
    if s.len() > 0 {
        lemma_rank_sort_sorted(s.drop_first());
        lemma_rank_insert_sorted(s[0], spec_rank_sort(s.drop_first()));
    }
}

/// Where the new element lands: in front of the first element it
/// outranks.
proof fn lemma_rank_insert_position(c: Chapter, s: Seq<Chapter>, p: int)
    requires
        0 <= p <= s.len(),
        forall|j: int| 0 <= j < p ==> !rank_before(c, s[j]),
        p < s.len() ==> rank_before(c, s[p]),
    ensures
        spec_rank_insert(c, s) == s.insert(p, c),
    decreases p,
{
    if p == 0 {
        if s.len() == 0 {
            assert(spec_rank_insert(c, s) =~= s.insert(0, c));
        }
    } else {
        assert(!rank_before(c, s[0]));
        assert forall|j: int| 0 <= j < p - 1 implies !rank_before(c, s.drop_first()[j]) by {
            assert(s.drop_first()[j] == s[j + 1]);
        }
        if p - 1 < s.drop_first().len() {
            assert(s.drop_first()[p - 1] == s[p]);
        }
        lemma_rank_insert_position(c, s.drop_first(), p - 1);
        assert(s.drop_first().insert(p - 1, c).insert(0, s[0]) =~= s.insert(p, c));
    }
}

/// Inserts `c` into an already built ranking, in front of the first row
/// it outranks.
pub fn rank_insert(out: &mut Vec<Chapter>, c: Chapter)
    ensures
        final(out)@ == spec_rank_insert(c, old(out)@),
{
    let mut p: usize = 0;
    while p < out.len() && !(c.visit_count > out[p].visit_count || (c.visit_count
        == out[p].visit_count && c.id < out[p].id))
        invariant
            *out == *old(out),
            p <= out@.len(),
            forall|j: int| 0 <= j < p ==> !rank_before(c, #[trigger] out@[j]),
        decreases out@.len() - p,
    {
        p += 1;
    }
    proof {
        lemma_rank_insert_position(c, out@, p as int);
    }
    out.insert(p, c);
}

/// Ranks the given rows, best first.
pub fn rank_sort(input: &Vec<Chapter>) -> (out: Vec<Chapter>)
    ensures
        out@ == spec_rank_sort(input@),
{
    let n = input.len();
    let mut out: Vec<Chapter> = Vec::new();
    let mut i: usize = n;
    while i > 0
        invariant
            i <= n,
            n == input@.len(),
            out@ == spec_rank_sort(input@.subrange(i as int, n as int)),
        decreases i,
    {
        i -= 1;
        let c = input[i].clone();
        rank_insert(&mut out, c);
        proof {
            let tail = input@.subrange(i as int, n as int);
            assert(tail.drop_first() =~= input@.subrange(i + 1, n as int));
            assert(tail[0] == input@[i as int]);
        }
    }
    proof {
        assert(input@.subrange(0, n as int) =~= input@);
    }
    out
}

} // verus!
