//! The suggestion engine: scores every known title against a query by the
//! length of their longest common subsequence, ranks descending by score
//! with ties kept in catalogue order, and returns the best few.

use vstd::multiset::Multiset;
use vstd::prelude::*;
use vstd::string::StrSliceExecFns;

verus! {

/// The length of the longest common subsequence of the two character
/// sequences: the similarity score, symmetric in its arguments.
pub open spec fn lcs(a: Seq<char>, b: Seq<char>) -> nat
    decreases a.len(), b.len(),
{
    if a.len() == 0 || b.len() == 0 {
        0
    } else if a.last() == b.last() {
        lcs(a.drop_last(), b.drop_last()) + 1
    } else if lcs(a.drop_last(), b) >= lcs(a, b.drop_last()) {
        lcs(a.drop_last(), b)
    } else {
        lcs(a, b.drop_last())
    }
}

/// The score never exceeds either argument's length.
pub proof fn lemma_lcs_le(a: Seq<char>, b: Seq<char>)
    ensures
        lcs(a, b) <= a.len(),
        lcs(a, b) <= b.len(),
    decreases a.len(), b.len(),
{
    if a.len() == 0 || b.len() == 0 {
    } else {
        lemma_lcs_le(a.drop_last(), b.drop_last());
        lemma_lcs_le(a.drop_last(), b);
        lemma_lcs_le(a, b.drop_last());
    }
}

/// The characters of the slice, in order.
fn chars_of(s: &str) -> (v: Vec<char>)
    ensures
        v@ == s@,
{
    let len = s.unicode_len();
    let mut v: Vec<char> = Vec::new();
    let mut i: usize = 0;
    while i < len
        invariant
            0 <= i <= len,
            len == s@.len(),
            v@.len() == i,
            forall|j: int| 0 <= j < i ==> v@[j] == s@[j],
        decreases len - i,
    {
        v.push(s.get_char(i));
        i = i + 1;
    }
    proof {
        assert(v@ =~= s@);
    }
    v
}

/// Computes the similarity score of two strings by dynamic programming
/// over prefixes.
pub fn similarity_score(a: &str, b: &str) -> (r: usize)
    ensures
        r as nat == lcs(a@, b@),
{
    let av = chars_of(a);
    let bv = chars_of(b);
    let n = av.len();
    let m = bv.len();
    let ghost sa = a@;
    let ghost sb = b@;

    let mut prev: Vec<usize> = Vec::new();
    prev.push(0);
    let mut j: usize = 0;
    while j < m
        invariant
            0 <= j <= m,
            m == sb.len(),
            prev@.len() == j + 1,
            forall|t: int| 0 <= t <= j ==> prev@[t] == 0,
        decreases m - j,
    {
        prev.push(0);
        j = j + 1;
    }
    proof {
        assert(forall|t: int|
            0 <= t <= m ==> lcs(sa.subrange(0, 0), sb.subrange(0, t)) == 0);
    }

    let mut i: usize = 0;
    while i < n
        invariant
            0 <= i <= n,
            n == sa.len(),
            m == sb.len(),
            av@ == sa,
            bv@ == sb,
            prev@.len() == m + 1,
            forall|t: int| 0 <= t <= m ==> prev@[t] as nat == lcs(
                sa.subrange(0, i as int),
                sb.subrange(0, t),
            ),
        decreases n - i,
    {
        let mut cur: Vec<usize> = Vec::new();
        cur.push(0);
        proof {
            assert(lcs(sa.subrange(0, i + 1), sb.subrange(0, 0)) == 0);
        }
        let mut j: usize = 0;
        while j < m
            invariant
                0 <= j <= m,
                0 <= i < n,
                n == sa.len(),
                m == sb.len(),
                av@ == sa,
                bv@ == sb,
                prev@.len() == m + 1,
                forall|t: int| 0 <= t <= m ==> prev@[t] as nat == lcs(
                    sa.subrange(0, i as int),
                    sb.subrange(0, t),
                ),
                cur@.len() == j + 1,
                forall|t: int| 0 <= t <= j ==> cur@[t] as nat == lcs(
                    sa.subrange(0, i + 1),
                    sb.subrange(0, t),
                ),
            decreases m - j,
        {
            let ghost pa = sa.subrange(0, i + 1);
            let ghost pb = sb.subrange(0, j + 1);
            proof {
                assert(pa.len() == i + 1 && pb.len() == j + 1);
                assert(pa.last() == sa[i as int]);
                assert(pb.last() == sb[j as int]);
                assert(pa.drop_last() =~= sa.subrange(0, i as int));
                assert(pb.drop_last() =~= sb.subrange(0, j as int));
                lemma_lcs_le(pa.drop_last(), pb.drop_last());
            }
            let val: usize = if av[i] == bv[j] {
                prev[j] + 1
            } else {
                if prev[j + 1] >= cur[j] {
                    prev[j + 1]
                } else {
                    cur[j]
                }
            };
            proof {
                assert(val as nat == lcs(pa, pb));
            }
            cur.push(val);
            j = j + 1;
        }
        prev = cur;
        i = i + 1;
    }
    proof {
        assert(sa.subrange(0, sa.len() as int) =~= sa);
        assert(sb.subrange(0, sb.len() as int) =~= sb);
    }
    prev[m]
}

/// Strictly before in the ranking: a higher score, or the same score and
/// an earlier place in the catalogue.
pub open spec fn rank_prec(x: (usize, usize), y: (usize, usize)) -> bool {
    x.0 > y.0 || (x.0 == y.0 && x.1 < y.1)
}

/// At-or-before in the ranking.
pub open spec fn rank_ord(x: (usize, usize), y: (usize, usize)) -> bool {
    x.0 > y.0 || (x.0 == y.0 && x.1 <= y.1)
}

/// Sorted for the ranking order.
pub open spec fn sorted_ranking(s: Seq<(usize, usize)>) -> bool {
    forall|i: int, j: int|
        0 <= i <= j < s.len() ==> rank_ord(#[trigger] s[i], #[trigger] s[j])
}

/// `p` inserted in front of the first entry it ranks before.
pub open spec fn rank_insert(p: (usize, usize), s: Seq<(usize, usize)>) -> Seq<(usize, usize)>
    decreases s.len(),
{
    if s.len() == 0 {
        seq![p]
    } else if rank_prec(p, s[0]) {
        seq![p] + s
    } else {
        seq![s[0]] + rank_insert(p, s.subrange(1, s.len() as int))
    }
}

/// The scored entries in ranking order: insertion sort.
pub open spec fn rank_sort(s: Seq<(usize, usize)>) -> Seq<(usize, usize)>
    decreases s.len(),
{
    if s.len() == 0 {
        Seq::empty()
    } else {
        rank_insert(s.last(), rank_sort(s.drop_last()))
    }
}

proof fn lemma_rank_insert_props(p: (usize, usize), s: Seq<(usize, usize)>)
    requires
        sorted_ranking(s),
    ensures
        rank_insert(p, s).len() == s.len() + 1,
        sorted_ranking(rank_insert(p, s)),
        rank_insert(p, s).to_multiset() == s.to_multiset().insert(p),
        forall|k: int|
            0 <= k < rank_insert(p, s).len() ==> (#[trigger] rank_insert(p, s)[k] == p
                || s.contains(rank_insert(p, s)[k])),
    decreases s.len(),
{
    broadcast use vstd::seq_lib::group_to_multiset_ensures;
    broadcast use vstd::multiset::group_multiset_axioms;

    let out = rank_insert(p, s);
    if s.len() == 0 {
        assert(seq![p] =~= Seq::<(usize, usize)>::empty().push(p));
        assert(s.to_multiset() =~= Multiset::<(usize, usize)>::empty());
        assert(out.to_multiset() =~= s.to_multiset().insert(p));
    } else if rank_prec(p, s[0]) {
        assert(out == seq![p] + s);
        vstd::seq_lib::lemma_multiset_commutative(seq![p], s);
        assert(seq![p] =~= Seq::<(usize, usize)>::empty().push(p));
        assert(seq![p].to_multiset() =~= Multiset::<(usize, usize)>::empty().insert(p));
        assert(out.to_multiset() =~= s.to_multiset().insert(p));
        assert forall|k: int| 0 <= k < out.len() implies (#[trigger] out[k] == p || s.contains(
            out[k],
        )) by {
            if k > 0 {
                assert(out[k] == s[k - 1]);
            }
        }
        assert forall|i: int, j: int| 0 <= i <= j < out.len() implies rank_ord(
            #[trigger] out[i],
            #[trigger] out[j],
        ) by {
            if i == 0 && j > 0 {
                assert(out[j] == s[j - 1]);
                assert(rank_ord(s[0], s[j - 1]));
            } else if i > 0 {
                assert(out[i] == s[i - 1] && out[j] == s[j - 1]);
                assert(rank_ord(s[i - 1], s[j - 1]));
            }
        }
    } else {
        let rest = s.subrange(1, s.len() as int);
        assert(sorted_ranking(rest)) by {
            assert forall|i: int, j: int| 0 <= i <= j < rest.len() implies rank_ord(
                #[trigger] rest[i],
                #[trigger] rest[j],
            ) by {
                assert(rest[i] == s[i + 1] && rest[j] == s[j + 1]);
                assert(rank_ord(s[i + 1], s[j + 1]));
            }
        }
        lemma_rank_insert_props(p, rest);
        let inner = rank_insert(p, rest);
        assert(out == seq![s[0]] + inner);
        vstd::seq_lib::lemma_multiset_commutative(seq![s[0]], inner);
        assert(seq![s[0]] =~= Seq::<(usize, usize)>::empty().push(s[0]));
        assert(seq![s[0]].to_multiset() =~= Multiset::<(usize, usize)>::empty().insert(s[0]));
        assert(s =~= seq![s[0]] + rest);
        vstd::seq_lib::lemma_multiset_commutative(seq![s[0]], rest);
        assert(out.to_multiset() =~= s.to_multiset().insert(p));

        assert forall|k: int| 0 <= k < out.len() implies (#[trigger] out[k] == p || s.contains(
            out[k],
        )) by {
            if k > 0 {
                assert(out[k] == inner[k - 1]);
                if inner[k - 1] == p {
                } else {
                    assert(rest.contains(inner[k - 1]));
                    let w = choose|w: int| 0 <= w < rest.len() && rest[w] == inner[k - 1];
                    assert(s[w + 1] == rest[w]);
                }
            }
        }
        // the head ranks at-or-before p and every entry of the tail
        assert(rank_ord(s[0], p)) by {
            assert(!rank_prec(p, s[0]));
        }
        assert forall|i: int, j: int| 0 <= i <= j < out.len() implies rank_ord(
            #[trigger] out[i],
            #[trigger] out[j],
        ) by {
            if i == 0 && j > 0 {
                assert(out[j] == inner[j - 1]);
                if inner[j - 1] == p {
                    assert(rank_ord(s[0], p));
                } else {
                    assert(rest.contains(inner[j - 1]));
                    let w = choose|w: int| 0 <= w < rest.len() && rest[w] == inner[j - 1];
                    assert(s[w + 1] == rest[w]);
                    assert(rank_ord(s[0], s[w + 1]));
                }
            } else if i > 0 {
                assert(out[i] == inner[i - 1] && out[j] == inner[j - 1]);
                assert(rank_ord(inner[i - 1], inner[j - 1]));
            }
        }
    }
}

proof fn lemma_rank_sort_props(s: Seq<(usize, usize)>)
    ensures
        rank_sort(s).len() == s.len(),
        sorted_ranking(rank_sort(s)),
        rank_sort(s).to_multiset() == s.to_multiset(),
        forall|k: int|
            0 <= k < rank_sort(s).len() ==> s.contains(#[trigger] rank_sort(s)[k]),
    decreases s.len(),
{
    broadcast use vstd::seq_lib::group_to_multiset_ensures;
    broadcast use vstd::multiset::group_multiset_axioms;

    if s.len() == 0 {
    } else {
        let front = s.drop_last();
        lemma_rank_sort_props(front);
        lemma_rank_insert_props(s.last(), rank_sort(front));
        let out = rank_sort(s);
        assert(s =~= front.push(s.last()));
        assert(s.to_multiset() =~= front.to_multiset().insert(s.last()));
        assert(out.to_multiset() =~= s.to_multiset());
        assert forall|k: int| 0 <= k < out.len() implies s.contains(#[trigger] out[k]) by {
            if out[k] == s.last() {
                assert(s[s.len() - 1] == s.last());
            } else {
                assert(rank_sort(front).contains(out[k]));
                let w = choose|w: int|
                    0 <= w < rank_sort(front).len() && rank_sort(front)[w] == out[k];
                assert(front.contains(rank_sort(front)[w]));
                let u = choose|u: int| 0 <= u < front.len() && front[u] == out[k];
                assert(s[u] == front[u]);
            }
        }
    }
}

/// Every title scored against the query, paired with its catalogue index.
pub open spec fn scored_of(q: Seq<char>, ps: Seq<Seq<char>>) -> Seq<(usize, usize)> {
    Seq::new(ps.len(), |i: int| (lcs(q, ps[i]) as usize, i as usize))
}

/// The ranked suggestions: the titles reordered by the ranking and cut to
/// the limit.
pub open spec fn top_pages_spec(q: Seq<char>, ps: Seq<Seq<char>>, limit: int) -> Seq<Seq<char>> {
    let ranked = rank_sort(scored_of(q, ps));
    let k = if limit < ranked.len() {
        limit
    } else {
        ranked.len() as int
    };
    Seq::new(if k < 0 { 0 } else { k as nat }, |i: int| ps[ranked[i].1 as int])
}

/// The ranking law: suggestions are ordered by descending similarity
/// score; equal scores keep their original catalogue order; and the
/// ranking is a permutation of all scored titles, so a permutation of the
/// catalogue that preserves tied entries' relative order yields the same
/// ranked scores.
pub proof fn lemma_suggestion_ranking(q: Seq<char>, ps: Seq<Seq<char>>)
    ensures
        rank_sort(scored_of(q, ps)).len() == ps.len(),
        forall|i: int, j: int|
            0 <= i <= j < ps.len() ==> (#[trigger] rank_sort(scored_of(q, ps))[i]).0
                >= (#[trigger] rank_sort(scored_of(q, ps))[j]).0,
        forall|i: int, j: int|
            0 <= i <= j < ps.len() && (#[trigger] rank_sort(scored_of(q, ps))[i]).0 == (
            #[trigger] rank_sort(scored_of(q, ps))[j]).0 ==> rank_sort(scored_of(q, ps))[i].1
                <= rank_sort(scored_of(q, ps))[j].1,
        rank_sort(scored_of(q, ps)).to_multiset() == scored_of(q, ps).to_multiset(),
{
    lemma_rank_sort_props(scored_of(q, ps));
    assert forall|i: int, j: int| 0 <= i <= j < ps.len() implies (#[trigger] rank_sort(
        scored_of(q, ps),
    )[i]).0 >= (#[trigger] rank_sort(scored_of(q, ps))[j]).0 by {
        assert(rank_ord(rank_sort(scored_of(q, ps))[i], rank_sort(scored_of(q, ps))[j]));
    }
    assert forall|i: int, j: int|
        0 <= i <= j < ps.len() && (#[trigger] rank_sort(scored_of(q, ps))[i]).0 == (
        #[trigger] rank_sort(scored_of(q, ps))[j]).0 implies rank_sort(scored_of(q, ps))[i].1
        <= rank_sort(scored_of(q, ps))[j].1 by {
        assert(rank_ord(rank_sort(scored_of(q, ps))[i], rank_sort(scored_of(q, ps))[j]));
    }
}

/// Inserts one scored entry into an already ranked vector.
fn rank_insert_exec(p: (usize, usize), v: Vec<(usize, usize)>) -> (r: Vec<(usize, usize)>)
    ensures
        r@ == rank_insert(p, v@),
    decreases v@.len(),
{
    let ghost pre = v@;
    if v.len() == 0 {
        let mut out: Vec<(usize, usize)> = Vec::new();
        out.push(p);
        proof {
            assert(out@ =~= seq![p]);
        }
        out
    } else if p.0 > v[0].0 || (p.0 == v[0].0 && p.1 < v[0].1) {
        let mut out = v;
        out.insert(0, p);
        proof {
            assert(out@ =~= seq![p] + pre);
        }
        out
    } else {
        let mut v = v;
        let h = v.remove(0);
        proof {
            assert(v@ =~= pre.subrange(1, pre.len() as int));
        }
        let mut out = rank_insert_exec(p, v);
        out.insert(0, h);
        proof {
            assert(out@ =~= seq![h] + rank_insert(p, pre.subrange(1, pre.len() as int)));
        }
        out
    }
}

/// Ranks every known title against the query and returns up to `limit`
/// best matches, best first, ties in catalogue order.
#[verifier::loop_isolation(false)]
pub fn get_top_pages(page: &str, limit: usize, pages: &Vec<String>) -> (r: Vec<String>)
    ensures
        r.deep_view() == top_pages_spec(page@, pages.deep_view(), limit as int),
{
    let ghost q = page@;
    let ghost ps = pages.deep_view();
    proof {
        assert(ps.len() == pages@.len());
        assert(forall|j: int| 0 <= j < ps.len() ==> ps[j] == #[trigger] pages@[j]@);
    }

    let mut scored: Vec<(usize, usize)> = Vec::new();
    let mut i: usize = 0;
    while i < pages.len()
        invariant
            0 <= i <= pages@.len(),
            ps == pages.deep_view(),
            ps.len() == pages@.len(),
            forall|j: int| 0 <= j < ps.len() ==> ps[j] == #[trigger] pages@[j]@,
            scored@.len() == i,
            forall|j: int| 0 <= j < i ==> scored@[j] == #[trigger] scored_of(q, ps)[j],
        decreases pages@.len() - i,
    {
        let s = similarity_score(page, pages[i].as_str());
        let ghost pre = scored@;
        scored.push((s, i));
        proof {
            assert(ps[i as int] == pages@[i as int]@);
            assert(s as nat == lcs(q, ps[i as int]));
            assert((lcs(q, ps[i as int]) as usize) == s);
            assert(scored@ == pre.push((s, i)));
            assert(scored@[i as int] == scored_of(q, ps)[i as int]);
        }
        i = i + 1;
    }
    proof {
        assert(scored@ =~= scored_of(q, ps));
    }

    let mut ranked: Vec<(usize, usize)> = Vec::new();
    let mut i: usize = 0;
    proof {
        assert(scored@.subrange(0, 0) =~= Seq::<(usize, usize)>::empty());
    }
    while i < scored.len()
        invariant
            0 <= i <= scored@.len(),
            scored@ == scored_of(q, ps),
            ranked@ == rank_sort(scored@.subrange(0, i as int)),
        decreases scored@.len() - i,
    {
        let ghost prefix = scored@.subrange(0, i + 1);
        proof {
            assert(prefix.last() == scored@[i as int]);
            assert(prefix.drop_last() =~= scored@.subrange(0, i as int));
        }
        ranked = rank_insert_exec(scored[i], ranked);
        i = i + 1;
    }
    proof {
        assert(scored@.subrange(0, scored@.len() as int) =~= scored@);
        lemma_rank_sort_props(scored@);
    }

    let mut out: Vec<String> = Vec::new();
    let mut k: usize = 0;
    while k < limit && k < ranked.len()
        invariant
            0 <= k <= ranked@.len(),
            k <= limit,
            ps == pages.deep_view(),
            ps.len() == pages@.len(),
            forall|j: int| 0 <= j < ps.len() ==> ps[j] == #[trigger] pages@[j]@,
            ranked@ == rank_sort(scored_of(q, ps)),
            ranked@.len() == ps.len(),
            forall|t: int|
                0 <= t < ranked@.len() ==> scored_of(q, ps).contains(#[trigger] ranked@[t]),
            out.deep_view().len() == k,
            forall|t: int| 0 <= t < k ==> out.deep_view()[t] == ps[ranked@[t].1 as int],
        decreases ranked@.len() - k,
    {
        proof {
            assert(scored_of(q, ps).contains(ranked@[k as int]));
            let w = choose|w: int|
                0 <= w < scored_of(q, ps).len() && scored_of(q, ps)[w] == ranked@[k as int];
            assert(ranked@[k as int].1 == w as usize);
        }
        let idx = ranked[k].1;
        let ghost pre = out.deep_view();
        let title = pages[idx].clone();
        let ghost tv = title@;
        out.push(title);
        proof {
            assert(out.deep_view() =~= pre.push(tv));
        }
        k = k + 1;
    }
    proof {
        assert(out.deep_view() =~= top_pages_spec(q, ps, limit as int));
    }
    out
}

} // verus!
