//! Global page arithmetic of a session: the total page count over a list of
//! sources and the mapping from a global page index to a pair of source index
//! and page index local to that source.
//!
//! Pages are numbered globally in source order: source `k` supplies the
//! global indices from `prefix_pages(counts, k)` (inclusive) up to
//! `prefix_pages(counts, k + 1)` (exclusive), where `counts` is the sequence
//! of per-source page counts.

use vstd::prelude::*;
use crate::source::Source;

verus! {

/// The per-source page counts of a source list.
pub open spec fn counts_of(sources: Seq<Source>) -> Seq<nat> {
    sources.map_values(|s: Source| s.page_count as nat)
}

/// Sum of a sequence of page counts.
pub open spec fn total_pages(counts: Seq<nat>) -> nat
    decreases counts.len(),
{
    if counts.len() == 0 {
        0
    } else {
        counts[0] + total_pages(counts.drop_first())
    }
}

/// Pages supplied by the sources before index `k`.
pub open spec fn prefix_pages(counts: Seq<nat>, k: int) -> nat {
    total_pages(counts.take(k))
}

/// The source index and local page index holding global page `g`.
pub open spec fn locate_spec(counts: Seq<nat>, g: nat) -> (int, int)
    decreases counts.len(),
{
    if counts.len() == 0 {
        (0, 0)
    } else if g < counts[0] {
        (0, g as int)
    } else {
        let (s, p) = locate_spec(counts.drop_first(), (g - counts[0]) as nat);
        (s + 1, p)
    }
}

/// Appending one count adds its pages to the total.
pub proof fn lemma_total_pages_push(counts: Seq<nat>, c: nat)
    ensures
        total_pages(counts.push(c)) == total_pages(counts) + c,
    decreases counts.len(),
{
    assert(counts.push(c)[0] == if counts.len() == 0 {
        c
    } else {
        counts[0]
    });
    if counts.len() == 0 {
        assert(counts.push(c).drop_first() =~= Seq::<nat>::empty());
        assert(total_pages(Seq::<nat>::empty()) == 0);
    } else {
        assert(counts.push(c).drop_first() =~= counts.drop_first().push(c));
        lemma_total_pages_push(counts.drop_first(), c);
    }
}

/// The pages before source `k + 1` are those before `k` plus `k`'s own.
pub proof fn lemma_prefix_pages_step(counts: Seq<nat>, k: int)
    requires
        0 <= k < counts.len(),
    ensures
        prefix_pages(counts, k + 1) == prefix_pages(counts, k) + counts[k],
{
    assert(counts.take(k + 1) =~= counts.take(k).push(counts[k]));
    lemma_total_pages_push(counts.take(k), counts[k]);
}

/// A prefix never holds more pages than the whole.
pub proof fn lemma_prefix_pages_le_total(counts: Seq<nat>, k: int)
    requires
        0 <= k <= counts.len(),
    ensures
        prefix_pages(counts, k) <= total_pages(counts),
    decreases counts.len() - k,
{
    if k == counts.len() {
        assert(counts.take(k) =~= counts);
    } else {
        lemma_prefix_pages_step(counts, k);
        lemma_prefix_pages_le_total(counts, k + 1);
    }
}

/// For a valid global index, `locate_spec` lands inside a source and the
/// located pair decomposes `g` into prefix plus local offset.
pub proof fn lemma_locate_spec_valid(counts: Seq<nat>, g: nat)
    requires
        g < total_pages(counts),
    ensures
        ({
            let (s, p) = locate_spec(counts, g);
            &&& 0 <= s < counts.len()
            &&& 0 <= p < counts[s]
            &&& prefix_pages(counts, s) + p == g
        }),
    decreases counts.len(),
{
    let (s, p) = locate_spec(counts, g);
    if counts.len() == 0 {
    } else if g < counts[0] {
        assert(counts.take(0) =~= Seq::<nat>::empty());
    } else {
        let rest = counts.drop_first();
        let g2 = (g - counts[0]) as nat;
        lemma_locate_spec_valid(rest, g2);
        let (s2, p2) = locate_spec(rest, g2);
        assert(s == s2 + 1 && p == p2);
        assert(counts.take(s) =~= seq![counts[0]] + rest.take(s2));
        lemma_total_pages_concat(seq![counts[0]], rest.take(s2));
        assert(total_pages(seq![counts[0]]) == counts[0]) by {
            assert(seq![counts[0]].drop_first() =~= Seq::<nat>::empty());
            assert(total_pages(Seq::<nat>::empty()) == 0);
        }
    }
}

/// The total over a concatenation is the sum of the totals.
pub proof fn lemma_total_pages_concat(a: Seq<nat>, b: Seq<nat>)
    ensures
        total_pages(a + b) == total_pages(a) + total_pages(b),
    decreases a.len(),
{
    if a.len() == 0 {
        assert(a + b =~= b);
    } else {
        assert((a + b).drop_first() =~= a.drop_first() + b);
        lemma_total_pages_concat(a.drop_first(), b);
    }
}

/// Inserting one count anywhere adds its pages to the total.
pub proof fn lemma_total_pages_insert(counts: Seq<nat>, p: int, c: nat)
    requires
        0 <= p <= counts.len(),
    ensures
        total_pages(counts.insert(p, c)) == total_pages(counts) + c,
{
    assert(counts.insert(p, c) =~= counts.take(p) + (seq![c] + counts.skip(p)));
    lemma_total_pages_concat(counts.take(p), seq![c] + counts.skip(p));
    lemma_total_pages_concat(seq![c], counts.skip(p));
    assert(total_pages(seq![c]) == c) by {
        assert(seq![c].drop_first() =~= Seq::<nat>::empty());
        assert(total_pages(Seq::<nat>::empty()) == 0);
    }
    assert(counts =~= counts.take(p) + counts.skip(p));
    lemma_total_pages_concat(counts.take(p), counts.skip(p));
}

/// The first source with pages holds global page 0.
pub proof fn lemma_locate_spec_prefix(counts: Seq<nat>, s: int)
    requires
        0 <= s < counts.len(),
        counts[s] > 0,
        forall|k: int| 0 <= k < s ==> counts[k] > 0,
        prefix_pages(counts, s) < total_pages(counts),
    ensures
        locate_spec(counts, prefix_pages(counts, s)) == (s, 0int),
    decreases s,
{
    if s == 0 {
        assert(counts.take(0) =~= Seq::<nat>::empty());
        assert(total_pages(Seq::<nat>::empty()) == 0);
    } else {
        let rest = counts.drop_first();
        assert(counts.take(s) =~= seq![counts[0]] + rest.take(s - 1));
        lemma_total_pages_concat(seq![counts[0]], rest.take(s - 1));
        assert(total_pages(seq![counts[0]]) == counts[0]) by {
            assert(seq![counts[0]].drop_first() =~= Seq::<nat>::empty());
            assert(total_pages(Seq::<nat>::empty()) == 0);
        }
        assert(total_pages(counts) == counts[0] + total_pages(rest));
        assert(rest.take(s - 1) =~= counts.take(s).drop_first());
        lemma_locate_spec_prefix(rest, s - 1);
    }
}

/// Finds the source holding global page `g` and its local index there.
pub fn locate(sources: &Vec<Source>, g: usize) -> (r: (usize, usize))
    requires
        (g as nat) < total_pages(counts_of(sources@)),
    ensures
        locate_spec(counts_of(sources@), g as nat) == (r.0 as int, r.1 as int),
        r.0 < sources@.len(),
        r.1 < sources@[r.0 as int].page_count,
        prefix_pages(counts_of(sources@), r.0 as int) + r.1 == g,
{
    let ghost counts = counts_of(sources@);
    let n: usize = sources.len();
    let mut s: usize = 0;
    let mut remaining: usize = g;
    proof {
        assert(counts.skip(0) =~= counts);
        lemma_locate_spec_valid(counts, g as nat);
    }
    loop
        invariant
            n == sources@.len(),
            s <= n,
            counts == counts_of(sources@),
            (remaining as nat) < total_pages(counts.skip(s as int)),
            locate_spec(counts, g as nat).0 == s + locate_spec(
                counts.skip(s as int),
                remaining as nat,
            ).0,
            locate_spec(counts, g as nat).1 == locate_spec(
                counts.skip(s as int),
                remaining as nat,
            ).1,
            0 <= locate_spec(counts, g as nat).0 < counts.len(),
            0 <= locate_spec(counts, g as nat).1 < counts[locate_spec(counts, g as nat).0],
            prefix_pages(counts, locate_spec(counts, g as nat).0) + locate_spec(
                counts,
                g as nat,
            ).1 == g,
        decreases sources@.len() - s,
    {
        proof {
            if s == sources@.len() {
                assert(counts.skip(s as int).len() == 0);
            }
        }
        let count = sources[s].page_count;
        proof {
            assert(counts.skip(s as int)[0] == counts[s as int]);
        }
        if remaining < count {
            proof {
                assert(locate_spec(counts.skip(s as int), remaining as nat) == (
                    0int,
                    remaining as int,
                ));
            }
            return (s, remaining);
        }
        proof {
            assert(counts.skip(s as int).drop_first() =~= counts.skip(s as int + 1));
            assert(total_pages(counts.skip(s as int)) == counts[s as int] + total_pages(
                counts.skip(s as int + 1),
            ));
        }
        remaining = remaining - count;
        s = s + 1;
    }
}

/// Later global pages never locate in an earlier source: the session visits
/// sources strictly in order.
pub proof fn lemma_locate_spec_monotonic(counts: Seq<nat>, g1: nat, g2: nat)
    requires
        g1 <= g2,
        g2 < total_pages(counts),
    ensures
        locate_spec(counts, g1).0 <= locate_spec(counts, g2).0,
        locate_spec(counts, g1).0 == locate_spec(counts, g2).0 ==> locate_spec(counts, g1).1
            <= locate_spec(counts, g2).1,
    decreases counts.len(),
{
    lemma_locate_spec_valid(counts, g1);
    lemma_locate_spec_valid(counts, g2);
    if counts.len() == 0 {
    } else if g1 < counts[0] {
    } else {
        assert(total_pages(counts) == counts[0] + total_pages(counts.drop_first()));
        lemma_locate_spec_monotonic(
            counts.drop_first(),
            (g1 - counts[0]) as nat,
            (g2 - counts[0]) as nat,
        );
    }
}

} // verus!
