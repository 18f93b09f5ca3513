//! The session builder: turns the raw list of user-picked paths into an
//! ordered, validated session. Directories are rejected, each remaining
//! path is classified by its extension, sources that cannot open or hold
//! no pages are dropped, and the survivors are sorted by file name before
//! the engine takes them.

use vstd::prelude::*;
use vstd::multiset::Multiset;
use crate::order::{
    bytes_le, bytes_le_exec, lemma_bytes_le_refl, lemma_bytes_le_total, lemma_bytes_le_trans,
};
use crate::sequencer::{counts_of, total_pages, lemma_total_pages_insert, lemma_total_pages_push};
use crate::source::{extract_file_name, file_name_bytes, Source, SourceType};

verus! {

/// One user-picked path, with what the file system says about it.
pub struct Candidate {
    /// The picked path.
    pub path: String,
    /// Whether the path is a directory rather than a file.
    pub is_dir: bool,
}

/// Index of the last dot in a file name, or -1 if none occurs.
pub open spec fn last_dot(name: Seq<u8>) -> int
    decreases name.len(),
{
    if name.len() == 0 {
        -1
    } else if name[name.len() - 1] == 46 {
        name.len() - 1
    } else {
        last_dot(name.take(name.len() - 1))
    }
}

/// How a file name classifies: by its extension, with documents as the
/// permissive default. A name with no extension, or a leading dot only,
/// counts as a document.
pub open spec fn classify_spec(name: Seq<u8>) -> SourceType {
    let d = last_dot(name);
    if d > 0 {
        let ext = name.skip(d + 1);
        if ext == seq![112u8, 100u8, 102u8] {
            SourceType::Pdf
        } else if ext == seq![112u8, 110u8, 103u8] || ext == seq![106u8, 112u8, 103u8] {
            SourceType::ImageSequence
        } else {
            SourceType::Pdf
        }
    } else {
        SourceType::Pdf
    }
}

proof fn lemma_last_dot_bounds(name: Seq<u8>)
    ensures
        -1 <= last_dot(name) < name.len(),
    decreases name.len(),
{
    if name.len() != 0 && name[name.len() - 1] != 46 {
        lemma_last_dot_bounds(name.take(name.len() - 1));
    }
}

/// If no dot occurs at or after `j`, the last dot of `name` is the last
/// dot of its prefix of length `j`.
proof fn lemma_last_dot_skip(name: Seq<u8>, j: int)
    requires
        0 <= j <= name.len(),
        forall|k: int| j <= k < name.len() ==> name[k] != 46,
    ensures
        last_dot(name) == last_dot(name.take(j)),
    decreases name.len() - j,
{
    if j == name.len() {
        assert(name.take(j) =~= name);
    } else {
        lemma_last_dot_skip(name, j + 1);
        let q = name.take(j + 1);
        assert(q[q.len() - 1] == name[j]);
        assert(q.take(q.len() - 1) =~= name.take(j));
    }
}

/// Classifies a file name by its extension.
pub fn classify_name(name: &Vec<u8>) -> (t: SourceType)
    ensures
        t == classify_spec(name@),
{
    let len: usize = name.len();
    let ghost p = name@;
    let mut j: usize = len;
    while j > 0 && name[j - 1] != 46
        invariant
            0 <= j <= len,
            len == p.len(),
            name@ == p,
            forall|k: int| j <= k < p.len() ==> p[k] != 46,
        decreases j,
    {
        j = j - 1;
    }
    proof {
        lemma_last_dot_skip(p, j as int);
        if j > 0 {
            assert(p.take(j as int)[j - 1] == 46);
            assert(last_dot(p.take(j as int)) == j - 1);
        } else {
            lemma_last_dot_bounds(p.take(0));
            assert(p.take(0).len() == 0);
        }
    }
    if j <= 1 {
        // No dot, or only a leading dot: the permissive default.
        return SourceType::Pdf;
    }
    let d = j - 1;
    if len - d - 1 == 3 {
        let a = name[d + 1];
        let b = name[d + 2];
        let c = name[d + 3];
        proof {
            assert(p.skip(d + 1) =~= seq![p[d + 1], p[d + 2], p[d + 3]]);
        }
        if a == 112 && b == 100 && c == 102 {
            // "pdf"
            proof {
                assert(p.skip(d + 1) =~= seq![112u8, 100u8, 102u8]);
            }
            return SourceType::Pdf;
        }
        if a == 112 && b == 110 && c == 103 {
            // "png"
            proof {
                assert(p.skip(d + 1) =~= seq![112u8, 110u8, 103u8]);
            }
            return SourceType::ImageSequence;
        }
        if a == 106 && b == 112 && c == 103 {
            // "jpg"
            proof {
                assert(p.skip(d + 1) =~= seq![106u8, 112u8, 103u8]);
            }
            return SourceType::ImageSequence;
        }
        proof {
            assert(p.skip(d + 1) != seq![112u8, 100u8, 102u8] && p.skip(d + 1) != seq![
                112u8,
                110u8,
                103u8,
            ] && p.skip(d + 1) != seq![106u8, 112u8, 103u8]);
        }
        return SourceType::Pdf;
    }
    proof {
        assert(p.skip(d + 1).len() == len - d - 1);
        assert(p.skip(d + 1) != seq![112u8, 100u8, 102u8] && p.skip(d + 1) != seq![112u8, 110u8, 103u8]
            && p.skip(d + 1) != seq![106u8, 112u8, 103u8]);
    }
    SourceType::Pdf
}

/// The sources stand in file-name order.
pub open spec fn sorted_by_name(s: Seq<Source>) -> bool {
    forall|i: int, j: int| 0 <= i < j < s.len() ==> bytes_le(#[trigger] s[i].name@, #[trigger] s[j].name@)
}

proof fn lemma_insert_to_multiset(s: Seq<Source>, i: int, e: Source)
    requires
        0 <= i <= s.len(),
    ensures
        s.insert(i, e).to_multiset() =~= s.to_multiset().insert(e),
{
    broadcast use vstd::seq_lib::group_to_multiset_ensures;

    let t = s.insert(i, e);
    assert(t.remove(i) =~= s);
    assert(t[i] == e);
    assert(t.remove(i).to_multiset() =~= t.to_multiset().remove(t[i]));
    assert(t.to_multiset().contains(e)) by {
        assert(t.contains(e));
    }
    assert forall|x: Source| s.to_multiset().insert(e).count(x) == t.to_multiset().count(
        x,
    ) by {
        if x == e {
            assert(t.to_multiset().count(e) == t.to_multiset().remove(e).count(e) + 1);
        } else {
            assert(t.to_multiset().count(x) == t.to_multiset().remove(e).count(x));
        }
    }
}

/// Selects the sources bearing exactly the given file name.
pub open spec fn name_filter(n: Seq<u8>) -> spec_fn(Source) -> bool {
    |s: Source| s.name@ == n
}

/// A list without the name filters to nothing under it.
proof fn lemma_filter_none_of_name(s: Seq<Source>, n: Seq<u8>)
    requires
        forall|i: int| 0 <= i < s.len() ==> (#[trigger] s[i]).name@ != n,
    ensures
        s.filter(name_filter(n)) == Seq::<Source>::empty(),
    decreases s.len(),
{
    reveal(Seq::filter);
    if s.len() > 0 {
        assert forall|i: int| 0 <= i < s.drop_last().len() implies (#[trigger] s.drop_last()[
        i]).name@ != n by {
            assert(s.drop_last()[i] == s[i]);
        }
        lemma_filter_none_of_name(s.drop_last(), n);
        assert(s.last() == s[s.len() - 1]);
        assert(name_filter(n)(s.last()) == (s.last().name@ == n));
    }
}

/// Sorts sources by their file names, keeping exactly the given sources
/// and their combined page count. The sort is stable: sources with equal
/// names keep their relative order, stated as each name's subsequence
/// coming through unchanged.
pub fn sort_sources(sources: Vec<Source>) -> (r: Vec<Source>)
    ensures
        sorted_by_name(r@),
        r@.to_multiset() == sources@.to_multiset(),
        r@.len() == sources@.len(),
        total_pages(counts_of(r@)) == total_pages(counts_of(sources@)),
        forall|x: Source| r@.contains(x) ==> sources@.contains(x),
        forall|n: Seq<u8>| #[trigger] r@.filter(name_filter(n)) == sources@.filter(
            name_filter(n),
        ),
{
    broadcast use vstd::seq_lib::group_to_multiset_ensures;

    let ghost input = sources@;
    let ghost mut consumed: int = 0;
    let mut rest = sources;
    let mut out: Vec<Source> = Vec::new();
    proof {
        assert(out@.to_multiset() =~= Multiset::<Source>::empty());
        assert(counts_of(out@) =~= Seq::<nat>::empty());
        assert(total_pages(Seq::<nat>::empty()) == 0);
        assert(input.skip(0) =~= input);
        assert(input.take(0) =~= Seq::<Source>::empty());
        reveal(Seq::filter);
        assert forall|n: Seq<u8>| #[trigger] out@.filter(name_filter(n)) == input.take(
            consumed,
        ).filter(name_filter(n)) by {
            assert(out@ =~= input.take(consumed));
        }
    }
    while rest.len() > 0
        invariant
            sorted_by_name(out@),
            out@.to_multiset().add(rest@.to_multiset()) =~= input.to_multiset(),
            out@.len() + rest@.len() == input.len(),
            total_pages(counts_of(out@)) + total_pages(counts_of(rest@)) == total_pages(
                counts_of(input),
            ),
            0 <= consumed <= input.len(),
            rest@ == input.skip(consumed),
            forall|n: Seq<u8>| #[trigger] out@.filter(name_filter(n)) == input.take(
                consumed,
            ).filter(name_filter(n)),
        decreases rest@.len(),
    {
        let ghost out0 = out@;
        let ghost rest0 = rest@;
        let elem = rest.remove(0);
        proof {
            broadcast use vstd::multiset::group_multiset_axioms;

            assert(input.skip(consumed)[0] == input[consumed]);
            assert(elem == input[consumed]);
            assert(input.skip(consumed).remove(0) =~= input.skip(consumed + 1));
            assert(elem == rest0[0]);
            assert(rest0.contains(elem));
            assert(rest@ == rest0.remove(0));
            rest0.to_multiset_ensures();
            assert(rest0.remove(0).to_multiset() =~= rest0.to_multiset().remove(rest0[0]));
            assert(rest@.to_multiset() =~= rest0.to_multiset().remove(elem));
            assert(rest0.remove(0) =~= rest0.drop_first());
            assert(counts_of(rest0).drop_first() =~= counts_of(rest0.drop_first()));
            assert(total_pages(counts_of(rest0)) == counts_of(rest0)[0] + total_pages(
                counts_of(rest0).drop_first(),
            ));
        }
        let mut p: usize = 0;
        while p < out.len() && bytes_le_exec(out[p].name.as_slice(), elem.name.as_slice())
            invariant
                p <= out@.len(),
                out@ == out0,
                forall|k: int| 0 <= k < p ==> bytes_le(#[trigger] out@[k].name@, elem.name@),
            decreases out@.len() - p,
        {
            p = p + 1;
        }
        proof {
            if (p as int) < out0.len() {
                lemma_bytes_le_total(out0[p as int].name@, elem.name@);
            }
            assert forall|k: int| p <= k < out0.len() implies bytes_le(
                elem.name@,
                #[trigger] out0[k].name@,
            ) by {
                if (p as int) < k {
                    lemma_bytes_le_trans(elem.name@, out0[p as int].name@, out0[k].name@);
                }
            }
        }
        out.insert(p, elem);
        proof {
            broadcast use vstd::multiset::group_multiset_axioms;

            lemma_insert_to_multiset(out0, p as int, elem);
            assert forall|x: Source|
                out@.to_multiset().add(rest@.to_multiset()).count(x) == input.to_multiset().count(
                    x,
                ) by {
                assert(out@.to_multiset().count(x) == out0.to_multiset().insert(elem).count(x));
                assert(rest@.to_multiset().count(x) == rest0.to_multiset().remove(elem).count(x));
                rest0.to_multiset_ensures();
                assert(rest0.contains(elem));
                assert(rest0.to_multiset().count(elem) >= 1);
            }
            assert(out@.to_multiset().add(rest@.to_multiset()) =~= input.to_multiset());
            assert(counts_of(out0.insert(p as int, elem)) =~= counts_of(out0).insert(
                p as int,
                elem.page_count as nat,
            ));
            lemma_total_pages_insert(counts_of(out0), p as int, elem.page_count as nat);
            assert(sorted_by_name(out@)) by {
                assert forall|i: int, j: int| 0 <= i < j < out@.len() implies bytes_le(
                    #[trigger] out@[i].name@,
                    #[trigger] out@[j].name@,
                ) by {
                    if j < p as int + 1 {
                    } else if i >= p as int + 1 {
                        assert(out@[i] == out0[i - 1] && out@[j] == out0[j - 1]);
                    } else if i == p as int {
                        assert(out@[j] == out0[j - 1]);
                    } else if j == p as int {
                        assert(out@[i] == out0[i]);
                    } else {
                        assert(out@[i] == out0[i] && out@[j] == out0[j - 1]);
                        if i < p as int && p as int <= j - 1 {
                            if i < j - 1 {
                            }
                        }
                    }
                }
            }
        }
        proof {
            // Stability: the inserted source lands after every source of
            // its own name, so each name's subsequence grows only at its
            // own end.
            reveal(Seq::filter);
            let out1 = out@;
            assert(out1 == out0.insert(p as int, elem));
            assert(out1 =~= out0.take(p as int) + (seq![elem] + out0.skip(p as int)));
            assert(out0 =~= out0.take(p as int) + out0.skip(p as int));
            assert forall|k: int| 0 <= k < out0.skip(p as int).len() implies (
            #[trigger] out0.skip(p as int)[k]).name@ != elem.name@ by {
                assert(out0.skip(p as int)[k] == out0[p + k]);
                if out0[p + k].name@ == elem.name@ {
                    lemma_bytes_le_refl(elem.name@);
                    if k > 0 {
                        assert(bytes_le(out0[p as int].name@, out0[p + k].name@));
                    }
                    assert(bytes_le(out0[p as int].name@, elem.name@));
                    assert(false);
                }
            }
            lemma_filter_none_of_name(out0.skip(p as int), elem.name@);
            assert(input.take(consumed + 1).drop_last() =~= input.take(consumed));
            assert(input.take(consumed + 1).last() == input[consumed]);
            assert(seq![elem].drop_last() =~= Seq::<Source>::empty());
            assert(seq![elem].last() == elem);
            assert forall|n: Seq<u8>| #[trigger] out1.filter(name_filter(n)) == input.take(
                consumed + 1,
            ).filter(name_filter(n)) by {
                let pred = name_filter(n);
                Seq::filter_distributes_over_add(
                    out0.take(p as int),
                    seq![elem] + out0.skip(p as int),
                    pred,
                );
                Seq::filter_distributes_over_add(seq![elem], out0.skip(p as int), pred);
                Seq::filter_distributes_over_add(out0.take(p as int), out0.skip(p as int), pred);
                assert(pred(elem) == (elem.name@ == n));
                assert(Seq::<Source>::empty().filter(pred) == Seq::<Source>::empty());
                if elem.name@ == n {
                    assert(out0.skip(p as int).filter(pred) == Seq::<Source>::empty());
                    assert(out1.filter(pred) =~= out0.take(p as int).filter(pred).push(elem));
                    assert(out0.filter(pred) =~= out0.take(p as int).filter(pred));
                    assert(input.take(consumed + 1).filter(pred) == input.take(consumed).filter(
                        pred,
                    ).push(elem));
                } else {
                    assert(seq![elem].filter(pred) == Seq::<Source>::empty());
                    assert(out1.filter(pred) =~= out0.take(p as int).filter(pred) + out0.skip(
                        p as int,
                    ).filter(pred));
                    assert(out1.filter(pred) =~= out0.filter(pred));
                    assert(input.take(consumed + 1).filter(pred) == input.take(consumed).filter(
                        pred,
                    ));
                }
            }
            consumed = consumed + 1;
        }
    }
    proof {
        assert(input.skip(consumed).len() == 0);
        assert(consumed == input.len());
        assert(input.take(consumed) =~= input);
        assert(rest@.to_multiset() =~= Multiset::<Source>::empty());
        assert(out@.to_multiset() =~= input.to_multiset());
        assert(counts_of(rest@) =~= Seq::<nat>::empty());
        assert(total_pages(Seq::<nat>::empty()) == 0);
        assert forall|x: Source| out@.contains(x) implies input.contains(x) by {
            assert(out@.to_multiset().contains(x));
            assert(input.to_multiset().contains(x));
        }
    }
    out
}

/// The source was built from the given candidate: a non-directory path,
/// carried over verbatim, whose file name's classification named the
/// source's kind.
pub open spec fn from_candidate(s: Source, c: Candidate) -> bool {
    &&& !c.is_dir
    &&& s.path@ == c.path@
    &&& s.source_type == classify_spec(file_name_bytes(vstd::utf8::encode_utf8(c.path@)))
}

/// Whether a source stays in a session: it must hold at least one page.
pub open spec fn page_filter() -> spec_fn(Source) -> bool {
    |s: Source| s.page_count > 0
}

/// Keeps exactly the sources that hold at least one page, in order.
pub fn keep_positive(sources: Vec<Source>) -> (r: Vec<Source>)
    ensures
        r@ == sources@.filter(page_filter()),
{
    let ghost input = sources@;
    let n: usize = sources.len();
    let mut rest = sources;
    let mut out: Vec<Source> = Vec::new();
    let mut i: usize = 0;
    proof {
        assert(input.take(0) =~= Seq::<Source>::empty());
        assert(input.skip(0) =~= input);
        assert(out@ =~= input.take(0).filter(page_filter()));
    }
    while rest.len() > 0
        invariant
            n == input.len(),
            i <= n,
            rest@ == input.skip(i as int),
            out@ == input.take(i as int).filter(page_filter()),
        decreases rest@.len(),
    {
        proof {
            assert(input.skip(i as int).len() == input.len() - i);
            assert(i < n);
        }
        let source = rest.remove(0);
        let keep = source.get_page_count() > 0;
        proof {
            assert(input.skip(i as int)[0] == input[i as int]);
            assert(source == input[i as int]);
            assert(input.skip(i as int).remove(0) =~= input.skip(i as int + 1));
            let step = input.take(i as int + 1);
            assert(step.drop_last() =~= input.take(i as int));
            assert(step.last() == input[i as int]);
            assert(page_filter()(input[i as int]) == (input[i as int].page_count > 0));
            reveal(Seq::filter);
            assert(step.filter(page_filter()) == if page_filter()(step.last()) {
                step.drop_last().filter(page_filter()).push(step.last())
            } else {
                step.drop_last().filter(page_filter())
            });
        }
        if keep {
            out.push(source);
        }
        i = i + 1;
    }
    proof {
        assert(input.take(i as int) =~= input);
    }
    out
}

/// Every source the page filter keeps is one of the given sources, and
/// holds at least one page.
proof fn lemma_filter_elements(s: Seq<Source>)
    ensures
        forall|i: int|
            0 <= i < s.filter(page_filter()).len() ==> s.contains(
                #[trigger] s.filter(page_filter())[i],
            ) && s.filter(page_filter())[i].page_count > 0,
    decreases s.len(),
{
    broadcast use vstd::seq_lib::group_filter_ensures;

    reveal(Seq::filter);
    if s.len() > 0 {
        lemma_filter_elements(s.drop_last());
        let out = s.filter(page_filter());
        let sub = s.drop_last().filter(page_filter());
        assert(out == if page_filter()(s.last()) {
            sub.push(s.last())
        } else {
            sub
        });
        assert forall|i: int| 0 <= i < out.len() implies s.contains(#[trigger] out[i])
            && out[i].page_count > 0 by {
            if page_filter()(s.last()) && i == out.len() - 1 {
                assert(out[i] == s.last());
                assert(s[s.len() - 1] == s.last());
                assert(page_filter()(s.last()) == (s.last().page_count > 0));
            } else {
                assert(out[i] == sub[i]);
                assert(s.drop_last().contains(sub[i]));
                let j = choose|j: int|
                    0 <= j < s.drop_last().len() && s.drop_last()[j] == sub[i];
                assert(s[j] == sub[i]);
            }
        }
    }
}

/// The probe outcome over the picked paths: one source per non-directory
/// candidate, in order, each built from its candidate; its page count is
/// whatever the decoder reported.
pub open spec fn probed_matches(probed: Seq<Source>, cands: Seq<Candidate>) -> bool
    decreases cands.len(),
{
    if cands.len() == 0 {
        probed.len() == 0
    } else if cands[0].is_dir {
        probed_matches(probed, cands.drop_first())
    } else {
        &&& probed.len() > 0
        &&& from_candidate(probed[0], cands[0])
        &&& probed_matches(probed.drop_first(), cands.drop_first())
    }
}

proof fn lemma_probed_matches_push_dir(probed: Seq<Source>, cands: Seq<Candidate>, cd: Candidate)
    requires
        probed_matches(probed, cands),
        cd.is_dir,
    ensures
        probed_matches(probed, cands.push(cd)),
    decreases cands.len(),
{
    reveal_with_fuel(probed_matches, 3);
    if cands.len() == 0 {
        assert(cands.push(cd)[0] == cd);
        assert(cands.push(cd).drop_first() =~= Seq::<Candidate>::empty());
        assert(probed.len() == 0);
    } else {
        assert(cands.push(cd)[0] == cands[0]);
        assert(cands.push(cd).drop_first() =~= cands.drop_first().push(cd));
        if cands[0].is_dir {
            lemma_probed_matches_push_dir(probed, cands.drop_first(), cd);
        } else {
            lemma_probed_matches_push_dir(probed.drop_first(), cands.drop_first(), cd);
        }
    }
}

proof fn lemma_probed_matches_push_src(
    probed: Seq<Source>,
    cands: Seq<Candidate>,
    cd: Candidate,
    s: Source,
)
    requires
        probed_matches(probed, cands),
        !cd.is_dir,
        from_candidate(s, cd),
    ensures
        probed_matches(probed.push(s), cands.push(cd)),
    decreases cands.len(),
{
    reveal_with_fuel(probed_matches, 3);
    if cands.len() == 0 {
        assert(cands.push(cd)[0] == cd);
        assert(probed.push(s)[0] == s);
        assert(probed.push(s).drop_first() =~= Seq::<Source>::empty());
        assert(cands.push(cd).drop_first() =~= Seq::<Candidate>::empty());
        assert(probed.len() == 0);
    } else {
        assert(cands.push(cd)[0] == cands[0]);
        assert(cands.push(cd).drop_first() =~= cands.drop_first().push(cd));
        if cands[0].is_dir {
            lemma_probed_matches_push_src(probed, cands.drop_first(), cd, s);
        } else {
            assert(probed.push(s)[0] == probed[0]);
            assert(probed.push(s).drop_first() =~= probed.drop_first().push(s));
            lemma_probed_matches_push_src(probed.drop_first(), cands.drop_first(), cd, s);
        }
    }
}

/// Builds a session from the user's picked paths: rejects directories,
/// classifies the rest by extension, probes a source for each (keeping
/// the first candidate's decoder handle open when its probe finds pages),
/// drops every source without pages, and hands back the survivors in
/// file-name order together with their total page count. A session whose
/// total would not fit the machine's addressable range comes back empty.
pub fn build_session(candidates: Vec<Candidate>) -> (r: (Vec<Source>, usize))
    ensures
        sorted_by_name(r.0@),
        r.1 == total_pages(counts_of(r.0@)),
        forall|i: int|
            0 <= i < r.0@.len() ==> (#[trigger] r.0@[i]).wf() && r.0@[i].page_count > 0
                && r.0@[i].current_page == 0 && r.0@[i].source_type != SourceType::Directory,
        forall|i: int|
            0 <= i < r.0@.len() ==> exists|j: int|
                0 <= j < candidates@.len() && from_candidate(#[trigger] r.0@[i], candidates@[j]),
        forall|i: int|
            0 <= i < r.0@.len() ==> ((#[trigger] r.0@[i]).handle_open() ==> candidates@.len() > 0
                && !candidates@[0].is_dir && from_candidate(r.0@[i], candidates@[0])),
        exists|probed: Seq<Source>|
            {
                &&& #[trigger] probed_matches(probed, candidates@)
                &&& (candidates@.len() > 0 && !candidates@[0].is_dir && probed.len() > 0
                    && probed[0].source_type == SourceType::Pdf && probed[0].page_count > 0
                    ==> probed[0].handle_open())
                &&& if total_pages(counts_of(probed.filter(page_filter()))) <= usize::MAX as nat {
                    r.0@.to_multiset() == probed.filter(page_filter()).to_multiset()
                        && forall|n: Seq<u8>| #[trigger] r.0@.filter(name_filter(n))
                        == probed.filter(page_filter()).filter(name_filter(n))
                } else {
                    r.0@.len() == 0
                }
            },
{
    broadcast use vstd::seq_lib::group_filter_ensures;

    // Probe: one source per non-directory candidate, in input order.
    let mut probed: Vec<Source> = Vec::new();
    let mut idx: usize = 0;
    proof {
        assert(candidates@.take(0) =~= Seq::<Candidate>::empty());
        assert(probed_matches(probed@, candidates@.take(0)));
    }
    while idx < candidates.len()
        invariant
            idx <= candidates@.len(),
            probed_matches(probed@, candidates@.take(idx as int)),
            forall|i: int|
                0 <= i < probed@.len() ==> (#[trigger] probed@[i]).wf() && probed@[i].current_page
                    == 0 && probed@[i].source_type != SourceType::Directory,
            forall|i: int|
                0 <= i < probed@.len() ==> exists|j: int|
                    0 <= j < idx && from_candidate(#[trigger] probed@[i], candidates@[j]),
            forall|i: int|
                0 <= i < probed@.len() ==> ((#[trigger] probed@[i]).handle_open() ==> i == 0
                    && candidates@.len() > 0 && !candidates@[0].is_dir && from_candidate(
                    probed@[i],
                    candidates@[0],
                )),
            candidates@.len() > 0 && !candidates@[0].is_dir && idx > 0 ==> probed@.len() > 0 && (
            probed@[0].source_type == SourceType::Pdf && probed@[0].page_count > 0
                ==> probed@[0].handle_open()),
        decreases candidates@.len() - idx,
    {
        let ghost probed0 = probed@;
        let is_first = idx == 0;
        let candidate = &candidates[idx];
        proof {
            assert(candidates@.take(idx as int + 1).drop_last() =~= candidates@.take(idx as int));
            assert(candidates@.take(idx as int + 1).last() == candidates@[idx as int]);
        }
        if !candidate.is_dir {
            let name = extract_file_name(candidate.path.as_str());
            let source_type = classify_name(&name);
            let source = Source::new(source_type, candidate.path.clone(), is_first);
            probed.push(source);
            proof {
                assert(from_candidate(source, candidates@[idx as int]));
                lemma_probed_matches_push_src(
                    probed0,
                    candidates@.take(idx as int),
                    candidates@[idx as int],
                    source,
                );
                assert(candidates@.take(idx as int).push(candidates@[idx as int])
                    =~= candidates@.take(idx as int + 1));
                assert forall|i: int| 0 <= i < probed@.len() implies exists|j: int|
                    0 <= j < idx + 1 && from_candidate(#[trigger] probed@[i], candidates@[j]) by {
                    if i < probed0.len() {
                        assert(probed@[i] == probed0[i]);
                    } else {
                        assert(probed@[i] == source);
                    }
                }
            }
        } else {
            proof {
                lemma_probed_matches_push_dir(
                    probed0,
                    candidates@.take(idx as int),
                    candidates@[idx as int],
                );
                assert(candidates@.take(idx as int).push(candidates@[idx as int])
                    =~= candidates@.take(idx as int + 1));
            }
        }
        idx = idx + 1;
    }
    proof {
        assert(candidates@.take(idx as int) =~= candidates@);
    }
    let ghost probed_all = probed@;

    // Filter: only sources holding pages stay.
    let kept = keep_positive(probed);
    let ghost kept_final = kept@;

    // Total: the exact sum, computed wide enough that it cannot overflow.
    let mut total128: u128 = 0;
    let mut i: usize = 0;
    proof {
        assert(counts_of(kept@.take(0)) =~= Seq::<nat>::empty());
        assert(total_pages(Seq::<nat>::empty()) == 0);
        lemma_filter_elements(probed_all);
        assert forall|k: int| 0 <= k < kept@.len() implies (#[trigger] kept@[k]).page_count
            <= 0xFFFF_FFFE by {
            assert(kept@[k] == probed_all.filter(page_filter())[k]);
            assert(probed_all.contains(kept@[k]));
            let m = choose|m: int| 0 <= m < probed_all.len() && probed_all[m] == kept@[k];
            assert(probed_all[m].wf());
        }
    }
    while i < kept.len()
        invariant
            i <= kept@.len(),
            kept@ == kept_final,
            forall|k: int| 0 <= k < kept@.len() ==> (#[trigger] kept@[k]).page_count
                <= 0xFFFF_FFFE,
            total128 == total_pages(counts_of(kept@.take(i as int))),
            total128 <= 0xFFFF_FFFEu128 * (i as u128),
        decreases kept@.len() - i,
    {
        let count = kept[i].get_page_count();
        let ghost t0 = total128;
        proof {
            assert(counts_of(kept@.take(i as int + 1)) =~= counts_of(kept@.take(i as int)).push(
                kept@[i as int].page_count as nat,
            ));
            lemma_total_pages_push(
                counts_of(kept@.take(i as int)),
                kept@[i as int].page_count as nat,
            );
            assert(t0 + count <= 0xFFFF_FFFEu128 * (i as u128) + 0xFFFF_FFFEu128) by {
                assert(count as u128 <= 0xFFFF_FFFEu128);
            }
            assert(0xFFFF_FFFEu128 * (i as u128) + 0xFFFF_FFFEu128 == 0xFFFF_FFFEu128 * ((i
                + 1) as u128)) by (nonlinear_arith);
            assert(0xFFFF_FFFEu128 * ((i + 1) as u128) < u128::MAX) by (nonlinear_arith)
                requires
                    (i + 1) as u128 <= 0xFFFF_FFFF_FFFF_FFFFu128 + 1,
            ;
        }
        total128 = total128 + (count as u128);
        i = i + 1;
    }
    proof {
        assert(kept@.take(i as int) =~= kept@);
    }
    if total128 > usize::MAX as u128 {
        // The session's pages cannot all be addressed on this machine:
        // refuse it wholesale rather than mis-count.
        let empty: Vec<Source> = Vec::new();
        proof {
            assert(counts_of(empty@) =~= Seq::<nat>::empty());
            assert(total_pages(Seq::<nat>::empty()) == 0);
        }
        return (empty, 0);
    }
    let total: usize = total128 as usize;

    // Order: the survivors, sorted by file name.
    let sorted = sort_sources(kept);
    proof {
        lemma_filter_elements(probed_all);
        assert forall|i2: int| 0 <= i2 < sorted@.len() implies (#[trigger] sorted@[i2]).wf()
            && sorted@[i2].page_count > 0 && sorted@[i2].current_page == 0
            && sorted@[i2].source_type != SourceType::Directory by {
            assert(sorted@.contains(sorted@[i2]));
            assert(kept_final.contains(sorted@[i2]));
            let k = choose|k: int| 0 <= k < kept_final.len() && kept_final[k] == sorted@[i2];
            assert(kept_final[k] == probed_all.filter(page_filter())[k]);
            assert(probed_all.contains(kept_final[k]) && kept_final[k].page_count > 0);
            let m = choose|m: int| 0 <= m < probed_all.len() && probed_all[m] == kept_final[k];
            assert(probed_all[m] == sorted@[i2]);
        }
        assert forall|i2: int| 0 <= i2 < sorted@.len() implies exists|j: int|
            0 <= j < candidates@.len() && from_candidate(
                #[trigger] sorted@[i2],
                candidates@[j],
            ) by {
            assert(sorted@.contains(sorted@[i2]));
            assert(kept_final.contains(sorted@[i2]));
            let k = choose|k: int| 0 <= k < kept_final.len() && kept_final[k] == sorted@[i2];
            assert(kept_final[k] == probed_all.filter(page_filter())[k]);
            assert(probed_all.contains(kept_final[k]));
            let m = choose|m: int| 0 <= m < probed_all.len() && probed_all[m] == kept_final[k];
            assert(probed_all[m] == sorted@[i2]);
        }
        assert forall|i2: int| 0 <= i2 < sorted@.len() && (#[trigger] sorted@[i2]).handle_open()
            implies candidates@.len() > 0 && !candidates@[0].is_dir && from_candidate(
            sorted@[i2],
            candidates@[0],
        ) by {
            assert(sorted@.contains(sorted@[i2]));
            assert(kept_final.contains(sorted@[i2]));
            let k = choose|k: int| 0 <= k < kept_final.len() && kept_final[k] == sorted@[i2];
            assert(kept_final[k] == probed_all.filter(page_filter())[k]);
            assert(probed_all.contains(kept_final[k]));
            let m = choose|m: int| 0 <= m < probed_all.len() && probed_all[m] == kept_final[k];
            assert(probed_all[m] == sorted@[i2]);
        }
        assert(probed_matches(probed_all, candidates@));
        assert(total_pages(counts_of(probed_all.filter(page_filter()))) <= usize::MAX as nat);
        assert(sorted@.to_multiset() == probed_all.filter(page_filter()).to_multiset());
        assert(forall|n: Seq<u8>| #[trigger] sorted@.filter(name_filter(n)) == probed_all.filter(
            page_filter(),
        ).filter(name_filter(n)));
    }
    (sorted, total)
}

} // verus!
