//! Retrieval of context snippets from store matches.
//!
//! The store returns matches in no guaranteed order. The context agent
//! sorts them by descending similarity score and keeps, for each match
//! that has one, the task description recorded with it. Scores are
//! integer order keys supplied by the caller: any order-preserving
//! encoding of the store's scores serves.

use vstd::prelude::*;

verus! {

/// One ranked match returned by a store query: the record's id, an
/// order key standing for its similarity score, and the task
/// description from its metadata, when present.
pub struct Match {
    pub id: String,
    pub score: u64,
    pub task: Option<String>,
}

/// What a store query hands back: the matches, unordered.
pub struct QueryResponse {
    pub matches: Vec<Match>,
}

/// What a store upsert hands back: how many records it wrote.
#[allow(non_snake_case)]
pub struct UpsertResponse {
    pub upsertedCount: usize,
}

/// Matches in non-increasing score order.
pub open spec fn sorted_desc(s: Seq<Match>) -> bool {
    forall|i: int, j: int| 0 <= i < j < s.len() ==> s[i].score >= s[j].score
}

/// The task snippets of the matches that carry one, in match order.
pub open spec fn snippets_of(s: Seq<Match>) -> Seq<Seq<char>>
    decreases s.len(),
{
    if s.len() == 0 {
        Seq::<Seq<char>>::empty()
    } else {
        match s[0].task {
            Some(t) => seq![t@].add(snippets_of(s.drop_first())),
            None => snippets_of(s.drop_first()),
        }
    }
}

/// The scores of the matches that carry a task snippet, in match
/// order; entry `k` scores the match behind snippet `k`.
pub open spec fn snippet_scores(s: Seq<Match>) -> Seq<u64>
    decreases s.len(),
{
    if s.len() == 0 {
        Seq::<u64>::empty()
    } else {
        match s[0].task {
            Some(t) => seq![s[0].score].add(snippet_scores(s.drop_first())),
            None => snippet_scores(s.drop_first()),
        }
    }
}

/// How many matches carry a task snippet.
pub open spec fn snippet_count(s: Seq<Match>) -> nat {
    snippets_of(s).len()
}

proof fn lemma_snippets_push(s: Seq<Match>, m: Match)
    ensures
        snippets_of(s.push(m)) =~~= snippets_of(s).add(
            match m.task {
                Some(t) => seq![t@],
                None => Seq::<Seq<char>>::empty(),
            },
        ),
    decreases s.len(),
{
    let sx = match m.task {
        Some(t) => seq![t@],
        None => Seq::<Seq<char>>::empty(),
    };
    if s.len() == 0 {
        assert(s.push(m)[0] == m);
        assert(s.push(m).drop_first() =~~= Seq::<Match>::empty());
        assert(snippets_of(Seq::<Match>::empty()) =~~= Seq::<Seq<char>>::empty());
        assert(snippets_of(s.push(m)) =~~= sx);
        assert(snippets_of(s) =~~= Seq::<Seq<char>>::empty());
        assert(snippets_of(s).add(sx) =~~= sx);
    } else {
        lemma_snippets_push(s.drop_first(), m);
        assert(s.push(m)[0] == s[0]);
        assert(s.push(m).drop_first() =~~= s.drop_first().push(m));
        assert(snippets_of(s.drop_first().push(m)) =~~= snippets_of(s.drop_first()).add(sx));
        match s[0].task {
            Some(t) => {
                assert(snippets_of(s.push(m)) =~~= seq![t@].add(
                    snippets_of(s.drop_first().push(m)),
                ));
                assert(seq![t@].add(snippets_of(s.drop_first()).add(sx)) =~~= (seq![t@].add(
                    snippets_of(s.drop_first()),
                )).add(sx));
                assert(snippets_of(s) =~~= seq![t@].add(snippets_of(s.drop_first())));
            },
            None => {},
        }
    }
}

/// Removing one match removes exactly its contribution to the count.
proof fn lemma_snippet_count_remove(s: Seq<Match>, i: int)
    requires
        0 <= i < s.len(),
    ensures
        snippet_count(s) == snippet_count(s.remove(i)) + (if s[i].task is Some {
            1nat
        } else {
            0nat
        }),
    decreases s.len(),
{
    if i == 0 {
        assert(s.remove(0) =~~= s.drop_first());
    } else {
        lemma_snippet_count_remove(s.drop_first(), i - 1);
        assert(s.remove(i)[0] == s[0]);
        assert(s.remove(i).drop_first() =~~= s.drop_first().remove(i - 1));
    }
}

/// Snippets are never more numerous than matches.
pub proof fn lemma_snippet_count_le_len(s: Seq<Match>)
    ensures
        snippet_count(s) <= s.len(),
    decreases s.len(),
{
    if s.len() > 0 {
        lemma_snippet_count_le_len(s.drop_first());
    }
}

/// Law: on matches sorted by non-increasing score, the extracted
/// snippets also stand in non-increasing score order — snippet `k`
/// comes from a match scoring at least snippet `k + 1`'s match.
pub proof fn lemma_snippet_scores_sorted(s: Seq<Match>)
    requires
        sorted_desc(s),
    ensures
        snippet_scores(s).len() == snippets_of(s).len(),
        forall|i: int, j: int|
            0 <= i < j < snippet_scores(s).len() ==> snippet_scores(s)[i] >= snippet_scores(s)[j],
        forall|k: int|
            0 <= k < snippet_scores(s).len() && s.len() > 0 ==> snippet_scores(s)[k] <= s[0].score,
    decreases s.len(),
{
    if s.len() > 0 {
        assert(s.drop_first().len() == s.len() - 1);
        assert forall|i: int, j: int|
            0 <= i < j < s.drop_first().len() implies s.drop_first()[i].score
            >= s.drop_first()[j].score by {
            assert(s.drop_first()[i] == s[i + 1]);
            assert(s.drop_first()[j] == s[j + 1]);
        }
        lemma_snippet_scores_sorted(s.drop_first());
        let tail = snippet_scores(s.drop_first());
        assert forall|k: int|
            0 <= k < tail.len() && s.drop_first().len() > 0 implies tail[k] <= s[1].score by {}
        match s[0].task {
            Some(t) => {
                assert(snippet_scores(s) =~= seq![s[0].score].add(tail));
            },
            None => {},
        }
    }
}

fn max_score_index(matches: &Vec<Match>, from: usize) -> (mi: usize)
    requires
        from < matches@.len(),
    ensures
        from <= mi < matches@.len(),
        forall|j: int| from <= j < matches@.len() ==> matches@[mi as int].score >= matches@[j].score,
{
    let n = matches.len();
    let mut mi: usize = from;
    let mut k: usize = from + 1;
    while k < n
        invariant
            n == matches@.len(),
            from <= mi < matches@.len(),
            from < k <= matches@.len(),
            forall|j: int| from <= j < k ==> matches@[mi as int].score >= matches@[j].score,
        decreases matches@.len() - k,
    {
        if matches[k].score > matches[mi].score {
            mi = k;
        }
        k = k + 1;
    }
    mi
}

/// Sort matches by non-increasing score. The result is a permutation
/// of the input: same multiset of matches, same snippet count.
pub fn sort_matches_desc(matches: Vec<Match>) -> (r: Vec<Match>)
    ensures
        sorted_desc(r@),
        r@.to_multiset() == matches@.to_multiset(),
        r@.len() == matches@.len(),
        snippet_count(r@) == snippet_count(matches@),
{
    broadcast use vstd::seq_lib::group_to_multiset_ensures;

    let ghost orig = matches@;
    let mut rem = matches;
    let mut out: Vec<Match> = Vec::new();
    proof {
        assert(out@.to_multiset().add(rem@.to_multiset()) =~= orig.to_multiset());
    }
    while rem.len() > 0
        invariant
            out@.len() + rem@.len() == orig.len(),
            out@.to_multiset().add(rem@.to_multiset()) == orig.to_multiset(),
            snippet_count(out@) + snippet_count(rem@) == snippet_count(orig),
            sorted_desc(out@),
            forall|i: int, j: int|
                0 <= i < out@.len() && 0 <= j < rem@.len() ==> (#[trigger] out@[i]).score
                    >= (#[trigger] rem@[j]).score,
        decreases rem@.len(),
    {
        broadcast use vstd::seq_lib::group_to_multiset_ensures;

        let mi = max_score_index(&rem, 0);
        let ghost old_rem = rem@;
        let ghost old_out = out@;
        let x = rem.remove(mi);
        proof {
            lemma_snippet_count_remove(old_rem, mi as int);
        }
        let ghost pushed = x;
        out.push(x);
        proof {
            lemma_snippets_push(old_out, pushed);
            assert(out@ == old_out.push(pushed));
            assert(rem@ == old_rem.remove(mi as int));
            assert(out@.to_multiset() =~= old_out.to_multiset().insert(pushed));
            assert(rem@.to_multiset() =~= old_rem.to_multiset().remove(pushed));
            assert(old_rem.to_multiset().count(pushed) > 0);
            assert(out@.to_multiset().add(rem@.to_multiset()) =~= orig.to_multiset());
            assert(snippet_count(out@) == snippet_count(old_out) + (if pushed.task is Some {
                1nat
            } else {
                0nat
            }));
            assert forall|i: int, j: int|
                0 <= i < out@.len() && 0 <= j < rem@.len() implies (#[trigger] out@[i]).score
                >= (#[trigger] rem@[j]).score by {
                assert(rem@[j] == old_rem[if j < mi as int {
                    j
                } else {
                    j + 1
                }]);
                if i < old_out.len() {
                    assert(out@[i] == old_out[i]);
                } else {
                    assert(out@[i] == pushed);
                    assert(pushed == old_rem[mi as int]);
                }
            }
            assert forall|i: int, j: int| 0 <= i < j < out@.len() implies out@[i].score
                >= out@[j].score by {
                if j < old_out.len() {
                    assert(out@[i] == old_out[i]);
                    assert(out@[j] == old_out[j]);
                } else {
                    assert(out@[j] == pushed);
                    assert(pushed == old_rem[mi as int]);
                    assert(out@[i] == old_out[i]);
                }
            }
        }
    }
    out
}

/// Keep, for each match that has one, its task snippet, in order.
pub fn extract_snippets(matches: &Vec<Match>) -> (r: Vec<String>)
    ensures
        r.deep_view() =~~= snippets_of(matches@),
{
    let mut r: Vec<String> = Vec::new();
    let mut i: usize = 0;
    proof {
        assert(snippets_of(matches@.subrange(0, 0)) =~~= Seq::<Seq<char>>::empty());
    }
    while i < matches.len()
        invariant
            0 <= i <= matches@.len(),
            r.deep_view() =~~= snippets_of(matches@.subrange(0, i as int)),
        decreases matches@.len() - i,
    {
        let ghost prefix = matches@.subrange(0, i as int);
        proof {
            lemma_snippets_push(prefix, matches@[i as int]);
            assert(prefix.push(matches@[i as int]) =~~= matches@.subrange(0, i as int + 1));
        }
        match &matches[i].task {
            Some(t) => {
                let ghost old_r = r.deep_view();
                r.push(t.clone());
                proof {
                    assert(r.deep_view() =~~= old_r.push(t@));
                }
            },
            None => {},
        }
        i = i + 1;
    }
    proof {
        assert(matches@.subrange(0, matches@.len() as int) =~~= matches@);
    }
    r
}

/// Order the matches of a query reply by descending score and keep
/// the task snippets of those that carry one: the context, most
/// relevant first. Matches without a task snippet are dropped, never
/// an error; the result has exactly one entry per match with one.
pub fn retrieve_context(response: QueryResponse) -> (r: Vec<String>)
    ensures
        exists|w: Seq<Match>|
            {
                &&& sorted_desc(w)
                &&& w.to_multiset() == response.matches@.to_multiset()
                &&& w.len() == response.matches@.len()
                &&& r.deep_view() =~~= snippets_of(w)
            },
        r@.len() == snippet_count(response.matches@),
        r@.len() <= response.matches@.len(),
{
    let ghost orig = response.matches@;
    let sorted = sort_matches_desc(response.matches);
    let r = extract_snippets(&sorted);
    proof {
        lemma_snippet_count_le_len(orig);
        assert(r.deep_view().len() == r@.len());
        assert(sorted_desc(sorted@) && sorted@.to_multiset() == orig.to_multiset() && sorted@.len()
            == orig.len() && r.deep_view() =~~= snippets_of(sorted@));
    }
    r
}

} // verus!
