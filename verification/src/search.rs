//! Searching the catalog by name: every name is scored against the query by
//! the skim matcher of the `fuzzy_matcher` crate, and the best ten of those
//! that match are ranked, the higher score first, the earlier name first
//! among equal scores.

use crate::text::{chars_of, lowercase, string_of, to_lowercase};
use fuzzy_matcher::skim::SkimMatcherV2;
use fuzzy_matcher::FuzzyMatcher;
use vstd::prelude::*;

verus! {

/// How many names a search returns at most.
pub const SEARCH_LIMIT: usize = 10;

/// The longest text, in characters, that is handed to the matcher. Its scores
/// are sums in 32 bits, of at most a few dozen for each character.
pub const MATCH_LIMIT: usize = 1_000_000;

/// The score that `SkimMatcherV2::default().fuzzy_match(choice, pattern)`
/// returns: `None` where `choice` does not match `pattern`.
pub uninterp spec fn skim_score(choice: Seq<char>, pattern: Seq<char>) -> Option<i64>;

/// Calls `fuzzy_match` of a `SkimMatcherV2` with its default settings. The
/// score depends on the two texts alone; nothing else is claimed of it.
#[verifier::external_body]
fn fuzzy_score(choice: &str, pattern: &str) -> (r: Option<i64>)
    requires
        choice@.len() <= MATCH_LIMIT,
        pattern@.len() <= MATCH_LIMIT,
    ensures
        r == skim_score(choice@, pattern@),
{
    SkimMatcherV2::default().fuzzy_match(choice, pattern)
}

/// Whether the name at `i` comes before the name at `j` in a ranking: both
/// match, and `i` has the higher score, or the same score and the lower index.
pub open spec fn ranks_before(scores: Seq<Option<i64>>, i: int, j: int) -> bool {
    &&& scores[i] is Some
    &&& scores[j] is Some
    &&& (scores[i]->0 > scores[j]->0 || (scores[i]->0 == scores[j]->0 && i < j))
}

/// How many of the names match.
pub open spec fn match_count(scores: Seq<Option<i64>>) -> nat
    decreases scores.len(),
{
    if scores.len() == 0 {
        0
    } else if scores.last() is Some {
        match_count(scores.drop_last()) + 1
    } else {
        match_count(scores.drop_last())
    }
}

/// Whether `ranking` holds the best `limit` of the first `upto` names, in
/// order: as many as match, up to `limit`; each of its indices matches, each
/// comes before the next, and a matching name that is left out comes after
/// all of `limit` that are in.
pub open spec fn is_ranking(
    scores: Seq<Option<i64>>,
    ranking: Seq<usize>,
    upto: int,
    limit: int,
) -> bool {
    &&& ranking.len() == if match_count(scores.take(upto)) < limit {
        match_count(scores.take(upto)) as int
    } else {
        limit
    }
    &&& forall|k: int|
        0 <= k < ranking.len() ==> 0 <= #[trigger] ranking[k] < upto && scores[ranking[k] as int] is Some
    &&& forall|k: int, l: int|
        0 <= k < l < ranking.len() ==> ranks_before(
            scores,
            #[trigger] ranking[k] as int,
            #[trigger] ranking[l] as int,
        )
    &&& forall|i: int|
        0 <= i < upto && (#[trigger] scores[i]) is Some && !ranking.contains(i as usize) ==> {
            &&& ranking.len() == limit
            &&& forall|k: int|
                0 <= k < ranking.len() ==> ranks_before(scores, #[trigger] ranking[k] as int, i)
        }
}

/// Ranks the names by their scores: the indices of the best `SEARCH_LIMIT`
/// names that match, the best first.
pub fn rank(scores: &Vec<Option<i64>>) -> (ranking: Vec<usize>)
    ensures
        is_ranking(scores@, ranking@, scores.len() as int, SEARCH_LIMIT as int),
{
    let n = scores.len();
    let mut ranking: Vec<usize> = Vec::new();
    let mut i: usize = 0;
    while i < n
        invariant
            n == scores.len(),
            i <= n,
            is_ranking(scores@, ranking@, i as int, SEARCH_LIMIT as int),
        decreases n - i,
    {
        let ghost old_ranking = ranking@;
        assert(scores@.take(i as int + 1).drop_last() =~= scores@.take(i as int));
        match scores[i] {
            None => {},
            Some(score) => {
                let len = ranking.len();
                let mut p: usize = 0;
                while p < len && score_at(scores, ranking[p]) >= score
                    invariant
                        len == ranking.len(),
                        p <= len,
                        i < n,
                        n == scores.len(),
                        scores@[i as int] == Some(score),
                        ranking@ == old_ranking,
                        is_ranking(scores@, ranking@, i as int, SEARCH_LIMIT as int),
                        forall|k: int|
                            0 <= k < p ==> ranks_before(scores@, #[trigger] ranking@[k] as int, i as int),
                    decreases len - p,
                {
                    p += 1;
                }
                if p < SEARCH_LIMIT {
                    ranking.insert(p, i);
                    let ghost inserted = ranking@;
                    assert(forall|k: int| 0 <= k < p ==> inserted[k] == old_ranking[k]);
                    assert(inserted[p as int] == i);
                    assert(forall|k: int|
                        p < k < inserted.len() ==> inserted[k] == old_ranking[k - 1]);
                    assert(forall|k: int|
                        p < k < inserted.len() ==> ranks_before(
                            scores@,
                            i as int,
                            #[trigger] inserted[k] as int,
                        )) by {
                        assert forall|k: int| p < k < inserted.len() implies ranks_before(
                            scores@,
                            i as int,
                            #[trigger] inserted[k] as int,
                        ) by {
                            assert(inserted[k] == old_ranking[k - 1]);
                            if k - 1 > p {
                                assert(ranks_before(
                                    scores@,
                                    old_ranking[p as int] as int,
                                    old_ranking[k - 1] as int,
                                ));
                            }
                        }
                    }
                    if ranking.len() > SEARCH_LIMIT {
                        let dropped = ranking.pop();
                        assert(ranking@ =~= inserted.subrange(0, SEARCH_LIMIT as int));
                    }
                    proof {
                        lemma_ranking_after_insert(
                            scores@,
                            old_ranking,
                            inserted,
                            ranking@,
                            i as int,
                            p as int,
                        );
                    }
                } else {
                    assert(p == len);
                    assert(is_ranking(scores@, ranking@, i as int + 1, SEARCH_LIMIT as int));
                }
            },
        }
        assert(is_ranking(scores@, ranking@, i as int + 1, SEARCH_LIMIT as int)) by {
            if scores@[i as int] is None {
                assert(ranking@ == old_ranking);
            }
        }
        i += 1;
    }
    ranking
}

/// The score of the name at `index`, which matches.
fn score_at(scores: &Vec<Option<i64>>, index: usize) -> (r: i64)
    requires
        index < scores.len(),
        scores[index as int] is Some,
    ensures
        Some(r) == scores[index as int],
{
    match scores[index] {
        Some(score) => score,
        None => 0,
    }
}

/// A ranking of the first `i` names, with `i` put in at `p` and cut to the
/// limit, ranks the first `i + 1` names.
proof fn lemma_ranking_after_insert(
    scores: Seq<Option<i64>>,
    before: Seq<usize>,
    inserted: Seq<usize>,
    after: Seq<usize>,
    i: int,
    p: int,
)
    requires
        0 <= i < scores.len(),
        i <= usize::MAX,
        scores[i] is Some,
        is_ranking(scores, before, i, SEARCH_LIMIT as int),
        0 <= p <= before.len(),
        p < SEARCH_LIMIT,
        inserted == before.insert(p, i as usize),
        forall|k: int| 0 <= k < p ==> ranks_before(scores, #[trigger] before[k] as int, i),
        forall|k: int| p < k < inserted.len() ==> ranks_before(scores, i, #[trigger] inserted[k] as int),
        after == if inserted.len() > SEARCH_LIMIT {
            inserted.subrange(0, SEARCH_LIMIT as int)
        } else {
            inserted
        },
    ensures
        is_ranking(scores, after, i + 1, SEARCH_LIMIT as int),
{
    let limit = SEARCH_LIMIT as int;
    assert(scores.take(i + 1).drop_last() =~= scores.take(i));
    assert(forall|k: int| 0 <= k < p ==> inserted[k] == before[k]);
    assert(inserted[p] == i);
    assert(forall|k: int| p < k < inserted.len() ==> inserted[k] == before[k - 1]);
    assert(forall|k: int| 0 <= k < after.len() ==> after[k] == inserted[k]);
    assert forall|k: int, l: int| 0 <= k < l < inserted.len() implies ranks_before(
        scores,
        #[trigger] inserted[k] as int,
        #[trigger] inserted[l] as int,
    ) by {
        if l < p {
            assert(ranks_before(scores, before[k] as int, before[l] as int));
        } else if l == p {
            assert(ranks_before(scores, before[k] as int, i));
        } else if k < p {
            assert(ranks_before(scores, before[k] as int, before[l - 1] as int));
        } else if k == p {
            assert(ranks_before(scores, i, inserted[l] as int));
        } else {
            assert(ranks_before(scores, before[k - 1] as int, before[l - 1] as int));
        }
    }
    assert forall|j: int|
        0 <= j < i + 1 && (#[trigger] scores[j]) is Some && !after.contains(j as usize) implies {
        &&& after.len() == limit
        &&& forall|k: int| 0 <= k < after.len() ==> ranks_before(scores, #[trigger] after[k] as int, j)
    } by {
        if j == i {
            assert(inserted[p] == i as usize);
            assert(after[p] == i as usize);
            assert(false);
        } else if before.contains(j as usize) {
            let at = choose|at: int| 0 <= at < before.len() && before[at] == j as usize;
            let now = if at < p {
                at
            } else {
                at + 1
            };
            assert(inserted[now] == j as usize);
            assert(now >= after.len()) by {
                if now < after.len() {
                    assert(after[now] == j as usize);
                }
            }
            assert(now == inserted.len() - 1);
            assert(inserted.len() == limit + 1);
            assert forall|k: int| 0 <= k < after.len() implies ranks_before(
                scores,
                #[trigger] after[k] as int,
                j,
            ) by {
                assert(ranks_before(scores, inserted[k] as int, inserted[now] as int));
            }
        } else {
            assert(before.len() == limit);
            assert(inserted.len() == limit + 1);
            let last = before[limit - 1];
            assert(ranks_before(scores, last as int, j));
            assert(inserted[limit] == last);
            assert forall|k: int| 0 <= k < after.len() implies ranks_before(
                scores,
                #[trigger] after[k] as int,
                j,
            ) by {
                if k < p {
                    assert(ranks_before(scores, before[k] as int, j));
                } else if k == p {
                    assert(ranks_before(scores, i, inserted[limit] as int));
                } else {
                    assert(ranks_before(scores, before[k - 1] as int, j));
                }
            }
        }
    }
}

/// The scores of `names` against `query`, each in lower case: `None` where
/// the query or a name, in lower case, has more than `MATCH_LIMIT` characters.
pub open spec fn scores_of(names: Seq<String>, query: Seq<char>) -> Option<Seq<Option<i64>>> {
    if lowercase(query).len() <= MATCH_LIMIT && forall|i: int|
        0 <= i < names.len() ==> lowercase(#[trigger] names[i]@).len() <= MATCH_LIMIT {
        Some(Seq::new(names.len(), |i: int| skim_score(lowercase(names[i]@), lowercase(query))))
    } else {
        None
    }
}

/// Scores each name against the query, both in lower case.
pub fn score_names(names: &Vec<String>, query: &str) -> (r: Option<Vec<Option<i64>>>)
    ensures
        match r {
            Some(scores) => scores_of(names@, query@) == Some(scores@),
            None => scores_of(names@, query@) is None,
        },
{
    let query_chars = chars_of(query);
    let query_lower = to_lowercase(query_chars.as_slice());
    if query_lower.len() > MATCH_LIMIT {
        return None;
    }
    let pattern = string_of(query_lower.as_slice());
    let n = names.len();
    let mut scores: Vec<Option<i64>> = Vec::new();
    let mut i: usize = 0;
    while i < n
        invariant
            n == names.len(),
            i <= n,
            scores.len() == i,
            pattern@ == lowercase(query@),
            pattern@.len() <= MATCH_LIMIT,
            forall|j: int| 0 <= j < i ==> lowercase(#[trigger] names[j]@).len() <= MATCH_LIMIT,
            forall|j: int|
                0 <= j < i ==> #[trigger] scores[j] == skim_score(lowercase(names[j]@), lowercase(query@)),
        decreases n - i,
    {
        let name_chars = chars_of(names[i].as_str());
        let name_lower = to_lowercase(name_chars.as_slice());
        if name_lower.len() > MATCH_LIMIT {
            return None;
        }
        let choice = string_of(name_lower.as_slice());
        scores.push(fuzzy_score(choice.as_str(), pattern.as_str()));
        i += 1;
    }
    assert(scores@ =~= scores_of(names@, query@)->0);
    Some(scores)
}

/// Searches `names` for `query`: the indices of the best `SEARCH_LIMIT` names
/// that match, the best first; `None` where a text is too long to score.
pub fn search_names(names: &Vec<String>, query: &str) -> (r: Option<Vec<usize>>)
    ensures
        match r {
            Some(ranking) => scores_of(names@, query@) matches Some(scores) && is_ranking(
                scores,
                ranking@,
                names.len() as int,
                SEARCH_LIMIT as int,
            ),
            None => scores_of(names@, query@) is None,
        },
{
    match score_names(names, query) {
        Some(scores) => Some(rank(&scores)),
        None => None,
    }
}

} // verus!
