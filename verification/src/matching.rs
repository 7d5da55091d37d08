use vstd::prelude::*;
use crate::db::DirEntry;
use crate::exclusions::{is_excluded, listed};
use crate::order::{is_rank_order, lists, outranks, ranked_order};
use crate::frecency::{boosted_score, score, Mode};
use crate::ranking::{
    basename_matches, eligible, final_score, is_ranking, keywords_match, ranks_before,
};
use crate::path::final_component;
use crate::text::{contains, is_substring, lowercase, to_lowercase};

verus! {

/// A directory that passed every filter, with its final score.
pub struct ScoredDir {
    /// Path of the directory, as the history holds it.
    pub path: String,
    /// Final score in eighths: the fixed-point form that `frecency` uses.
    pub score: i128,
}

/// Every text of `keywords` occurs in `path`; both are taken as they are.
pub open spec fn all_occur(path: Seq<char>, keywords: Seq<Vec<char>>) -> bool {
    forall|k: int| 0 <= k < keywords.len() ==> is_substring(path, #[trigger] keywords[k]@)
}

/// Tells whether every one of the keywords occurs in the path. Both sides
/// are compared as given: fold the case before the call.
pub fn matches_all(path: &[char], keywords: &[Vec<char>]) -> (all: bool)
    ensures
        all == all_occur(path@, keywords@),
{
    let mut k: usize = 0;
    while k < keywords.len()
        invariant
            k <= keywords@.len(),
            forall|j: int| 0 <= j < k ==> is_substring(path@, #[trigger] keywords@[j]@),
        decreases keywords@.len() - k,
    {
        if !contains(path, keywords[k].as_slice()) {
            return false;
        }
        k += 1;
    }
    true
}

/// `lower` holds the lower-case forms of `keywords`, one for one.
pub open spec fn folded(keywords: Seq<String>, lower: Seq<Vec<char>>) -> bool {
    &&& lower.len() == keywords.len()
    &&& forall|k: int| 0 <= k < keywords.len() ==> (#[trigger] lower[k])@ == lowercase(keywords[k]@)
}

/// Lower-cases every keyword.
fn fold_keywords(keywords: &[String]) -> (lower: Vec<Vec<char>>)
    ensures
        folded(keywords@, lower@),
{
    let mut lower: Vec<Vec<char>> = Vec::new();
    let mut k: usize = 0;
    while k < keywords.len()
        invariant
            k <= keywords@.len(),
            lower@.len() == k,
            forall|j: int| 0 <= j < k ==> (#[trigger] lower@[j])@ == lowercase(keywords@[j]@),
        decreases keywords@.len() - k,
    {
        lower.push(to_lowercase(keywords[k].as_str()));
        k += 1;
    }
    lower
}

/// The last of `keywords` occurs in `name`; both are taken as they are.
pub open spec fn last_occurs(name: Seq<char>, keywords: Seq<Vec<char>>) -> bool {
    keywords.len() > 0 && is_substring(name, keywords.last()@)
}

/// Tells whether the last keyword occurs in a name. Both sides are compared
/// as given: fold the case before the call. Without keywords: no.
pub fn matches_last(name: &[char], keywords: &[Vec<char>]) -> (hit: bool)
    ensures
        hit == last_occurs(name@, keywords@),
{
    if keywords.len() == 0 {
        return false;
    }
    contains(name, keywords[keywords.len() - 1].as_slice())
}

/// Tells whether the last keyword occurs in the final component of a path,
/// letter case aside. `lower` holds the keywords in lower case.
fn basename_hit(path: &str, lower: &[Vec<char>], Ghost(keywords): Ghost<Seq<String>>) -> (hit: bool)
    requires
        folded(keywords, lower@),
    ensures
        hit == basename_matches(path@, keywords),
{
    match final_component(path) {
        Some(name) => {
            let name_lower: Vec<char> = to_lowercase(name.as_str());
            matches_last(name_lower.as_slice(), lower)
        },
        None => false,
    }
}

/// The predicate, asked about `path`, may answer `answer`.
pub open spec fn answers<F: Fn(&str) -> bool>(dir_exists: F, path: Seq<char>, answer: bool) -> bool {
    exists|p: &str| p@ == path && call_ensures(dir_exists, (p,), answer)
}

/// `kept` holds, by rising place, the places of the eligible and present
/// entries among the first `upto`, and `scores` their final scores.
spec fn kept_upto(
    entries: Seq<DirEntry>,
    keywords: Seq<String>,
    mode: Mode,
    now_ns: int,
    exclusions: Seq<String>,
    present: Seq<bool>,
    kept: Seq<usize>,
    scores: Seq<i128>,
    upto: int,
) -> bool {
    &&& kept.len() == scores.len()
    &&& forall|m: int|
        0 <= m < kept.len() ==> {
            &&& (#[trigger] kept[m]) < upto
            &&& eligible(entries[kept[m] as int], keywords, exclusions)
            &&& present[kept[m] as int]
            &&& scores[m] == final_score(entries[kept[m] as int], keywords, mode, now_ns)
        }
    &&& forall|m: int, n: int| 0 <= m < n < kept.len() ==> (#[trigger] kept[m]) < (#[trigger] kept[n])
    &&& forall|i: int|
        0 <= i < upto && eligible(#[trigger] entries[i], keywords, exclusions) && present[i] ==> lists(
            kept,
            i,
        )
}

/// Filters, scores and ranks directory entries against the keywords.
///
/// An entry is kept where every keyword occurs in its path (letter case
/// aside), the path is not excluded, and `dir_exists` says yes; the
/// predicate is asked only about entries that passed the first two tests.
/// A kept entry's score is multiplied by one and a half where the last
/// keyword occurs in the final component of its path. The result holds the
/// kept entries by falling score; entries of equal score keep the order they
/// came in.
pub fn rank_with<F: Fn(&str) -> bool>(
    entries: Vec<DirEntry>,
    keywords: &[String],
    mode: &Mode,
    now_ns: i64,
    exclusions: &[String],
    dir_exists: F,
) -> (out: Vec<ScoredDir>)
    requires
        forall|p: &str| call_requires(dir_exists, (p,)),
    ensures
        exists|present: Seq<bool>, order: Seq<int>|
            {
                &&& #[trigger] is_ranking(
                    entries@,
                    keywords@,
                    *mode,
                    now_ns as int,
                    exclusions@,
                    present,
                    order,
                    out@,
                )
                &&& forall|i: int|
                    0 <= i < entries@.len() && eligible(#[trigger] entries@[i], keywords@, exclusions@)
                        ==> answers(dir_exists, entries@[i].cwd@, present[i])
            },
        out@.len() <= entries@.len(),
        forall|a: int, b: int|
            0 <= a < b < out@.len() ==> (#[trigger] out@[a]).score >= (#[trigger] out@[b]).score,
        forall|k: int|
            0 <= k < out@.len() ==> {
                &&& keywords_match((#[trigger] out@[k]).path@, keywords@)
                &&& !listed(out@[k].path@, exclusions@)
                &&& answers(dir_exists, out@[k].path@, true)
            },
{
    let lower: Vec<Vec<char>> = fold_keywords(keywords);
    let mut kept: Vec<usize> = Vec::new();
    let mut scores: Vec<i128> = Vec::new();
    let ghost mut present: Seq<bool> = Seq::empty();
    let mut i: usize = 0;
    while i < entries.len()
        invariant
            i <= entries@.len(),
            present.len() == i,
            forall|p: &str| call_requires(dir_exists, (p,)),
            folded(keywords@, lower@),
            kept@.len() <= i,
            kept_upto(
                entries@,
                keywords@,
                *mode,
                now_ns as int,
                exclusions@,
                present,
                kept@,
                scores@,
                i as int,
            ),
            forall|j: int|
                0 <= j < i && eligible(#[trigger] entries@[j], keywords@, exclusions@) ==> answers(
                    dir_exists,
                    entries@[j].cwd@,
                    present[j],
                ),
        decreases entries@.len() - i,
    {
        let entry: &DirEntry = &entries[i];
        let path: &str = entry.cwd.as_str();
        let path_lower: Vec<char> = to_lowercase(path);
        proof {
            lemma_folded_match(path@, keywords@, path_lower@, lower@);
        }
        let mut exists: bool = false;
        if matches_all(path_lower.as_slice(), lower.as_slice()) && !is_excluded(path, exclusions) {
            exists = dir_exists(path);
            proof {
                assert(answers(dir_exists, path@, exists));
            }
        }
        let ghost old_kept = kept@;
        proof {
            present = present.push(exists);
        }
        if exists {
            let hit: bool = basename_hit(path, lower.as_slice(), Ghost(keywords@));
            let s: i128 = if hit {
                boosted_score(entry, now_ns, mode)
            } else {
                score(entry, now_ns, mode)
            };
            kept.push(i);
            scores.push(s);
            proof {
                assert forall|j: int|
                    0 <= j < i + 1 && eligible(#[trigger] entries@[j], keywords@, exclusions@) && present[j]
                    implies lists(kept@, j) by {
                    if j < i {
                        assert(lists(old_kept, j));
                        let m = choose|m: int| 0 <= m < old_kept.len() && #[trigger] old_kept[m] == j;
                        assert(kept@[m] == j);
                    } else {
                        assert(kept@[kept@.len() - 1] == j);
                    }
                }
            }
        }
        i += 1;
    }
    let order: Vec<usize> = ranked_order(scores.as_slice());
    let mut out: Vec<ScoredDir> = Vec::new();
    let mut k: usize = 0;
    while k < order.len()
        invariant
            k <= order@.len(),
            out@.len() == k,
            kept@.len() <= entries@.len(),
            is_rank_order(scores@, order@),
            kept_upto(
                entries@,
                keywords@,
                *mode,
                now_ns as int,
                exclusions@,
                present,
                kept@,
                scores@,
                entries@.len() as int,
            ),
            forall|j: int|
                0 <= j < k ==> {
                    &&& (#[trigger] out@[j]).path@ == entries@[kept@[order@[j] as int] as int].cwd@
                    &&& out@[j].score == scores@[order@[j] as int]
                },
        decreases order@.len() - k,
    {
        let place: usize = order[k];
        out.push(ScoredDir { path: entries[kept[place]].cwd.clone(), score: scores[place] });
        k += 1;
    }
    proof {
        let places: Seq<int> = Seq::new(order@.len(), |k: int| kept@[order@[k] as int] as int);
        assert forall|i: int|
            0 <= i < entries@.len() && eligible(#[trigger] entries@[i], keywords@, exclusions@) && present[i]
            implies places.contains(i) by {
            assert(lists(kept@, i));
            let m = choose|m: int| 0 <= m < kept@.len() && #[trigger] kept@[m] == i;
            assert(lists(order@, m));
            let k0 = choose|k: int| 0 <= k < order@.len() && #[trigger] order@[k] == m;
            assert(places[k0] == i);
        }
        assert forall|a: int, b: int| 0 <= a < b < places.len() implies ranks_before(
            entries@,
            keywords@,
            *mode,
            now_ns as int,
            #[trigger] places[a],
            #[trigger] places[b],
        ) by {
            assert(outranks(scores@, order@[a] as int, order@[b] as int));
        }
        assert(is_ranking(entries@, keywords@, *mode, now_ns as int, exclusions@, present, places, out@));
        assert forall|a: int, b: int| 0 <= a < b < out@.len() implies (#[trigger] out@[a]).score >= (
        #[trigger] out@[b]).score by {
            assert(outranks(scores@, order@[a] as int, order@[b] as int));
        }
        assert forall|k: int| 0 <= k < out@.len() implies {
            &&& keywords_match((#[trigger] out@[k]).path@, keywords@)
            &&& !listed(out@[k].path@, exclusions@)
            &&& answers(dir_exists, out@[k].path@, true)
        } by {
            let i = kept@[order@[k] as int] as int;
            assert(eligible(entries@[i], keywords@, exclusions@) && present[i]);
        }
    }
    out
}

/// With path and keywords in lower case, the keyword filter is the test
/// that every keyword occurs in the path.
proof fn lemma_folded_match(
    path: Seq<char>,
    keywords: Seq<String>,
    path_lower: Seq<char>,
    lower: Seq<Vec<char>>,
)
    requires
        path_lower == lowercase(path),
        folded(keywords, lower),
    ensures
        all_occur(path_lower, lower) == keywords_match(path, keywords),
{
    if all_occur(path_lower, lower) {
        assert forall|k: int| 0 <= k < keywords.len() implies is_substring(
            lowercase(path),
            lowercase(#[trigger] keywords[k]@),
        ) by {
            assert(is_substring(path_lower, lower[k]@));
        }
    }
    if keywords_match(path, keywords) {
        assert forall|k: int| 0 <= k < lower.len() implies is_substring(path_lower, #[trigger] lower[k]@) by {
            assert(is_substring(lowercase(path), lowercase(keywords[k]@)));
        }
    }
}

} // verus!
