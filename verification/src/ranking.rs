use vstd::prelude::*;
use crate::db::DirEntry;
use crate::exclusions::listed;
use crate::frecency::{boost, score_of, Mode};
use crate::matching::ScoredDir;
use crate::order::{precedes, ranked_order_is_unique};
use crate::path::file_name;
use crate::text::{is_substring, lowercase};

verus! {

/// Every keyword occurs in the path, letter case aside. No keywords: true.
pub open spec fn keywords_match(path: Seq<char>, keywords: Seq<String>) -> bool {
    forall|k: int|
        0 <= k < keywords.len() ==> is_substring(
            lowercase(path),
            lowercase(#[trigger] keywords[k]@),
        )
}

/// The last keyword occurs in the final component of the path, letter case
/// aside. False where there is no keyword or no final component.
pub open spec fn basename_matches(path: Seq<char>, keywords: Seq<String>) -> bool {
    &&& keywords.len() > 0
    &&& file_name(path) is Some
    &&& is_substring(lowercase(file_name(path)->0), lowercase(keywords.last()@))
}

/// The entry passes the keyword filter and is not excluded.
pub open spec fn eligible(entry: DirEntry, keywords: Seq<String>, exclusions: Seq<String>) -> bool {
    keywords_match(entry.cwd@, keywords) && !listed(entry.cwd@, exclusions)
}

/// The score an entry is ranked by, in eighths: its score under `mode`,
/// times one and a half where the last keyword occurs in its basename.
pub open spec fn final_score(entry: DirEntry, keywords: Seq<String>, mode: Mode, now_ns: int) -> int {
    let base = score_of(entry.freq as int, entry.last_visit_ns as int, now_ns, mode);
    if basename_matches(entry.cwd@, keywords) {
        boost(base)
    } else {
        base
    }
}

/// Entry `i` stands before entry `j` in a ranking: it has the higher final
/// score, or the same score and the earlier place in `entries`.
pub open spec fn ranks_before(
    entries: Seq<DirEntry>,
    keywords: Seq<String>,
    mode: Mode,
    now_ns: int,
    i: int,
    j: int,
) -> bool {
    let si = final_score(entries[i], keywords, mode, now_ns);
    let sj = final_score(entries[j], keywords, mode, now_ns);
    si > sj || (si == sj && i < j)
}

/// `out` is the ranking of `entries`, where `present[i]` tells whether the
/// directory of entry `i` exists and `order[k]` is the place in `entries` of
/// the entry that `out[k]` was made from:
/// the entries kept are those that are eligible and present, each once;
/// they stand by falling final score, and in the order of `entries` where
/// scores are equal; each result carries its entry's path and final score.
pub open spec fn is_ranking(
    entries: Seq<DirEntry>,
    keywords: Seq<String>,
    mode: Mode,
    now_ns: int,
    exclusions: Seq<String>,
    present: Seq<bool>,
    order: Seq<int>,
    out: Seq<ScoredDir>,
) -> bool {
    &&& present.len() == entries.len()
    &&& order.len() == out.len()
    &&& forall|k: int|
        0 <= k < order.len() ==> {
            &&& 0 <= #[trigger] order[k] < entries.len()
            &&& eligible(entries[order[k]], keywords, exclusions)
            &&& present[order[k]]
        }
    &&& forall|i: int|
        0 <= i < entries.len() && eligible(#[trigger] entries[i], keywords, exclusions)
            && present[i] ==> order.contains(i)
    &&& forall|a: int, b: int|
        0 <= a < b < order.len() ==> ranks_before(
            entries,
            keywords,
            mode,
            now_ns,
            #[trigger] order[a],
            #[trigger] order[b],
        )
    &&& forall|k: int|
        0 <= k < out.len() ==> {
            &&& (#[trigger] out[k]).path@ == entries[order[k]].cwd@
            &&& out[k].score == final_score(entries[order[k]], keywords, mode, now_ns)
        }
}

/// The final score is the score under the mode, or exactly one and a half
/// times it: the latter where, and only where, the last keyword occurs in
/// the final component of the path. Without keywords there is no boost.
pub proof fn boost_applies_on_basename_match(
    entry: DirEntry,
    keywords: Seq<String>,
    mode: Mode,
    now_ns: int,
)
    ensures
        basename_matches(entry.cwd@, keywords) ==> 2 * final_score(entry, keywords, mode, now_ns) == 3
            * score_of(entry.freq as int, entry.last_visit_ns as int, now_ns, mode),
        !basename_matches(entry.cwd@, keywords) ==> final_score(entry, keywords, mode, now_ns)
            == score_of(entry.freq as int, entry.last_visit_ns as int, now_ns, mode),
        keywords.len() == 0 ==> !basename_matches(entry.cwd@, keywords),
        basename_matches(entry.cwd@, keywords) <==> keywords.len() > 0 && file_name(entry.cwd@) is Some
            && is_substring(lowercase(file_name(entry.cwd@)->0), lowercase(keywords.last()@)),
{
    crate::frecency::boost_is_one_and_a_half(
        entry.freq as int,
        entry.last_visit_ns as int,
        now_ns,
        mode,
    );
}

/// The keyword filter is a conjunction: every path in a ranking holds
/// every keyword, letter case aside, and an entry whose path lacks one of
/// the keywords is not in the ranking.
pub proof fn ranking_keeps_only_matches(
    entries: Seq<DirEntry>,
    keywords: Seq<String>,
    mode: Mode,
    now_ns: int,
    exclusions: Seq<String>,
    present: Seq<bool>,
    order: Seq<int>,
    out: Seq<ScoredDir>,
)
    requires
        is_ranking(entries, keywords, mode, now_ns, exclusions, present, order, out),
    ensures
        forall|k: int, j: int|
            0 <= k < out.len() && 0 <= j < keywords.len() ==> is_substring(
                lowercase((#[trigger] out[k]).path@),
                lowercase((#[trigger] keywords[j])@),
            ),
        forall|i: int, j: int|
            0 <= i < entries.len() && 0 <= j < keywords.len() && !is_substring(
                lowercase((#[trigger] entries[i]).cwd@),
                lowercase((#[trigger] keywords[j])@),
            ) ==> !order.contains(i),
{
    assert forall|k: int, j: int| 0 <= k < out.len() && 0 <= j < keywords.len() implies is_substring(
        lowercase((#[trigger] out[k]).path@),
        lowercase((#[trigger] keywords[j])@),
    ) by {
        assert(eligible(entries[order[k]], keywords, exclusions));
    }
    assert forall|i: int, j: int|
        0 <= i < entries.len() && 0 <= j < keywords.len() && !is_substring(
            lowercase((#[trigger] entries[i]).cwd@),
            lowercase((#[trigger] keywords[j])@),
        ) implies !order.contains(i) by {
        if order.contains(i) {
            let k = choose|k: int| 0 <= k < order.len() && order[k] == i;
            assert(eligible(entries[order[k]], keywords, exclusions));
        }
    }
}

/// Without keywords the ranking holds every entry that is not excluded
/// and whose directory exists.
pub proof fn ranking_without_keywords_keeps_all(
    entries: Seq<DirEntry>,
    mode: Mode,
    now_ns: int,
    exclusions: Seq<String>,
    present: Seq<bool>,
    order: Seq<int>,
    out: Seq<ScoredDir>,
)
    requires
        is_ranking(entries, Seq::<String>::empty(), mode, now_ns, exclusions, present, order, out),
    ensures
        forall|i: int|
            0 <= i < entries.len() && !listed((#[trigger] entries[i]).cwd@, exclusions) && present[i]
                ==> exists|k: int|
                0 <= k < out.len() && order[k] == i && (#[trigger] out[k]).path@ == entries[i].cwd@,
{
    let keywords = Seq::<String>::empty();
    assert forall|i: int|
        0 <= i < entries.len() && !listed((#[trigger] entries[i]).cwd@, exclusions) && present[i]
        implies exists|k: int|
        0 <= k < out.len() && order[k] == i && (#[trigger] out[k]).path@ == entries[i].cwd@ by {
        assert(eligible(entries[i], keywords, exclusions));
        assert(order.contains(i));
        let k = choose|k: int| 0 <= k < order.len() && order[k] == i;
        assert(out[k].path@ == entries[order[k]].cwd@);
    }
}

/// A path of the exclusion list is in no ranking, whatever its score.
pub proof fn ranking_leaves_out_excluded(
    entries: Seq<DirEntry>,
    keywords: Seq<String>,
    mode: Mode,
    now_ns: int,
    exclusions: Seq<String>,
    present: Seq<bool>,
    order: Seq<int>,
    out: Seq<ScoredDir>,
    path: Seq<char>,
)
    requires
        is_ranking(entries, keywords, mode, now_ns, exclusions, present, order, out),
        listed(path, exclusions),
    ensures
        forall|k: int| 0 <= k < out.len() ==> (#[trigger] out[k]).path@ != path,
{
    assert forall|k: int| 0 <= k < out.len() implies (#[trigger] out[k]).path@ != path by {
        assert(eligible(entries[order[k]], keywords, exclusions));
    }
}

/// A path whose directory does not exist is in no ranking.
pub proof fn ranking_leaves_out_missing(
    entries: Seq<DirEntry>,
    keywords: Seq<String>,
    mode: Mode,
    now_ns: int,
    exclusions: Seq<String>,
    present: Seq<bool>,
    order: Seq<int>,
    out: Seq<ScoredDir>,
    path: Seq<char>,
)
    requires
        is_ranking(entries, keywords, mode, now_ns, exclusions, present, order, out),
        forall|i: int| 0 <= i < entries.len() && (#[trigger] entries[i]).cwd@ == path ==> !present[i],
    ensures
        forall|k: int| 0 <= k < out.len() ==> (#[trigger] out[k]).path@ != path,
{
    assert forall|k: int| 0 <= k < out.len() implies (#[trigger] out[k]).path@ != path by {
        assert(present[order[k]]);
    }
}

/// A ranking stands by falling final score, and entries of equal score
/// stand in the order they came in.
pub proof fn ranking_is_sorted(
    entries: Seq<DirEntry>,
    keywords: Seq<String>,
    mode: Mode,
    now_ns: int,
    exclusions: Seq<String>,
    present: Seq<bool>,
    order: Seq<int>,
    out: Seq<ScoredDir>,
)
    requires
        is_ranking(entries, keywords, mode, now_ns, exclusions, present, order, out),
    ensures
        forall|a: int, b: int|
            0 <= a < b < out.len() ==> (#[trigger] out[a]).score >= (#[trigger] out[b]).score,
        forall|a: int, b: int|
            0 <= a < b < out.len() && (#[trigger] out[a]).score == (#[trigger] out[b]).score
                ==> order[a] < order[b],
{
    assert forall|a: int, b: int| 0 <= a < b < out.len() implies (#[trigger] out[a]).score >= (
    #[trigger] out[b]).score && (out[a].score == out[b].score ==> order[a] < order[b]) by {
        assert(ranks_before(entries, keywords, mode, now_ns, order[a], order[b]));
    }
}

/// The ranking is determined: whatever two rankings of the same entries
/// under the same answers of the existence test hold, they list the same
/// entries at the same places, with the same paths and scores.
pub proof fn ranking_is_unique(
    entries: Seq<DirEntry>,
    keywords: Seq<String>,
    mode: Mode,
    now_ns: int,
    exclusions: Seq<String>,
    present: Seq<bool>,
    first_order: Seq<int>,
    first: Seq<ScoredDir>,
    second_order: Seq<int>,
    second: Seq<ScoredDir>,
)
    requires
        is_ranking(entries, keywords, mode, now_ns, exclusions, present, first_order, first),
        is_ranking(entries, keywords, mode, now_ns, exclusions, present, second_order, second),
    ensures
        first_order == second_order,
        first.len() == second.len(),
        forall|k: int|
            0 <= k < first.len() ==> (#[trigger] first[k]).path@ == second[k].path@ && first[k].score
                == second[k].score,
{
    assert forall|x: int| first_order.contains(x) <==> second_order.contains(x) by {
        if first_order.contains(x) {
            let k = choose|k: int| 0 <= k < first_order.len() && first_order[k] == x;
            assert(eligible(entries[first_order[k]], keywords, exclusions));
        }
        if second_order.contains(x) {
            let k = choose|k: int| 0 <= k < second_order.len() && second_order[k] == x;
            assert(eligible(entries[second_order[k]], keywords, exclusions));
        }
    }
    let key = |i: int| final_score(entries[i], keywords, mode, now_ns);
    assert forall|a: int, b: int| 0 <= a < b < first_order.len() implies precedes(
        key,
        #[trigger] first_order[a],
        #[trigger] first_order[b],
    ) by {
        assert(ranks_before(entries, keywords, mode, now_ns, first_order[a], first_order[b]));
    }
    assert forall|a: int, b: int| 0 <= a < b < second_order.len() implies precedes(
        key,
        #[trigger] second_order[a],
        #[trigger] second_order[b],
    ) by {
        assert(ranks_before(entries, keywords, mode, now_ns, second_order[a], second_order[b]));
    }
    ranked_order_is_unique(key, first_order, second_order);
}

} // verus!
