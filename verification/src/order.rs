use vstd::prelude::*;

verus! {

/// Place `i` stands before place `j` where places are ranked by `key`: it
/// has the higher key, or the same key and is the earlier place.
pub open spec fn precedes(key: spec_fn(int) -> int, i: int, j: int) -> bool {
    key(i) > key(j) || (key(i) == key(j) && i < j)
}

/// The places in `order` stand ranked by `key`: by falling key, and by
/// rising place where keys are equal.
pub open spec fn ranked_by(key: spec_fn(int) -> int, order: Seq<int>) -> bool {
    forall|a: int, b: int|
        0 <= a < b < order.len() ==> precedes(key, #[trigger] order[a], #[trigger] order[b])
}

/// Two lists that hold the same places, each ranked by the same key, are
/// the same list: ranking leaves no choice.
pub proof fn ranked_order_is_unique(key: spec_fn(int) -> int, first: Seq<int>, second: Seq<int>)
    requires
        ranked_by(key, first),
        ranked_by(key, second),
        forall|x: int| first.contains(x) <==> second.contains(x),
    ensures
        first == second,
    decreases first.len(),
{
    if first.len() == 0 {
        if second.len() > 0 {
            assert(second.contains(second[0]));
        }
        assert(first =~= second);
    } else {
        assert(first.contains(first[0]));
        assert(second.contains(first[0]));
        let m = choose|m: int| 0 <= m < second.len() && second[m] == first[0];
        assert(second.contains(second[0]));
        assert(first.contains(second[0]));
        let n = choose|n: int| 0 <= n < first.len() && first[n] == second[0];
        if m > 0 {
            assert(precedes(key, second[0], second[m]));
            if n > 0 {
                assert(precedes(key, first[0], first[n]));
            }
        }
        assert(first[0] == second[0]);
        let first_rest = first.drop_first();
        let second_rest = second.drop_first();
        assert forall|x: int| first_rest.contains(x) <==> second_rest.contains(x) by {
            if first_rest.contains(x) {
                let i = choose|i: int| 0 <= i < first_rest.len() && first_rest[i] == x;
                assert(first[i + 1] == x);
                assert(precedes(key, first[0], first[i + 1]));
                assert(first.contains(x));
                let j = choose|j: int| 0 <= j < second.len() && second[j] == x;
                assert(second_rest[j - 1] == x);
            }
            if second_rest.contains(x) {
                let i = choose|i: int| 0 <= i < second_rest.len() && second_rest[i] == x;
                assert(second[i + 1] == x);
                assert(precedes(key, second[0], second[i + 1]));
                assert(second.contains(x));
                let j = choose|j: int| 0 <= j < first.len() && first[j] == x;
                assert(first_rest[j - 1] == x);
            }
        }
        assert forall|a: int, b: int| 0 <= a < b < first_rest.len() implies precedes(
            key,
            #[trigger] first_rest[a],
            #[trigger] first_rest[b],
        ) by {
            assert(precedes(key, first[a + 1], first[b + 1]));
        }
        assert forall|a: int, b: int| 0 <= a < b < second_rest.len() implies precedes(
            key,
            #[trigger] second_rest[a],
            #[trigger] second_rest[b],
        ) by {
            assert(precedes(key, second[a + 1], second[b + 1]));
        }
        ranked_order_is_unique(key, first_rest, second_rest);
        assert(first =~= seq![first[0]] + first_rest);
        assert(second =~= seq![second[0]] + second_rest);
    }
}

/// Place `i` of `scores` stands before place `j`: it has the higher score,
/// or the same score and is the earlier place.
pub open spec fn outranks(scores: Seq<i128>, i: int, j: int) -> bool {
    scores[i] > scores[j] || (scores[i] == scores[j] && i < j)
}

/// Place `i` is in `order`.
pub open spec fn lists(order: Seq<usize>, i: int) -> bool {
    exists|k: int| 0 <= k < order.len() && #[trigger] order[k] == i
}

/// `order` lists the places of `scores`, each once, by falling score, and
/// by rising place where scores are equal.
pub open spec fn is_rank_order(scores: Seq<i128>, order: Seq<usize>) -> bool {
    &&& order.len() == scores.len()
    &&& forall|k: int| 0 <= k < order.len() ==> (#[trigger] order[k]) < scores.len()
    &&& forall|i: int| 0 <= i < scores.len() ==> #[trigger] lists(order, i)
    &&& forall|a: int, b: int|
        0 <= a < b < order.len() ==> outranks(scores, #[trigger] order[a] as int, #[trigger] order[b] as int)
}

/// The rank order of given scores is determined: two of them are the same.
pub proof fn rank_order_is_unique(scores: Seq<i128>, first: Seq<usize>, second: Seq<usize>)
    requires
        is_rank_order(scores, first),
        is_rank_order(scores, second),
    ensures
        first == second,
{
    let key = |i: int| scores[i] as int;
    let first_places = first.map_values(|p: usize| p as int);
    let second_places = second.map_values(|p: usize| p as int);
    assert forall|a: int, b: int| 0 <= a < b < first_places.len() implies precedes(
        key,
        #[trigger] first_places[a],
        #[trigger] first_places[b],
    ) by {
        assert(outranks(scores, first[a] as int, first[b] as int));
    }
    assert forall|a: int, b: int| 0 <= a < b < second_places.len() implies precedes(
        key,
        #[trigger] second_places[a],
        #[trigger] second_places[b],
    ) by {
        assert(outranks(scores, second[a] as int, second[b] as int));
    }
    assert forall|x: int| first_places.contains(x) <==> second_places.contains(x) by {
        if first_places.contains(x) {
            let k = choose|k: int| 0 <= k < first_places.len() && first_places[k] == x;
            assert(first[k] < scores.len());
            assert(lists(second, x));
            let m = choose|m: int| 0 <= m < second.len() && #[trigger] second[m] == x;
            assert(second_places[m] == x);
        }
        if second_places.contains(x) {
            let k = choose|k: int| 0 <= k < second_places.len() && second_places[k] == x;
            assert(second[k] < scores.len());
            assert(lists(first, x));
            let m = choose|m: int| 0 <= m < first.len() && #[trigger] first[m] == x;
            assert(first_places[m] == x);
        }
    }
    ranked_order_is_unique(key, first_places, second_places);
    assert forall|k: int| 0 <= k < first.len() implies first[k] == second[k] by {
        assert(first_places[k] == second_places[k]);
    }
    assert(first =~= second);
}

/// The order in which scores rank: the places of `scores`, the highest
/// score first. Places of equal score keep their order.
pub fn ranked_order(scores: &[i128]) -> (order: Vec<usize>)
    ensures
        is_rank_order(scores@, order@),
{
    let mut order: Vec<usize> = Vec::new();
    let mut i: usize = 0;
    while i < scores.len()
        invariant
            i <= scores@.len(),
            is_rank_order(scores@.take(i as int), order@),
        decreases scores@.len() - i,
    {
        let score: i128 = scores[i];
        let mut at: usize = 0;
        let mut end: usize = order.len();
        while at < end
            invariant
                i < scores@.len(),
                score == scores@[i as int],
                at <= end <= order@.len(),
                is_rank_order(scores@.take(i as int), order@),
                forall|k: int| 0 <= k < at ==> scores@[(#[trigger] order@[k]) as int] >= score,
                forall|k: int| end <= k < order@.len() ==> scores@[(#[trigger] order@[k]) as int] < score,
            decreases end - at,
        {
            let mid: usize = at + (end - at) / 2;
            let ghost seen = scores@.take(i as int);
            if scores[order[mid]] >= score {
                proof {
                    assert forall|k: int| 0 <= k < mid + 1 implies scores@[(#[trigger] order@[k]) as int]
                        >= score by {
                        if k < mid {
                            assert(outranks(seen, order@[k] as int, order@[mid as int] as int));
                        }
                    }
                }
                at = mid + 1;
            } else {
                proof {
                    assert forall|k: int| mid <= k < order@.len() implies scores@[(#[trigger] order@[k]) as int]
                        < score by {
                        if k > mid {
                            assert(outranks(seen, order@[mid as int] as int, order@[k] as int));
                        }
                    }
                }
                end = mid;
            }
        }
        let ghost before = order@;
        let ghost seen = scores@.take(i as int);
        let ghost grown = scores@.take(i + 1);
        order.insert(at, i);
        proof {
            let after = order@;
            assert forall|k: int| 0 <= k < after.len() implies (#[trigger] after[k]) < grown.len() by {
                if k < at {
                    assert(after[k] == before[k]);
                } else if k > at {
                    assert(after[k] == before[k - 1]);
                }
            }
            assert forall|j: int| 0 <= j < grown.len() implies #[trigger] lists(after, j) by {
                if j < i {
                    assert(lists(before, j));
                    let k0 = choose|k: int| 0 <= k < before.len() && #[trigger] before[k] == j;
                    if k0 < at {
                        assert(after[k0] == j);
                    } else {
                        assert(after[k0 + 1] == j);
                    }
                } else {
                    assert(after[at as int] == j);
                }
            }
            assert forall|a: int, b: int| 0 <= a < b < after.len() implies outranks(
                grown,
                #[trigger] after[a] as int,
                #[trigger] after[b] as int,
            ) by {
                if b < at {
                    assert(after[a] == before[a] && after[b] == before[b]);
                    assert(outranks(seen, before[a] as int, before[b] as int));
                } else if b == at {
                    assert(after[a] == before[a]);
                    assert(before[a] < seen.len());
                } else if a < at {
                    assert(after[a] == before[a] && after[b] == before[b - 1]);
                    assert(outranks(seen, before[a] as int, before[b - 1] as int));
                } else if a == at {
                    assert(after[b] == before[b - 1]);
                    assert(before[b - 1] < seen.len());
                } else {
                    assert(after[a] == before[a - 1] && after[b] == before[b - 1]);
                    assert(outranks(seen, before[a - 1] as int, before[b - 1] as int));
                }
            }
        }
        i += 1;
    }
    proof {
        assert(scores@.take(scores@.len() as int) =~= scores@);
    }
    order
}

} // verus!
