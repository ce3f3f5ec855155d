use vstd::prelude::*;

verus! {

/// `order` lists zone indices from highest to lowest priority; zones of equal
/// priority keep the order in which they were given.
pub open spec fn ordered_by_priority(order: Seq<usize>, priorities: Seq<i32>) -> bool {
    forall|a: int, b: int|
        0 <= a < b < order.len() ==> {
            ||| priorities[order[a] as int] > priorities[order[b] as int]
            ||| (priorities[order[a] as int] == priorities[order[b] as int] && order[a] < order[b])
        }
}

/// `order` names each of the indices `0..n` exactly once.
pub open spec fn is_index_permutation(order: Seq<usize>, n: nat) -> bool {
    &&& order.len() == n
    &&& forall|a: int| 0 <= a < order.len() ==> #[trigger] order[a] < n
    &&& forall|a: int, b: int| 0 <= a < b < order.len() ==> order[a] != order[b]
}

/// The order in which wind zones are blended: by descending priority, stable
/// among zones of equal priority.
pub fn zone_priority_order(priorities: &[i32]) -> (order: Vec<usize>)
    ensures
        is_index_permutation(order@, priorities@.len()),
        ordered_by_priority(order@, priorities@),
{
    let n = priorities.len();
    let mut order: Vec<usize> = Vec::new();
    let mut i: usize = 0;
    while i < n
        invariant
            n == priorities@.len(),
            i <= n,
            is_index_permutation(order@, i as nat),
            ordered_by_priority(order@, priorities@),
        decreases n - i,
    {
        let p = priorities[i];
        let mut pos: usize = 0;
        while pos < order.len() && priorities[order[pos]] >= p
            invariant
                n == priorities@.len(),
                i < n,
                p == priorities@[i as int],
                is_index_permutation(order@, i as nat),
                pos <= order@.len(),
                forall|j: int| 0 <= j < pos ==> priorities@[#[trigger] order@[j] as int] >= p,
            decreases order@.len() - pos,
        {
            pos = pos + 1;
        }
        let ghost before = order@;
        proof {
            if pos < before.len() {
                assert(priorities@[before[pos as int] as int] < p);
                assert forall|j: int| pos <= j < before.len() implies priorities@[#[trigger] before[j] as int] < p by {
                    if j > pos {
                        assert(ordered_by_priority(before, priorities@));
                        let a = pos as int;
                        assert(priorities@[before[a] as int] >= priorities@[before[j] as int]);
                    }
                }
            }
        }
        order.insert(pos, i);
        proof {
            let after = order@;
            assert(after == before.insert(pos as int, i));
            assert forall|a: int| 0 <= a < after.len() implies #[trigger] after[a] < i + 1 by {
                if a < pos {
                    assert(after[a] == before[a]);
                } else if a > pos {
                    assert(after[a] == before[a - 1]);
                }
            }
            assert forall|a: int, b: int| 0 <= a < b < after.len() implies after[a] != after[b] by {
                if a < pos && b < pos {
                    assert(after[a] == before[a] && after[b] == before[b]);
                } else if a < pos && b == pos {
                    assert(after[a] == before[a]);
                } else if a < pos && b > pos {
                    assert(after[a] == before[a] && after[b] == before[b - 1]);
                } else if a == pos {
                    assert(after[b] == before[b - 1]);
                } else {
                    assert(after[a] == before[a - 1] && after[b] == before[b - 1]);
                }
            }
            assert forall|a: int, b: int| 0 <= a < b < after.len() implies {
                ||| priorities@[after[a] as int] > priorities@[after[b] as int]
                ||| (priorities@[after[a] as int] == priorities@[after[b] as int] && after[a] < after[b])
            } by {
                if a < pos && b < pos {
                    assert(after[a] == before[a] && after[b] == before[b]);
                } else if a < pos && b == pos {
                    assert(after[a] == before[a]);
                    assert(priorities@[before[a] as int] >= p);
                } else if a < pos && b > pos {
                    assert(after[a] == before[a] && after[b] == before[b - 1]);
                } else if a == pos {
                    assert(after[b] == before[b - 1]);
                    assert(priorities@[before[b - 1] as int] < p);
                } else {
                    assert(after[a] == before[a - 1] && after[b] == before[b - 1]);
                }
            }
        }
        i = i + 1;
    }
    order
}

} // verus!
