use crate::game::Player;
use vstd::prelude::*;

verus! {

/// Strict standings order on registry indices: `a` outranks `b` when
/// it has more wins, or equal wins and the earlier registration.
pub open spec fn precedes(ps: Seq<Player>, a: int, b: int) -> bool {
    ps[a].wins > ps[b].wins || (ps[a].wins == ps[b].wins && a < b)
}

/// `ord` ranks every registry index exactly once, best first: sorted
/// by win count descending, ties kept in registration order.
pub open spec fn is_standings_order(ps: Seq<Player>, ord: Seq<usize>) -> bool {
    &&& ord.len() == ps.len()
    &&& forall|k: int| 0 <= k < ord.len() ==> #[trigger] ord[k] < ps.len()
    &&& forall|k1: int, k2: int|
        0 <= k1 < k2 < ord.len() ==> precedes(ps, #[trigger] ord[k1] as int, #[trigger] ord[k2] as int)
    &&& forall|i: usize| i < ps.len() ==> #[trigger] ord.contains(i)
}

/// `lb` is the standings board of `ps`: the name and win count of
/// every player, listed in standings order.
pub open spec fn is_leaderboard(ps: Seq<Player>, lb: Seq<(String, u32)>) -> bool {
    exists|ord: Seq<usize>|
        {
            &&& #[trigger] is_standings_order(ps, ord)
            &&& lb.len() == ord.len()
            &&& forall|k: int|
                0 <= k < lb.len() ==> (#[trigger] lb[k]).0 == ps[ord[k] as int].name && lb[k].1
                    == ps[ord[k] as int].wins
        }
}

/// Rank the registry: returns the indices of all players, sorted by
/// win count descending, with ties kept in registration order. The
/// sort is an insertion sort, so it is stable by construction.
pub fn standings_order(ps: &Vec<Player>) -> (ord: Vec<usize>)
    ensures
        is_standings_order(ps@, ord@),
{
    let n = ps.len();
    let mut ord: Vec<usize> = Vec::new();
    for i in 0..n
        invariant
            n == ps@.len(),
            ord@.len() == i,
            forall|k: int| 0 <= k < ord@.len() ==> #[trigger] ord@[k] < i,
            forall|k1: int, k2: int|
                0 <= k1 < k2 < ord@.len() ==> precedes(
                    ps@,
                    #[trigger] ord@[k1] as int,
                    #[trigger] ord@[k2] as int,
                ),
            forall|v: usize| v < i ==> #[trigger] ord@.contains(v),
    {
        let w = ps[i].wins;
        let mut pos: usize = 0;
        while pos < ord.len() && ps[ord[pos]].wins >= w
            invariant
                pos <= ord@.len(),
                n == ps@.len(),
                i < n,
                w == ps@[i as int].wins,
                forall|k: int| 0 <= k < ord@.len() ==> #[trigger] ord@[k] < i,
                forall|m: int| 0 <= m < pos ==> ps@[#[trigger] ord@[m] as int].wins >= w,
            decreases ord@.len() - pos,
        {
            pos = pos + 1;
        }
        proof {
            assert(pos == ord@.len() || ps@[ord@[pos as int] as int].wins < w);
        }
        let ghost before = ord@;
        ord.insert(pos, i);
        proof {
            assert forall|k: int| 0 <= k < pos implies ord@[k] == before[k] by {}
            assert(ord@[pos as int] == i);
            assert forall|k: int| pos < k < ord@.len() implies ord@[k] == before[k - 1] by {}
            assert forall|k1: int, k2: int| 0 <= k1 < k2 < ord@.len() implies precedes(
                ps@,
                ord@[k1] as int,
                ord@[k2] as int,
            ) by {
                if k2 < pos {
                } else if k1 < pos && k2 == pos {
                    assert(ps@[before[k1] as int].wins >= w);
                    assert(before[k1] < i);
                } else if k1 < pos && k2 > pos {
                    assert(ord@[k2] == before[k2 - 1]);
                } else if k1 == pos {
                    let m = k2 - 1;
                    assert(ord@[k2] == before[m]);
                    if m == pos {
                        assert(ps@[before[pos as int] as int].wins < w);
                    } else {
                        assert(precedes(ps@, before[pos as int] as int, before[m] as int));
                        assert(ps@[before[pos as int] as int].wins < w);
                    }
                } else {
                    assert(ord@[k1] == before[k1 - 1]);
                    assert(ord@[k2] == before[k2 - 1]);
                }
            }
            assert forall|v: usize| v < i + 1 implies #[trigger] ord@.contains(v) by {
                if v == i {
                    assert(ord@[pos as int] == v);
                } else {
                    assert(before.contains(v));
                    let k0 = choose|k: int| 0 <= k < before.len() && #[trigger] before[k] == v;
                    if k0 < pos {
                        assert(ord@[k0] == v);
                    } else {
                        assert(ord@[k0 + 1] == v);
                    }
                }
            }
        }
    }
    ord
}

} // verus!
