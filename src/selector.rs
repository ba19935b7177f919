use vstd::prelude::*;

use rand::rngs::StdRng;
use rand::Rng;

use crate::coords::Direction;
use crate::grid::Neighbor;

verus! {

#[verifier::external_type_specification]
#[verifier::external_body]
pub struct ExStdRng(StdRng);

/// Relies on `rand::Rng::gen_ratio`: `true` with probability
/// `numerator / denominator`, always `false` for a zero numerator and always
/// `true` when numerator and denominator are equal; it panics when the
/// denominator is zero or below the numerator.
#[verifier::external_body]
fn gen_ratio(rng: &mut StdRng, numerator: u32, denominator: u32) -> (r: bool)
    requires
        0 < denominator,
        numerator <= denominator,
    ensures
        numerator == 0 ==> !r,
        numerator == denominator ==> r,
{
    rng.gen_ratio(numerator, denominator)
}

/// Relies on `rand::Rng::gen_range` on `0..bound`: a value below `bound`; it
/// panics on an empty range.
#[verifier::external_body]
pub(crate) fn gen_below(rng: &mut StdRng, bound: usize) -> (r: usize)
    requires
        0 < bound,
    ensures
        r < bound,
{
    rng.gen_range(0..bound)
}

/// One trial of the selection pass: pop the head of `queue`; on heads it is
/// chosen, on tails it goes back to the end of the queue.
pub open spec fn trial(queue: Seq<Direction>, chosen: Seq<Direction>, heads: bool) -> (
    Seq<Direction>,
    Seq<Direction>,
) {
    if heads {
        (queue.drop_first(), chosen.push(queue[0]))
    } else {
        (queue.drop_first().push(queue[0]), chosen)
    }
}

/// Runs one trial per coin, stopping early once the queue is empty; returns
/// the remaining queue and the chosen directions.
pub open spec fn run_trials(queue: Seq<Direction>, chosen: Seq<Direction>, coins: Seq<bool>) -> (
    Seq<Direction>,
    Seq<Direction>,
)
    decreases coins.len(),
{
    if coins.len() == 0 || queue.len() == 0 {
        (queue, chosen)
    } else {
        let next = trial(queue, chosen, coins[0]);
        run_trials(next.0, next.1, coins.drop_first())
    }
}

/// The directions that a cell opens, given its not yet finalized neighbors
/// `candidates` and the coin flips `coins`: one trial per candidate, then, if
/// nothing was chosen while candidates remain, the first one that remains.
pub open spec fn selection(candidates: Seq<Direction>, coins: Seq<bool>) -> Seq<Direction> {
    let (rest, chosen) = run_trials(candidates, seq![], coins.take(candidates.len() as int));
    if chosen.len() == 0 && rest.len() > 0 {
        seq![rest[0]]
    } else {
        chosen
    }
}

/// The directions of the neighbors in `ns` whose cell is not finalized, in order.
pub open spec fn unfinalized_dirs(ns: Seq<Neighbor>) -> Seq<Direction>
    decreases ns.len(),
{
    if ns.len() == 0 {
        seq![]
    } else if ns.last().cell.finalized {
        unfinalized_dirs(ns.drop_last())
    } else {
        unfinalized_dirs(ns.drop_last()).push(ns.last().dir)
    }
}

/// The trials keep every direction: what remains and what was chosen together
/// hold the queue and the earlier choices, no more and no fewer.
pub proof fn lemma_run_trials_keeps(queue: Seq<Direction>, chosen: Seq<Direction>, coins: Seq<bool>)
    ensures
        run_trials(queue, chosen, coins).0.len() + run_trials(queue, chosen, coins).1.len()
            == queue.len() + chosen.len(),
        forall|d: Direction|
            run_trials(queue, chosen, coins).1.contains(d) ==> #[trigger] queue.contains(d)
                || chosen.contains(d),
        forall|d: Direction|
            run_trials(queue, chosen, coins).0.contains(d) ==> #[trigger] queue.contains(d)
                || chosen.contains(d),
    decreases coins.len(),
{
    if coins.len() > 0 && queue.len() > 0 {
        let next = trial(queue, chosen, coins[0]);
        lemma_run_trials_keeps(next.0, next.1, coins.drop_first());
        assert forall|d: Direction|
            next.0.contains(d) || next.1.contains(d) implies queue.contains(d) || chosen.contains(
            d,
        ) by {
            if next.0.contains(d) {
                let k = choose|k: int| 0 <= k < next.0.len() && next.0[k] == d;
                if coins[0] || k < queue.len() - 1 {
                    assert(queue[k + 1] == d);
                } else {
                    assert(queue[0] == d);
                }
            } else {
                let k = choose|k: int| 0 <= k < next.1.len() && next.1[k] == d;
                if k < chosen.len() {
                    assert(chosen[k] == d);
                } else {
                    assert(queue[0] == d);
                }
            }
        }
    }
}

/// A cell with at least one candidate opens at least one direction, and it
/// opens only candidates.
pub proof fn lemma_selection_from_candidates(candidates: Seq<Direction>, coins: Seq<bool>)
    ensures
        candidates.len() > 0 ==> selection(candidates, coins).len() > 0,
        forall|i: int|
            0 <= i < selection(candidates, coins).len() ==> candidates.contains(
                #[trigger] selection(candidates, coins)[i],
            ),
{
    let taken = coins.take(candidates.len() as int);
    lemma_run_trials_keeps(candidates, seq![], taken);
    let (rest, chosen) = run_trials(candidates, seq![], taken);
    let s = selection(candidates, coins);
    assert forall|i: int| 0 <= i < s.len() implies candidates.contains(#[trigger] s[i]) by {
        if chosen.len() == 0 && rest.len() > 0 {
            assert(rest.contains(rest[0]));
        } else {
            assert(chosen.contains(chosen[i]));
        }
    }
}

/// Each direction kept by the filter belongs to an unfinalized neighbor, and
/// when no neighbor is finalized the filter keeps them all.
pub proof fn lemma_unfinalized_dirs(ns: Seq<Neighbor>)
    ensures
        forall|d: Direction|
            #[trigger] unfinalized_dirs(ns).contains(d) ==> exists|i: int|
                0 <= i < ns.len() && (#[trigger] ns[i]).dir == d && !ns[i].cell.finalized,
        (forall|i: int| 0 <= i < ns.len() ==> !(#[trigger] ns[i]).cell.finalized) ==> unfinalized_dirs(
            ns,
        ).len() == ns.len(),
        unfinalized_dirs(ns).len() <= ns.len(),
    decreases ns.len(),
{
    if ns.len() > 0 {
        let init = ns.drop_last();
        lemma_unfinalized_dirs(init);
        assert forall|d: Direction| #[trigger] unfinalized_dirs(ns).contains(d) implies exists|i: int|
            0 <= i < ns.len() && (#[trigger] ns[i]).dir == d && !ns[i].cell.finalized by {
            let u = unfinalized_dirs(ns);
            let k = choose|k: int| 0 <= k < u.len() && u[k] == d;
            if k < unfinalized_dirs(init).len() {
                assert(unfinalized_dirs(init)[k] == d);
                assert(unfinalized_dirs(init).contains(d));
                let i = choose|i: int|
                    0 <= i < init.len() && (#[trigger] init[i]).dir == d && !init[i].cell.finalized;
                assert(ns[i] == init[i]);
            } else {
                assert(ns[ns.len() - 1] == ns.last());
            }
        }
        if forall|i: int| 0 <= i < ns.len() ==> !(#[trigger] ns[i]).cell.finalized {
            assert forall|i: int| 0 <= i < init.len() implies !(#[trigger] init[i]).cell.finalized by {
                assert(init[i] == ns[i]);
            }
            assert(!ns[ns.len() - 1].cell.finalized);
        }
    }
}

/// The directions that a cell opens toward `candidates`, decided by `coins`:
/// coin `k` decides trial `k`.
pub fn select_directions(candidates: &Vec<Direction>, coins: &Vec<bool>) -> (r: Vec<Direction>)
    requires
        coins@.len() >= candidates@.len(),
    ensures
        r@ == selection(candidates@, coins@),
{
    let n = candidates.len();
    let ghost taken = coins@.take(n as int);
    let mut queue: Vec<Direction> = candidates.clone();
    let mut chosen: Vec<Direction> = Vec::new();
    let mut k: usize = 0;
    assert(queue@ =~= candidates@);
    assert(chosen@ =~= Seq::<Direction>::empty());
    assert(taken.subrange(0, n as int) =~= taken);
    while k < n && queue.len() > 0
        invariant
            k <= n,
            n == candidates@.len(),
            n <= coins@.len(),
            taken == coins@.take(n as int),
            run_trials(queue@, chosen@, taken.subrange(k as int, n as int)) == run_trials(
                candidates@,
                seq![],
                taken,
            ),
        decreases n - k,
    {
        let head = queue.remove(0);
        let heads = coins[k];
        proof {
            let rest = taken.subrange(k as int, n as int);
            assert(rest[0] == heads);
            assert(rest.drop_first() =~= taken.subrange(k + 1, n as int));
        }
        if heads {
            chosen.push(head);
        } else {
            queue.push(head);
        }
        k += 1;
    }
    if chosen.len() == 0 && queue.len() > 0 {
        let first = queue[0];
        let mut forced: Vec<Direction> = Vec::new();
        forced.push(first);
        assert(forced@ =~= seq![first]);
        forced
    } else {
        chosen
    }
}

/// The directions of the neighbors whose cell is not finalized, in order.
pub fn unfinalized_directions(neighbors: &Vec<Neighbor>) -> (r: Vec<Direction>)
    ensures
        r@ == unfinalized_dirs(neighbors@),
{
    let mut r: Vec<Direction> = Vec::new();
    let mut i: usize = 0;
    while i < neighbors.len()
        invariant
            i <= neighbors@.len(),
            r@ == unfinalized_dirs(neighbors@.subrange(0, i as int)),
        decreases neighbors@.len() - i,
    {
        assert(neighbors@.subrange(0, i + 1).drop_last() =~= neighbors@.subrange(0, i as int));
        if !neighbors[i].cell.finalized {
            r.push(neighbors[i].dir);
        }
        i += 1;
    }
    assert(neighbors@.subrange(0, i as int) =~= neighbors@);
    r
}

/// `n` fair coin flips drawn from `rng`.
pub fn flip_coins(rng: &mut StdRng, n: usize) -> (r: Vec<bool>)
    ensures
        r@.len() == n,
{
    let mut coins: Vec<bool> = Vec::new();
    let mut i: usize = 0;
    while i < n
        invariant
            i <= n,
            coins@.len() == i,
        decreases n - i,
    {
        coins.push(gen_ratio(rng, 1, 2));
        i += 1;
    }
    coins
}

/// The directions that a newly visited cell opens toward its neighbors: only
/// neighbors that are not finalized take part, one coin from `rng` per trial.
pub fn directions_to_connect_to(neighbors: Vec<Neighbor>, rng: &mut StdRng) -> (r: Vec<Direction>)
    ensures
        exists|coins: Seq<bool>|
            coins.len() == unfinalized_dirs(neighbors@).len() && r@ == #[trigger] selection(
                unfinalized_dirs(neighbors@),
                coins,
            ),
{
    let candidates = unfinalized_directions(&neighbors);
    let coins = flip_coins(rng, candidates.len());
    let r = select_directions(&candidates, &coins);
    assert(coins@.len() == unfinalized_dirs(neighbors@).len() && r@ == selection(
        unfinalized_dirs(neighbors@),
        coins@,
    ));
    r
}

} // verus!
