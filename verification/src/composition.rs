//! Combining strategies: sequential composition that hides the shared
//! interface, parallel composition that interleaves, and conflict detection.
use crate::arena::{Arena, ArenaView, EventView, product_arena_spec, shiftable};
use crate::strategy::{Strategy, StrategyView, in_arena};
use vstd::prelude::*;

verus! {

/// A justifier of the kept half of `tau` renamed into the composed arena:
/// those in the kept half move down by `th` and up by `sh`; others stay.
pub open spec fn remap(j: usize, th: nat, sh: nat) -> usize {
    if j >= th {
        (j - th + sh) as usize
    } else {
        j
    }
}

/// The edges `(justifier, id)` of the events that have a justifier, in order.
pub open spec fn justification_edges(es: Seq<EventView>) -> Seq<(usize, usize)>
    decreases es.len(),
{
    if es.len() == 0 {
        Seq::empty()
    } else {
        justification_edges(es.drop_last()) + match es.last().justifier {
            Some(j) => seq![(j, es.last().id)],
            None => Seq::empty(),
        }
    }
}

/// The events of the composed arena: the first half of `s` (no
/// justifiers), then the second half of `t`, renumbered after them.
pub open spec fn composed_events(s: ArenaView, t: ArenaView) -> Seq<EventView> {
    let sh = s.events.len() / 2;
    let th = t.events.len() / 2;
    Seq::new(sh, |i: int| EventView { id: i as usize, justifier: None, ..s.events[i] }) + Seq::new(
        (t.events.len() - th) as nat,
        |i: int|
            EventView {
                id: (sh + i) as usize,
                justifier: match t.events[th + i].justifier {
                    Some(j) => Some(remap(j, th, sh)),
                    None => None,
                },
                ..t.events[th + i]
            },
    )
}

/// The arena of `s ; t`.
pub open spec fn composed_arena(s: ArenaView, t: ArenaView) -> ArenaView {
    ArenaView {
        name: "("@ + s.name + ") ; ("@ + t.name + ")"@,
        events: composed_events(s, t),
        enabling: justification_edges(composed_events(s, t)),
    }
}

/// The moves of `moves[0..k]` below `sh` (the visible half of `sigma`).
pub open spec fn sigma_visible(moves: Seq<usize>, sh: nat, k: int) -> Seq<usize>
    decreases k,
{
    if k <= 0 {
        Seq::empty()
    } else {
        sigma_visible(moves, sh, k - 1) + if moves[k - 1] < sh {
            seq![moves[k - 1]]
        } else {
            Seq::empty()
        }
    }
}

/// The moves of `moves[0..k]` in the visible half of `tau` (from `th`),
/// renumbered by `- th + sh`, that land inside an arena of `total` events.
pub open spec fn tau_visible(moves: Seq<usize>, th: nat, sh: nat, total: nat, k: int) -> Seq<usize>
    decreases k,
{
    if k <= 0 {
        Seq::empty()
    } else {
        let m = moves[k - 1];
        tau_visible(moves, th, sh, total, k - 1) + if m >= th && m - th + sh < total {
            seq![(m - th + sh) as usize]
        } else {
            Seq::empty()
        }
    }
}

/// The play of `sigma ; tau`: the visible moves of `sigma`, then those of `tau`.
pub open spec fn composed_moves(s: StrategyView, t: StrategyView) -> Seq<usize> {
    let sh = s.arena.events.len() / 2;
    let th = t.arena.events.len() / 2;
    let total = (sh + (t.arena.events.len() - th)) as nat;
    sigma_visible(s.moves, sh, s.moves.len() as int) + tau_visible(
        t.moves,
        th,
        sh,
        total,
        t.moves.len() as int,
    )
}

/// Renumbering the kept half of `tau` stays within `usize`.
pub open spec fn composable(s: StrategyView, t: StrategyView) -> bool {
    let sh = s.arena.events.len() / 2;
    let th = t.arena.events.len() / 2;
    &&& forall|i: int|
        th <= i < t.arena.events.len() && #[trigger] t.arena.events[i].justifier is Some
            && t.arena.events[i].justifier->0 >= th ==> t.arena.events[i].justifier->0 - th + sh
            <= usize::MAX
    &&& forall|k: int| 0 <= k < t.moves.len() && #[trigger] t.moves[k] >= th ==> t.moves[k] - th + sh <= usize::MAX
}

/// Sequential composition `sigma ; tau`, hiding the shared interface: the
/// first half of `sigma`'s arena (the reversed domain) and the second half
/// of `tau`'s (the codomain) stay, with the moves that fall in them.
pub fn compose_strategies(sigma: &Strategy, tau: &Strategy) -> (r: Strategy)
    requires
        composable(sigma@, tau@),
    ensures
        r@.arena == composed_arena(sigma@.arena, tau@.arena),
        r@.moves == composed_moves(sigma@, tau@),
{
    let ghost sv = sigma@.arena;
    let ghost tv = tau@.arena;
    let a_count = sigma.arena.events.len();
    let b_count = tau.arena.events.len();
    let mut name = "(".to_owned();
    name.append(sigma.arena.name.as_str());
    name.append(") ; (");
    name.append(tau.arena.name.as_str());
    name.append(")");
    let mut composed = Arena { name, events: Vec::new(), enabling: Vec::new() };
    assert(composed@.events =~= Seq::<EventView>::empty());
    let sigma_half = a_count / 2;
    let ghost target = composed_events(sv, tv);
    let mut i: usize = 0;
    while i < sigma_half
        invariant
            i <= sigma_half,
            sigma_half == sv.events.len() / 2,
            sv == sigma@.arena,
            tv == tau@.arena,
            a_count == sv.events.len(),
            target == composed_events(sv, tv),
            composed@.events == target.take(i as int),
            composed@.enabling == justification_edges(target.take(i as int)),
            composed@.name == "("@ + sv.name + ") ; ("@ + tv.name + ")"@,
        decreases sigma_half - i,
    {
        let e = &sigma.arena.events[i];
        composed.add_event(e.polarity, e.kind, e.label.as_str(), None);
        proof {
            assert(target.take(i + 1) =~= target.take(i as int).push(target[i as int]));
            assert(target.take(i + 1).drop_last() =~= target.take(i as int));
        }
        i = i + 1;
    }
    let tau_half = b_count / 2;
    let mut i: usize = tau_half;
    while i < b_count
        invariant
            tau_half <= i <= b_count,
            sigma_half == sv.events.len() / 2,
            tau_half == tv.events.len() / 2,
            b_count == tv.events.len(),
            sv == sigma@.arena,
            tv == tau@.arena,
            composable(sigma@, tau@),
            target == composed_events(sv, tv),
            target.len() == sigma_half + (b_count - tau_half),
            composed@.events == target.take(sigma_half + (i - tau_half)),
            composed@.enabling == justification_edges(target.take(sigma_half + (i - tau_half))),
            composed@.name == "("@ + sv.name + ") ; ("@ + tv.name + ")"@,
        decreases b_count - i,
    {
        let e = &tau.arena.events[i];
        let j = match e.justifier {
            Some(j) => {
                if j >= tau_half {
                    assert(tv.events[i as int].justifier is Some);
                    Some(j - tau_half + sigma_half)
                } else {
                    Some(j)
                }
            },
            None => None,
        };
        composed.add_event(e.polarity, e.kind, e.label.as_str(), j);
        proof {
            let p = sigma_half + (i - tau_half);
            assert(target[p] == EventView {
                id: p as usize,
                justifier: j,
                ..tv.events[i as int]
            });
            assert(target.take(p + 1) =~= target.take(p).push(target[p]));
            assert(target.take(p + 1).drop_last() =~= target.take(p));
        }
        i = i + 1;
    }
    proof {
        assert(target.take(target.len() as int) =~= target);
    }
    let mut result = Strategy::new(composed);
    let ghost total = (sigma_half + (b_count - tau_half)) as nat;
    let mut k: usize = 0;
    while k < sigma.moves.len()
        invariant
            k <= sigma.moves.len(),
            sigma_half == sv.events.len() / 2,
            result@.arena == composed_arena(sv, tv),
            result@.moves == sigma_visible(sigma@.moves, sigma_half as nat, k as int),
        decreases sigma.moves.len() - k,
    {
        let m = sigma.moves[k];
        if m < sigma_half {
            result.add_move(m);
        }
        k = k + 1;
    }
    let ghost left = result@.moves;
    let offset = sigma_half;
    let mut k: usize = 0;
    while k < tau.moves.len()
        invariant
            k <= tau.moves.len(),
            sigma_half == sv.events.len() / 2,
            tau_half == tv.events.len() / 2,
            offset == sigma_half,
            sv == sigma@.arena,
            tv == tau@.arena,
            composable(sigma@, tau@),
            total == sigma_half + (tv.events.len() - tau_half),
            result@.arena == composed_arena(sv, tv),
            result@.arena.events.len() == total,
            result@.moves == left + tau_visible(tau@.moves, tau_half as nat, sigma_half as nat, total, k as int),
        decreases tau.moves.len() - k,
    {
        let m = tau.moves[k];
        if m >= tau_half {
            assert(tau@.moves[k as int] >= tau_half);
            if m - tau_half + offset < result.arena.events.len() {
                result.add_move(m - tau_half + offset);
            }
        }
        proof {
            assert(left + tau_visible(tau@.moves, tau_half as nat, sigma_half as nat, total, k + 1)
                =~= result@.moves);
        }
        k = k + 1;
    }
    result
}

/// The moves of `x` and `y` taken in turn, one of each per round, for the
/// first `k` rounds.
pub open spec fn interleave(x: Seq<usize>, y: Seq<usize>, k: int) -> Seq<usize>
    decreases k,
{
    if k <= 0 {
        Seq::empty()
    } else {
        interleave(x, y, k - 1) + (if k - 1 < x.len() {
            seq![x[k - 1]]
        } else {
            Seq::empty()
        }) + (if k - 1 < y.len() {
            seq![y[k - 1]]
        } else {
            Seq::empty()
        })
    }
}

/// The moves of `tau` renumbered into the product arena.
pub open spec fn shifted_moves(moves: Seq<usize>, off: nat) -> Seq<usize> {
    Seq::new(moves.len(), |i: int| (moves[i] + off) as usize)
}

/// The number of rounds that uses up both plays.
pub open spec fn rounds(x: Seq<usize>, y: Seq<usize>) -> int {
    if x.len() >= y.len() {
        x.len() as int
    } else {
        y.len() as int
    }
}

/// Parallel composition on independent arenas: the product arena, and the
/// two plays interleaved (one move of `sigma`, then one of `tau`).
pub fn parallel_compose(sigma: &Strategy, tau: &Strategy) -> (r: Strategy)
    requires
        shiftable(tau@.arena, sigma@.arena.events.len()),
        forall|k: int| 0 <= k < tau@.moves.len() ==> #[trigger] tau@.moves[k] + sigma@.arena.events.len() <= usize::MAX,
    ensures
        r@.arena == product_arena_spec(sigma@.arena, tau@.arena),
        r@.moves == interleave(
            sigma@.moves,
            shifted_moves(tau@.moves, sigma@.arena.events.len()),
            rounds(sigma@.moves, tau@.moves),
        ),
{
    let combined = Arena::product_arena(&sigma.arena, &tau.arena);
    let offset = sigma.arena.events.len();
    let mut result = Strategy::new(combined);
    let ghost x = sigma@.moves;
    let ghost y = shifted_moves(tau@.moves, offset as nat);
    // Round `k` plays `sigma`'s k-th move, then `tau`'s, while either has one.
    let mut k: usize = 0;
    loop
        invariant_except_break
            k <= rounds(sigma@.moves, tau@.moves),
            result@.moves == interleave(x, y, k as int),
        invariant
            x == sigma@.moves,
            y == shifted_moves(tau@.moves, offset as nat),
            offset == sigma@.arena.events.len(),
            forall|q: int| 0 <= q < tau@.moves.len() ==> #[trigger] tau@.moves[q] + offset <= usize::MAX,
            result@.arena == product_arena_spec(sigma@.arena, tau@.arena),
        ensures
            result@.moves == interleave(x, y, rounds(sigma@.moves, tau@.moves)),
        decreases rounds(sigma@.moves, tau@.moves) - k,
    {
        let has_sigma = k < sigma.moves.len();
        let has_tau = k < tau.moves.len();
        if !has_sigma && !has_tau {
            break;
        }
        if has_sigma {
            result.add_move(sigma.moves[k]);
        }
        if has_tau {
            assert(tau@.moves[k as int] + offset <= usize::MAX);
            result.add_move(tau.moves[k] + offset);
        }
        proof {
            assert(interleave(x, y, k + 1) =~= result@.moves);
        }
        k = k + 1;
    }
    result
}

/// The conflicts between `sigma`'s move at position `k` and the moves of
/// `tau` at positions `0..q`: pairs of moves of the arenas with the same
/// justifier.
pub open spec fn conflicts_with(s: StrategyView, t: StrategyView, sm: usize, q: int) -> Seq<(usize, usize)>
    decreases q,
{
    if q <= 0 {
        Seq::empty()
    } else {
        let tm = t.moves[q - 1];
        conflicts_with(s, t, sm, q - 1) + if in_arena(t.arena, tm)
            && s.arena.events[sm as int].justifier is Some
            && s.arena.events[sm as int].justifier == t.arena.events[tm as int].justifier {
            seq![(sm, tm)]
        } else {
            Seq::empty()
        }
    }
}

/// All conflicts for `sigma`'s moves at positions `0..k`, in order.
pub open spec fn conflicts(s: StrategyView, t: StrategyView, k: int) -> Seq<(usize, usize)>
    decreases k,
{
    if k <= 0 {
        Seq::empty()
    } else {
        let sm = s.moves[k - 1];
        conflicts(s, t, k - 1) + if in_arena(s.arena, sm) {
            conflicts_with(s, t, sm, t.moves.len() as int)
        } else {
            Seq::empty()
        }
    }
}

/// The pair `(sm, tm)` is a conflict: both moves are events of their
/// arenas and share a justifier (a move without one never conflicts).
pub open spec fn same_justifier(s: StrategyView, t: StrategyView, sm: usize, tm: usize) -> bool {
    &&& in_arena(s.arena, sm)
    &&& in_arena(t.arena, tm)
    &&& s.arena.events[sm as int].justifier is Some
    &&& s.arena.events[sm as int].justifier == t.arena.events[tm as int].justifier
}

proof fn lemma_conflicts_with_exact(s: StrategyView, t: StrategyView, sm: usize, q: int)
    requires
        0 <= q <= t.moves.len(),
        in_arena(s.arena, sm),
    ensures
        forall|c: (usize, usize)| #[trigger] conflicts_with(s, t, sm, q).contains(c) <==> (c.0 == sm
            && same_justifier(s, t, sm, c.1) && exists|j: int| 0 <= j < q && t.moves[j] == c.1),
    decreases q,
{
    if q > 0 {
        lemma_conflicts_with_exact(s, t, sm, q - 1);
        let x = conflicts_with(s, t, sm, q - 1);
        let tm = t.moves[q - 1];
        let y: Seq<(usize, usize)> = if same_justifier(s, t, sm, tm) { seq![(sm, tm)] } else { Seq::empty() };
        assert(conflicts_with(s, t, sm, q) == x + y);
        assert forall|c: (usize, usize)| #[trigger] conflicts_with(s, t, sm, q).contains(c) <==> (c.0 == sm
            && same_justifier(s, t, sm, c.1) && exists|j: int| 0 <= j < q && t.moves[j] == c.1) by {
            if (x + y).contains(c) {
                let i = choose|i: int| 0 <= i < (x + y).len() && (x + y)[i] == c;
                if i < x.len() {
                    assert(x[i] == c);
                    assert(x.contains(c));
                } else {
                    assert(y[i - x.len()] == c);
                }
            }
            if c.0 == sm && same_justifier(s, t, sm, c.1) && exists|j: int| 0 <= j < q && t.moves[j] == c.1 {
                let j = choose|j: int| 0 <= j < q && t.moves[j] == c.1;
                if j < q - 1 {
                    assert(x.contains(c));
                    let i = choose|i: int| 0 <= i < x.len() && x[i] == c;
                    assert((x + y)[i] == c);
                } else {
                    assert((x + y)[x.len() as int] == c);
                }
            }
        }
    }
}

/// A pair is reported as a conflict among `sigma`'s first `k` moves exactly
/// when it is a move of `sigma` (among those) and a move of `tau` that are
/// both events of their arenas with the same justifier; moves without a
/// justifier never conflict.
pub proof fn lemma_conflicts_exact(s: StrategyView, t: StrategyView, k: int)
    requires
        0 <= k <= s.moves.len(),
    ensures
        forall|c: (usize, usize)| #[trigger] conflicts(s, t, k).contains(c) <==> ({
            &&& c.0 < s.arena.events.len()
            &&& c.1 < t.arena.events.len()
            &&& s.arena.events[c.0 as int].justifier is Some
            &&& s.arena.events[c.0 as int].justifier == t.arena.events[c.1 as int].justifier
            &&& exists|i: int| 0 <= i < k && s.moves[i] == c.0
            &&& exists|j: int| 0 <= j < t.moves.len() && t.moves[j] == c.1
        }),
    decreases k,
{
    if k > 0 {
        lemma_conflicts_exact(s, t, k - 1);
        let sm = s.moves[k - 1];
        let x = conflicts(s, t, k - 1);
        let y = if in_arena(s.arena, sm) { conflicts_with(s, t, sm, t.moves.len() as int) } else { Seq::empty() };
        assert(conflicts(s, t, k) == x + y);
        if in_arena(s.arena, sm) {
            lemma_conflicts_with_exact(s, t, sm, t.moves.len() as int);
        }
        assert forall|c: (usize, usize)| #[trigger] conflicts(s, t, k).contains(c) <==> (same_justifier(s, t, c.0, c.1)
            && (exists|i: int| 0 <= i < k && s.moves[i] == c.0) && exists|j: int|
            0 <= j < t.moves.len() && t.moves[j] == c.1) by {
            if (x + y).contains(c) {
                let i = choose|i: int| 0 <= i < (x + y).len() && (x + y)[i] == c;
                if i < x.len() {
                    assert(x[i] == c);
                    assert(x.contains(c));
                } else {
                    assert(y[i - x.len()] == c);
                    assert(y.contains(c));
                }
            }
            if same_justifier(s, t, c.0, c.1) && (exists|i: int| 0 <= i < k && s.moves[i] == c.0) && exists|j: int|
                0 <= j < t.moves.len() && t.moves[j] == c.1 {
                let i = choose|i: int| 0 <= i < k && s.moves[i] == c.0;
                if i < k - 1 {
                    assert(x.contains(c));
                    let p = choose|p: int| 0 <= p < x.len() && x[p] == c;
                    assert((x + y)[p] == c);
                } else {
                    assert(y.contains(c));
                    let p = choose|p: int| 0 <= p < y.len() && y[p] == c;
                    assert((x + y)[x.len() + p] == c);
                }
            }
        }
    }
}

/// Pairs of moves, one of each strategy, that answer the same justifier.
pub fn detect_conflicts(sigma: &Strategy, tau: &Strategy) -> (r: Vec<(usize, usize)>)
    ensures
        r@ == conflicts(sigma@, tau@, sigma@.moves.len() as int),
{
    let mut out: Vec<(usize, usize)> = Vec::new();
    let mut i: usize = 0;
    while i < sigma.moves.len()
        invariant
            i <= sigma.moves.len(),
            out@ == conflicts(sigma@, tau@, i as int),
        decreases sigma.moves.len() - i,
    {
        let sm = sigma.moves[i];
        if sm < sigma.arena.events.len() {
            let sj = sigma.arena.events[sm].justifier;
            let ghost base = out@;
            let mut q: usize = 0;
            while q < tau.moves.len()
                invariant
                    q <= tau.moves.len(),
                    sm < sigma@.arena.events.len(),
                    sj == sigma@.arena.events[sm as int].justifier,
                    out@ == base + conflicts_with(sigma@, tau@, sm, q as int),
                decreases tau.moves.len() - q,
            {
                let tm = tau.moves[q];
                if tm < tau.arena.events.len() {
                    let tj = tau.arena.events[tm].justifier;
                    if sj.is_some() && sj == tj {
                        out.push((sm, tm));
                    }
                }
                proof {
                    assert(base + conflicts_with(sigma@, tau@, sm, q + 1) =~= out@);
                }
                q = q + 1;
            }
        }
        proof {
            assert(conflicts(sigma@, tau@, i + 1) =~= out@);
        }
        i = i + 1;
    }
    out
}

} // verus!
