//! Game-semantic conditions on plays: well-bracketing, the P-view,
//! innocence and parallel innocence.
//!
//! Toggling these conditions moves a level through the semantic cube.
use crate::arena::{justifiers_backward, ArenaView, MoveKind, Polarity};
use crate::strategy::{in_arena, Strategy, StrategyView};
use crate::text::{decimal, decimal_text};
use crate::reach::{causal_closure, edge_at, is_path, reaches};
use vstd::multiset::Multiset;
use vstd::relations::{sorted_by, total_ordering};
use vstd::prelude::*;

verus! {

/// Which conditions a level checks.
#[derive(Debug, Clone, Copy, PartialEq, Eq, Structural)]
pub struct ActiveConditions {
    pub well_bracketing: bool,
    pub innocence: bool,
    pub parallel_innocence: bool,
    pub sequentiality: bool,
}

impl Default for ActiveConditions {
    /// No condition active.
    fn default() -> (r: ActiveConditions)
        ensures
            r == (ActiveConditions {
                well_bracketing: false,
                innocence: false,
                parallel_innocence: false,
                sequentiality: false,
            }),
    {
        ActiveConditions {
            well_bracketing: false,
            innocence: false,
            parallel_innocence: false,
            sequentiality: false,
        }
    }
}

/// The outcome of one condition check.
#[derive(Debug, Clone)]
pub struct ConditionResult {
    pub name: &'static str,
    pub satisfied: bool,
    pub detail: String,
}

/// Why a play is not well-bracketed, at the first answer that breaks the
/// stack discipline.
#[derive(Debug, Clone, Copy, PartialEq, Eq, Structural)]
pub enum BracketFailure {
    /// The answer (event, its question) closes a question other than the
    /// most recent open one (the third number).
    WrongQuestion(usize, usize, usize),
    /// The answer (event, its question) comes while no question is open.
    NothingOpen(usize, usize),
    /// The answer (event) has no justifying question.
    Unjustified(usize),
}

impl BracketFailure {
    /// The answer at which the play fails.
    pub open spec fn event(self) -> usize {
        match self {
            BracketFailure::WrongQuestion(m, _, _) => m,
            BracketFailure::NothingOpen(m, _) => m,
            BracketFailure::Unjustified(m) => m,
        }
    }
}

/// The stack of open questions after a play prefix, and the first answer
/// that did not close the most recent open question.
pub struct Bracketing {
    pub open: Seq<usize>,
    pub failure: Option<BracketFailure>,
}

/// Questions are pushed; an answer whose justifier is the top question pops
/// it. An answer that names another question, that comes while nothing is
/// open, or that has no justifier fails. Moves outside the arena change
/// nothing.
pub open spec fn bracketing(a: ArenaView, moves: Seq<usize>, n: int) -> Bracketing
    decreases n,
{
    if n <= 0 {
        Bracketing { open: Seq::empty(), failure: None }
    } else {
        let prev = bracketing(a, moves, n - 1);
        let m = moves[n - 1];
        if prev.failure is Some || !in_arena(a, m) {
            prev
        } else {
            let e = a.events[m as int];
            match e.kind {
                MoveKind::Question => Bracketing { open: prev.open.push(m), failure: None },
                MoveKind::Answer => match e.justifier {
                    Some(j) => if prev.open.len() == 0 {
                        Bracketing { open: prev.open, failure: Some(BracketFailure::NothingOpen(m, j)) }
                    } else if prev.open.last() != j {
                        Bracketing {
                            open: prev.open,
                            failure: Some(BracketFailure::WrongQuestion(m, j, prev.open.last())),
                        }
                    } else {
                        Bracketing { open: prev.open.drop_last(), failure: None }
                    },
                    None => Bracketing { open: prev.open, failure: Some(BracketFailure::Unjustified(m)) },
                },
            }
        }
    }
}

/// The message for a bracketing failure; `label` is the failing answer's.
pub open spec fn bracketing_failure_text(label: Seq<char>, f: BracketFailure) -> Seq<char> {
    match f {
        BracketFailure::WrongQuestion(m, j, top) => "Answer '"@ + label + "' (event "@ + decimal_text(
            m as nat,
        ) + ") answers question "@ + decimal_text(j as nat) + " but most recent open question is "@
            + decimal_text(top as nat),
        BracketFailure::NothingOpen(m, j) => "Answer '"@ + label + "' (event "@ + decimal_text(m as nat)
            + ") answers question "@ + decimal_text(j as nat) + " but no question is open"@,
        BracketFailure::Unjustified(m) => "Answer '"@ + label + "' (event "@ + decimal_text(m as nat)
            + ") answers no question"@,
    }
}

/// Every answer closes the most recent open question (stack discipline on
/// question-answer pairs): an answer to another question, an answer while
/// no question is open and an answer with no question all break it.
pub fn check_well_bracketing(strategy: &Strategy) -> (r: ConditionResult)
    ensures
        condition_view(r) == bracketing_outcome(strategy@),
        r.name@ == "Well-Bracketing"@,
        r.satisfied == (bracketing(strategy@.arena, strategy@.moves, strategy@.moves.len() as int).failure is None),
        r.satisfied ==> r.detail@ == "All answers close the most recent open question"@,
        !r.satisfied ==> ({
            let f = bracketing(strategy@.arena, strategy@.moves, strategy@.moves.len() as int).failure->0;
            r.detail@ == bracketing_failure_text(strategy@.arena.events[f.event() as int].label, f)
        }),
{
    let ghost a = strategy@.arena;
    let ghost moves = strategy@.moves;
    let mut stack: Vec<usize> = Vec::new();
    let mut i: usize = 0;
    let n = strategy.arena.events.len();
    let mut failure: Option<BracketFailure> = None;
    while i < strategy.moves.len()
        invariant_except_break
            failure is None,
        invariant
            i <= strategy.moves.len(),
            a == strategy@.arena,
            moves == strategy@.moves,
            n == a.events.len(),
            failure is None ==> bracketing(a, moves, i as int) == (Bracketing {
                open: stack@,
                failure: None,
            }),
        ensures
            failure is None ==> i == moves.len(),
            failure matches Some(f) ==> f.event() < n,
            bracketing(a, moves, moves.len() as int).failure == failure,
            failure is None ==> bracketing(a, moves, moves.len() as int).open == stack@,
        decreases strategy.moves.len() - i,
    {
        let m = strategy.moves[i];
        if m < n {
            let event = &strategy.arena.events[m];
            match event.kind {
                MoveKind::Question => {
                    stack.push(m);
                },
                MoveKind::Answer => {
                    match event.justifier {
                        Some(j) => {
                            if stack.len() == 0 {
                                failure = Some(BracketFailure::NothingOpen(m, j));
                            } else {
                                let top = stack[stack.len() - 1];
                                if top != j {
                                    failure = Some(BracketFailure::WrongQuestion(m, j, top));
                                } else {
                                    stack.pop();
                                }
                            }
                        },
                        None => {
                            failure = Some(BracketFailure::Unjustified(m));
                        },
                    }
                    if failure.is_some() {
                        proof {
                            lemma_bracketing_failure_stays(a, moves, i + 1);
                        }
                        break;
                    }
                },
            }
        }
        i = i + 1;
    }
    match failure {
        None => ConditionResult {
            name: "Well-Bracketing",
            satisfied: true,
            detail: "All answers close the most recent open question".to_owned(),
        },
        Some(f) => {
            let m = match f {
                BracketFailure::WrongQuestion(m, _, _) => m,
                BracketFailure::NothingOpen(m, _) => m,
                BracketFailure::Unjustified(m) => m,
            };
            let mut detail = "Answer '".to_owned();
            detail.append(strategy.arena.events[m].label.as_str());
            detail.append("' (event ");
            detail.append(decimal(m).as_str());
            match f {
                BracketFailure::WrongQuestion(_, j, top) => {
                    detail.append(") answers question ");
                    detail.append(decimal(j).as_str());
                    detail.append(" but most recent open question is ");
                    detail.append(decimal(top).as_str());
                },
                BracketFailure::NothingOpen(_, j) => {
                    detail.append(") answers question ");
                    detail.append(decimal(j).as_str());
                    detail.append(" but no question is open");
                },
                BracketFailure::Unjustified(_) => {
                    detail.append(") answers no question");
                },
            }
            ConditionResult { name: "Well-Bracketing", satisfied: false, detail }
        },
    }
}

/// The bracketing of the first `n` moves depends on those moves alone.
proof fn lemma_bracketing_prefix(a: ArenaView, m1: Seq<usize>, m2: Seq<usize>, n: int)
    requires
        0 <= n <= m1.len(),
        n <= m2.len(),
        forall|k: int| 0 <= k < n ==> m1[k] == m2[k],
    ensures
        bracketing(a, m1, n) == bracketing(a, m2, n),
    decreases n,
{
    if n > 0 {
        lemma_bracketing_prefix(a, m1, m2, n - 1);
    }
}

/// A question followed at once by its answer leaves the bracketing as it
/// was: the answer closes the question just opened, and the questions open
/// before are open again, unchanged. So nested plays such as `q1 q2 a2 a1`
/// stay well-bracketed, and the answered question is no longer open.
pub proof fn lemma_question_answer_cancel(a: ArenaView, moves: Seq<usize>, q: usize, ans: usize)
    requires
        q < a.events.len(),
        ans < a.events.len(),
        a.events[q as int].kind == MoveKind::Question,
        a.events[ans as int].kind == MoveKind::Answer,
        a.events[ans as int].justifier == Some(q),
        bracketing(a, moves, moves.len() as int).failure is None,
    ensures
        bracketing(a, moves.push(q).push(ans), moves.len() + 2 as int) == bracketing(a, moves, moves.len() as int),
        bracketing(a, moves.push(q), moves.len() + 1 as int).open == bracketing(a, moves, moves.len() as int).open.push(q),
{
    let n = moves.len() as int;
    let m2 = moves.push(q).push(ans);
    lemma_bracketing_prefix(a, moves, m2, n);
    lemma_bracketing_prefix(a, moves.push(q), m2, n + 1);
    lemma_bracketing_prefix(a, moves, moves.push(q), n);
    let before = bracketing(a, moves, n);
    assert(m2[n] == q && m2[n + 1] == ans);
    assert(bracketing(a, m2, n + 1).open == before.open.push(q));
    assert(before.open.push(q).drop_last() =~= before.open);
}

/// Answering the most recent open question closes it: after that answer
/// the open questions are those before it without the one answered, and
/// the play is still well-bracketed.
pub proof fn lemma_answer_closes_top(a: ArenaView, moves: Seq<usize>, ans: usize)
    requires
        ans < a.events.len(),
        a.events[ans as int].kind == MoveKind::Answer,
        bracketing(a, moves, moves.len() as int).failure is None,
        bracketing(a, moves, moves.len() as int).open.len() > 0,
        a.events[ans as int].justifier == Some(bracketing(a, moves, moves.len() as int).open.last()),
    ensures
        bracketing(a, moves.push(ans), moves.len() + 1 as int).failure is None,
        bracketing(a, moves.push(ans), moves.len() + 1 as int).open + seq![bracketing(a, moves, moves.len() as int).open.last()]
            == bracketing(a, moves, moves.len() as int).open,
{
    let n = moves.len() as int;
    lemma_bracketing_prefix(a, moves, moves.push(ans), n);
    let before = bracketing(a, moves, n);
    assert(moves.push(ans)[n] == ans);
    assert(before.open.drop_last() + seq![before.open.last()] =~= before.open);
}

/// Once the bracketing check has failed on a prefix, it keeps the same
/// failure on every longer prefix.
pub proof fn lemma_bracketing_failure_stays(a: ArenaView, moves: Seq<usize>, n: int)
    requires
        0 <= n <= moves.len(),
    ensures
        bracketing(a, moves, n).failure is Some ==> bracketing(a, moves, moves.len() as int)
            == bracketing(a, moves, n),
    decreases moves.len() - n,
{
    if n < moves.len() {
        lemma_bracketing_failure_stays(a, moves, n + 1);
    }
}

/// `r` ranks the events so that every justifier inside the arena ranks
/// below the event it justifies: the justifier relation has no cycle.
pub open spec fn is_rank(a: ArenaView, r: Seq<nat>) -> bool {
    &&& r.len() == a.events.len()
    &&& forall|e: int|
        0 <= e < a.events.len() && #[trigger] a.events[e].justifier is Some
            && a.events[e].justifier->0 < a.events.len() ==> r[a.events[e].justifier->0 as int]
            < r[e]
}

/// Following justifiers from any event of the arena ends: no event is,
/// directly or through others, its own justifier.
pub open spec fn acyclic_justifiers(a: ArenaView) -> bool {
    exists|r: Seq<nat>| is_rank(a, r)
}

/// Justifiers that always point to an earlier event cannot form a cycle:
/// the positions themselves rank the events.
pub proof fn lemma_backward_acyclic(a: ArenaView)
    requires
        justifiers_backward(a),
    ensures
        acyclic_justifiers(a),
{
    let r = Seq::new(a.events.len(), |i: int| i as nat);
    assert(is_rank(a, r));
}

/// The position of the first `x` in `p` at or after `k`, or -1.
pub open spec fn index_from(p: Seq<usize>, x: usize, k: int) -> int
    decreases p.len() - k,
{
    if k < 0 || k >= p.len() {
        -1
    } else if p[k] == x {
        k
    } else {
        index_from(p, x, k + 1)
    }
}

/// The position of the first `x` in `p`, or -1.
pub open spec fn first_index(p: Seq<usize>, x: usize) -> int {
    index_from(p, x, 0)
}

/// The search from `k` finds the first `x` at or after `k`, or reports
/// that none is there.
pub proof fn lemma_index_from(p: Seq<usize>, x: usize, k: int)
    requires
        0 <= k,
    ensures
        index_from(p, x, k) == -1 || (k <= index_from(p, x, k) < p.len() && p[index_from(p, x, k)]
            == x && forall|q: int| k <= q < index_from(p, x, k) ==> p[q] != x),
        index_from(p, x, k) == -1 ==> forall|q: int| k <= q < p.len() ==> p[q] != x,
    decreases p.len() - k,
{
    if k < p.len() && p[k] != x {
        lemma_index_from(p, x, k + 1);
    }
}

/// The measure that decreases along justifiers under the rank `r`.
pub open spec fn walk_measure(a: ArenaView, r: Seq<nat>, e: usize) -> nat {
    if e < a.events.len() {
        r[e as int] + 1
    } else {
        0
    }
}

/// The position the justifier walk in the prefix `p` moves to from `idx`:
/// the first position of the justifier of the move at `idx`. `None` where
/// the walk stops there: at a move outside the arena, at a move without a
/// justifier, at a justifier that `p` lacks, and at a justifier at position
/// 0.
pub open spec fn next_walk_pos(a: ArenaView, p: Seq<usize>, idx: int) -> Option<int> {
    let e = p[idx];
    if !in_arena(a, e) {
        None
    } else {
        match a.events[e as int].justifier {
            None => None,
            Some(j) => {
                let pos = first_index(p, j);
                if pos <= 0 {
                    None
                } else {
                    Some(pos)
                }
            },
        }
    }
}

/// The walk from `idx` stops within `fuel` steps.
pub open spec fn walk_ends(a: ArenaView, p: Seq<usize>, idx: int, fuel: nat) -> bool
    decreases fuel,
{
    fuel > 0 && match next_walk_pos(a, p, idx) {
        None => true,
        Some(k) => walk_ends(a, p, k, (fuel - 1) as nat),
    }
}

/// The walk from `idx` stops: following justifiers from there does not
/// come back to a position it has left.
pub open spec fn walk_terminates(a: ArenaView, p: Seq<usize>, idx: int) -> bool {
    exists|fuel: nat| walk_ends(a, p, idx, fuel)
}

/// Every P-view of the play can be computed: the justifier walk from each
/// move, in the play up to that move, stops.
pub open spec fn play_walks_end(a: ArenaView, moves: Seq<usize>) -> bool {
    forall|i: int| 0 <= i < moves.len() ==> #[trigger] walk_terminates(a, moves.take(i + 1), i)
}

/// From position `idx` of the prefix `p`, the moves met when following
/// justifiers back through their first positions in `p`, for at most
/// `fuel` steps. The walk stops at a move outside the arena, at an initial
/// move, at a justifier that `p` lacks, and after reaching position 0
/// (which is then listed again).
pub open spec fn walk(a: ArenaView, p: Seq<usize>, idx: int, fuel: nat) -> Seq<usize>
    decreases fuel,
{
    let e = p[idx];
    if fuel == 0 || !in_arena(a, e) {
        seq![e]
    } else {
        match a.events[e as int].justifier {
            None => seq![e],
            Some(j) => {
                let pos = first_index(p, j);
                if pos < 0 {
                    seq![e]
                } else if pos == 0 {
                    seq![e, p[0]]
                } else {
                    seq![e] + walk(a, p, pos, (fuel - 1) as nat)
                }
            },
        }
    }
}

/// Once the walk stops within `n` steps, more fuel changes nothing: it
/// still stops, and meets the same moves.
pub proof fn lemma_walk_fuel(a: ArenaView, p: Seq<usize>, idx: int, n: nat, m: nat)
    requires
        walk_ends(a, p, idx, n),
        n <= m,
    ensures
        walk_ends(a, p, idx, m),
        walk(a, p, idx, n) == walk(a, p, idx, m),
    decreases n,
{
    match next_walk_pos(a, p, idx) {
        None => {},
        Some(k) => {
            lemma_walk_fuel(a, p, k, (n - 1) as nat, (m - 1) as nat);
        },
    }
}

/// Under a rank, the walk from any position of `p` stops within the rank
/// of its move plus two steps.
proof fn lemma_rank_walk_ends(a: ArenaView, r: Seq<nat>, p: Seq<usize>, idx: int)
    requires
        is_rank(a, r),
        0 <= idx < p.len(),
    ensures
        walk_ends(a, p, idx, walk_measure(a, r, p[idx]) + 1),
    decreases walk_measure(a, r, p[idx]),
{
    let e = p[idx];
    if in_arena(a, e) {
        match a.events[e as int].justifier {
            None => {},
            Some(j) => {
                lemma_index_from(p, j, 0);
                let pos = first_index(p, j);
                if pos > 0 {
                    assert(p[pos] == j);
                    if j < a.events.len() {
                        lemma_rank_walk_ends(a, r, p, pos);
                        lemma_walk_fuel(a, p, pos, walk_measure(a, r, j) + 1, walk_measure(a, r, e));
                    } else {
                        assert(walk_ends(a, p, pos, 1));
                        lemma_walk_fuel(a, p, pos, 1, walk_measure(a, r, e));
                    }
                }
            },
        }
    }
}

/// In an arena whose justifiers have no cycle, every P-view of every play
/// can be computed.
pub proof fn lemma_acyclic_walks_end(a: ArenaView, moves: Seq<usize>)
    requires
        acyclic_justifiers(a),
    ensures
        play_walks_end(a, moves),
{
    let r = choose|r: Seq<nat>| is_rank(a, r);
    assert forall|i: int| 0 <= i < moves.len() implies #[trigger] walk_terminates(a, moves.take(i + 1), i) by {
        let p = moves.take(i + 1);
        lemma_rank_walk_ends(a, r, p, i);
    }
}

/// The P-view after the moves `0..=i`: the justifier walk from move `i`,
/// oldest move first.
pub open spec fn p_view_at(a: ArenaView, moves: Seq<usize>, i: int) -> Seq<usize> {
    let p = moves.take(i + 1);
    walk(a, p, i, choose|fuel: nat| walk_ends(a, p, i, fuel)).reverse()
}

/// The P-view (Player's visible history) after each move of the play.
pub fn compute_p_view(strategy: &Strategy) -> (views: Vec<Vec<usize>>)
    requires
        play_walks_end(strategy@.arena, strategy@.moves),
    ensures
        views@.len() == strategy@.moves.len(),
        forall|i: int|
            0 <= i < views@.len() ==> #[trigger] views@[i]@ == p_view_at(
                strategy@.arena,
                strategy@.moves,
                i,
            ),
{
    let mut views: Vec<Vec<usize>> = Vec::new();
    let mut i: usize = 0;
    while i < strategy.moves.len()
        invariant
            i <= strategy.moves.len(),
            play_walks_end(strategy@.arena, strategy@.moves),
            views@.len() == i,
            forall|k: int|
                0 <= k < i ==> #[trigger] views@[k]@ == p_view_at(
                    strategy@.arena,
                    strategy@.moves,
                    k,
                ),
        decreases strategy.moves.len() - i,
    {
        let v = p_view_of_prefix(strategy, i);
        views.push(v);
        i = i + 1;
    }
    views
}

/// The P-view after the moves `0..=i`.
fn p_view_of_prefix(strategy: &Strategy, i: usize) -> (v: Vec<usize>)
    requires
        i < strategy@.moves.len(),
        walk_terminates(strategy@.arena, strategy@.moves.take(i + 1), i as int),
    ensures
        v@ == p_view_at(strategy@.arena, strategy@.moves, i as int),
{
    let ghost a = strategy@.arena;
    let ghost p = strategy@.moves.take(i + 1);
    let ghost n0: nat = choose|fuel: nat| walk_ends(a, p, i as int, fuel);
    let ghost mut fuel: nat = n0;
    let n = strategy.arena.events.len();
    let total = strategy.moves.len();
    let plen: usize = i + 1;
    let mut walked: Vec<usize> = Vec::new();
    let mut idx: usize = i;
    loop
        invariant_except_break
            idx <= i,
            walk_ends(a, p, idx as int, fuel),
            walked@ + walk(a, p, idx as int, fuel) == walk(a, p, i as int, n0),
        invariant
            i < strategy@.moves.len(),
            a == strategy@.arena,
            n == a.events.len(),
            p == strategy@.moves.take(i + 1),
            plen == i + 1,
        ensures
            walked@ == walk(a, p, i as int, n0),
        decreases fuel,
    {
        let event_id = strategy.moves[idx];
        walked.push(event_id);
        if event_id >= n {
            break;
        }
        match strategy.arena.events[event_id].justifier {
            None => {
                break;
            },
            Some(j) => {
                let pos = position_in(&strategy.moves, plen, j);
                proof {
                    lemma_index_from(p, j, 0);
                }
                match pos {
                    None => {
                        break;
                    },
                    Some(pos) => {
                        if pos == 0 {
                            walked.push(strategy.moves[0]);
                            break;
                        }
                        idx = pos;
                        proof {
                            fuel = (fuel - 1) as nat;
                        }
                    },
                }
            },
        }
    }
    let mut v: Vec<usize> = Vec::new();
    let mut k: usize = walked.len();
    while k > 0
        invariant
            k <= walked@.len(),
            v@ == walked@.reverse().take(walked@.len() - k),
        decreases k,
    {
        k = k - 1;
        v.push(walked[k]);
        assert(walked@.reverse().take(walked@.len() - k) =~= walked@.reverse().take(
            walked@.len() - k - 1,
        ).push(walked@[k as int]));
    }
    assert(walked@.reverse().take(walked@.len() as int) =~= walked@.reverse());
    v
}

/// The position of the first `x` among `moves[0..len]`.
fn position_in(moves: &Vec<usize>, len: usize, x: usize) -> (r: Option<usize>)
    requires
        len <= moves.len(),
    ensures
        match r {
            Some(k) => k as int == first_index(moves@.take(len as int), x),
            None => first_index(moves@.take(len as int), x) == -1,
        },
{
    let ghost p = moves@.take(len as int);
    let mut k: usize = 0;
    while k < len
        invariant
            k <= len <= moves.len(),
            p == moves@.take(len as int),
            index_from(p, x, k as int) == first_index(p, x),
        decreases len - k,
    {
        if moves[k] == x {
            return Some(k);
        }
        k = k + 1;
    }
    None
}

/// Position `i` holds a Player move of the arena.
pub open spec fn player_at(a: ArenaView, moves: Seq<usize>, i: int) -> bool {
    in_arena(a, moves[i]) && a.events[moves[i] as int].polarity == Polarity::Player
}

/// Positions `k < i` both hold Player moves with equal keys but different
/// moves: the response at `i` is not determined by its key.
pub open spec fn clash<K>(keys: Seq<K>, moves: Seq<usize>, act: Seq<bool>, k: int, i: int) -> bool {
    &&& 0 <= k < i < moves.len()
    &&& act[k]
    &&& act[i]
    &&& keys[k] == keys[i]
    &&& moves[k] != moves[i]
}

/// No clash among the positions `0..n`.
pub open spec fn consistent_upto<K>(keys: Seq<K>, moves: Seq<usize>, act: Seq<bool>, n: int) -> bool {
    forall|k: int, i: int| i < n ==> !#[trigger] clash(keys, moves, act, k, i)
}

/// `prev` and `m` are the moves of the first clash: position `i` clashes
/// with an earlier `k`, and no pair before `i` does.
pub open spec fn first_clash<K>(keys: Seq<K>, moves: Seq<usize>, act: Seq<bool>, prev: usize, m: usize) -> bool {
    exists|k: int, i: int|
        #[trigger] clash(keys, moves, act, k, i) && consistent_upto(keys, moves, act, i)
            && moves[k] == prev && moves[i] == m
}

/// Which positions hold Player moves of the arena.
pub open spec fn player_flags(a: ArenaView, moves: Seq<usize>) -> Seq<bool> {
    Seq::new(moves.len(), |i: int| player_at(a, moves, i))
}

/// The P-view that precedes each position (empty before the first move).
pub open spec fn innocence_keys(a: ArenaView, moves: Seq<usize>) -> Seq<Seq<usize>> {
    Seq::new(
        moves.len(),
        |i: int|
            if i > 0 {
                p_view_at(a, moves, i - 1)
            } else {
                Seq::empty()
            },
    )
}

/// The message for two Player responses to one P-view.
pub open spec fn innocence_failure_text(prev: usize, m: usize) -> Seq<char> {
    "Same P-view leads to different Player moves: "@ + decimal_text(prev as nat) + " and "@
        + decimal_text(m as nat)
}

/// Entry `t` of the table records the key and move of the Player position `k`.
pub open spec fn records<K>(table: Seq<(K, usize)>, keys: Seq<K>, moves: Seq<usize>, act: Seq<bool>, t: int, k: int) -> bool {
    act[k] && keys[k] == table[t].0 && moves[k] == table[t].1
}

/// Entry `t` of the table was made at position `w[t]`, a Player position
/// before `i`, and records it.
pub open spec fn table_sound<K>(table: Seq<(K, usize)>, w: Seq<int>, keys: Seq<K>, moves: Seq<usize>, act: Seq<bool>, i: int) -> bool {
    &&& w.len() == table.len()
    &&& forall|t: int|
        0 <= t < table.len() ==> 0 <= #[trigger] w[t] < i && records(table, keys, moves, act, t, w[t])
}

/// The key of every Player position `k` before `i` is that of entry `slot[k]`.
pub open spec fn table_complete<K>(table: Seq<(K, usize)>, slot: Seq<int>, keys: Seq<K>, act: Seq<bool>, i: int) -> bool {
    &&& slot.len() == i
    &&& forall|k: int|
        0 <= k < i && act[k] ==> 0 <= #[trigger] slot[k] < table.len() && table[slot[k]].0 == keys[k]
}

/// The table in which each key is listed by its move list.
pub open spec fn seq_table(table: Seq<(Vec<usize>, usize)>) -> Seq<(Seq<usize>, usize)> {
    Seq::new(table.len(), |t: int| (table[t].0@, table[t].1))
}

proof fn lemma_skip_position<K>(keys: Seq<K>, moves: Seq<usize>, act: Seq<bool>, i: int)
    requires
        0 <= i < moves.len(),
        consistent_upto(keys, moves, act, i),
        !act[i],
    ensures
        consistent_upto(keys, moves, act, i + 1),
{
}

proof fn lemma_same_response<K>(table: Seq<(K, usize)>, w: Seq<int>, keys: Seq<K>, moves: Seq<usize>, act: Seq<bool>, i: int, t: int)
    requires
        0 <= i < moves.len(),
        consistent_upto(keys, moves, act, i),
        table_sound(table, w, keys, moves, act, i),
        0 <= t < table.len(),
        table[t].0 == keys[i],
        table[t].1 == moves[i],
    ensures
        consistent_upto(keys, moves, act, i + 1),
{
    let k0 = w[t];
    assert(records(table, keys, moves, act, t, k0));
    assert forall|k: int, q: int| q < i + 1 implies !#[trigger] clash(keys, moves, act, k, q) by {
        if q == i && clash(keys, moves, act, k, q) {
            assert(!clash(keys, moves, act, k0, k) && !clash(keys, moves, act, k, k0));
        }
    }
}

proof fn lemma_new_key<K>(table: Seq<(K, usize)>, slot: Seq<int>, keys: Seq<K>, moves: Seq<usize>, act: Seq<bool>, i: int)
    requires
        0 <= i < moves.len(),
        consistent_upto(keys, moves, act, i),
        table_complete(table, slot, keys, act, i),
        forall|t: int| 0 <= t < table.len() ==> #[trigger] table[t].0 != keys[i],
    ensures
        consistent_upto(keys, moves, act, i + 1),
{
    assert forall|k: int, q: int| q < i + 1 implies !#[trigger] clash(keys, moves, act, k, q) by {
        if q == i && clash(keys, moves, act, k, q) {
            assert(act[k]);
            assert(table[slot[k]].0 == keys[k]);
        }
    }
}

proof fn lemma_found_clash<K>(table: Seq<(K, usize)>, w: Seq<int>, keys: Seq<K>, moves: Seq<usize>, act: Seq<bool>, i: int, t: int)
    requires
        0 <= i < moves.len(),
        act[i],
        consistent_upto(keys, moves, act, i),
        table_sound(table, w, keys, moves, act, i),
        0 <= t < table.len(),
        table[t].0 == keys[i],
        table[t].1 != moves[i],
    ensures
        first_clash(keys, moves, act, table[t].1, moves[i]),
        !consistent_upto(keys, moves, act, moves.len() as int),
{
    let k = w[t];
    assert(records(table, keys, moves, act, t, k));
    assert(clash(keys, moves, act, k, i));
}

/// There is only one first clash, so its two moves are determined.
pub proof fn lemma_first_clash_unique<K>(keys: Seq<K>, moves: Seq<usize>, act: Seq<bool>, p1: usize, m1: usize, p2: usize, m2: usize)
    requires
        first_clash(keys, moves, act, p1, m1),
        first_clash(keys, moves, act, p2, m2),
    ensures
        p1 == p2 && m1 == m2,
{
    let (k1, i1) = choose|k: int, i: int|
        #[trigger] clash(keys, moves, act, k, i) && consistent_upto(keys, moves, act, i)
            && moves[k] == p1 && moves[i] == m1;
    let (k2, i2) = choose|k: int, i: int|
        #[trigger] clash(keys, moves, act, k, i) && consistent_upto(keys, moves, act, i)
            && moves[k] == p2 && moves[i] == m2;
    if i1 < i2 {
        assert(!clash(keys, moves, act, k1, i1));
    } else if i2 < i1 {
        assert(!clash(keys, moves, act, k2, i2));
    } else {
        if k1 < k2 {
            assert(!clash(keys, moves, act, k1, k2));
        } else if k2 < k1 {
            assert(!clash(keys, moves, act, k2, k1));
        }
    }
}

/// The name, verdict and message of a check: the observable part of a
/// `ConditionResult`.
pub open spec fn condition_view(r: ConditionResult) -> (Seq<char>, bool, Seq<char>) {
    (r.name@, r.satisfied, r.detail@)
}

/// What the well-bracketing check reports on a play.
pub open spec fn bracketing_outcome(s: StrategyView) -> (Seq<char>, bool, Seq<char>) {
    let b = bracketing(s.arena, s.moves, s.moves.len() as int);
    match b.failure {
        None => ("Well-Bracketing"@, true, "All answers close the most recent open question"@),
        Some(f) => ("Well-Bracketing"@, false, bracketing_failure_text(s.arena.events[f.event() as int].label, f)),
    }
}

/// What a response-consistency check reports, given its name, keys and
/// messages.
pub open spec fn clash_outcome<K>(name: Seq<char>, ok: Seq<char>, prefix: Seq<char>, keys: Seq<K>, moves: Seq<usize>, act: Seq<bool>) -> (Seq<char>, bool, Seq<char>) {
    if consistent_upto(keys, moves, act, moves.len() as int) {
        (name, true, ok)
    } else {
        let pm = choose|pm: (usize, usize)| first_clash(keys, moves, act, pm.0, pm.1);
        (name, false, prefix + decimal_text(pm.0 as nat) + " and "@ + decimal_text(pm.1 as nat))
    }
}

/// What the innocence check reports on a play.
pub open spec fn innocence_outcome(s: StrategyView) -> (Seq<char>, bool, Seq<char>) {
    clash_outcome(
        "Innocence"@,
        "Player moves depend only on visible history"@,
        "Same P-view leads to different Player moves: "@,
        innocence_keys(s.arena, s.moves),
        s.moves,
        player_flags(s.arena, s.moves),
    )
}

/// What the parallel-innocence check reports on a play.
pub open spec fn parallel_outcome(s: StrategyView) -> (Seq<char>, bool, Seq<char>) {
    clash_outcome(
        "Parallel Innocence"@,
        "Player moves depend only on causal history"@,
        "Same causal history leads to different moves: "@,
        parallel_keys(s.arena, s.moves),
        s.moves,
        player_flags(s.arena, s.moves),
    )
}

proof fn lemma_clash_outcome<K>(name: Seq<char>, ok: Seq<char>, prefix: Seq<char>, keys: Seq<K>, moves: Seq<usize>, act: Seq<bool>, prev: usize, m: usize)
    requires
        first_clash(keys, moves, act, prev, m),
    ensures
        clash_outcome(name, ok, prefix, keys, moves, act) == (name, false, prefix + decimal_text(prev as nat) + " and "@ + decimal_text(m as nat)),
{
    let (k, i) = choose|k: int, i: int|
        #[trigger] clash(keys, moves, act, k, i) && consistent_upto(keys, moves, act, i)
            && moves[k] == prev && moves[i] == m;
    assert(!consistent_upto(keys, moves, act, moves.len() as int));
    let pm = choose|pm: (usize, usize)| first_clash(keys, moves, act, pm.0, pm.1);
    assert(first_clash(keys, moves, act, (prev, m).0, (prev, m).1));
    lemma_first_clash_unique(keys, moves, act, pm.0, pm.1, prev, m);
}

/// Innocence: two positions with the same preceding P-view get the same
/// Player move.
pub fn check_innocence(strategy: &Strategy) -> (r: ConditionResult)
    requires
        play_walks_end(strategy@.arena, strategy@.moves),
    ensures
        condition_view(r) == innocence_outcome(strategy@),
        r.name@ == "Innocence"@,
        r.satisfied == consistent_upto(
            innocence_keys(strategy@.arena, strategy@.moves),
            strategy@.moves,
            player_flags(strategy@.arena, strategy@.moves),
            strategy@.moves.len() as int,
        ),
        r.satisfied ==> r.detail@ == "Player moves depend only on visible history"@,
        !r.satisfied ==> exists|prev: usize, m: usize|
            first_clash(
                innocence_keys(strategy@.arena, strategy@.moves),
                strategy@.moves,
                player_flags(strategy@.arena, strategy@.moves),
                prev,
                m,
            ) && r.detail@ == innocence_failure_text(prev, m),
{
    let views = compute_p_view(strategy);
    let ghost a = strategy@.arena;
    let ghost moves = strategy@.moves;
    let ghost keys = innocence_keys(a, moves);
    let ghost act = player_flags(a, moves);
    let n = strategy.arena.events.len();
    let mut table: Vec<(Vec<usize>, usize)> = Vec::new();
    let ghost mut w: Seq<int> = Seq::empty();
    let ghost mut slot: Seq<int> = Seq::empty();
    let mut i: usize = 0;
    while i < strategy.moves.len()
        invariant
            i <= strategy.moves.len(),
            a == strategy@.arena,
            moves == strategy@.moves,
            n == a.events.len(),
            keys == innocence_keys(a, moves),
            act == player_flags(a, moves),
            views@.len() == moves.len(),
            forall|q: int| 0 <= q < views@.len() ==> #[trigger] views@[q]@ == p_view_at(a, moves, q),
            consistent_upto(keys, moves, act, i as int),
            table_sound(seq_table(table@), w, keys, moves, act, i as int),
            table_complete(seq_table(table@), slot, keys, act, i as int),
        decreases strategy.moves.len() - i,
    {
        let m = strategy.moves[i];
        if m < n && strategy.arena.events[m].polarity == Polarity::Player {
            assert(act[i as int]);
            let empty: Vec<usize> = Vec::new();
            let view: &Vec<usize> = if i > 0 {
                &views[i - 1]
            } else {
                &empty
            };
            assert(view@ == keys[i as int]);
            let found = lookup(&table, view);
            match found {
                Some(t) => {
                    let prev = table[t].1;
                    if prev != m {
                        proof {
                            lemma_found_clash(seq_table(table@), w, keys, moves, act, i as int, t as int);
                        }
                        let mut detail = "Same P-view leads to different Player moves: ".to_owned();
                        detail.append(decimal(prev).as_str());
                        detail.append(" and ");
                        detail.append(decimal(m).as_str());
                        assert(first_clash(keys, moves, act, prev, m) && detail@
                            == innocence_failure_text(prev, m));
                        proof {
                            lemma_clash_outcome(
                                "Innocence"@,
                                "Player moves depend only on visible history"@,
                                "Same P-view leads to different Player moves: "@,
                                keys, moves, act, prev, m,
                            );
                        }
                        return ConditionResult { name: "Innocence", satisfied: false, detail };
                    }
                    proof {
                        lemma_same_response(seq_table(table@), w, keys, moves, act, i as int, t as int);
                        slot = slot.push(t as int);
                    }
                },
                None => {
                    proof {
                        lemma_new_key(seq_table(table@), slot, keys, moves, act, i as int);
                    }
                    let key = copy_moves(view);
                    let ghost before = table@;
                    table.push((key, m));
                    proof {
                        assert(seq_table(table@) =~= seq_table(before).push((keys[i as int], m)));
                        w = w.push(i as int);
                        slot = slot.push(before.len() as int);
                    }
                },
            }
        } else {
            proof {
                lemma_skip_position(keys, moves, act, i as int);
                slot = slot.push(0);
            }
        }
        i = i + 1;
    }
    ConditionResult {
        name: "Innocence",
        satisfied: true,
        detail: "Player moves depend only on visible history".to_owned(),
    }
}


/// The position of the entry for `key`, if the table has one.
fn lookup(table: &Vec<(Vec<usize>, usize)>, key: &Vec<usize>) -> (r: Option<usize>)
    ensures
        match r {
            Some(t) => t < table@.len() && table@[t as int].0@ == key@,
            None => forall|t: int| 0 <= t < table@.len() ==> #[trigger] seq_table(table@)[t].0 != key@,
        },
{
    let mut t: usize = 0;
    while t < table.len()
        invariant
            t <= table.len(),
            forall|q: int| 0 <= q < t ==> #[trigger] seq_table(table@)[q].0 != key@,
        decreases table.len() - t,
    {
        if same_moves(&table[t].0, key) {
            return Some(t);
        }
        t = t + 1;
    }
    None
}

/// Whether two move lists are equal.
pub fn same_moves(x: &Vec<usize>, y: &Vec<usize>) -> (r: bool)
    ensures
        r == (x@ == y@),
{
    if x.len() != y.len() {
        return false;
    }
    let mut i: usize = 0;
    while i < x.len()
        invariant
            i <= x.len() == y.len(),
            forall|q: int| 0 <= q < i ==> x@[q] == y@[q],
        decreases x.len() - i,
    {
        if x[i] != y[i] {
            return false;
        }
        i = i + 1;
    }
    assert(x@ =~= y@);
    true
}

/// A copy of a move list.
pub fn copy_moves(x: &Vec<usize>) -> (r: Vec<usize>)
    ensures
        r@ == x@,
{
    let mut r: Vec<usize> = Vec::new();
    let mut i: usize = 0;
    while i < x.len()
        invariant
            i <= x.len(),
            r@ == x@.take(i as int),
        decreases x.len() - i,
    {
        r.push(x[i]);
        assert(x@.take(i + 1) =~= x@.take(i as int).push(x@[i as int]));
        i = i + 1;
    }
    assert(x@.take(i as int) =~= x@);
    r
}

/// The moves among positions `0..k` that lie in the arena and are `m`
/// itself or reach `m` through enabling edges, in play order.
pub open spec fn causal_upto(a: ArenaView, moves: Seq<usize>, m: usize, k: int) -> Seq<usize>
    decreases k,
{
    if k <= 0 {
        Seq::empty()
    } else {
        let prev = moves[k - 1];
        causal_upto(a, moves, m, k - 1) + if in_arena(a, prev) && (reaches(a, prev, m) || prev
            == m) {
            seq![prev]
        } else {
            Seq::empty()
        }
    }
}

/// The causal history of each position, as a multiset: the earlier moves
/// that are the same event or causally before it, in any order.
pub open spec fn parallel_keys(a: ArenaView, moves: Seq<usize>) -> Seq<Multiset<usize>> {
    Seq::new(moves.len(), |i: int| causal_upto(a, moves, moves[i], i).to_multiset())
}

proof fn lemma_causal_upto_exact(a: ArenaView, moves: Seq<usize>, m: usize, k: int)
    requires
        0 <= k <= moves.len(),
    ensures
        forall|x: usize| #[trigger] causal_upto(a, moves, m, k).contains(x) <==> (x < a.events.len() && (x == m
            || reaches(a, x, m)) && exists|j: int| 0 <= j < k && moves[j] == x),
    decreases k,
{
    if k > 0 {
        lemma_causal_upto_exact(a, moves, m, k - 1);
        let prev = moves[k - 1];
        let x0 = causal_upto(a, moves, m, k - 1);
        let y: Seq<usize> = if in_arena(a, prev) && (reaches(a, prev, m) || prev == m) { seq![prev] } else { Seq::empty() };
        assert(causal_upto(a, moves, m, k) == x0 + y);
        assert forall|x: usize| #[trigger] causal_upto(a, moves, m, k).contains(x) <==> (x < a.events.len() && (x == m
            || reaches(a, x, m)) && exists|j: int| 0 <= j < k && moves[j] == x) by {
            if (x0 + y).contains(x) {
                let i = choose|i: int| 0 <= i < (x0 + y).len() && (x0 + y)[i] == x;
                if i < x0.len() {
                    assert(x0[i] == x);
                    assert(x0.contains(x));
                } else {
                    assert(y[i - x0.len()] == x);
                }
            }
            if x < a.events.len() && (x == m || reaches(a, x, m)) && exists|j: int| 0 <= j < k && moves[j] == x {
                let j = choose|j: int| 0 <= j < k && moves[j] == x;
                if j < k - 1 {
                    assert(x0.contains(x));
                    let i = choose|i: int| 0 <= i < x0.len() && x0[i] == x;
                    assert((x0 + y)[i] == x);
                } else {
                    assert((x0 + y)[x0.len() as int] == x);
                }
            }
        }
    }
}

/// The causal history of the move at position `i`, the key of the parallel
/// innocence check, holds exactly the earlier moves (positions below `i`)
/// that are events of the arena and are that move itself or its causes:
/// events from which it is reached by a path of enabling edges. In
/// particular every earlier move that directly enables it is there.
pub proof fn lemma_causal_history(a: ArenaView, moves: Seq<usize>, i: int)
    requires
        0 <= i < moves.len(),
    ensures
        forall|x: usize| #[trigger] parallel_keys(a, moves)[i].count(x) > 0 <==> (x < a.events.len() && (x
            == moves[i] || exists|p: Seq<usize>| #[trigger] is_path(a, p) && p[0] == x && p.last() == moves[i])
            && exists|j: int| 0 <= j < i && moves[j] == x),
        forall|j: int|
            0 <= j < i && moves[j] < a.events.len() && moves[i] < a.events.len() && #[trigger] a.enabling.contains(
                (moves[j], moves[i]),
            ) ==> parallel_keys(a, moves)[i].count(moves[j]) > 0,
{
    let m = moves[i];
    let h = causal_upto(a, moves, m, i);
    lemma_causal_upto_exact(a, moves, m, i);
    assert(parallel_keys(a, moves)[i] == h.to_multiset());
    assert forall|x: usize| #[trigger] parallel_keys(a, moves)[i].count(x) > 0 <==> h.contains(x) by {
        vstd::seq_lib::to_multiset_contains(h, x);
    }
    assert forall|j: int|
        0 <= j < i && moves[j] < a.events.len() && moves[i] < a.events.len() && #[trigger] a.enabling.contains(
            (moves[j], moves[i]),
        ) implies parallel_keys(a, moves)[i].count(moves[j]) > 0 by {
        let p = seq![moves[j], m];
        assert(edge_at(a, p, 0));
        assert(is_path(a, p));
        assert(reaches(a, moves[j], m));
        assert(h.contains(moves[j]));
    }
}

/// The message for two Player responses to one causal history.
pub open spec fn parallel_failure_text(prev: usize, m: usize) -> Seq<char> {
    "Same causal history leads to different moves: "@ + decimal_text(prev as nat) + " and "@
        + decimal_text(m as nat)
}

/// The usual order on move indices.
pub open spec fn le_usize() -> spec_fn(usize, usize) -> bool {
    |x: usize, y: usize| x <= y
}

/// The table in which each key is the multiset of its (sorted) move list.
pub open spec fn multiset_table(table: Seq<(Vec<usize>, usize)>) -> Seq<(Multiset<usize>, usize)> {
    Seq::new(table.len(), |t: int| (table[t].0@.to_multiset(), table[t].1))
}

proof fn lemma_le_total()
    ensures
        total_ordering(le_usize()),
{
}

/// Sorted lists are equal exactly when they hold the same moves.
proof fn lemma_sorted_eq_iff_multiset(x: Seq<usize>, y: Seq<usize>)
    requires
        sorted_by(x, le_usize()),
        sorted_by(y, le_usize()),
    ensures
        (x == y) <==> (x.to_multiset() == y.to_multiset()),
{
    if x.to_multiset() == y.to_multiset() {
        lemma_le_total();
        vstd::seq_lib::lemma_sorted_unique(x, y, le_usize());
    }
}

/// A sorted copy of a move list.
fn sorted_copy(v: &Vec<usize>) -> (r: Vec<usize>)
    ensures
        sorted_by(r@, le_usize()),
        r@.to_multiset() == v@.to_multiset(),
{
    broadcast use vstd::seq_lib::group_to_multiset_ensures;

    let mut r: Vec<usize> = Vec::new();
    let mut i: usize = 0;
    while i < v.len()
        invariant
            i <= v.len(),
            sorted_by(r@, le_usize()),
            r@.to_multiset() == v@.take(i as int).to_multiset(),
        decreases v.len() - i,
    {
        let x = v[i];
        let mut pos: usize = 0;
        while pos < r.len() && r[pos] <= x
            invariant
                pos <= r.len(),
                forall|q: int| 0 <= q < pos ==> r@[q] <= x,
            decreases r.len() - pos,
        {
            pos = pos + 1;
        }
        let ghost before = r@;
        r.insert(pos, x);
        proof {
            assert(r@ == before.insert(pos as int, x));
            assert forall|p: int, q: int| 0 <= p < q < r@.len() implies #[trigger] le_usize()(r@[p], r@[q]) by {
                assert(sorted_by(before, le_usize()));
                if q < pos {
                    assert(le_usize()(before[p], before[q]));
                } else if q == pos {
                    assert(before[p] <= x);
                } else if p < pos {
                    assert(r@[q] == before[q - 1]);
                    if pos < before.len() {
                        assert(before[pos as int] > x);
                        if q - 1 > pos {
                            assert(le_usize()(before[pos as int], before[q - 1]));
                        }
                    }
                    if p < pos {
                        assert(before[p] <= x);
                    }
                } else if p == pos {
                    assert(before[pos as int] > x);
                    if q - 1 > pos {
                        assert(le_usize()(before[pos as int], before[q - 1]));
                    }
                } else {
                    assert(le_usize()(before[p - 1], before[q - 1]));
                }
            }
            assert(v@.take(i + 1) =~= v@.take(i as int).push(x));
            vstd::seq_lib::to_multiset_insert(before, pos as int, x);
            vstd::seq_lib::to_multiset_build(v@.take(i as int), x);
        }
        i = i + 1;
    }
    assert(v@.take(i as int) =~= v@);
    r
}

/// The moves at positions `0..i` that are in the arena and are `m` or
/// reach `m`, according to the reachability matrix.
fn causal_history(strategy: &Strategy, reach: &Vec<Vec<bool>>, i: usize, m: usize) -> (h: Vec<usize>)
    requires
        i <= strategy@.moves.len(),
        m < strategy@.arena.events.len(),
        crate::reach::square(reach@, strategy@.arena.events.len() as int),
        forall|x: int, y: int|
            0 <= x < strategy@.arena.events.len() && 0 <= y < strategy@.arena.events.len() ==> (
            #[trigger] reach@[x]@[y] <==> reaches(strategy@.arena, x as usize, y as usize)),
    ensures
        h@ == causal_upto(strategy@.arena, strategy@.moves, m, i as int),
{
    let n = strategy.arena.events.len();
    let mut h: Vec<usize> = Vec::new();
    let mut k: usize = 0;
    while k < i
        invariant
            k <= i <= strategy@.moves.len(),
            n == strategy@.arena.events.len(),
            m < n,
            crate::reach::square(reach@, n as int),
            forall|x: int, y: int|
                0 <= x < n && 0 <= y < n ==> (#[trigger] reach@[x]@[y] <==> reaches(
                    strategy@.arena,
                    x as usize,
                    y as usize,
                )),
            h@ == causal_upto(strategy@.arena, strategy@.moves, m, k as int),
        decreases i - k,
    {
        let prev = strategy.moves[k];
        if prev < n && (reach[prev][m] || prev == m) {
            h.push(prev);
        }
        proof {
            assert(causal_upto(strategy@.arena, strategy@.moves, m, k + 1) =~= h@);
        }
        k = k + 1;
    }
    h
}

/// Parallel innocence: a Player move depends only on its causal history
/// (the earlier moves that enable it, directly or not, in any order), not on
/// how independent moves were interleaved.
pub fn check_parallel_innocence(strategy: &Strategy) -> (r: ConditionResult)
    ensures
        condition_view(r) == parallel_outcome(strategy@),
        r.name@ == "Parallel Innocence"@,
        r.satisfied == consistent_upto(
            parallel_keys(strategy@.arena, strategy@.moves),
            strategy@.moves,
            player_flags(strategy@.arena, strategy@.moves),
            strategy@.moves.len() as int,
        ),
        r.satisfied ==> r.detail@ == "Player moves depend only on causal history"@,
        !r.satisfied ==> exists|prev: usize, m: usize|
            first_clash(
                parallel_keys(strategy@.arena, strategy@.moves),
                strategy@.moves,
                player_flags(strategy@.arena, strategy@.moves),
                prev,
                m,
            ) && r.detail@ == parallel_failure_text(prev, m),
{
    let reach = causal_closure(&strategy.arena);
    let ghost a = strategy@.arena;
    let ghost moves = strategy@.moves;
    let ghost keys = parallel_keys(a, moves);
    let ghost act = player_flags(a, moves);
    let n = strategy.arena.events.len();
    let mut table: Vec<(Vec<usize>, usize)> = Vec::new();
    let ghost mut w: Seq<int> = Seq::empty();
    let ghost mut slot: Seq<int> = Seq::empty();
    let mut i: usize = 0;
    while i < strategy.moves.len()
        invariant
            i <= strategy.moves.len(),
            a == strategy@.arena,
            moves == strategy@.moves,
            n == a.events.len(),
            keys == parallel_keys(a, moves),
            act == player_flags(a, moves),
            crate::reach::square(reach@, n as int),
            forall|x: int, y: int|
                0 <= x < n && 0 <= y < n ==> (#[trigger] reach@[x]@[y] <==> reaches(
                    a,
                    x as usize,
                    y as usize,
                )),
            forall|t: int| 0 <= t < table@.len() ==> sorted_by(#[trigger] table@[t].0@, le_usize()),
            consistent_upto(keys, moves, act, i as int),
            table_sound(multiset_table(table@), w, keys, moves, act, i as int),
            table_complete(multiset_table(table@), slot, keys, act, i as int),
        decreases strategy.moves.len() - i,
    {
        let m = strategy.moves[i];
        if m < n && strategy.arena.events[m].polarity == Polarity::Player {
            assert(act[i as int]);
            let hist = causal_history(strategy, &reach, i, m);
            let key = sorted_copy(&hist);
            assert(key@.to_multiset() == keys[i as int]);
            let found = lookup(&table, &key);
            match found {
                Some(t) => {
                    let prev = table[t].1;
                    assert(multiset_table(table@)[t as int].0 == keys[i as int]);
                    if prev != m {
                        proof {
                            lemma_found_clash(multiset_table(table@), w, keys, moves, act, i as int, t as int);
                        }
                        let mut detail = "Same causal history leads to different moves: ".to_owned();
                        detail.append(decimal(prev).as_str());
                        detail.append(" and ");
                        detail.append(decimal(m).as_str());
                        assert(first_clash(keys, moves, act, prev, m) && detail@
                            == parallel_failure_text(prev, m));
                        proof {
                            lemma_clash_outcome(
                                "Parallel Innocence"@,
                                "Player moves depend only on causal history"@,
                                "Same causal history leads to different moves: "@,
                                keys, moves, act, prev, m,
                            );
                        }
                        return ConditionResult { name: "Parallel Innocence", satisfied: false, detail };
                    }
                    proof {
                        lemma_same_response(multiset_table(table@), w, keys, moves, act, i as int, t as int);
                        slot = slot.push(t as int);
                    }
                },
                None => {
                    proof {
                        assert forall|t: int| 0 <= t < table@.len() implies #[trigger] multiset_table(table@)[t].0 != keys[i as int] by {
                            assert(seq_table(table@)[t].0 != key@);
                            lemma_sorted_eq_iff_multiset(table@[t].0@, key@);
                        }
                        lemma_new_key(multiset_table(table@), slot, keys, moves, act, i as int);
                    }
                    let ghost before = table@;
                    table.push((key, m));
                    proof {
                        assert(multiset_table(table@) =~= multiset_table(before).push((keys[i as int], m)));
                        w = w.push(i as int);
                        slot = slot.push(before.len() as int);
                    }
                },
            }
        } else {
            proof {
                lemma_skip_position(keys, moves, act, i as int);
                slot = slot.push(0);
            }
        }
        i = i + 1;
    }
    ConditionResult {
        name: "Parallel Innocence",
        satisfied: true,
        detail: "Player moves depend only on causal history".to_owned(),
    }
}

/// Whether each active condition's check succeeds.
pub open spec fn conditions_hold(s: StrategyView, c: ActiveConditions) -> bool {
    &&& c.well_bracketing ==> bracketing_outcome(s).1
    &&& c.innocence ==> innocence_outcome(s).1
    &&& c.parallel_innocence ==> parallel_outcome(s).1
}

/// The reports of the active checks, in the order well-bracketing,
/// innocence, parallel innocence.
pub open spec fn conditions_outcome(s: StrategyView, c: ActiveConditions) -> Seq<(Seq<char>, bool, Seq<char>)> {
    (if c.well_bracketing { seq![bracketing_outcome(s)] } else { Seq::empty() })
        + (if c.innocence { seq![innocence_outcome(s)] } else { Seq::empty() })
        + (if c.parallel_innocence { seq![parallel_outcome(s)] } else { Seq::empty() })
}

proof fn lemma_hold_iff_all(s: StrategyView, c: ActiveConditions)
    ensures
        conditions_hold(s, c) <==> forall|q: int|
            0 <= q < conditions_outcome(s, c).len() ==> (#[trigger] conditions_outcome(s, c)[q]).1,
{
    let o = conditions_outcome(s, c);
    let w: Seq<(Seq<char>, bool, Seq<char>)> = if c.well_bracketing { seq![bracketing_outcome(s)] } else { Seq::empty() };
    let x: Seq<(Seq<char>, bool, Seq<char>)> = if c.innocence { seq![innocence_outcome(s)] } else { Seq::empty() };
    let y: Seq<(Seq<char>, bool, Seq<char>)> = if c.parallel_innocence { seq![parallel_outcome(s)] } else { Seq::empty() };
    assert(o == w + x + y);
    if conditions_hold(s, c) {
        assert forall|q: int| 0 <= q < o.len() implies (#[trigger] o[q]).1 by {
            if q < w.len() {
                assert(o[q] == w[q]);
            } else if q < w.len() + x.len() {
                assert(o[q] == x[q - w.len()]);
            } else {
                assert(o[q] == y[q - w.len() - x.len()]);
            }
        }
    }
    if forall|q: int| 0 <= q < o.len() ==> (#[trigger] o[q]).1 {
        if c.well_bracketing {
            assert(o[0] == bracketing_outcome(s));
        }
        if c.innocence {
            assert(o[w.len() as int] == innocence_outcome(s));
        }
        if c.parallel_innocence {
            assert(o[(w.len() + x.len()) as int] == parallel_outcome(s));
        }
    }
}

/// `all_conditions_satisfied` answers yes exactly when every report that
/// `check_conditions` gives is satisfied; with no condition active there
/// is no report and the answer is yes.
pub proof fn lemma_satisfied_iff_all_reports(s: StrategyView, c: ActiveConditions)
    ensures
        conditions_hold(s, c) <==> forall|q: int|
            0 <= q < conditions_outcome(s, c).len() ==> (#[trigger] conditions_outcome(s, c)[q]).1,
        !c.well_bracketing && !c.innocence && !c.parallel_innocence ==> conditions_outcome(s, c).len() == 0
            && conditions_hold(s, c),
{
    lemma_hold_iff_all(s, c);
}

/// Turning conditions off never turns a satisfied play into a failing one:
/// a play that meets every condition of `more` meets every condition of
/// `fewer` when `fewer` activates only conditions that `more` activates.
pub proof fn lemma_fewer_conditions_hold(s: StrategyView, fewer: ActiveConditions, more: ActiveConditions)
    requires
        fewer.well_bracketing ==> more.well_bracketing,
        fewer.innocence ==> more.innocence,
        fewer.parallel_innocence ==> more.parallel_innocence,
    ensures
        conditions_hold(s, more) ==> conditions_hold(s, fewer),
{
}

/// Run the active checks (sequentiality has no check of its own).
pub fn check_conditions(strategy: &Strategy, conditions: &ActiveConditions) -> (r: Vec<ConditionResult>)
    requires
        conditions.innocence ==> play_walks_end(strategy@.arena, strategy@.moves),
    ensures
        Seq::new(r@.len(), |i: int| condition_view(r@[i])) == conditions_outcome(strategy@, *conditions),
{
    let mut results: Vec<ConditionResult> = Vec::new();
    if conditions.well_bracketing {
        results.push(check_well_bracketing(strategy));
    }
    if conditions.innocence {
        results.push(check_innocence(strategy));
    }
    if conditions.parallel_innocence {
        results.push(check_parallel_innocence(strategy));
    }
    assert(Seq::new(results@.len(), |i: int| condition_view(results@[i])) =~= conditions_outcome(strategy@, *conditions));
    results
}

/// Whether every active condition is satisfied.
pub fn all_conditions_satisfied(strategy: &Strategy, conditions: &ActiveConditions) -> (r: bool)
    requires
        conditions.innocence ==> play_walks_end(strategy@.arena, strategy@.moves),
    ensures
        r == conditions_hold(strategy@, *conditions),
{
    let results = check_conditions(strategy, conditions);
    let ghost views = Seq::new(results@.len(), |i: int| condition_view(results@[i]));
    proof {
        lemma_hold_iff_all(strategy@, *conditions);
    }
    let mut i: usize = 0;
    while i < results.len()
        invariant
            i <= results.len(),
            views == Seq::new(results@.len(), |i: int| condition_view(results@[i])),
            views == conditions_outcome(strategy@, *conditions),
            forall|q: int| 0 <= q < i ==> views[q].1,
        decreases results.len() - i,
    {
        if !results[i].satisfied {
            assert(!views[i as int].1);
            assert(!conditions_outcome(strategy@, *conditions)[i as int].1);
            assert(i < conditions_outcome(strategy@, *conditions).len());
            assert(!conditions_hold(strategy@, *conditions));
            return false;
        }
        i = i + 1;
    }
    true
}

} // verus!
