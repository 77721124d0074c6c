//! Strategies: plays (sequences of moves) on an arena, and the basic
//! checks on them: existence, no repetition, causality, alternation.
use crate::arena::{Arena, ArenaView, Polarity};
use std::collections::HashSet;
use vstd::prelude::*;

verus! {

broadcast use vstd::std_specs::hash::group_hash_axioms;

/// A strategy over an arena: the play made so far, Player and Opponent
/// moves alike, as event indices.
#[derive(Debug, Clone)]
pub struct Strategy {
    pub arena: Arena,
    pub moves: Vec<usize>,
}

/// Why a play breaks a basic rule.
#[derive(Debug, Clone, PartialEq, Eq, Structural)]
pub enum StrategyError {
    /// A move names an event that the arena does not have.
    InvalidEvent(usize),
    /// A move comes before its justifier.
    CausalityViolation { move_id: usize, justifier: usize },
    /// The moves at `position - 1` and `position` have the same polarity.
    AlternationViolation { position: usize },
    /// The first move is not an Opponent move.
    FirstMoveNotOpponent,
    /// A move is repeated.
    DuplicateMove(usize),
}

pub struct StrategyView {
    pub arena: ArenaView,
    pub moves: Seq<usize>,
}

impl View for Strategy {
    type V = StrategyView;

    open spec fn view(&self) -> StrategyView {
        StrategyView { arena: self.arena@, moves: self.moves@ }
    }
}

/// The sequence holding the value of `o`, if any.
pub open spec fn opt_seq<T>(o: Option<T>) -> Seq<T> {
    match o {
        Some(x) => seq![x],
        None => Seq::empty(),
    }
}

/// Whether `m` names an event of the arena.
pub open spec fn in_arena(a: ArenaView, m: usize) -> bool {
    m < a.events.len()
}

/// The polarity of event `m` (meaningful when `m` is in the arena).
pub open spec fn polarity_of(a: ArenaView, m: usize) -> Polarity {
    a.events[m as int].polarity
}

/// The structural error of the move at position `k`, if any.
pub open spec fn structure_error_at(a: ArenaView, moves: Seq<usize>, k: int) -> Option<
    StrategyError,
> {
    let m = moves[k];
    if !in_arena(a, m) {
        Some(StrategyError::InvalidEvent(m))
    } else if moves.take(k).contains(m) {
        Some(StrategyError::DuplicateMove(m))
    } else {
        None
    }
}

/// Structural errors of the moves at positions `0..n`, in order.
pub open spec fn structure_errors(a: ArenaView, moves: Seq<usize>, n: int) -> Seq<StrategyError>
    decreases n,
{
    if n <= 0 {
        Seq::empty()
    } else {
        structure_errors(a, moves, n - 1) + opt_seq(structure_error_at(a, moves, n - 1))
    }
}

/// The causality error of the move at position `k`: its justifier has not
/// been played before it.
pub open spec fn causality_error_at(a: ArenaView, moves: Seq<usize>, k: int) -> Option<
    StrategyError,
> {
    let m = moves[k];
    if in_arena(a, m) && a.events[m as int].justifier is Some && !moves.take(k).contains(
        a.events[m as int].justifier->0,
    ) {
        Some(
            StrategyError::CausalityViolation {
                move_id: m,
                justifier: a.events[m as int].justifier->0,
            },
        )
    } else {
        None
    }
}

pub open spec fn causality_errors(a: ArenaView, moves: Seq<usize>, n: int) -> Seq<StrategyError>
    decreases n,
{
    if n <= 0 {
        Seq::empty()
    } else {
        causality_errors(a, moves, n - 1) + opt_seq(causality_error_at(a, moves, n - 1))
    }
}

/// The alternation error at position `k`: at 0, a first move that is a
/// Player move; later, two consecutive moves of one polarity.
pub open spec fn alternation_error_at(a: ArenaView, moves: Seq<usize>, k: int) -> Option<
    StrategyError,
> {
    if k == 0 {
        if in_arena(a, moves[0]) && polarity_of(a, moves[0]) != Polarity::Opponent {
            Some(StrategyError::FirstMoveNotOpponent)
        } else {
            None
        }
    } else if in_arena(a, moves[k - 1]) && in_arena(a, moves[k]) && polarity_of(a, moves[k - 1])
        == polarity_of(a, moves[k]) {
        Some(StrategyError::AlternationViolation { position: k as usize })
    } else {
        None
    }
}

pub open spec fn alternation_errors(a: ArenaView, moves: Seq<usize>, n: int) -> Seq<
    StrategyError,
>
    decreases n,
{
    if n <= 0 {
        Seq::empty()
    } else {
        alternation_errors(a, moves, n - 1) + opt_seq(alternation_error_at(a, moves, n - 1))
    }
}

/// All basic errors of a play: structure, then causality, then alternation.
pub open spec fn all_errors(s: StrategyView) -> Seq<StrategyError> {
    let n = s.moves.len() as int;
    structure_errors(s.arena, s.moves, n) + causality_errors(s.arena, s.moves, n)
        + alternation_errors(s.arena, s.moves, n)
}

/// Polarities of the moves that are in the arena, in order.
pub open spec fn polarities(a: ArenaView, moves: Seq<usize>, n: int) -> Seq<Polarity>
    decreases n,
{
    if n <= 0 {
        Seq::empty()
    } else {
        polarities(a, moves, n - 1) + if in_arena(a, moves[n - 1]) {
            seq![polarity_of(a, moves[n - 1])]
        } else {
            Seq::empty()
        }
    }
}

/// The moves of the given polarity (that are in the arena), in order.
pub open spec fn moves_of(a: ArenaView, moves: Seq<usize>, p: Polarity, n: int) -> Seq<usize>
    decreases n,
{
    if n <= 0 {
        Seq::empty()
    } else {
        moves_of(a, moves, p, n - 1) + if in_arena(a, moves[n - 1]) && polarity_of(
            a,
            moves[n - 1],
        ) == p {
            seq![moves[n - 1]]
        } else {
            Seq::empty()
        }
    }
}

/// `x` occurs among the first `i + 1` elements exactly when it occurs among
/// the first `i` or is the element at `i`.
pub proof fn lemma_take_push_contains<A>(s: Seq<A>, i: int)
    requires
        0 <= i < s.len(),
    ensures
        forall|x: A| #[trigger]
            s.take(i + 1).contains(x) <==> s.take(i).contains(x) || x == s[i],
{
    assert(s.take(i + 1) =~= s.take(i).push(s[i]));
    assert forall|x: A| #[trigger] s.take(i + 1).contains(x) implies s.take(i).contains(x) || x
        == s[i] by {
        let k = choose|k: int| 0 <= k < i + 1 && #[trigger] s.take(i + 1)[k] == x;
        if k < i {
            assert(s.take(i)[k] == x);
        }
    }
    assert forall|x: A| s.take(i).contains(x) || x == s[i] implies #[trigger] s.take(i + 1).contains(x) by {
        if s.take(i).contains(x) {
            let k = choose|k: int| 0 <= k < i && #[trigger] s.take(i)[k] == x;
            assert(s.take(i + 1)[k] == x);
        } else {
            assert(s.take(i + 1)[i] == x);
        }
    }
}

/// Adding a move and then undoing it gives back the play as it was, and
/// the move undone is the one added.
pub proof fn lemma_add_then_undo(moves: Seq<usize>, m: usize)
    ensures
        moves.push(m).len() > 0,
        moves.push(m).last() == m,
        moves.push(m).drop_last() == moves,
{
    assert(moves.push(m).drop_last() =~= moves);
}

/// Every alternation violation reported among positions `0..n` names a
/// position below `n`.
proof fn lemma_alternation_below(a: ArenaView, moves: Seq<usize>, n: int)
    requires
        0 <= n <= moves.len(),
        moves.len() <= usize::MAX,
    ensures
        forall|e: StrategyError| #[trigger] alternation_errors(a, moves, n).contains(e) ==> (e matches StrategyError::AlternationViolation { position } ==> position < n),
    decreases n,
{
    if n > 0 {
        lemma_alternation_below(a, moves, n - 1);
        let x = alternation_errors(a, moves, n - 1);
        let y = opt_seq(alternation_error_at(a, moves, n - 1));
        assert forall|e: StrategyError| #[trigger] alternation_errors(a, moves, n).contains(e) implies (e matches StrategyError::AlternationViolation { position } ==> position < n) by {
            let i = choose|i: int| 0 <= i < (x + y).len() && (x + y)[i] == e;
            if i < x.len() {
                assert(x[i] == e);
                assert(x.contains(e));
            } else {
                assert(y[i - x.len()] == e);
            }
        }
    }
}

/// An alternation violation at position `k` (with both moves in the arena)
/// is reported exactly when the moves at `k - 1` and `k` have the same
/// polarity, Player-Player and Opponent-Opponent alike.
pub proof fn lemma_alternation_reported(a: ArenaView, moves: Seq<usize>, n: int, k: int)
    requires
        1 <= k < n <= moves.len(),
        moves.len() <= usize::MAX,
        moves[k - 1] < a.events.len(),
        moves[k] < a.events.len(),
    ensures
        alternation_errors(a, moves, n).contains(StrategyError::AlternationViolation { position: k as usize })
            <==> a.events[moves[k - 1] as int].polarity == a.events[moves[k] as int].polarity,
    decreases n,
{
    let e = StrategyError::AlternationViolation { position: k as usize };
    let x = alternation_errors(a, moves, n - 1);
    let y = opt_seq(alternation_error_at(a, moves, n - 1));
    assert(alternation_errors(a, moves, n) == x + y);
    if k == n - 1 {
        lemma_alternation_below(a, moves, n - 1);
        assert(!x.contains(e));
        if polarity_of(a, moves[k - 1]) == polarity_of(a, moves[k]) {
            assert((x + y)[x.len() as int] == e);
        } else {
            assert(y.len() == 0);
            assert((x + y) =~= x);
        }
    } else {
        lemma_alternation_reported(a, moves, n - 1, k);
        assert(!y.contains(e));
        if x.contains(e) {
            let i = choose|i: int| 0 <= i < x.len() && x[i] == e;
            assert((x + y)[i] == e);
        }
        if (x + y).contains(e) {
            let i = choose|i: int| 0 <= i < (x + y).len() && (x + y)[i] == e;
            if i < x.len() {
                assert(x[i] == e);
            } else {
                assert(y[i - x.len()] == e);
            }
        }
    }
}

/// With no errors among positions `0..n`, no position below `n` has an
/// error of its own.
proof fn lemma_no_errors_below(a: ArenaView, moves: Seq<usize>, n: int)
    requires
        0 <= n,
    ensures
        structure_errors(a, moves, n).len() == 0 ==> forall|k: int| 0 <= k < n ==> #[trigger] structure_error_at(a, moves, k) is None,
        alternation_errors(a, moves, n).len() == 0 ==> forall|k: int| 0 <= k < n ==> #[trigger] alternation_error_at(a, moves, k) is None,
    decreases n,
{
    if n > 0 {
        lemma_no_errors_below(a, moves, n - 1);
    }
}

/// A valid play starts with an Opponent move and strictly alternates
/// polarity: no two consecutive moves, of either polarity, share one.
pub proof fn lemma_valid_play_alternates(s: StrategyView)
    requires
        s.moves.len() <= usize::MAX,
        all_errors(s).len() == 0,
    ensures
        forall|k: int| 0 <= k < s.moves.len() ==> #[trigger] s.moves[k] < s.arena.events.len(),
        s.moves.len() > 0 ==> s.arena.events[s.moves[0] as int].polarity == Polarity::Opponent,
        forall|k: int| 1 <= k < s.moves.len() ==> s.arena.events[s.moves[k - 1] as int].polarity
            != s.arena.events[#[trigger] s.moves[k] as int].polarity,
{
    let n = s.moves.len() as int;
    lemma_no_errors_below(s.arena, s.moves, n);
    assert forall|k: int| 0 <= k < n implies in_arena(s.arena, #[trigger] s.moves[k]) by {
        assert(structure_error_at(s.arena, s.moves, k) is None);
    }
    if n > 0 {
        assert(alternation_error_at(s.arena, s.moves, 0) is None);
        assert(in_arena(s.arena, s.moves[0]));
    }
    assert forall|k: int| 1 <= k < n implies polarity_of(s.arena, s.moves[k - 1]) != polarity_of(
        s.arena,
        #[trigger] s.moves[k],
    ) by {
        assert(in_arena(s.arena, s.moves[k - 1]));
        assert(alternation_error_at(s.arena, s.moves, k) is None);
    }
}

impl Strategy {
    /// A strategy on `arena` with no moves.
    pub fn new(arena: Arena) -> (r: Strategy)
        ensures
            r@.arena == arena@,
            r@.moves == Seq::<usize>::empty(),
    {
        Strategy { arena, moves: Vec::new() }
    }

    /// Append a move; returns its position in the play.
    pub fn add_move(&mut self, event_id: usize) -> (idx: usize)
        ensures
            idx == old(self)@.moves.len(),
            final(self)@.moves == old(self)@.moves.push(event_id),
            final(self)@.arena == old(self)@.arena,
    {
        let idx = self.moves.len();
        self.moves.push(event_id);
        idx
    }

    /// Remove and return the last move.
    pub fn undo(&mut self) -> (r: Option<usize>)
        ensures
            old(self)@.moves.len() == 0 ==> r is None && final(self)@.moves == old(self)@.moves,
            old(self)@.moves.len() > 0 ==> r == Some(old(self)@.moves.last())
                && final(self)@.moves == old(self)@.moves.drop_last(),
            final(self)@.arena == old(self)@.arena,
    {
        self.moves.pop()
    }

    /// Remove every move.
    pub fn clear(&mut self)
        ensures
            final(self)@.moves == Seq::<usize>::empty(),
            final(self)@.arena == old(self)@.arena,
    {
        self.moves.clear();
    }

    /// Moves that name no event, then moves that repeat an earlier one.
    pub fn validate_structure(&self) -> (r: Vec<StrategyError>)
        ensures
            r@ == structure_errors(self@.arena, self@.moves, self@.moves.len() as int),
    {
        let mut errors: Vec<StrategyError> = Vec::new();
        let mut seen: HashSet<usize> = HashSet::new();
        let n = self.arena.events.len();
        let mut i: usize = 0;
        while i < self.moves.len()
            invariant
                i <= self.moves.len(),
                n == self@.arena.events.len(),
                errors@ == structure_errors(self@.arena, self@.moves, i as int),
                forall|x: usize| #[trigger]
                    seen@.contains(x) <==> x < n && self@.moves.take(i as int).contains(x),
            decreases self.moves.len() - i,
        {
            let m = self.moves[i];
            proof {
                lemma_take_push_contains(self@.moves, i as int);
            }
            if m >= n {
                errors.push(StrategyError::InvalidEvent(m));
            } else if !seen.insert(m) {
                errors.push(StrategyError::DuplicateMove(m));
            }
            i = i + 1;
        }
        errors
    }

    /// Moves whose justifier has not been played before them.
    pub fn validate_causality(&self) -> (r: Vec<StrategyError>)
        ensures
            r@ == causality_errors(self@.arena, self@.moves, self@.moves.len() as int),
    {
        let mut errors: Vec<StrategyError> = Vec::new();
        let mut played: HashSet<usize> = HashSet::new();
        let n = self.arena.events.len();
        let mut i: usize = 0;
        while i < self.moves.len()
            invariant
                i <= self.moves.len(),
                n == self@.arena.events.len(),
                errors@ == causality_errors(self@.arena, self@.moves, i as int),
                forall|x: usize| #[trigger]
                    played@.contains(x) <==> self@.moves.take(i as int).contains(x),
            decreases self.moves.len() - i,
        {
            let m = self.moves[i];
            proof {
                lemma_take_push_contains(self@.moves, i as int);
            }
            if m < n {
                if let Some(j) = self.arena.events[m].justifier {
                    if !played.contains(&j) {
                        errors.push(StrategyError::CausalityViolation { move_id: m, justifier: j });
                    }
                }
            }
            played.insert(m);
            i = i + 1;
        }
        errors
    }

    /// A first move that is not an Opponent move, then each position where
    /// two consecutive moves share a polarity.
    pub fn validate_alternation(&self) -> (r: Vec<StrategyError>)
        ensures
            r@ == alternation_errors(self@.arena, self@.moves, self@.moves.len() as int),
    {
        let mut errors: Vec<StrategyError> = Vec::new();
        if self.moves.len() == 0 {
            return errors;
        }
        let n = self.arena.events.len();
        let first = self.moves[0];
        if first < n && self.arena.events[first].polarity != Polarity::Opponent {
            errors.push(StrategyError::FirstMoveNotOpponent);
        }
        proof {
            reveal_with_fuel(alternation_errors, 2);
            assert(alternation_errors(self@.arena, self@.moves, 1) =~= errors@);
        }
        let mut i: usize = 1;
        while i < self.moves.len()
            invariant
                1 <= i <= self.moves.len(),
                n == self@.arena.events.len(),
                errors@ == alternation_errors(self@.arena, self@.moves, i as int),
            decreases self.moves.len() - i,
        {
            let prev = self.moves[i - 1];
            let curr = self.moves[i];
            if prev < n && curr < n && self.arena.events[prev].polarity
                == self.arena.events[curr].polarity {
                errors.push(StrategyError::AlternationViolation { position: i });
            }
            i = i + 1;
        }
        errors
    }

    /// Every basic error: structure, then causality, then alternation.
    pub fn validate(&self) -> (r: Vec<StrategyError>)
        ensures
            r@ == all_errors(self@),
    {
        let mut errors = self.validate_structure();
        let mut c = self.validate_causality();
        errors.append(&mut c);
        let mut a = self.validate_alternation();
        errors.append(&mut a);
        errors
    }

    /// Whether the play breaks no basic rule.
    pub fn is_valid(&self) -> (r: bool)
        ensures
            r == (all_errors(self@).len() == 0),
    {
        let errors = self.validate();
        errors.len() == 0
    }

    /// Polarities of the moves that name events of the arena.
    pub fn polarity_sequence(&self) -> (r: Vec<Polarity>)
        ensures
            r@ == polarities(self@.arena, self@.moves, self@.moves.len() as int),
    {
        let mut r: Vec<Polarity> = Vec::new();
        let mut i: usize = 0;
        while i < self.moves.len()
            invariant
                i <= self.moves.len(),
                r@ == polarities(self@.arena, self@.moves, i as int),
            decreases self.moves.len() - i,
        {
            let m = self.moves[i];
            if m < self.arena.events.len() {
                r.push(self.arena.events[m].polarity);
            }
            proof {
                assert(polarities(self@.arena, self@.moves, i + 1) =~= r@);
            }
            i = i + 1;
        }
        r
    }

    /// The Player moves of the play.
    pub fn player_moves(&self) -> (r: Vec<usize>)
        ensures
            r@ == moves_of(self@.arena, self@.moves, Polarity::Player, self@.moves.len() as int),
    {
        self.moves_with(Polarity::Player)
    }

    /// The Opponent moves of the play.
    pub fn opponent_moves(&self) -> (r: Vec<usize>)
        ensures
            r@ == moves_of(self@.arena, self@.moves, Polarity::Opponent, self@.moves.len() as int),
    {
        self.moves_with(Polarity::Opponent)
    }

    fn moves_with(&self, p: Polarity) -> (r: Vec<usize>)
        ensures
            r@ == moves_of(self@.arena, self@.moves, p, self@.moves.len() as int),
    {
        let mut r: Vec<usize> = Vec::new();
        let mut i: usize = 0;
        while i < self.moves.len()
            invariant
                i <= self.moves.len(),
                r@ == moves_of(self@.arena, self@.moves, p, i as int),
            decreases self.moves.len() - i,
        {
            let m = self.moves[i];
            if m < self.arena.events.len() && self.arena.events[m].polarity == p {
                r.push(m);
            }
            proof {
                assert(moves_of(self@.arena, self@.moves, p, i + 1) =~= r@);
            }
            i = i + 1;
        }
        r
    }
}

} // verus!
