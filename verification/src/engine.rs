//! The play loop of the interaction arena: choosing a level, building a
//! strategy on its arena, checking it, stepping through it and scoring it.
//! Scores are fractional and computed by the caller from the counts that
//! the engine hands out at the end of a level.
use crate::arena::{copy_arena, justifiers_backward, EventView};
use crate::conditions::{check_conditions, condition_view, conditions_outcome, lemma_acyclic_walks_end, lemma_backward_acyclic, ConditionResult};
use crate::levels::{all_levels, all_levels_spec, level_sound, levels_view, lemma_levels_sound, LevelDef};
use crate::strategy::{moves_of, Strategy, StrategyView};
use crate::arena::Polarity;
use vstd::prelude::*;

verus! {

/// The phase of a level.
#[derive(Debug, Clone, Copy, PartialEq, Eq, Structural)]
pub enum LevelPhase {
    /// Looking at the arena.
    ArenaView,
    /// Placing moves.
    StrategyBuilder,
    /// Stepping through the play.
    Execution,
    /// Looking at the score and the payoff analysis.
    Results,
}

impl Default for LevelPhase {
    /// A level opens on its arena.
    fn default() -> (r: LevelPhase)
        ensures
            r == LevelPhase::ArenaView,
    {
        LevelPhase::ArenaView
    }
}

/// The phase that follows `p`; after the results a level returns to its arena.
pub open spec fn next_phase(p: LevelPhase) -> LevelPhase {
    match p {
        LevelPhase::ArenaView => LevelPhase::StrategyBuilder,
        LevelPhase::StrategyBuilder => LevelPhase::Execution,
        LevelPhase::Execution => LevelPhase::Results,
        LevelPhase::Results => LevelPhase::ArenaView,
    }
}

/// Advancing four times from any phase comes back to it, passing through
/// every phase once.
pub proof fn lemma_phase_cycle(p: LevelPhase)
    ensures
        next_phase(next_phase(next_phase(next_phase(p)))) == p,
        p != next_phase(p) && p != next_phase(next_phase(p)) && p != next_phase(next_phase(next_phase(p))),
{
}

/// The counts a level is scored from: Player moves played, the optimal
/// number, and how many of the checked conditions hold.
#[derive(Debug, Clone, Copy, PartialEq, Eq, Structural)]
pub struct ScoreInputs {
    pub move_count: usize,
    pub optimal_count: usize,
    pub constraints_satisfied: usize,
    pub total_constraints: usize,
}

/// What the caller must do after a phase change.
#[derive(Debug, Clone, Copy, PartialEq, Eq, Structural)]
pub enum PhaseEffect {
    /// Nothing beyond the change of phase.
    Nothing,
    /// Score the level from these counts, and analyse its payoff matrix.
    ScoreLevel(ScoreInputs),
    /// The level is complete: add its score to the total.
    LevelCompleted,
}

/// The engine state of the interaction arena.
pub struct GameSemanticsEngine {
    /// All level definitions.
    pub levels: Vec<LevelDef>,
    /// Index of the current level.
    pub current_level: usize,
    /// Phase of the current level.
    pub phase: LevelPhase,
    /// The strategy being built for the current level.
    pub strategy: Option<Strategy>,
    /// The outcome of the last condition check.
    pub condition_results: Vec<ConditionResult>,
    /// How many moves of the play have been stepped through.
    pub execution_step: usize,
    /// Whether the current level is complete.
    pub level_complete: bool,
    /// Which levels have been completed.
    pub levels_completed: Vec<bool>,
}

/// The view of a condition outcome list.
pub open spec fn results_view(s: Seq<ConditionResult>) -> Seq<(Seq<char>, bool, Seq<char>)> {
    Seq::new(s.len(), |i: int| condition_view(s[i]))
}

/// The number of satisfied outcomes.
pub open spec fn satisfied_count(s: Seq<(Seq<char>, bool, Seq<char>)>) -> nat
    decreases s.len(),
{
    if s.len() == 0 {
        0
    } else {
        satisfied_count(s.drop_last()) + if s.last().1 {
            1nat
        } else {
            0nat
        }
    }
}

/// Whether the move `m` has been played in `moves`.
pub open spec fn played(moves: Seq<usize>, m: usize) -> bool {
    moves.contains(m)
}

/// Whether an event may be played next: it has not been played, and it is
/// initial or its justifier has been played.
pub open spec fn playable(e: EventView, moves: Seq<usize>) -> bool {
    &&& !played(moves, e.id)
    &&& match e.justifier {
        None => true,
        Some(j) => played(moves, j),
    }
}

/// The ids of the playable events, in arena order.
pub open spec fn playable_ids(es: Seq<EventView>, moves: Seq<usize>) -> Seq<usize>
    decreases es.len(),
{
    if es.len() == 0 {
        Seq::empty()
    } else if playable(es.last(), moves) {
        playable_ids(es.drop_last(), moves).push(es.last().id)
    } else {
        playable_ids(es.drop_last(), moves)
    }
}

impl Default for GameSemanticsEngine {
    /// A fresh engine with the ten levels, at the first level's arena.
    fn default() -> (r: GameSemanticsEngine)
        ensures
            r.well_formed(),
            levels_view(r.levels@) == all_levels_spec(),
            r.current_level == 0,
            r.phase == LevelPhase::ArenaView,
            r.strategy is None,
            r.condition_results@.len() == 0,
            r.execution_step == 0,
            !r.level_complete,
            r.levels_completed@ == Seq::new(10, |i: int| false),
    {
        GameSemanticsEngine::fresh()
    }
}

impl GameSemanticsEngine {
    /// The engine's bookkeeping holds together: one completion flag per
    /// level, every level sound, and a strategy only on an arena whose
    /// justifiers point backward.
    pub open spec fn well_formed(&self) -> bool {
        &&& self.levels_completed@.len() == self.levels@.len()
        &&& forall|i: int| 0 <= i < self.levels@.len() ==> justifiers_backward((#[trigger] self.levels@[i])@.arena)
        &&& match self.strategy {
            Some(s) => justifiers_backward(s@.arena),
            None => true,
        }
    }

    /// The strategy's view, if there is one.
    pub open spec fn strategy_view(&self) -> Option<StrategyView> {
        match self.strategy {
            Some(s) => Some(s@),
            None => None,
        }
    }

    /// A fresh engine with the ten levels, at the first level's arena.
    fn fresh() -> (r: GameSemanticsEngine)
        ensures
            r.well_formed(),
            levels_view(r.levels@) == all_levels_spec(),
            r.current_level == 0,
            r.phase == LevelPhase::ArenaView,
            r.strategy is None,
            r.condition_results@.len() == 0,
            r.execution_step == 0,
            !r.level_complete,
            r.levels_completed@ == Seq::new(10, |i: int| false),
    {
        let levels = all_levels();
        let n = levels.len();
        let mut levels_completed: Vec<bool> = Vec::new();
        let mut i: usize = 0;
        while i < n
            invariant
                i <= n,
                levels_completed@ == Seq::new(i as nat, |k: int| false),
            decreases n - i,
        {
            levels_completed.push(false);
            i = i + 1;
        }
        proof {
            assert(levels_view(levels@).len() == 10);
            assert forall|k: int| 0 <= k < levels@.len() implies justifiers_backward((#[trigger] levels@[k])@.arena) by {
                assert(levels_view(levels@)[k] == levels@[k]@);
                lemma_levels_sound(k + 1);
            }
        }
        GameSemanticsEngine {
            levels,
            current_level: 0,
            phase: LevelPhase::ArenaView,
            strategy: None,
            condition_results: Vec::new(),
            execution_step: 0,
            level_complete: false,
            levels_completed,
        }
    }

    /// The definition of the current level, if the index names one.
    pub fn current_level_def(&self) -> (r: Option<&LevelDef>)
        ensures
            match r {
                Some(l) => self.current_level < self.levels@.len() && *l == self.levels@[self.current_level as int],
                None => self.current_level >= self.levels@.len(),
            },
    {
        if self.current_level < self.levels.len() {
            Some(&self.levels[self.current_level])
        } else {
            None
        }
    }

    /// Starts level `level_index`: back to its arena, results cleared, and
    /// a strategy on the level's arena holding the pre-placed Opponent
    /// moves. An index past the last level changes nothing.
    pub fn start_level(&mut self, level_index: usize)
        requires
            old(self).well_formed(),
        ensures
            final(self).well_formed(),
            final(self).levels@ == old(self).levels@,
            final(self).levels_completed@ == old(self).levels_completed@,
            level_index >= old(self).levels@.len() ==> *final(self) == *old(self),
            level_index < old(self).levels@.len() ==> {
                &&& final(self).current_level == level_index
                &&& final(self).phase == LevelPhase::ArenaView
                &&& !final(self).level_complete
                &&& final(self).execution_step == 0
                &&& final(self).condition_results@.len() == 0
                &&& final(self).strategy_view() == Some(
                    StrategyView {
                        arena: old(self).levels@[level_index as int]@.arena,
                        moves: old(self).levels@[level_index as int]@.opponent_moves,
                    },
                )
            },
    {
        if level_index >= self.levels.len() {
            return;
        }
        self.current_level = level_index;
        self.phase = LevelPhase::ArenaView;
        self.level_complete = false;
        self.execution_step = 0;
        self.condition_results = Vec::new();

        let level = &self.levels[level_index];
        let mut strategy = Strategy::new(copy_arena(&level.arena));
        let mut i: usize = 0;
        while i < level.opponent_moves.len()
            invariant
                i <= level.opponent_moves@.len(),
                strategy@.arena == level@.arena,
                strategy@.moves == level.opponent_moves@.take(i as int),
            decreases level.opponent_moves@.len() - i,
        {
            strategy.add_move(level.opponent_moves[i]);
            assert(level.opponent_moves@.take(i + 1) =~= level.opponent_moves@.take(i as int).push(
                level.opponent_moves@[i as int],
            ));
            i = i + 1;
        }
        assert(level.opponent_moves@.take(i as int) =~= level.opponent_moves@);
        self.strategy = Some(strategy);
    }

    /// Checks the strategy against the current level's conditions and keeps
    /// the outcome; without a strategy or a level nothing changes.
    pub fn validate_strategy(&mut self)
        requires
            old(self).well_formed(),
        ensures
            final(self).well_formed(),
            final(self).levels@ == old(self).levels@,
            final(self).current_level == old(self).current_level,
            final(self).phase == old(self).phase,
            final(self).strategy == old(self).strategy,
            final(self).execution_step == old(self).execution_step,
            final(self).level_complete == old(self).level_complete,
            final(self).levels_completed@ == old(self).levels_completed@,
            match (old(self).strategy, old(self).current_level < old(self).levels@.len()) {
                (Some(s), true) => results_view(final(self).condition_results@) == conditions_outcome(
                    s@,
                    old(self).levels@[old(self).current_level as int].conditions,
                ),
                _ => final(self).condition_results@ == old(self).condition_results@,
            },
    {
        if self.current_level < self.levels.len() {
            match &self.strategy {
                Some(strategy) => {
                    proof {
                        lemma_backward_acyclic(strategy@.arena);
                        lemma_acyclic_walks_end(strategy@.arena, strategy@.moves);
                    }
                    let results = check_conditions(strategy, &self.levels[self.current_level].conditions);
                    self.condition_results = results;
                },
                None => {},
            }
        }
    }

    /// Steps one move further through the play, if a move is left.
    pub fn step_execution(&mut self) -> (r: bool)
        requires
            old(self).well_formed(),
        ensures
            final(self).well_formed(),
            r == (old(self).strategy matches Some(s) && old(self).execution_step < s.moves@.len()),
            final(self).execution_step == if r { old(self).execution_step + 1 } else { old(self).execution_step as int },
            final(self).levels@ == old(self).levels@,
            final(self).current_level == old(self).current_level,
            final(self).phase == old(self).phase,
            final(self).strategy == old(self).strategy,
            final(self).condition_results@ == old(self).condition_results@,
            final(self).level_complete == old(self).level_complete,
            final(self).levels_completed@ == old(self).levels_completed@,
    {
        match &self.strategy {
            Some(strategy) => {
                if self.execution_step < strategy.moves.len() {
                    self.execution_step = self.execution_step + 1;
                    return true;
                }
                false
            },
            None => false,
        }
    }

    /// The counts the current level is scored from, if there is a level.
    fn score_inputs(&self) -> (r: Option<ScoreInputs>)
        ensures
            match r {
                Some(x) => self.current_level < self.levels@.len() && x == (ScoreInputs {
                    move_count: match self.strategy {
                        Some(s) => moves_of(s@.arena, s@.moves, Polarity::Player, s@.moves.len() as int).len() as usize,
                        None => 0,
                    },
                    optimal_count: self.levels@[self.current_level as int].optimal_move_count,
                    constraints_satisfied: satisfied_count(results_view(self.condition_results@)) as usize,
                    total_constraints: self.condition_results@.len() as usize,
                }),
                None => self.current_level >= self.levels@.len(),
            },
    {
        if self.current_level >= self.levels.len() {
            return None;
        }
        let move_count = match &self.strategy {
            Some(s) => s.player_moves().len(),
            None => 0,
        };
        let mut satisfied: usize = 0;
        let mut i: usize = 0;
        while i < self.condition_results.len()
            invariant
                i <= self.condition_results@.len(),
                satisfied == satisfied_count(results_view(self.condition_results@.take(i as int))),
                satisfied <= i,
            decreases self.condition_results@.len() - i,
        {
            assert(results_view(self.condition_results@.take(i + 1)).drop_last() =~= results_view(
                self.condition_results@.take(i as int),
            ));
            if self.condition_results[i].satisfied {
                satisfied = satisfied + 1;
            }
            i = i + 1;
        }
        assert(self.condition_results@.take(i as int) =~= self.condition_results@);
        Some(
            ScoreInputs {
                move_count,
                optimal_count: self.levels[self.current_level].optimal_move_count,
                constraints_satisfied: satisfied,
                total_constraints: self.condition_results.len(),
            },
        )
    }

    /// Moves to the next phase: from the arena to building; from building
    /// to execution, after checking the strategy and rewinding the steps;
    /// from execution to the results, asking the caller to score the level;
    /// from the results back to the arena, with the level marked complete.
    pub fn advance_phase(&mut self) -> (effect: PhaseEffect)
        requires
            old(self).well_formed(),
        ensures
            final(self).well_formed(),
            final(self).levels@ == old(self).levels@,
            final(self).current_level == old(self).current_level,
            final(self).strategy == old(self).strategy,
            final(self).phase == next_phase(old(self).phase),
            old(self).phase == LevelPhase::ArenaView ==> effect == PhaseEffect::Nothing
                && final(self).execution_step == old(self).execution_step
                && final(self).condition_results@ == old(self).condition_results@
                && final(self).level_complete == old(self).level_complete
                && final(self).levels_completed@ == old(self).levels_completed@,
            old(self).phase == LevelPhase::StrategyBuilder ==> effect == PhaseEffect::Nothing
                && final(self).execution_step == 0
                && final(self).level_complete == old(self).level_complete
                && final(self).levels_completed@ == old(self).levels_completed@
                && match (old(self).strategy, old(self).current_level < old(self).levels@.len()) {
                    (Some(s), true) => results_view(final(self).condition_results@) == conditions_outcome(
                        s@,
                        old(self).levels@[old(self).current_level as int].conditions,
                    ),
                    _ => final(self).condition_results@ == old(self).condition_results@,
                },
            old(self).phase == LevelPhase::Execution ==> final(self).execution_step == old(self).execution_step
                && final(self).condition_results@ == old(self).condition_results@
                && final(self).level_complete == old(self).level_complete
                && final(self).levels_completed@ == old(self).levels_completed@
                && if old(self).current_level < old(self).levels@.len() {
                    effect matches PhaseEffect::ScoreLevel(x) && x == (ScoreInputs {
                        move_count: match old(self).strategy {
                            Some(s) => moves_of(s@.arena, s@.moves, Polarity::Player, s@.moves.len() as int).len() as usize,
                            None => 0,
                        },
                        optimal_count: old(self).levels@[old(self).current_level as int].optimal_move_count,
                        constraints_satisfied: satisfied_count(results_view(old(self).condition_results@)) as usize,
                        total_constraints: old(self).condition_results@.len() as usize,
                    })
                } else {
                    effect == PhaseEffect::Nothing
                },
            old(self).phase == LevelPhase::Results ==> effect == PhaseEffect::LevelCompleted
                && final(self).execution_step == old(self).execution_step
                && final(self).condition_results@ == old(self).condition_results@
                && final(self).level_complete
                && final(self).levels_completed@ == if old(self).current_level < old(self).levels@.len() {
                    old(self).levels_completed@.update(old(self).current_level as int, true)
                } else {
                    old(self).levels_completed@
                },
    {
        match self.phase {
            LevelPhase::ArenaView => {
                self.phase = LevelPhase::StrategyBuilder;
                PhaseEffect::Nothing
            },
            LevelPhase::StrategyBuilder => {
                self.validate_strategy();
                self.execution_step = 0;
                self.phase = LevelPhase::Execution;
                PhaseEffect::Nothing
            },
            LevelPhase::Execution => {
                let inputs = self.score_inputs();
                self.phase = LevelPhase::Results;
                match inputs {
                    Some(x) => PhaseEffect::ScoreLevel(x),
                    None => PhaseEffect::Nothing,
                }
            },
            LevelPhase::Results => {
                self.level_complete = true;
                if self.current_level < self.levels.len() {
                    self.levels_completed.set(self.current_level, true);
                }
                self.phase = LevelPhase::ArenaView;
                PhaseEffect::LevelCompleted
            },
        }
    }

    /// Plays `event_id` if there is a strategy and the arena has that event.
    pub fn add_player_move(&mut self, event_id: usize) -> (r: bool)
        requires
            old(self).well_formed(),
        ensures
            final(self).well_formed(),
            r == (old(self).strategy matches Some(s) && event_id < s.arena.events@.len()),
            final(self).strategy_view() == if r {
                Some(
                    StrategyView {
                        arena: old(self).strategy_view()->0.arena,
                        moves: old(self).strategy_view()->0.moves.push(event_id),
                    },
                )
            } else {
                old(self).strategy_view()
            },
            final(self).levels@ == old(self).levels@,
            final(self).current_level == old(self).current_level,
            final(self).phase == old(self).phase,
            final(self).condition_results@ == old(self).condition_results@,
            final(self).execution_step == old(self).execution_step,
            final(self).level_complete == old(self).level_complete,
            final(self).levels_completed@ == old(self).levels_completed@,
    {
        match &mut self.strategy {
            Some(strategy) => {
                if event_id < strategy.arena.events.len() {
                    strategy.add_move(event_id);
                    return true;
                }
                false
            },
            None => false,
        }
    }

    /// Takes back the last move of the strategy, if any.
    pub fn undo_move(&mut self) -> (r: Option<usize>)
        requires
            old(self).well_formed(),
        ensures
            final(self).well_formed(),
            match old(self).strategy_view() {
                Some(s) => if s.moves.len() > 0 {
                    r == Some(s.moves.last()) && final(self).strategy_view() == Some(
                        StrategyView { arena: s.arena, moves: s.moves.drop_last() },
                    )
                } else {
                    r is None && final(self).strategy_view() == old(self).strategy_view()
                },
                None => r is None && final(self).strategy_view() is None,
            },
            final(self).levels@ == old(self).levels@,
            final(self).current_level == old(self).current_level,
            final(self).phase == old(self).phase,
            final(self).condition_results@ == old(self).condition_results@,
            final(self).execution_step == old(self).execution_step,
            final(self).level_complete == old(self).level_complete,
            final(self).levels_completed@ == old(self).levels_completed@,
    {
        match &mut self.strategy {
            Some(strategy) => strategy.undo(),
            None => None,
        }
    }

    /// The events that may be played next, in arena order: those not yet
    /// played whose justifier (if any) has been played. Empty without a
    /// strategy.
    pub fn available_moves(&self) -> (r: Vec<usize>)
        ensures
            r@ == match self.strategy_view() {
                Some(s) => playable_ids(s.arena.events, s.moves),
                None => Seq::empty(),
            },
    {
        match &self.strategy {
            None => Vec::new(),
            Some(strategy) => {
                let events = &strategy.arena.events;
                let moves = &strategy.moves;
                let ghost es = strategy@.arena.events;
                let mut r: Vec<usize> = Vec::new();
                let mut i: usize = 0;
                while i < events.len()
                    invariant
                        i <= events@.len(),
                        es == strategy@.arena.events,
                        es.len() == events@.len(),
                        forall|k: int| 0 <= k < events@.len() ==> #[trigger] es[k] == events@[k]@,
                        r@ == playable_ids(es.take(i as int), moves@),
                    decreases events@.len() - i,
                {
                    let e = &events[i];
                    assert(es.take(i + 1).drop_last() =~= es.take(i as int));
                    assert(es.take(i + 1).last() == e@);
                    let open = match e.justifier {
                        None => true,
                        Some(j) => contains_move(moves, j),
                    };
                    if !contains_move(moves, e.id) && open {
                        r.push(e.id);
                    }
                    i = i + 1;
                }
                assert(es.take(i as int) =~= es);
                r
            },
        }
    }
}

/// Whether `m` occurs among the moves.
fn contains_move(moves: &Vec<usize>, m: usize) -> (r: bool)
    ensures
        r == played(moves@, m),
{
    let mut i: usize = 0;
    while i < moves.len()
        invariant
            i <= moves@.len(),
            forall|k: int| 0 <= k < i ==> moves@[k] != m,
        decreases moves@.len() - i,
    {
        if moves[i] == m {
            assert(moves@[i as int] == m);
            return true;
        }
        i = i + 1;
    }
    false
}

} // verus!
