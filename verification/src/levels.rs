//! The ten levels of the interaction arena. Each introduces a game
//! semantics concept beside a classical game theory element, and fixes an
//! arena, the active conditions, the Opponent moves already placed and the
//! number of Player moves a best play needs.
use crate::arena::{
    arena_bool, arena_nat, arena_ref, arena_unit, bool_spec, bounded_by, ev, function_arena_spec,
    justifiers_backward, lemma_bounded_shiftable, lemma_function_arena_shape, lemma_product_arena_shape,
    lemma_standard_arenas, nat_spec, product_arena_spec, ref_spec, unit_spec, Arena, ArenaView, MoveKind,
    Polarity,
};
use crate::conditions::ActiveConditions;
use vstd::prelude::*;

verus! {

/// A level definition.
#[derive(Debug, Clone)]
pub struct LevelDef {
    /// Level number, from 1 to 10.
    pub number: usize,
    /// Name shown to the player.
    pub name: &'static str,
    /// The game semantics concept taught.
    pub concept: &'static str,
    /// The classical game theory element.
    pub gt_element: &'static str,
    /// Description shown to the player.
    pub description: &'static str,
    /// The arena of the level.
    pub arena: Arena,
    /// Opponent moves already placed (event ids of the arena).
    pub opponent_moves: Vec<usize>,
    /// Which conditions are checked.
    pub conditions: ActiveConditions,
    /// How many Player moves a best play needs.
    pub optimal_move_count: usize,
}

/// A level as texts, an arena view and numbers.
pub struct LevelSpec {
    pub number: usize,
    pub name: Seq<char>,
    pub concept: Seq<char>,
    pub gt_element: Seq<char>,
    pub description: Seq<char>,
    pub arena: ArenaView,
    pub opponent_moves: Seq<usize>,
    pub conditions: ActiveConditions,
    pub optimal_move_count: usize,
}

impl View for LevelDef {
    type V = LevelSpec;

    open spec fn view(&self) -> LevelSpec {
        LevelSpec {
            number: self.number,
            name: self.name@,
            concept: self.concept@,
            gt_element: self.gt_element@,
            description: self.description@,
            arena: self.arena@,
            opponent_moves: self.opponent_moves@,
            conditions: self.conditions,
            optimal_move_count: self.optimal_move_count,
        }
    }
}

/// The arena of level 4: the copycat arena `U -> U` with a second question
/// `q2` (justified by the domain answer) and its answer `a2`.
pub open spec fn well_bracketed_arena() -> ArenaView {
    let f = function_arena_spec(unit_spec(), unit_spec());
    ArenaView {
        name: f.name,
        events: f.events.push(ev(4, Polarity::Opponent, MoveKind::Question, "q2"@, Some(1))).push(
            ev(5, Polarity::Player, MoveKind::Answer, "a2"@, Some(4)),
        ),
        enabling: f.enabling.push((1usize, 4usize)).push((4usize, 5usize)),
    }
}

/// The definition of level `k`, for `k` from 1 to 10.
pub open spec fn level_spec(k: int) -> LevelSpec {
    if k == 1 {
        level_1_hello_bool_spec()
    } else if k == 2 {
        level_2_copycat_spec()
    } else if k == 3 {
        level_3_branching_spec()
    } else if k == 4 {
        level_4_well_bracketed_spec()
    } else if k == 5 {
        level_5_composer_spec()
    } else if k == 6 {
        level_6_state_of_mind_spec()
    } else if k == 7 {
        level_7_race_condition_spec()
    } else if k == 8 {
        level_8_innocent_play_spec()
    } else if k == 9 {
        level_9_parallel_innocence_spec()
    } else {
        level_10_semantic_cube_spec()
    }
}

/// The views of a list of levels.
pub open spec fn levels_view(s: Seq<LevelDef>) -> Seq<LevelSpec> {
    s.map_values(|l: LevelDef| l@)
}

/// The ten levels, in order.
pub open spec fn all_levels_spec() -> Seq<LevelSpec> {
    Seq::new(10, |i: int| level_spec(i + 1))
}

/// All ten levels, numbered 1 to 10 in order.
pub fn all_levels() -> (r: Vec<LevelDef>)
    ensures
        levels_view(r@) == all_levels_spec(),
{
    let mut r: Vec<LevelDef> = Vec::new();
    r.push(level_1_hello_bool());
    r.push(level_2_copycat());
    r.push(level_3_branching());
    r.push(level_4_well_bracketed());
    r.push(level_5_composer());
    r.push(level_6_state_of_mind());
    r.push(level_7_race_condition());
    r.push(level_8_innocent_play());
    r.push(level_9_parallel_innocence());
    r.push(level_10_semantic_cube());
    assert(levels_view(r@) =~= all_levels_spec());
    r
}

/// What every level promises: it carries its own number, a nonempty arena
/// whose justifiers point backward and whose numbers stay within its size,
/// and pre-placed moves that are Opponent events of that arena.
pub open spec fn level_sound(l: LevelSpec, k: int) -> bool {
    &&& l.number == k
    &&& l.arena.events.len() > 0
    &&& justifiers_backward(l.arena)
    &&& bounded_by(l.arena, l.arena.events.len())
    &&& forall|i: int| 0 <= i < l.opponent_moves.len() ==> (#[trigger] l.opponent_moves[i]) < l.arena.events.len()
        && l.arena.events[l.opponent_moves[i] as int].polarity == Polarity::Opponent
}

/// Every one of the ten levels is sound.
pub proof fn lemma_levels_sound(k: int)
    requires
        1 <= k <= 10,
    ensures
        level_sound(level_spec(k), k),
{
    lemma_standard_arenas();
    let u = unit_spec();
    let b = bool_spec();
    let n = nat_spec();
    let r = ref_spec();
    if k == 1 {
    } else if k == 2 {
        lemma_function_arena_shape(u, u);
    } else if k == 3 {
        lemma_function_arena_shape(b, n);
    } else if k == 4 {
        lemma_function_arena_shape(u, u);
        let a = well_bracketed_arena();
        let f = function_arena_spec(u, u);
        assert forall|i: int| 0 <= i < a.events.len() && #[trigger] a.events[i].justifier is Some implies a.events[i].justifier->0 < i by {
            if i < 4 {
                assert(a.events[i] == f.events[i]);
            }
        }
        assert forall|i: int| 0 <= i < a.events.len() implies #[trigger] a.events[i].id < 6 by {
            if i < 4 {
                assert(a.events[i] == f.events[i]);
            }
        }
        assert forall|i: int| 0 <= i < a.events.len() && #[trigger] a.events[i].justifier is Some implies a.events[i].justifier->0 < 6 by {
            if i < 4 {
                assert(a.events[i] == f.events[i]);
            }
        }
        assert forall|i: int| 0 <= i < a.enabling.len() implies #[trigger] a.enabling[i].0 < 6 && a.enabling[i].1 < 6 by {
            if i < f.enabling.len() {
                assert(a.enabling[i] == f.enabling[i]);
                assert(f.enabling[i].0 < 4 && f.enabling[i].1 < 4);
            }
        }
    } else if k == 5 {
        lemma_function_arena_shape(u, b);
        lemma_function_arena_shape(b, u);
        lemma_product_arena_shape(function_arena_spec(u, b), function_arena_spec(b, u));
    } else if k == 6 {
        lemma_product_arena_shape(r, u);
    } else if k == 7 || k == 9 {
        lemma_product_arena_shape(u, u);
    } else if k == 8 {
        lemma_function_arena_shape(b, b);
    } else {
        lemma_function_arena_shape(b, n);
        lemma_product_arena_shape(function_arena_spec(b, n), r);
    }
}

/// Level 1: Hello Bool -- Arenas, moves, polarity.
pub open spec fn level_1_hello_bool_spec() -> LevelSpec {
    LevelSpec {
        number: 1,
        name: "Hello Bool"@,
        concept: "Arenas, moves, polarity (+/-)"@,
        gt_element: "Payoff: choosing tt vs ff"@,
        description: "Welcome to game semantics! An arena is a game board. \
            Opponent (-red) asks questions; you (+blue) give answers. \
            Opponent has asked 'q'. Choose your answer: tt or ff."@,
        arena: bool_spec(),
        opponent_moves: seq![0usize],
        conditions: ActiveConditions { well_bracketing: false, innocence: false, parallel_innocence: false, sequentiality: false },
        optimal_move_count: 1,
    }
}

/// Level 2: The Copycat -- Copycat strategy, function types.
pub open spec fn level_2_copycat_spec() -> LevelSpec {
    LevelSpec {
        number: 2,
        name: "The Copycat"@,
        concept: "Copycat strategy, function types (U -> U)"@,
        gt_element: "Tit-for-tat / mirroring"@,
        description: "Functions are strategies on A -> B arenas. \
            The copycat strategy mirrors Opponent's moves. When Opponent \
            asks in the codomain, forward the question to the domain. \
            When Opponent answers in the domain, forward the answer back."@,
        arena: function_arena_spec(unit_spec(), unit_spec()),
        opponent_moves: seq![2usize, 1usize],
        conditions: ActiveConditions { well_bracketing: false, innocence: false, parallel_innocence: false, sequentiality: false },
        optimal_move_count: 2,
    }
}

/// Level 3: Branching -- Branching, let-binding (B -> N).
pub open spec fn level_3_branching_spec() -> LevelSpec {
    LevelSpec {
        number: 3,
        name: "Branching"@,
        concept: "Branching, let-binding (B -> N)"@,
        gt_element: "Decision trees"@,
        description: "The arena B -> N represents a function from booleans to naturals. \
            First, read the boolean input (ask in the domain). Then, based on \
            the answer (tt or ff), choose which natural to return. Your response \
            should depend on the input -- that's branching."@,
        arena: function_arena_spec(bool_spec(), nat_spec()),
        opponent_moves: Seq::<usize>::empty(),
        conditions: ActiveConditions { well_bracketing: false, innocence: false, parallel_innocence: false, sequentiality: false },
        optimal_move_count: 3,
    }
}

/// Level 4: Well-Bracketed -- Well-bracketing constraint.
pub open spec fn level_4_well_bracketed_spec() -> LevelSpec {
    LevelSpec {
        number: 4,
        name: "Well-Bracketed"@,
        concept: "Well-bracketing (answer before new question)"@,
        gt_element: "Sequential rationality"@,
        description: "Well-bracketing enforces call/return discipline: you must \
            answer the most recent unanswered question before asking a new one. \
            Like a stack: last question in, first answer out. Violating this \
            is like returning from the wrong function call."@,
        arena: well_bracketed_arena(),
        opponent_moves: seq![2usize, 4usize],
        conditions: ActiveConditions { well_bracketing: true, innocence: false, parallel_innocence: false, sequentiality: false },
        optimal_move_count: 2,
    }
}

/// Level 5: The Composer -- Strategy composition.
pub open spec fn level_5_composer_spec() -> LevelSpec {
    LevelSpec {
        number: 5,
        name: "The Composer"@,
        concept: "Strategy composition (A->B, B->C => A->C)"@,
        gt_element: "Subgame perfection"@,
        description: "Composition chains strategies: given f: A->B and g: B->C, \
            build g . f : A->C. The internal B moves are hidden -- only A and C \
            moves are visible. Synchronize on the shared interface."@,
        arena: product_arena_spec(function_arena_spec(unit_spec(), bool_spec()), function_arena_spec(bool_spec(), unit_spec())),
        opponent_moves: Seq::<usize>::empty(),
        conditions: ActiveConditions { well_bracketing: false, innocence: false, parallel_innocence: false, sequentiality: false },
        optimal_move_count: 4,
    }
}

/// Level 6: State of Mind -- References, interference.
pub open spec fn level_6_state_of_mind_spec() -> LevelSpec {
    LevelSpec {
        number: 6,
        name: "State of Mind"@,
        concept: "References, interference (+ref type)"@,
        gt_element: "Payoff matrix + Nash equilibrium"@,
        description: "References introduce state: read and write operations. \
            Interference happens when multiple strategies access the same reference. \
            The ref type adds read/write question-answer pairs. Find the Nash \
            equilibrium strategy that optimizes your payoff."@,
        arena: product_arena_spec(ref_spec(), unit_spec()),
        opponent_moves: seq![0usize, 2usize],
        conditions: ActiveConditions { well_bracketing: false, innocence: false, parallel_innocence: false, sequentiality: false },
        optimal_move_count: 2,
    }
}

/// Level 7: Race Condition -- Parallel composition, conflict detection.
pub open spec fn level_7_race_condition_spec() -> LevelSpec {
    LevelSpec {
        number: 7,
        name: "Race Condition"@,
        concept: "Parallel composition, conflict detection"@,
        gt_element: "Prisoner's dilemma structure"@,
        description: "Parallel composition runs strategies side by side. When they \
            access shared resources, conflicts arise -- race conditions! \
            Two threads both want to answer the same question. The dilemma: \
            cooperate (take turns) or defect (race ahead)?"@,
        arena: product_arena_spec(unit_spec(), unit_spec()),
        opponent_moves: seq![0usize, 2usize],
        conditions: ActiveConditions { well_bracketing: false, innocence: false, parallel_innocence: false, sequentiality: false },
        optimal_move_count: 2,
    }
}

/// Level 8: Innocent Play -- Innocence condition.
pub open spec fn level_8_innocent_play_spec() -> LevelSpec {
    LevelSpec {
        number: 8,
        name: "Innocent Play"@,
        concept: "Innocence (use only visible history)"@,
        gt_element: "Imperfect information games"@,
        description: "An innocent strategy depends only on the P-view: the part of \
            history visible to Player. Hidden Opponent moves cannot influence your \
            decisions. This models programs without side effects -- pure functions."@,
        arena: function_arena_spec(bool_spec(), bool_spec()),
        opponent_moves: Seq::<usize>::empty(),
        conditions: ActiveConditions { well_bracketing: false, innocence: true, parallel_innocence: false, sequentiality: false },
        optimal_move_count: 3,
    }
}

/// Level 9: Parallel Innocence -- Causal, not interleaving.
pub open spec fn level_9_parallel_innocence_spec() -> LevelSpec {
    LevelSpec {
        number: 9,
        name: "Parallel Innocence"@,
        concept: "Parallel innocence (causal, not interleaving)"@,
        gt_element: "Mechanism design"@,
        description: "Parallel innocence strengthens innocence: your response must \
            depend only on causally related history, not on the interleaving order \
            of independent moves. Two independent threads cannot observe each \
            other's timing. Design a mechanism that is fair regardless of order."@,
        arena: product_arena_spec(unit_spec(), unit_spec()),
        opponent_moves: seq![0usize, 2usize],
        conditions: ActiveConditions { well_bracketing: false, innocence: false, parallel_innocence: true, sequentiality: false },
        optimal_move_count: 2,
    }
}

/// Level 10: The Semantic Cube -- All constraints toggleable.
pub open spec fn level_10_semantic_cube_spec() -> LevelSpec {
    LevelSpec {
        number: 10,
        name: "The Semantic Cube"@,
        concept: "All constraints toggleable"@,
        gt_element: "Pareto frontier visualization"@,
        description: "The semantic cube: toggle innocence, well-bracketing, and \
            sequentiality to capture different programming languages. \
            PCF = well-bracketed + innocent + sequential. \
            IA = well-bracketed + sequential (drops innocence). \
            IA// = well-bracketed + innocent (drops sequentiality). \
            Find the Pareto-optimal strategy for your chosen language model."@,
        arena: product_arena_spec(function_arena_spec(bool_spec(), nat_spec()), ref_spec()),
        opponent_moves: Seq::<usize>::empty(),
        conditions: ActiveConditions { well_bracketing: true, innocence: true, parallel_innocence: false, sequentiality: true },
        optimal_move_count: 4,
    }
}

/// Level 1: Hello Bool -- Arenas, moves, polarity.
pub fn level_1_hello_bool() -> (r: LevelDef)
    ensures
        r@ == level_1_hello_bool_spec(),
{
    proof {
        lemma_standard_arenas();
    }
    let arena = arena_bool();
    let mut opponent_moves: Vec<usize> = Vec::new();
    opponent_moves.push(0);
    let r = LevelDef {
        number: 1,
        name: "Hello Bool",
        concept: "Arenas, moves, polarity (+/-)",
        gt_element: "Payoff: choosing tt vs ff",
        description: "Welcome to game semantics! An arena is a game board. \
            Opponent (-red) asks questions; you (+blue) give answers. \
            Opponent has asked 'q'. Choose your answer: tt or ff.",
        arena,
        opponent_moves,
        conditions: ActiveConditions { well_bracketing: false, innocence: false, parallel_innocence: false, sequentiality: false },
        optimal_move_count: 1,
    };
    assert(r@.opponent_moves =~= level_1_hello_bool_spec().opponent_moves);
    r
}

/// Level 2: The Copycat -- Copycat strategy, function types.
pub fn level_2_copycat() -> (r: LevelDef)
    ensures
        r@ == level_2_copycat_spec(),
{
    proof {
        lemma_standard_arenas();
    }
    let u = arena_unit();
    proof {
        lemma_bounded_shiftable(unit_spec(), 2, 2);
    }
    let arena = Arena::function_arena(&u, &u);
    let mut opponent_moves: Vec<usize> = Vec::new();
    opponent_moves.push(2);
    opponent_moves.push(1);
    let r = LevelDef {
        number: 2,
        name: "The Copycat",
        concept: "Copycat strategy, function types (U -> U)",
        gt_element: "Tit-for-tat / mirroring",
        description: "Functions are strategies on A -> B arenas. \
            The copycat strategy mirrors Opponent's moves. When Opponent \
            asks in the codomain, forward the question to the domain. \
            When Opponent answers in the domain, forward the answer back.",
        arena,
        opponent_moves,
        conditions: ActiveConditions { well_bracketing: false, innocence: false, parallel_innocence: false, sequentiality: false },
        optimal_move_count: 2,
    };
    assert(r@.opponent_moves =~= level_2_copycat_spec().opponent_moves);
    r
}

/// Level 3: Branching -- Branching, let-binding (B -> N).
pub fn level_3_branching() -> (r: LevelDef)
    ensures
        r@ == level_3_branching_spec(),
{
    proof {
        lemma_standard_arenas();
    }
    let b = arena_bool();
    let n = arena_nat();
    proof {
        lemma_bounded_shiftable(nat_spec(), 5, 3);
    }
    let arena = Arena::function_arena(&b, &n);
    let opponent_moves: Vec<usize> = Vec::new();

    let r = LevelDef {
        number: 3,
        name: "Branching",
        concept: "Branching, let-binding (B -> N)",
        gt_element: "Decision trees",
        description: "The arena B -> N represents a function from booleans to naturals. \
            First, read the boolean input (ask in the domain). Then, based on \
            the answer (tt or ff), choose which natural to return. Your response \
            should depend on the input -- that's branching.",
        arena,
        opponent_moves,
        conditions: ActiveConditions { well_bracketing: false, innocence: false, parallel_innocence: false, sequentiality: false },
        optimal_move_count: 3,
    };
    assert(r@.opponent_moves =~= level_3_branching_spec().opponent_moves);
    r
}

/// Level 4: Well-Bracketed -- Well-bracketing constraint.
pub fn level_4_well_bracketed() -> (r: LevelDef)
    ensures
        r@ == level_4_well_bracketed_spec(),
{
    proof {
        lemma_standard_arenas();
    }
    let u = arena_unit();
    proof {
        lemma_bounded_shiftable(unit_spec(), 2, 2);
        lemma_function_arena_shape(unit_spec(), unit_spec());
    }
    let mut arena = Arena::function_arena(&u, &u);
    // A second question-answer pair deepens the bracketing.
    let extra_q = arena.add_event(Polarity::Opponent, MoveKind::Question, "q2", Some(1));
    arena.add_event(Polarity::Player, MoveKind::Answer, "a2", Some(extra_q));
    assert(arena@.events =~= well_bracketed_arena().events);
    assert(arena@.enabling =~= well_bracketed_arena().enabling);
    let mut opponent_moves: Vec<usize> = Vec::new();
    opponent_moves.push(2);
    opponent_moves.push(4);
    let r = LevelDef {
        number: 4,
        name: "Well-Bracketed",
        concept: "Well-bracketing (answer before new question)",
        gt_element: "Sequential rationality",
        description: "Well-bracketing enforces call/return discipline: you must \
            answer the most recent unanswered question before asking a new one. \
            Like a stack: last question in, first answer out. Violating this \
            is like returning from the wrong function call.",
        arena,
        opponent_moves,
        conditions: ActiveConditions { well_bracketing: true, innocence: false, parallel_innocence: false, sequentiality: false },
        optimal_move_count: 2,
    };
    assert(r@.opponent_moves =~= level_4_well_bracketed_spec().opponent_moves);
    r
}

/// Level 5: The Composer -- Strategy composition.
pub fn level_5_composer() -> (r: LevelDef)
    ensures
        r@ == level_5_composer_spec(),
{
    proof {
        lemma_standard_arenas();
    }
    let u = arena_unit();
    let b = arena_bool();
    proof {
        lemma_bounded_shiftable(bool_spec(), 3, 2);
        lemma_bounded_shiftable(unit_spec(), 2, 3);
        lemma_function_arena_shape(bool_spec(), unit_spec());
        lemma_function_arena_shape(unit_spec(), bool_spec());
        lemma_bounded_shiftable(function_arena_spec(bool_spec(), unit_spec()), 5, 5);
    }
    // Compose (U -> B) ; (B -> U).
    let arena1 = Arena::function_arena(&u, &b);
    let arena2 = Arena::function_arena(&b, &u);
    let arena = Arena::product_arena(&arena1, &arena2);
    let opponent_moves: Vec<usize> = Vec::new();

    let r = LevelDef {
        number: 5,
        name: "The Composer",
        concept: "Strategy composition (A->B, B->C => A->C)",
        gt_element: "Subgame perfection",
        description: "Composition chains strategies: given f: A->B and g: B->C, \
            build g . f : A->C. The internal B moves are hidden -- only A and C \
            moves are visible. Synchronize on the shared interface.",
        arena,
        opponent_moves,
        conditions: ActiveConditions { well_bracketing: false, innocence: false, parallel_innocence: false, sequentiality: false },
        optimal_move_count: 4,
    };
    assert(r@.opponent_moves =~= level_5_composer_spec().opponent_moves);
    r
}

/// Level 6: State of Mind -- References, interference.
pub fn level_6_state_of_mind() -> (r: LevelDef)
    ensures
        r@ == level_6_state_of_mind_spec(),
{
    proof {
        lemma_standard_arenas();
    }
    let r = arena_ref();
    let u = arena_unit();
    proof {
        lemma_bounded_shiftable(unit_spec(), 2, 4);
    }
    let arena = Arena::product_arena(&r, &u);
    let mut opponent_moves: Vec<usize> = Vec::new();
    opponent_moves.push(0);
    opponent_moves.push(2);
    let r = LevelDef {
        number: 6,
        name: "State of Mind",
        concept: "References, interference (+ref type)",
        gt_element: "Payoff matrix + Nash equilibrium",
        description: "References introduce state: read and write operations. \
            Interference happens when multiple strategies access the same reference. \
            The ref type adds read/write question-answer pairs. Find the Nash \
            equilibrium strategy that optimizes your payoff.",
        arena,
        opponent_moves,
        conditions: ActiveConditions { well_bracketing: false, innocence: false, parallel_innocence: false, sequentiality: false },
        optimal_move_count: 2,
    };
    assert(r@.opponent_moves =~= level_6_state_of_mind_spec().opponent_moves);
    r
}

/// Level 7: Race Condition -- Parallel composition, conflict detection.
pub fn level_7_race_condition() -> (r: LevelDef)
    ensures
        r@ == level_7_race_condition_spec(),
{
    proof {
        lemma_standard_arenas();
    }
    let u1 = arena_unit();
    let u2 = arena_unit();
    proof {
        lemma_bounded_shiftable(unit_spec(), 2, 2);
    }
    let arena = Arena::product_arena(&u1, &u2);
    let mut opponent_moves: Vec<usize> = Vec::new();
    opponent_moves.push(0);
    opponent_moves.push(2);
    let r = LevelDef {
        number: 7,
        name: "Race Condition",
        concept: "Parallel composition, conflict detection",
        gt_element: "Prisoner's dilemma structure",
        description: "Parallel composition runs strategies side by side. When they \
            access shared resources, conflicts arise -- race conditions! \
            Two threads both want to answer the same question. The dilemma: \
            cooperate (take turns) or defect (race ahead)?",
        arena,
        opponent_moves,
        conditions: ActiveConditions { well_bracketing: false, innocence: false, parallel_innocence: false, sequentiality: false },
        optimal_move_count: 2,
    };
    assert(r@.opponent_moves =~= level_7_race_condition_spec().opponent_moves);
    r
}

/// Level 8: Innocent Play -- Innocence condition.
pub fn level_8_innocent_play() -> (r: LevelDef)
    ensures
        r@ == level_8_innocent_play_spec(),
{
    proof {
        lemma_standard_arenas();
    }
    let b = arena_bool();
    proof {
        lemma_bounded_shiftable(bool_spec(), 3, 3);
    }
    let arena = Arena::function_arena(&b, &b);
    let opponent_moves: Vec<usize> = Vec::new();

    let r = LevelDef {
        number: 8,
        name: "Innocent Play",
        concept: "Innocence (use only visible history)",
        gt_element: "Imperfect information games",
        description: "An innocent strategy depends only on the P-view: the part of \
            history visible to Player. Hidden Opponent moves cannot influence your \
            decisions. This models programs without side effects -- pure functions.",
        arena,
        opponent_moves,
        conditions: ActiveConditions { well_bracketing: false, innocence: true, parallel_innocence: false, sequentiality: false },
        optimal_move_count: 3,
    };
    assert(r@.opponent_moves =~= level_8_innocent_play_spec().opponent_moves);
    r
}

/// Level 9: Parallel Innocence -- Causal, not interleaving.
pub fn level_9_parallel_innocence() -> (r: LevelDef)
    ensures
        r@ == level_9_parallel_innocence_spec(),
{
    proof {
        lemma_standard_arenas();
    }
    let u = arena_unit();
    proof {
        lemma_bounded_shiftable(unit_spec(), 2, 2);
    }
    let arena = Arena::product_arena(&u, &u);
    let mut opponent_moves: Vec<usize> = Vec::new();
    opponent_moves.push(0);
    opponent_moves.push(2);
    let r = LevelDef {
        number: 9,
        name: "Parallel Innocence",
        concept: "Parallel innocence (causal, not interleaving)",
        gt_element: "Mechanism design",
        description: "Parallel innocence strengthens innocence: your response must \
            depend only on causally related history, not on the interleaving order \
            of independent moves. Two independent threads cannot observe each \
            other's timing. Design a mechanism that is fair regardless of order.",
        arena,
        opponent_moves,
        conditions: ActiveConditions { well_bracketing: false, innocence: false, parallel_innocence: true, sequentiality: false },
        optimal_move_count: 2,
    };
    assert(r@.opponent_moves =~= level_9_parallel_innocence_spec().opponent_moves);
    r
}

/// Level 10: The Semantic Cube -- All constraints toggleable.
pub fn level_10_semantic_cube() -> (r: LevelDef)
    ensures
        r@ == level_10_semantic_cube_spec(),
{
    proof {
        lemma_standard_arenas();
    }
    let b = arena_bool();
    let n = arena_nat();
    let r = arena_ref();
    proof {
        lemma_bounded_shiftable(nat_spec(), 5, 3);
        lemma_bounded_shiftable(ref_spec(), 4, 8);
        lemma_function_arena_shape(bool_spec(), nat_spec());
    }
    // A function, a product and a reference together.
    let f_bn = Arena::function_arena(&b, &n);
    let arena = Arena::product_arena(&f_bn, &r);
    let opponent_moves: Vec<usize> = Vec::new();

    let r = LevelDef {
        number: 10,
        name: "The Semantic Cube",
        concept: "All constraints toggleable",
        gt_element: "Pareto frontier visualization",
        description: "The semantic cube: toggle innocence, well-bracketing, and \
            sequentiality to capture different programming languages. \
            PCF = well-bracketed + innocent + sequential. \
            IA = well-bracketed + sequential (drops innocence). \
            IA// = well-bracketed + innocent (drops sequentiality). \
            Find the Pareto-optimal strategy for your chosen language model.",
        arena,
        opponent_moves,
        conditions: ActiveConditions { well_bracketing: true, innocence: true, parallel_innocence: false, sequentiality: true },
        optimal_move_count: 4,
    };
    assert(r@.opponent_moves =~= level_10_semantic_cube_spec().opponent_moves);
    r
}
} // verus!
