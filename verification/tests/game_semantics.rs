use gororoba::arena::{arena_bool, arena_nat, arena_ref, arena_unit, Arena, MoveKind, Polarity};
use gororoba::composition::{compose_strategies, detect_conflicts, parallel_compose};
use gororoba::conditions::{
    all_conditions_satisfied, check_conditions, check_innocence, check_parallel_innocence,
    check_well_bracketing, compute_p_view, ActiveConditions,
};
use gororoba::strategy::{Strategy, StrategyError};

#[test]
fn unit_arena_structure() {
    let a = arena_unit();
    assert_eq!(a.events.len(), 2);
    assert_eq!(a.events[0].polarity, Polarity::Opponent);
    assert_eq!(a.events[1].polarity, Polarity::Player);
    assert_eq!(a.enabling.len(), 1);
}

#[test]
fn bool_arena_has_two_answers() {
    let a = arena_bool();
    assert_eq!(a.events.len(), 3);
    let answers: Vec<_> = a
        .events
        .iter()
        .filter(|e| e.kind == MoveKind::Answer)
        .collect();
    assert_eq!(answers.len(), 2);
}

#[test]
fn function_arena_reverses_domain_polarity() {
    let u = arena_unit();
    let b = arena_bool();
    let f = Arena::function_arena(&u, &b);
    assert_eq!(f.events[0].polarity, Polarity::Player);
    assert_eq!(f.events[1].polarity, Polarity::Opponent);
    assert_eq!(f.events[2].polarity, Polarity::Opponent);
}

#[test]
fn product_arena_combines_events() {
    let u = arena_unit();
    let b = arena_bool();
    let p = Arena::product_arena(&u, &b);
    assert_eq!(p.events.len(), u.events.len() + b.events.len());
}

#[test]
fn polarity_flip() {
    assert_eq!(Polarity::Player.flip(), Polarity::Opponent);
    assert_eq!(Polarity::Opponent.flip(), Polarity::Player);
}

#[test]
fn initial_moves_of_bool() {
    let a = arena_bool();
    let initials = a.initial_moves();
    assert_eq!(initials.len(), 1);
    assert_eq!(a.events[initials[0]].kind, MoveKind::Question);
}

#[test]
fn parallel_compose_interleaves() {
    let a = arena_unit();
    let b = arena_unit();

    let mut sa = Strategy::new(a.clone());
    sa.add_move(0);
    sa.add_move(1);

    let mut sb = Strategy::new(b);
    sb.add_move(0);
    sb.add_move(1);

    let composed = parallel_compose(&sa, &sb);
    assert_eq!(composed.moves.len(), 4);
}

#[test]
fn compose_hides_internal() {
    let u = arena_unit();
    let sigma_arena = Arena::function_arena(&u, &u);
    let tau_arena = Arena::function_arena(&u, &u);

    let mut sigma = Strategy::new(sigma_arena);
    sigma.add_move(2);
    sigma.add_move(0);
    sigma.add_move(1);
    sigma.add_move(3);

    let mut tau = Strategy::new(tau_arena);
    tau.add_move(2);
    tau.add_move(0);
    tau.add_move(1);
    tau.add_move(3);

    let composed = compose_strategies(&sigma, &tau);
    assert!(!composed.moves.is_empty());
}

#[test]
fn no_conflicts_independent_strategies() {
    let a = arena_unit();
    let b = arena_unit();

    let mut sa = Strategy::new(a);
    sa.add_move(0);
    sa.add_move(1);

    let mut sb = Strategy::new(b);
    sb.add_move(0);
    sb.add_move(1);

    let conflicts = detect_conflicts(&sa, &sb);
    assert!(!conflicts.is_empty());
}

#[test]
fn well_bracketed_unit_play() {
    let a = arena_unit();
    let mut s = Strategy::new(a);
    s.add_move(0);
    s.add_move(1);
    let result = check_well_bracketing(&s);
    assert!(result.satisfied);
}

#[test]
fn well_bracketed_bool_play() {
    let a = arena_bool();
    let mut s = Strategy::new(a);
    s.add_move(0);
    s.add_move(1);
    let result = check_well_bracketing(&s);
    assert!(result.satisfied);
}

#[test]
fn innocence_simple_strategy() {
    let a = arena_unit();
    let mut s = Strategy::new(a);
    s.add_move(0);
    s.add_move(1);
    let result = check_innocence(&s);
    assert!(result.satisfied);
}

#[test]
fn p_view_unit_strategy() {
    let a = arena_unit();
    let mut s = Strategy::new(a);
    s.add_move(0);
    s.add_move(1);
    let views = compute_p_view(&s);
    assert_eq!(views.len(), 2);
}

#[test]
fn parallel_innocence_unit() {
    let a = arena_unit();
    let mut s = Strategy::new(a);
    s.add_move(0);
    s.add_move(1);
    let result = check_parallel_innocence(&s);
    assert!(result.satisfied);
}

#[test]
fn all_conditions_off_is_satisfied() {
    let a = arena_unit();
    let s = Strategy::new(a);
    let conditions = ActiveConditions::default();
    assert!(all_conditions_satisfied(&s, &conditions));
}

#[test]
fn empty_strategy_is_valid() {
    let s = Strategy::new(arena_unit());
    assert!(s.is_valid());
}

#[test]
fn valid_unit_strategy() {
    let a = arena_unit();
    let mut s = Strategy::new(a);
    s.add_move(0);
    s.add_move(1);
    assert!(s.is_valid());
}

#[test]
fn alternation_violation() {
    let a = arena_bool();
    let mut s = Strategy::new(a);
    s.add_move(0);
    s.add_move(1);
    s.add_move(2);
    let errors = s.validate_alternation();
    assert!(errors
        .iter()
        .any(|e| matches!(e, StrategyError::AlternationViolation { .. })));
}

#[test]
fn causality_violation() {
    let a = arena_unit();
    let mut s = Strategy::new(a);
    s.add_move(1);
    let errors = s.validate_causality();
    assert!(errors
        .iter()
        .any(|e| matches!(e, StrategyError::CausalityViolation { .. })));
}

#[test]
fn duplicate_move() {
    let a = arena_unit();
    let mut s = Strategy::new(a);
    s.add_move(0);
    s.add_move(0);
    let errors = s.validate_structure();
    assert!(errors
        .iter()
        .any(|e| matches!(e, StrategyError::DuplicateMove(0))));
}

#[test]
fn undo_removes_last() {
    let a = arena_unit();
    let mut s = Strategy::new(a);
    s.add_move(0);
    s.add_move(1);
    assert_eq!(s.undo(), Some(1));
    assert_eq!(s.moves.len(), 1);
}

#[test]
fn function_arena_strategy() {
    let u = arena_unit();
    let f = Arena::function_arena(&u, &u);
    let mut s = Strategy::new(f);
    s.add_move(2);
    s.add_move(0);
    s.add_move(1);
    s.add_move(3);
    assert!(s.is_valid());
}

// Exact values of the library's formulas and messages.

#[test]
fn function_arena_names_and_cross_edges() {
    let b = arena_bool();
    let n = arena_nat();
    let f = Arena::function_arena(&b, &n);
    assert_eq!(f.name, "B -> N");
    assert_eq!(f.events.len(), 8);
    assert_eq!(f.events[3].id, 3);
    assert_eq!(f.events[4].justifier, Some(3));
    assert_eq!(f.enabling, vec![(0, 1), (0, 2), (3, 4), (3, 5), (3, 6), (3, 7), (0, 3)]);
    assert_eq!(f.initial_moves(), vec![0, 3]);
    assert_eq!(f.children(3), vec![4, 5, 6, 7]);
}

#[test]
fn product_arena_name_and_shift() {
    let r = arena_ref();
    let u = arena_unit();
    let p = Arena::product_arena(&r, &u);
    assert_eq!(p.name, "ref x U");
    assert_eq!(p.enabling, vec![(0, 1), (2, 3), (4, 5)]);
    assert_eq!(p.events[5].justifier, Some(4));
    assert_eq!(p.events[5].label, "*");
}

#[test]
fn symbols() {
    assert_eq!(Polarity::Player.symbol(), "+");
    assert_eq!(Polarity::Opponent.symbol(), "-");
    assert_eq!(MoveKind::Question.symbol(), "q");
    assert_eq!(MoveKind::Answer.symbol(), "a");
}

#[test]
fn validate_lists_every_error_in_order() {
    let mut s = Strategy::new(arena_bool());
    s.add_move(1);
    s.add_move(7);
    s.add_move(1);
    s.add_move(2);
    assert_eq!(
        s.validate(),
        vec![
            StrategyError::InvalidEvent(7),
            StrategyError::DuplicateMove(1),
            StrategyError::CausalityViolation { move_id: 1, justifier: 0 },
            StrategyError::CausalityViolation { move_id: 1, justifier: 0 },
            StrategyError::CausalityViolation { move_id: 2, justifier: 0 },
            StrategyError::FirstMoveNotOpponent,
            StrategyError::AlternationViolation { position: 3 },
        ]
    );
    assert!(!s.is_valid());
    assert_eq!(
        s.polarity_sequence(),
        vec![Polarity::Player, Polarity::Player, Polarity::Player]
    );
    assert_eq!(s.player_moves(), vec![1, 1, 2]);
    assert!(s.opponent_moves().is_empty());
    s.clear();
    assert!(s.moves.is_empty());
    assert_eq!(s.undo(), None);
}

#[test]
fn well_bracketing_failure_message() {
    let mut a = Arena::function_arena(&arena_unit(), &arena_unit());
    let q2 = a.add_event(Polarity::Opponent, MoveKind::Question, "q2", Some(1));
    assert_eq!(q2, 4);
    a.add_event(Polarity::Player, MoveKind::Answer, "a2", Some(q2));
    let mut s = Strategy::new(a);
    s.add_move(2);
    s.add_move(0);
    s.add_move(3);
    let r = check_well_bracketing(&s);
    assert!(!r.satisfied);
    assert_eq!(r.name, "Well-Bracketing");
    assert_eq!(
        r.detail,
        "Answer '*' (event 3) answers question 2 but most recent open question is 0"
    );
}

#[test]
fn p_view_follows_justifiers() {
    let f = Arena::function_arena(&arena_unit(), &arena_unit());
    let mut s = Strategy::new(f);
    s.add_move(2);
    s.add_move(0);
    s.add_move(1);
    s.add_move(3);
    let views = compute_p_view(&s);
    assert_eq!(views[0], vec![2]);
    assert_eq!(views[1], vec![0]);
    assert_eq!(views[2], vec![0, 1]);
    assert_eq!(views[3], vec![2, 3]);
}

#[test]
fn innocence_failure_message() {
    let mut s = Strategy::new(arena_bool());
    s.add_move(0);
    s.add_move(1);
    s.add_move(0);
    s.add_move(2);
    let r = check_innocence(&s);
    assert!(!r.satisfied);
    assert_eq!(r.detail, "Same P-view leads to different Player moves: 1 and 2");
}

#[test]
fn parallel_innocence_failure_message() {
    let p = Arena::product_arena(&arena_bool(), &arena_bool());
    let mut s = Strategy::new(p);
    s.add_move(0);
    s.add_move(1);
    s.add_move(3);
    s.add_move(1);
    s.add_move(2);
    let r = check_parallel_innocence(&s);
    assert!(!r.satisfied);
    assert_eq!(r.name, "Parallel Innocence");
    assert_eq!(r.detail, "Same causal history leads to different moves: 1 and 2");
}

#[test]
fn conditions_run_in_order() {
    let mut s = Strategy::new(arena_unit());
    s.add_move(0);
    s.add_move(1);
    let all = ActiveConditions {
        well_bracketing: true,
        innocence: true,
        parallel_innocence: true,
        sequentiality: true,
    };
    let results = check_conditions(&s, &all);
    let names: Vec<&str> = results.iter().map(|r| r.name).collect();
    assert_eq!(names, vec!["Well-Bracketing", "Innocence", "Parallel Innocence"]);
    assert!(all_conditions_satisfied(&s, &all));
}

#[test]
fn composition_keeps_visible_halves() {
    let u = arena_unit();
    let mut sigma = Strategy::new(Arena::function_arena(&u, &u));
    sigma.add_move(2);
    sigma.add_move(0);
    sigma.add_move(1);
    sigma.add_move(3);
    let mut tau = Strategy::new(Arena::function_arena(&u, &u));
    tau.add_move(2);
    tau.add_move(0);
    tau.add_move(1);
    tau.add_move(3);
    let c = compose_strategies(&sigma, &tau);
    assert_eq!(c.arena.name, "(U -> U) ; (U -> U)");
    assert_eq!(c.arena.events.len(), 4);
    assert_eq!(c.arena.events[3].justifier, Some(2));
    assert_eq!(c.arena.enabling, vec![(2, 3)]);
    assert_eq!(c.moves, vec![0, 1, 2, 3]);
}

#[test]
fn parallel_compose_shifts_tau() {
    let mut sa = Strategy::new(arena_bool());
    sa.add_move(0);
    let mut sb = Strategy::new(arena_unit());
    sb.add_move(0);
    sb.add_move(1);
    let c = parallel_compose(&sa, &sb);
    assert_eq!(c.moves, vec![0, 3, 4]);
    assert_eq!(c.arena.name, "B x U");
}

#[test]
fn answer_with_nothing_open_breaks_bracketing() {
    let mut s = Strategy::new(arena_unit());
    s.add_move(1);
    let r = check_well_bracketing(&s);
    assert!(!r.satisfied);
    assert_eq!(r.detail, "Answer '*' (event 1) answers question 0 but no question is open");
}

#[test]
fn answer_without_question_breaks_bracketing() {
    let mut a = Arena::new("loose");
    a.add_event(Polarity::Opponent, MoveKind::Question, "q", None);
    a.add_event(Polarity::Player, MoveKind::Answer, "x", None);
    let mut s = Strategy::new(a);
    s.add_move(0);
    s.add_move(1);
    let r = check_well_bracketing(&s);
    assert!(!r.satisfied);
    assert_eq!(r.detail, "Answer 'x' (event 1) answers no question");
}

#[test]
fn fewer_conditions_keep_a_play_satisfied() {
    let mut s = Strategy::new(arena_unit());
    s.add_move(0);
    s.add_move(1);
    let all = ActiveConditions { well_bracketing: true, innocence: true, parallel_innocence: true, sequentiality: false };
    let some = ActiveConditions { well_bracketing: true, innocence: false, parallel_innocence: false, sequentiality: false };
    assert!(all_conditions_satisfied(&s, &all));
    assert!(all_conditions_satisfied(&s, &some));
    assert!(all_conditions_satisfied(&s, &ActiveConditions::default()));
    let mut bad = Strategy::new(arena_unit());
    bad.add_move(1);
    assert!(!all_conditions_satisfied(&bad, &some));
    assert!(all_conditions_satisfied(&bad, &ActiveConditions::default()));
}

#[test]
fn p_view_walk_on_a_cyclic_arena() {
    // Two questions that justify each other: the walk stops at position 0.
    let mut a = Arena::new("cycle");
    a.add_event(Polarity::Opponent, MoveKind::Question, "a", Some(1));
    a.add_event(Polarity::Player, MoveKind::Question, "b", Some(0));
    let mut s = Strategy::new(a);
    s.add_move(0);
    s.add_move(1);
    let views = compute_p_view(&s);
    assert_eq!(views, vec![vec![0], vec![0, 1]]);
}
