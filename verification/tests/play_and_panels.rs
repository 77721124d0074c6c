use gororoba::arena::Polarity;
use gororoba::engine::{GameSemanticsEngine, LevelPhase, PhaseEffect, ScoreInputs};
use gororoba::game_core::{
    handle_game_actions, GameAction, GameState, HudState, PedagogyMode, PedagogyState,
};
use gororoba::levels::{all_levels, level_10_semantic_cube, level_1_hello_bool, level_4_well_bracketed};
use gororoba::voxels::{BoundaryConditions, BoundaryType, VoxelGrid, VoxelMask3};

#[test]
fn ten_levels_defined() {
    let levels = all_levels();
    assert_eq!(levels.len(), 10);
}

#[test]
fn level_numbers_sequential() {
    let levels = all_levels();
    for (i, level) in levels.iter().enumerate() {
        assert_eq!(level.number, i + 1);
    }
}

#[test]
fn all_levels_have_arenas() {
    for level in all_levels() {
        assert!(
            !level.arena.events.is_empty(),
            "Level {} '{}' has empty arena",
            level.number,
            level.name
        );
    }
}

#[test]
fn opponent_moves_within_arena() {
    for level in all_levels() {
        for &m in &level.opponent_moves {
            assert!(
                m < level.arena.events.len(),
                "Level {}: opponent move {} out of bounds (arena has {} events)",
                level.number,
                m,
                level.arena.events.len()
            );
        }
    }
}

#[test]
fn level_1_is_simple() {
    let l = level_1_hello_bool();
    assert_eq!(l.optimal_move_count, 1);
    assert_eq!(l.opponent_moves.len(), 1);
    assert!(!l.conditions.well_bracketing);
    assert!(!l.conditions.innocence);
}

#[test]
fn level_10_has_all_conditions() {
    let l = level_10_semantic_cube();
    assert!(l.conditions.well_bracketing);
    assert!(l.conditions.innocence);
    assert!(l.conditions.sequentiality);
}

#[test]
fn preplaced_moves_are_opponent_moves() {
    for level in all_levels() {
        for &m in &level.opponent_moves {
            assert_eq!(level.arena.events[m].polarity, Polarity::Opponent);
        }
    }
}

#[test]
fn level_arenas_have_expected_sizes() {
    let sizes: Vec<usize> = all_levels().iter().map(|l| l.arena.events.len()).collect();
    assert_eq!(sizes, vec![3, 4, 8, 6, 10, 6, 4, 6, 4, 12]);
    let l4 = level_4_well_bracketed();
    assert_eq!(l4.arena.events[4].label, "q2");
    assert_eq!(l4.arena.events[4].justifier, Some(1));
    assert_eq!(l4.arena.events[5].justifier, Some(4));
    assert_eq!(l4.arena.enabling[l4.arena.enabling.len() - 1], (4, 5));
}

#[test]
fn default_engine_has_10_levels() {
    let engine = GameSemanticsEngine::default();
    assert_eq!(engine.levels.len(), 10);
    assert_eq!(engine.current_level, 0);
    assert_eq!(engine.phase, LevelPhase::ArenaView);
}

#[test]
fn start_level_initializes_strategy() {
    let mut engine = GameSemanticsEngine::default();
    engine.start_level(0);
    assert!(engine.strategy.is_some());
    assert_eq!(engine.strategy.as_ref().unwrap().moves.len(), 1);
}

#[test]
fn advance_phase_cycle() {
    let mut engine = GameSemanticsEngine::default();
    engine.start_level(0);
    assert_eq!(engine.phase, LevelPhase::ArenaView);
    engine.advance_phase();
    assert_eq!(engine.phase, LevelPhase::StrategyBuilder);
    engine.advance_phase();
    assert_eq!(engine.phase, LevelPhase::Execution);
    engine.advance_phase();
    assert_eq!(engine.phase, LevelPhase::Results);
}

#[test]
fn add_and_undo_move() {
    let mut engine = GameSemanticsEngine::default();
    engine.start_level(0);
    let initial_len = engine.strategy.as_ref().unwrap().moves.len();
    engine.add_player_move(1);
    assert_eq!(engine.strategy.as_ref().unwrap().moves.len(), initial_len + 1);
    engine.undo_move();
    assert_eq!(engine.strategy.as_ref().unwrap().moves.len(), initial_len);
}

#[test]
fn available_moves_respects_causality() {
    let mut engine = GameSemanticsEngine::default();
    engine.start_level(0);
    let available = engine.available_moves();
    assert!(available.contains(&1));
    assert!(available.contains(&2));
    assert!(!available.contains(&0));
}

#[test]
fn step_execution() {
    let mut engine = GameSemanticsEngine::default();
    engine.start_level(0);
    engine.add_player_move(1);
    engine.phase = LevelPhase::Execution;
    engine.execution_step = 0;
    assert!(engine.step_execution());
    assert_eq!(engine.execution_step, 1);
}

#[test]
fn levels_completed_tracking() {
    let mut engine = GameSemanticsEngine::default();
    engine.start_level(0);
    engine.add_player_move(1);
    engine.advance_phase();
    engine.advance_phase();
    engine.advance_phase();
    engine.advance_phase();
    assert!(engine.levels_completed[0]);
}

#[test]
fn phase_effects_and_score_inputs() {
    let mut engine = GameSemanticsEngine::default();
    engine.start_level(3);
    assert_eq!(engine.strategy.as_ref().unwrap().moves, vec![2, 4]);
    assert_eq!(engine.advance_phase(), PhaseEffect::Nothing);
    assert!(engine.add_player_move(3));
    assert!(!engine.add_player_move(6));
    assert_eq!(engine.advance_phase(), PhaseEffect::Nothing);
    assert_eq!(engine.condition_results.len(), 1);
    assert_eq!(engine.condition_results[0].name, "Well-Bracketing");
    assert_eq!(engine.execution_step, 0);
    assert!(engine.step_execution());
    assert!(engine.step_execution());
    assert!(engine.step_execution());
    assert!(!engine.step_execution());
    let satisfied = usize::from(engine.condition_results[0].satisfied);
    assert_eq!(
        engine.advance_phase(),
        PhaseEffect::ScoreLevel(ScoreInputs {
            move_count: 1,
            optimal_count: 2,
            constraints_satisfied: satisfied,
            total_constraints: 1,
        })
    );
    assert_eq!(engine.advance_phase(), PhaseEffect::LevelCompleted);
    assert!(engine.level_complete);
    assert!(engine.levels_completed[3]);
    assert!(!engine.levels_completed[0]);
    assert_eq!(engine.phase, LevelPhase::ArenaView);
}

#[test]
fn out_of_range_level_changes_nothing() {
    let mut engine = GameSemanticsEngine::default();
    engine.start_level(10);
    assert!(engine.strategy.is_none());
    assert_eq!(engine.current_level, 0);
    assert!(engine.available_moves().is_empty());
    assert_eq!(engine.undo_move(), None);
    assert!(!engine.add_player_move(0));
    assert!(!engine.step_execution());
}

#[test]
fn available_moves_follow_justifiers() {
    let mut engine = GameSemanticsEngine::default();
    engine.start_level(1);
    // U -> U with the codomain question (2) and the domain answer (1) placed.
    assert_eq!(engine.available_moves(), vec![0, 3]);
    assert_eq!(engine.undo_move(), Some(1));
    assert_eq!(engine.available_moves(), vec![0, 3]);
    assert_eq!(engine.undo_move(), Some(2));
    assert_eq!(engine.available_moves(), vec![0, 2]);
}

#[test]
fn game_state_default_is_menu() {
    assert_eq!(GameState::default(), GameState::Menu);
}

#[test]
fn game_actions_toggle_pause_and_panels() {
    let out = handle_game_actions(GameState::Playing, false, true, &vec![GameAction::Pause]);
    assert_eq!(out.next_state, Some(GameState::Paused));
    assert!(!out.hud_visible);
    assert!(out.pedagogy_visible);
    let out = handle_game_actions(GameState::Paused, false, false, &vec![GameAction::Pause]);
    assert_eq!(out.next_state, Some(GameState::Playing));
    let out = handle_game_actions(GameState::Menu, false, false, &vec![GameAction::Pause, GameAction::Interact]);
    assert_eq!(out.next_state, None);
    let out = handle_game_actions(
        GameState::Playing,
        false,
        false,
        &vec![GameAction::ToggleHud, GameAction::TogglePedagogy, GameAction::ToggleHud, GameAction::Pause, GameAction::Pause],
    );
    assert_eq!(out.next_state, Some(GameState::Paused));
    assert!(!out.hud_visible);
    assert!(out.pedagogy_visible);
}

#[test]
fn hud_state_set_and_update() {
    let mut hud = HudState::default();
    hud.set("FPS", "60");
    assert_eq!(hud.entries.len(), 1);
    assert_eq!(hud.entries[0].value, "60");
    hud.set("FPS", "120");
    assert_eq!(hud.entries.len(), 1);
    assert_eq!(hud.entries[0].value, "120");
    hud.set("MLUPS", "42");
    assert_eq!(hud.entries.len(), 2);
}

#[test]
fn hud_state_clear() {
    let mut hud = HudState::default();
    hud.set("A", "1");
    hud.set("B", "2");
    hud.clear();
    assert!(hud.entries.is_empty());
}

#[test]
fn pedagogy_add_and_filter() {
    let mut state = PedagogyState::default();
    state.add(PedagogyMode::Story, "Intro", "Welcome to the game.");
    state.add(PedagogyMode::Explorer, "Controls", "WASD to move.");
    state.add(PedagogyMode::Research, "Equations", "Navier-Stokes.");
    state.mode = PedagogyMode::Story;
    assert_eq!(state.active_entries().len(), 1);
    state.mode = PedagogyMode::Research;
    let entries = state.active_entries();
    assert_eq!(entries.len(), 1);
    assert_eq!(entries[0].title, "Equations");
}

#[test]
fn voxel_mask_tracks_solid_cells() {
    let mut mask = VoxelMask3::new(4, 4, 4);
    mask.set(1, 2, 3, true);
    assert!(mask.get(1, 2, 3));
    assert_eq!(mask.solid_count(), 1);
}

#[test]
fn voxel_grid_set_get() {
    let mut grid = VoxelGrid::new(4, 4, 4);
    assert!(!grid.get(1, 2, 3));
    grid.set(1, 2, 3, true);
    assert!(grid.get(1, 2, 3));
    assert_eq!(grid.solid_count(), 1);
}

#[test]
fn voxel_layout_is_x_fastest() {
    let mut mask = VoxelMask3::new(3, 2, 2);
    mask.set(2, 1, 1, true);
    assert!(mask.cells[2 + 1 * 3 + 1 * 6]);
    mask.set(2, 1, 1, false);
    assert_eq!(mask.solid_count(), 0);
    let cells = vec![true, false, true, false, false, false, false, false];
    let m = VoxelMask3::from_cells(2, 2, 2, cells);
    assert_eq!(m.solid_count(), 2);
    assert!(m.get(0, 1, 0));
    assert!(!m.get(1, 1, 0));
}

#[test]
fn boundary_conditions_default() {
    let bc = BoundaryConditions::default();
    assert_eq!(bc.y_neg, BoundaryType::BounceBack);
    assert_eq!(bc.x_neg, BoundaryType::Periodic);
}
