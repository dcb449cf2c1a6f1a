use hex_invaders::events::InputEvent;
use hex_invaders::game::{Game, RoundState};

fn running_game(rows: u16, cols: u16, distance: u16) -> Game {
    let mut g = Game::new(rows, cols, 30, distance);
    assert_eq!(g.state, RoundState::Idle);
    g.step(Some(InputEvent::StartOrRestart));
    assert_eq!(g.state, RoundState::Running);
    g
}

#[test]
fn spawn_track_and_shoot() {
    // Screen 20 rows by 100 columns; the spacing constant is large so the
    // generator stays quiet while the single invader is tracked.
    let mut g = running_game(20, 100, 50);
    assert!(g.try_spawn(10, 0x2A));
    assert_eq!(g.invaders.len(), 1);

    // Advance until the invader reaches row 5.
    for _ in 0..4 {
        assert!(g.invaders_move_forward());
    }
    assert_eq!(g.invaders[0].row, 5);

    // Compose 0x2A = bits 2, 4 and 6 of the big-endian byte.
    g.update_input(Some(InputEvent::ToggleBit(2)));
    g.update_input(Some(InputEvent::ToggleBit(4)));
    g.update_input(Some(InputEvent::ToggleBit(6)));
    assert_eq!(g.input.value, 0x2A);

    // The fire check creates a projectile aimed at the invader's row and
    // consumes the accumulator.
    assert!(g.fire_if_match());
    assert_eq!(g.arrows.len(), 1);
    assert_eq!(g.arrows[0].target.row, 5);
    assert_eq!(g.arrows[0].target.value, 0x2A);
    assert_eq!(g.arrows[0].current_row, 17);
    assert_eq!(g.current_score, 1);
    assert_eq!(g.input.value, 0);

    // Micro-ticks until the projectile arrives: from row 17 it takes 13
    // passes to move one row past the target at row 5.
    let mut passes = 0;
    let hit = loop {
        passes += 1;
        if let Some(v) = g.arrow_move_forward() {
            break v;
        }
        assert!(passes < 100, "projectile never arrived");
    };
    assert_eq!(passes, 13);
    assert_eq!(hit, 0x2A);

    g.remove_invader(hit);
    assert_eq!(g.invaders.len(), 0);
    assert!(g.registry.is_available(0x2A));
    assert_eq!(g.current_score, 1);
}

#[test]
fn only_matching_invader_is_targeted() {
    let mut g = running_game(20, 100, 50);
    assert!(g.try_spawn(10, 0x01));
    assert!(g.try_spawn(40, 0x02));

    // Compose 0x01: bit 7 is the least significant.
    g.update_input(Some(InputEvent::ToggleBit(7)));
    assert_eq!(g.input.value, 0x01);

    assert!(g.fire_if_match());
    assert_eq!(g.arrows.len(), 1);
    assert_eq!(g.arrows[0].target.value, 0x01);

    // Resolve the hit: only the 0x01 invader goes; 0x02 is untouched.
    let hit = loop {
        if let Some(v) = g.arrow_move_forward() {
            break v;
        }
    };
    assert_eq!(hit, 0x01);
    g.remove_invader(hit);
    assert_eq!(g.invaders.len(), 1);
    assert_eq!(g.invaders[0].value, 0x02);
    assert_eq!(g.invaders[0].col, 40);
    assert!(g.registry.is_available(0x01));
    assert!(!g.registry.is_available(0x02));
}

#[test]
fn spawn_due_after_spacing_threshold() {
    // With the spacing constant 2 a new invader is generated on the
    // macro-tick that finds the last one at row 6.
    let mut g = running_game(20, 100, 2);
    assert!(g.try_spawn(10, 7));

    // Five macro-ticks take the invader to row 6; no spawn yet.
    for _ in 0..5 {
        assert!(g.invaders_move_forward());
        assert_eq!(g.invaders.len(), 1);
    }
    assert_eq!(g.invaders[0].row, 6);

    // The following macro-tick spawns before moving.
    assert!(g.invaders_move_forward());
    assert_eq!(g.invaders.len(), 2);
    assert_eq!(g.invaders[0].row, 7);
    assert_eq!(g.invaders[1].row, 2);
    assert_ne!(g.invaders[1].value, 0);
    assert!(g.invaders[1].col >= 3 && g.invaders[1].col <= 95);
    assert_ne!(g.invaders[0].value, g.invaders[1].value);
}

#[test]
fn crossing_the_line_ends_the_round() {
    // Minimum screen: 10 rows. The round ends when a row exceeds 6.
    let mut g = running_game(10, 80, 50);
    assert!(g.try_spawn(10, 5));
    for _ in 0..5 {
        assert!(g.invaders_move_forward());
    }
    assert_eq!(g.invaders[0].row, 6);
    assert!(!g.invaders_move_forward());
    assert_eq!(g.state, RoundState::RoundOver);
    assert_eq!(g.invaders[0].row, 7);

    // While the round is over nothing moves or resolves.
    g.step(None);
    g.step(Some(InputEvent::ToggleBit(0)));
    assert_eq!(g.state, RoundState::RoundOver);
    assert_eq!(g.invaders.len(), 1);
    assert_eq!(g.invaders[0].row, 7);

    // The start key leads back to Idle, and a second press starts a fresh
    // round with all data reset.
    g.step(Some(InputEvent::StartOrRestart));
    assert_eq!(g.state, RoundState::Idle);
    assert_eq!(g.invaders.len(), 1);
    g.step(Some(InputEvent::StartOrRestart));
    assert_eq!(g.state, RoundState::Running);
    assert_eq!(g.invaders.len(), 0);
    assert_eq!(g.arrows.len(), 0);
    assert_eq!(g.current_score, 0);
    assert_eq!(g.input.value, 0);
    assert!(g.registry.is_available(5));
}

#[test]
fn no_fire_without_a_match() {
    let mut g = running_game(20, 100, 50);
    assert!(!g.fire_if_match());
    assert!(g.try_spawn(10, 5));
    // The accumulator reads zero and no label is zero, so nothing fires.
    assert!(!g.fire_if_match());
    g.update_input(Some(InputEvent::ToggleBit(7)));
    // Value 1 does not match label 5 either.
    assert!(!g.fire_if_match());
    assert_eq!(g.arrows.len(), 0);
    assert_eq!(g.current_score, 0);
}

#[test]
fn removing_an_absent_label_is_a_noop() {
    let mut g = running_game(20, 100, 50);
    assert!(g.try_spawn(10, 0x10));
    g.remove_invader(0x20);
    assert_eq!(g.invaders.len(), 1);
    assert_eq!(g.invaders[0].value, 0x10);
    assert!(!g.registry.is_available(0x10));
    assert!(g.registry.is_available(0x20));
}

#[test]
fn removal_takes_exactly_one_invader() {
    let mut g = running_game(20, 100, 50);
    assert!(g.try_spawn(10, 1));
    assert!(g.try_spawn(20, 2));
    assert!(g.try_spawn(30, 3));
    g.remove_invader(2);
    assert_eq!(g.invaders.len(), 2);
    assert_eq!(g.invaders[0].value, 1);
    assert_eq!(g.invaders[1].value, 3);
    assert!(g.registry.is_available(2));
    assert!(!g.registry.is_available(1));
    assert!(!g.registry.is_available(3));
}

#[test]
fn duplicate_label_is_refused() {
    let mut g = running_game(20, 100, 50);
    assert!(g.try_spawn(10, 9));
    assert!(!g.try_spawn(50, 9));
    assert_eq!(g.invaders.len(), 1);
}

#[test]
fn generator_spawns_fresh_label_in_bounds() {
    let mut g = running_game(20, 100, 50);
    assert!(g.generate_invader());
    assert_eq!(g.invaders.len(), 1);
    let inv = g.invaders[0];
    assert!(inv.value >= 1);
    assert_eq!(inv.row, 1);
    assert!(inv.col >= 3 && inv.col <= 95);
    assert!(inv.visible);
    assert!(!g.registry.is_available(inv.value));
    // A second spawn picks a different label.
    assert!(g.generate_invader());
    assert_ne!(g.invaders[0].value, g.invaders[1].value);
}

#[test]
fn step_schedules_macro_tick_at_zero() {
    let mut g = running_game(20, 100, 2);
    // Tick 0 is a macro-tick: the generator runs and the new invader moves.
    g.step(None);
    assert_eq!(g.invaders.len(), 1);
    assert_eq!(g.invaders[0].row, 2);
    assert_eq!(g.tick, 1);
    // The following iterations are neither macro- nor spawn-ticks.
    for _ in 0..10 {
        g.step(None);
    }
    assert_eq!(g.invaders.len(), 1);
    assert_eq!(g.invaders[0].row, 2);
    assert_eq!(g.tick, 11);
}

#[test]
fn step_samples_input_every_iteration() {
    let mut g = running_game(20, 100, 2);
    // Tick 0 spawns one invader with a random label; take it off the board so
    // no toggle pattern can accidentally fire.
    g.step(None);
    let label = g.invaders[0].value;
    g.remove_invader(label);
    assert_eq!(g.invaders.len(), 0);

    g.step(Some(InputEvent::ToggleBit(0)));
    assert_eq!(g.input.value, 128);
    g.step(Some(InputEvent::ToggleBit(0)));
    assert_eq!(g.input.value, 0);
}

#[test]
fn macro_lane_runs_every_650_iterations() {
    let mut g = running_game(20, 100, 50);
    // Tick 0 spawns and moves; the invader then waits until tick 650.
    g.step(None);
    assert_eq!(g.invaders.len(), 1);
    assert_eq!(g.invaders[0].row, 2);
    for _ in 0..649 {
        g.step(None);
        assert_eq!(g.invaders[0].row, 2);
    }
    assert_eq!(g.tick, 650);
    g.step(None);
    assert_eq!(g.invaders[0].row, 3);
    assert_eq!(g.invaders.len(), 1);
    assert_eq!(g.tick, 651);
}

#[test]
fn step_full_shot_cycle() {
    let mut g = running_game(20, 100, 50);
    // Replace tick 0's random invader with a known label at the top row.
    g.step(None);
    let label = g.invaders[0].value;
    g.remove_invader(label);
    assert!(g.try_spawn(10, 0x2A));

    // Compose 0x2A over three iterations; the third one fires.
    g.step(Some(InputEvent::ToggleBit(2)));
    g.step(Some(InputEvent::ToggleBit(4)));
    g.step(Some(InputEvent::ToggleBit(6)));
    assert_eq!(g.arrows.len(), 1);
    assert_eq!(g.arrows[0].target.value, 0x2A);
    assert_eq!(g.current_score, 1);
    assert_eq!(g.input.value, 0);

    // The projectile advances on micro-ticks only: from row 17 toward the
    // target at row 1 it takes 17 passes, the last at tick 425, well before
    // the next macro-tick could move the invader.
    let mut steps = 0;
    while !g.invaders.is_empty() {
        g.step(None);
        steps += 1;
        assert!(steps < 500, "hit never resolved");
    }
    assert_eq!(g.tick, 426);
    assert_eq!(g.current_score, 1);
    assert_eq!(g.arrows.len(), 1);
    assert!(!g.arrows[0].visible);
    assert!(g.registry.is_available(0x2A));
}

#[test]
fn idle_ignores_everything_but_start() {
    let mut g = Game::new(20, 100, 30, 2);
    g.step(None);
    g.step(Some(InputEvent::ToggleBit(3)));
    g.step(Some(InputEvent::Quit));
    assert_eq!(g.state, RoundState::Idle);
    assert_eq!(g.tick, 0);
    assert_eq!(g.input.value, 0);
}
