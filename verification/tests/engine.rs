//! End-to-end behaviour of the stepping rule, edits and stability
//! detection.

use torus_life::board::{Neighborhood, Pos};
use torus_life::game::{Game, GameError, Stability};

fn snapshot(g: &Game) -> Vec<Option<u64>> {
    let mut out = Vec::new();
    for y in 0..g.world.height {
        for x in 0..g.world.width {
            out.push(g.world.generation_at(&Pos { x, y }));
        }
    }
    out
}

#[test]
fn determinism_of_step() {
    let build = || {
        let mut g = Game::new(4, 4, Neighborhood::Moore).unwrap();
        g.insert(&Pos { x: 0, y: 0 }).unwrap();
        g.insert(&Pos { x: 1, y: 0 }).unwrap();
        g.insert(&Pos { x: 2, y: 3 }).unwrap();
        g
    };
    let mut g1 = build();
    let mut g2 = build();
    g1.next();
    g2.next();
    assert_eq!(g1.world.id, g2.world.id);
    assert_eq!(g1.life_counter, g2.life_counter);
    assert_eq!(snapshot(&g1), snapshot(&g2));
}

#[test]
fn edit_noops_preserve_board() {
    let mut g = Game::new(4, 4, Neighborhood::Moore).unwrap();
    g.insert(&Pos { x: 1, y: 2 }).unwrap();
    let before = snapshot(&g);
    let counter_before = g.life_counter;

    // setAlive on an already-alive cell is a no-op.
    g.insert(&Pos { x: 1, y: 2 }).unwrap();
    assert_eq!(snapshot(&g), before);
    assert_eq!(g.life_counter, counter_before);

    // setDead on an already-dead cell is a no-op.
    g.remove(&Pos { x: 3, y: 3 }).unwrap();
    assert_eq!(snapshot(&g), before);
    assert_eq!(g.life_counter, counter_before);
}

#[test]
fn wraparound_counts_opposite_corner() {
    let mut g = Game::new(3, 3, Neighborhood::Moore).unwrap();
    g.insert(&Pos { x: 2, y: 2 }).unwrap();
    // The toroidal diagonal wrap makes (2,2) a Moore neighbour of (0,0).
    assert_eq!(g.world.num_neighbours(&Pos { x: 0, y: 0 }, Neighborhood::Moore), 1);
}

#[test]
fn von_neumann_excludes_diagonals() {
    let mut g = Game::new(3, 3, Neighborhood::Moore).unwrap();
    g.insert(&Pos { x: 0, y: 0 }).unwrap();
    assert_eq!(g.world.num_neighbours(&Pos { x: 1, y: 1 }, Neighborhood::Moore), 1);
    assert_eq!(g.world.num_neighbours(&Pos { x: 1, y: 1 }, Neighborhood::VonNeumann), 0);
}

#[test]
fn neighbour_queries_wrap_each_edge() {
    let mut g = Game::new(3, 3, Neighborhood::Moore).unwrap();
    g.insert(&Pos { x: 2, y: 1 }).unwrap();
    // Left of column 0 is column 2.
    assert!(g.world.left_neighbour(&Pos { x: 0, y: 1 }));
    // Right of column 2 is column 0.
    assert!(!g.world.right_neighbour(&Pos { x: 2, y: 1 }));
    g.insert(&Pos { x: 1, y: 0 }).unwrap();
    // Above row 0 is row 2; below row 2 is row 0.
    assert!(g.world.bottom_neighbour(&Pos { x: 1, y: 2 }));
    assert!(!g.world.top_neighbour(&Pos { x: 1, y: 0 }));
}

#[test]
fn modified_rule_births_and_deaths() {
    // Three live cells on a 5x5 board: (2,1) is dead with exactly two live
    // Moore neighbours, (1,1) and (3,1); the third cell (0,3) is isolated.
    let mut g = Game::new(5, 5, Neighborhood::Moore).unwrap();
    g.insert(&Pos { x: 1, y: 1 }).unwrap();
    g.insert(&Pos { x: 3, y: 1 }).unwrap();
    g.insert(&Pos { x: 0, y: 3 }).unwrap();
    assert_eq!(g.world.num_neighbours(&Pos { x: 2, y: 1 }, Neighborhood::Moore), 2);
    g.next();
    // A birth at the new step's generation...
    assert_eq!(g.world.generation_at(&Pos { x: 2, y: 1 }), Some(1));
    // ...and every live cell had zero neighbours, so all three die.
    assert_eq!(g.world.generation_at(&Pos { x: 1, y: 1 }), None);
    assert_eq!(g.world.generation_at(&Pos { x: 3, y: 1 }), None);
    assert_eq!(g.world.generation_at(&Pos { x: 0, y: 3 }), None);
}

#[test]
fn lonely_survivor_and_crowded_death() {
    // This engine's survival rule keeps a live cell with a single
    // neighbour (k in {1,2,3} survives), unlike the classical {2,3} rule.
    let mut g = Game::new(6, 6, Neighborhood::Moore).unwrap();
    g.insert(&Pos { x: 1, y: 1 }).unwrap();
    g.insert(&Pos { x: 2, y: 1 }).unwrap();
    g.next();
    assert_eq!(g.world.generation_at(&Pos { x: 1, y: 1 }), Some(0));
    assert_eq!(g.world.generation_at(&Pos { x: 2, y: 1 }), Some(0));

    // A plus-shaped centre has four neighbours and dies of overcrowding.
    let mut p = Game::new(5, 5, Neighborhood::Moore).unwrap();
    p.insert(&Pos { x: 2, y: 2 }).unwrap();
    p.insert(&Pos { x: 1, y: 2 }).unwrap();
    p.insert(&Pos { x: 3, y: 2 }).unwrap();
    p.insert(&Pos { x: 2, y: 1 }).unwrap();
    p.insert(&Pos { x: 2, y: 3 }).unwrap();
    p.next();
    assert_eq!(p.world.generation_at(&Pos { x: 2, y: 2 }), None);
    // An arm touching three live cells survives with its generation frozen.
    assert_eq!(p.world.generation_at(&Pos { x: 2, y: 1 }), Some(0));
}

#[test]
fn all_dead_board_is_a_fixed_point() {
    let mut g = Game::new(3, 3, Neighborhood::Moore).unwrap();
    assert_eq!(g.stability(), Stability::Changing);
    g.next();
    assert_eq!(g.stability(), Stability::FixedPoint);
}

#[test]
fn period_two_oscillation_detected() {
    // On a width-2 torus, a von Neumann cell counts its horizontal
    // neighbour twice, so a single cell flips columns every step: a
    // period-2 oscillator.
    let mut g = Game::new(2, 3, Neighborhood::VonNeumann).unwrap();
    g.insert(&Pos { x: 0, y: 1 }).unwrap();
    g.next();
    assert!(g.world.is_alive(&Pos { x: 1, y: 1 }));
    assert!(!g.world.is_alive(&Pos { x: 0, y: 1 }));
    assert_eq!(g.stability(), Stability::Changing);
    g.next();
    assert!(g.world.is_alive(&Pos { x: 0, y: 1 }));
    assert!(!g.world.is_alive(&Pos { x: 1, y: 1 }));
    // Step 2 equals step 0 but not step 1.
    assert_eq!(g.stability(), Stability::Oscillating);
}

#[test]
fn counter_monotone_across_steps_and_edits() {
    let mut g = Game::new(2, 3, Neighborhood::VonNeumann).unwrap();
    assert_eq!(g.life_counter, 0);
    g.insert(&Pos { x: 0, y: 1 }).unwrap();
    assert_eq!(g.life_counter, 1);
    g.insert(&Pos { x: 0, y: 1 }).unwrap();
    assert_eq!(g.life_counter, 1);
    g.next();
    // Exactly one birth: the mirrored cell.
    assert_eq!(g.life_counter, 2);
    g.next();
    assert_eq!(g.life_counter, 3);
    // Removal never decreases the counter.
    g.remove(&Pos { x: 0, y: 1 }).unwrap();
    assert_eq!(g.life_counter, 3);
    assert_eq!(g.world.population(), 0);
}

#[test]
fn clear_resets_everything_but_dimensions() {
    let mut g = Game::new(4, 3, Neighborhood::Moore).unwrap();
    g.insert(&Pos { x: 0, y: 0 }).unwrap();
    g.insert(&Pos { x: 1, y: 0 }).unwrap();
    g.next();
    g.clear();
    assert_eq!(g.world.width, 4);
    assert_eq!(g.world.height, 3);
    assert_eq!(g.world.id, 0);
    assert_eq!(g.life_counter, 0);
    assert_eq!(g.world.population(), 0);
    assert_eq!(g.stability(), Stability::Changing);
}

#[test]
fn generations_stay_frozen_across_steps() {
    let mut g = Game::new(4, 4, Neighborhood::Moore).unwrap();
    g.insert(&Pos { x: 0, y: 0 }).unwrap();
    g.insert(&Pos { x: 1, y: 0 }).unwrap();
    g.next();
    // The founding pair survives and keeps birth-generation 0 while the
    // newly born cells carry the new step index.
    assert_eq!(g.world.generation_at(&Pos { x: 0, y: 0 }), Some(0));
    assert_eq!(g.world.generation_at(&Pos { x: 1, y: 0 }), Some(0));
    assert_eq!(g.world.generation_at(&Pos { x: 0, y: 1 }), Some(1));
    assert_eq!(g.world.id, 1);
}
