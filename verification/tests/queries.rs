//! Aggregate queries, error handling, and the random constructor.

use torus_life::board::{Neighborhood, Pos};
use torus_life::game::{Game, GameError};

#[test]
fn empty_board_has_no_oldest_or_youngest() {
    let g = Game::new(4, 4, Neighborhood::Moore).unwrap();
    assert!(g.world.find_oldest().is_none());
    assert!(g.world.find_youngest().is_none());
}

#[test]
fn oldest_and_youngest_after_growth() {
    let mut g = Game::new(4, 4, Neighborhood::Moore).unwrap();
    g.insert(&Pos { x: 0, y: 0 }).unwrap();
    g.insert(&Pos { x: 1, y: 0 }).unwrap();
    g.next();
    // The founders survive with generation 0; four cells are born with
    // generation 1, the first of them (row-major) at (0,1).
    assert_eq!(g.world.population(), 6);
    assert_eq!(g.life_counter, 6);
    let oldest = g.world.find_oldest().unwrap();
    assert_eq!(oldest.generation, 0);
    assert_eq!(oldest.pos, Pos { x: 0, y: 0 });
    let youngest = g.world.find_youngest().unwrap();
    assert_eq!(youngest.generation, 1);
    assert_eq!(youngest.pos, Pos { x: 0, y: 1 });
}

#[test]
fn oldest_tie_breaks_on_first_in_row_major_order() {
    let mut g = Game::new(3, 3, Neighborhood::Moore).unwrap();
    g.insert(&Pos { x: 2, y: 0 }).unwrap();
    g.insert(&Pos { x: 0, y: 2 }).unwrap();
    let oldest = g.world.find_oldest().unwrap();
    assert_eq!(oldest.generation, 0);
    assert_eq!(oldest.pos, Pos { x: 2, y: 0 });
}

#[test]
fn zero_dimension_rejected() {
    assert_eq!(Game::new(0, 5, Neighborhood::Moore).unwrap_err(), GameError::ZeroDimension);
    assert_eq!(Game::new(5, 0, Neighborhood::Moore).unwrap_err(), GameError::ZeroDimension);
    assert_eq!(
        Game::random_world(0, 3, 1, Neighborhood::Moore).unwrap_err(),
        GameError::ZeroDimension
    );
}

#[test]
fn oversized_population_rejected() {
    assert_eq!(
        Game::random_world(3, 3, 10, Neighborhood::Moore).unwrap_err(),
        GameError::PopulationTooLarge
    );
    // The full grid is still fine.
    let g = Game::random_world(3, 3, 9, Neighborhood::Moore).unwrap();
    assert_eq!(g.world.population(), 9);
}

#[test]
fn out_of_range_edits_rejected() {
    let mut g = Game::new(2, 2, Neighborhood::Moore).unwrap();
    assert_eq!(g.insert(&Pos { x: 2, y: 0 }).unwrap_err(), GameError::OutOfRange);
    assert_eq!(g.remove(&Pos { x: 0, y: 7 }).unwrap_err(), GameError::OutOfRange);
    assert_eq!(g.world.population(), 0);
    assert_eq!(g.life_counter, 0);
}

#[test]
fn random_world_places_exactly_the_requested_count() {
    let g = Game::random_world(1, 1, 1, Neighborhood::Moore).unwrap();
    assert_eq!(g.world.population(), 1);
    assert_eq!(g.world.generation_at(&Pos { x: 0, y: 0 }), Some(0));
    assert_eq!(g.life_counter, 1);

    let g = Game::random_world(4, 4, 5, Neighborhood::Moore).unwrap();
    assert_eq!(g.world.population(), 5);
    assert_eq!(g.life_counter, 5);
    assert_eq!(g.world.id, 0);
    // Every placed cell is born at generation 0.
    for y in 0..4 {
        for x in 0..4 {
            if let Some(gen) = g.world.generation_at(&Pos { x, y }) {
                assert_eq!(gen, 0);
            }
        }
    }
}

#[test]
fn seeded_random_world_is_reproducible() {
    let a = Game::random_world_seeded(8, 8, 20, Neighborhood::Moore, 42).unwrap();
    let b = Game::random_world_seeded(8, 8, 20, Neighborhood::Moore, 42).unwrap();
    assert_eq!(a.world.population(), 20);
    for y in 0..8 {
        for x in 0..8 {
            let p = Pos { x, y };
            assert_eq!(a.world.is_alive(&p), b.world.is_alive(&p));
        }
    }
}

#[test]
fn default_neighbourhood_is_moore() {
    assert_eq!(Neighborhood::default(), Neighborhood::Moore);
}
