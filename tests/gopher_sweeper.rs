use gopher_sweeper::placement::choose_gopher_cells;
use gopher_sweeper::{
    Cell, Difficulty, ExposeResult, FieldSize, GameConfig, GopherSweeper, ToggleFlagResult,
};

fn custom(width: usize, height: usize, percent: u8) -> GameConfig {
    GameConfig::new(
        FieldSize::Custom { width, height },
        Difficulty::Custom { gophers_percentage: percent },
    )
}

fn gopher_cells(game: &GopherSweeper) -> usize {
    game.rows()
        .iter()
        .map(|row| row.iter().filter(|c| c.has_gopher).count())
        .sum()
}

fn hidden_safe_cells(game: &GopherSweeper) -> usize {
    game.rows()
        .iter()
        .map(|row| row.iter().filter(|c| !c.has_gopher && !c.is_exposed).count())
        .sum()
}

fn expected_count(game: &GopherSweeper, x: usize, y: usize) -> u8 {
    let (w, h) = game.config().size();
    let mut n = 0;
    for dy in -1i64..=1 {
        for dx in -1i64..=1 {
            if dx == 0 && dy == 0 {
                continue;
            }
            let (u, v) = (x as i64 + dx, y as i64 + dy);
            if u >= 0 && v >= 0 && (u as usize) < w && (v as usize) < h
                && game.cell(u as usize, v as usize).has_gopher
            {
                n += 1;
            }
        }
    }
    n
}

/// A 5 by 3 field with a wall of gophers down the middle column.
fn walled_field() -> GopherSweeper {
    GopherSweeper::with_gophers(custom(5, 3, 20), &vec![(2, 0), (2, 1), (2, 2)])
}

#[test]
fn preset_sizes() {
    assert_eq!(GameConfig::new(FieldSize::Small, Difficulty::Easy).size(), (10, 8));
    assert_eq!(GameConfig::new(FieldSize::Medium, Difficulty::Easy).size(), (18, 12));
    assert_eq!(GameConfig::new(FieldSize::Big, Difficulty::Easy).size(), (24, 20));
    assert_eq!(custom(7, 3, 10).size(), (7, 3));
}

#[test]
fn small_easy_has_eight_gophers() {
    let config = GameConfig::new(FieldSize::Small, Difficulty::Easy);
    assert_eq!(config.gophers(), 8);
}

#[test]
fn preset_gopher_counts_round_up() {
    assert_eq!(GameConfig::new(FieldSize::Medium, Difficulty::Normal).gophers(), 33);
    assert_eq!(GameConfig::new(FieldSize::Big, Difficulty::Hard).gophers(), 96);
    assert_eq!(GameConfig::new(FieldSize::Small, Difficulty::Hard).gophers(), 16);
    assert_eq!(custom(3, 3, 10).gophers(), 1);
    assert_eq!(custom(1, 1, 10).gophers(), 1);
    assert_eq!(custom(4, 5, 0).gophers(), 0);
}

#[test]
fn gophers_never_exceed_cells() {
    for percent in [0u8, 1, 10, 33, 50, 99, 100] {
        for (w, h) in [(1usize, 1usize), (3, 7), (10, 8), (24, 20)] {
            let g = custom(w, h, percent).gophers();
            assert!(g <= w * h);
            assert!(100 * g >= percent as usize * w * h);
            assert!(g == 0 || 100 * (g - 1) < percent as usize * w * h);
        }
    }
}

#[test]
fn defaults() {
    assert_eq!(FieldSize::default(), FieldSize::Small);
    assert_eq!(Difficulty::default(), Difficulty::Easy);
    let config = GameConfig::default();
    assert_eq!(config.field_size(), FieldSize::Small);
    assert_eq!(config.difficulty(), Difficulty::Easy);
    let cell = Cell::default();
    assert!(!cell.is_exposed && !cell.is_flagged && !cell.has_gopher);
    assert_eq!(cell.surrounding_gophers, 0);
}

#[test]
fn new_game_places_configured_gophers() {
    let config = GameConfig::new(FieldSize::Small, Difficulty::Easy);
    let game = GopherSweeper::new(config);
    assert_eq!(gopher_cells(&game), 8);
    assert_eq!(game.remaining_cells(), 80 - 8);
    assert_eq!(game.rows().len(), 8);
    for row in game.rows() {
        assert_eq!(row.len(), 10);
        for cell in row {
            assert!(!cell.is_exposed && !cell.is_flagged);
        }
    }
}

#[test]
fn new_game_counts_neighbours() {
    let game = GopherSweeper::new(GameConfig::new(FieldSize::Medium, Difficulty::Hard));
    for y in 0..12 {
        for x in 0..18 {
            assert_eq!(game.cell(x, y).surrounding_gophers, expected_count(&game, x, y));
        }
    }
}

#[test]
fn full_density_fills_every_cell() {
    let game = GopherSweeper::new(custom(4, 3, 100));
    assert_eq!(gopher_cells(&game), 12);
    assert_eq!(game.remaining_cells(), 0);
    assert_eq!(game.cell(1, 1).surrounding_gophers, 8);
    assert_eq!(game.cell(0, 0).surrounding_gophers, 3);
}

#[test]
fn chosen_cells_are_distinct_and_on_the_field() {
    let mut rng = rand::thread_rng();
    let cells = choose_gopher_cells(&mut rng, 6, 4, 24);
    assert_eq!(cells.len(), 24);
    for (i, a) in cells.iter().enumerate() {
        assert!(a.0 < 6 && a.1 < 4);
        for b in &cells[i + 1..] {
            assert_ne!(a, b);
        }
    }
    let one = choose_gopher_cells(&mut rng, 1, 2, 1);
    assert!(one[0] == (0, 0) || one[0] == (0, 1));
}

#[test]
fn single_cell_without_gophers_is_won_at_once() {
    let mut game = GopherSweeper::new(custom(1, 1, 0));
    assert_eq!(game.remaining_cells(), 1);
    assert_eq!(game.try_expose_cell(0, 0), ExposeResult::Win);
    assert_eq!(game.remaining_cells(), 0);
    assert!(game.cell(0, 0).is_exposed);
}

#[test]
fn given_gophers_are_placed_and_counted() {
    let game = walled_field();
    assert_eq!(gopher_cells(&game), 3);
    assert_eq!(game.remaining_cells(), 12);
    assert!(game.cell(2, 1).has_gopher);
    assert_eq!(game.cell(1, 0).surrounding_gophers, 2);
    assert_eq!(game.cell(1, 1).surrounding_gophers, 3);
    assert_eq!(game.cell(3, 2).surrounding_gophers, 2);
    assert_eq!(game.cell(0, 1).surrounding_gophers, 0);
    assert_eq!(game.cell(2, 1).surrounding_gophers, 2);
}

#[test]
fn flood_stops_at_numbered_cells() {
    let mut game = walled_field();
    assert_eq!(game.try_expose_cell(0, 0), ExposeResult::Exposed);
    for y in 0..3 {
        assert!(game.cell(0, y).is_exposed);
        assert!(game.cell(1, y).is_exposed);
        assert!(!game.cell(2, y).is_exposed);
        assert!(!game.cell(3, y).is_exposed);
        assert!(!game.cell(4, y).is_exposed);
    }
    assert_eq!(game.remaining_cells(), 6);
    assert_eq!(game.remaining_cells(), hidden_safe_cells(&game));
}

#[test]
fn numbered_cell_exposes_alone() {
    let mut game = walled_field();
    assert_eq!(game.try_expose_cell(1, 1), ExposeResult::Exposed);
    assert!(game.cell(1, 1).is_exposed);
    assert!(!game.cell(0, 1).is_exposed);
    assert!(!game.cell(1, 0).is_exposed);
    assert_eq!(game.remaining_cells(), 11);
}

#[test]
fn flood_runs_over_flags() {
    let mut game = walled_field();
    assert_eq!(game.toggle_flag(0, 2), ToggleFlagResult::Enabled);
    assert_eq!(game.try_expose_cell(0, 0), ExposeResult::Exposed);
    assert!(game.cell(0, 2).is_exposed);
    assert!(game.cell(0, 2).is_flagged);
}

#[test]
fn win_comes_once() {
    let mut game = walled_field();
    assert_eq!(game.try_expose_cell(0, 0), ExposeResult::Exposed);
    assert_eq!(game.try_expose_cell(4, 2), ExposeResult::Win);
    assert_eq!(game.remaining_cells(), 0);
    assert_eq!(game.try_expose_cell(4, 2), ExposeResult::WasAlreadyExposed);
    assert_eq!(game.try_expose_cell(0, 1), ExposeResult::WasAlreadyExposed);
    assert_eq!(game.try_expose_cell(2, 0), ExposeResult::HasGopher);
    assert_eq!(game.toggle_flag(2, 1), ToggleFlagResult::Enabled);
    assert_eq!(game.try_expose_cell(2, 1), ExposeResult::IsFlagged);
}

#[test]
fn win_on_last_safe_cell_one_by_one() {
    let mut game = GopherSweeper::with_gophers(custom(2, 2, 25), &vec![(1, 1)]);
    assert_eq!(game.try_expose_cell(0, 0), ExposeResult::Exposed);
    assert_eq!(game.try_expose_cell(1, 0), ExposeResult::Exposed);
    assert_eq!(game.remaining_cells(), 1);
    assert_eq!(game.try_expose_cell(0, 1), ExposeResult::Win);
    assert_eq!(game.remaining_cells(), 0);
}

#[test]
fn exposing_a_gopher_changes_nothing() {
    let mut game = walled_field();
    assert_eq!(game.try_expose_cell(2, 2), ExposeResult::HasGopher);
    assert!(!game.cell(2, 2).is_exposed);
    assert_eq!(game.remaining_cells(), 12);
}

#[test]
fn flagged_cell_is_protected() {
    let mut game = walled_field();
    assert_eq!(game.toggle_flag(4, 0), ToggleFlagResult::Enabled);
    assert_eq!(game.try_expose_cell(4, 0), ExposeResult::IsFlagged);
    assert!(!game.cell(4, 0).is_exposed);
    assert_eq!(game.remaining_cells(), 12);
}

#[test]
fn flag_on_exposed_cell_is_refused() {
    let mut game = walled_field();
    game.try_expose_cell(1, 1);
    assert_eq!(game.toggle_flag(1, 1), ToggleFlagResult::CellWasExposed);
    assert!(!game.cell(1, 1).is_flagged);
    assert_eq!(game.toggle_flag(1, 1), ToggleFlagResult::CellWasExposed);
    assert!(!game.cell(1, 1).is_flagged);
}

#[test]
fn toggle_twice_restores() {
    let mut game = walled_field();
    let before = *game.cell(3, 1);
    assert_eq!(game.toggle_flag(3, 1), ToggleFlagResult::Enabled);
    assert!(game.cell(3, 1).is_flagged);
    assert_eq!(game.toggle_flag(3, 1), ToggleFlagResult::Disabled);
    assert_eq!(*game.cell(3, 1), before);
    assert_eq!(game.remaining_cells(), 12);
}

#[test]
fn remaining_tracks_hidden_safe_cells() {
    let mut game = GopherSweeper::new(GameConfig::new(FieldSize::Big, Difficulty::Normal));
    assert_eq!(game.remaining_cells(), 480 - 72);
    for y in 0..20 {
        for x in 0..24 {
            if !game.cell(x, y).has_gopher {
                game.try_expose_cell(x, y);
                assert_eq!(game.remaining_cells(), hidden_safe_cells(&game));
            }
        }
    }
    assert_eq!(game.remaining_cells(), 0);
}
