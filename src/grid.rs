//! The field of cells: gopher placement, flags, and flood-fill exposure.

use vstd::prelude::*;
use crate::cell::{Cell, grid_count, hidden_safe, holds_gopher, one_if, row_count};
use crate::cell::{lemma_grid_count_update, lemma_row_count_update};
use crate::config::GameConfig;
use crate::placement::{choose_gopher_cells, distinct, within};

verus! {

/// What an attempt to expose a cell led to.
#[derive(Debug, Clone, Copy, PartialEq, Eq, Structural)]
pub enum ExposeResult {
    Exposed,
    WasAlreadyExposed,
    IsFlagged,
    HasGopher,
    Win,
}

/// What an attempt to toggle a cell's flag led to.
#[derive(Debug, Clone, Copy, PartialEq, Eq, Structural)]
pub enum ToggleFlagResult {
    Enabled,
    Disabled,
    CellWasExposed,
}

/// `(u, v)` is one of the eight cells around `(x, y)`.
pub open spec fn adjacent(x: int, y: int, u: int, v: int) -> bool {
    (u != x || v != y) && x - 1 <= u <= x + 1 && y - 1 <= v <= y + 1
}

/// The coordinates around `(x, y)` that lie on a `w` by `h` field, in the
/// order in which they are visited: sides first, then corners.
pub open spec fn neighbor_seq(w: int, h: int, x: int, y: int) -> Seq<(usize, usize)> {
    let s0 = Seq::<(usize, usize)>::empty();
    let s1 = if x > 0 { s0.push(((x - 1) as usize, y as usize)) } else { s0 };
    let s2 = if y > 0 { s1.push((x as usize, (y - 1) as usize)) } else { s1 };
    let s3 = if x + 1 < w { s2.push(((x + 1) as usize, y as usize)) } else { s2 };
    let s4 = if y + 1 < h { s3.push((x as usize, (y + 1) as usize)) } else { s3 };
    let s5 = if x > 0 && y > 0 { s4.push(((x - 1) as usize, (y - 1) as usize)) } else { s4 };
    let s6 = if x > 0 && y + 1 < h { s5.push(((x - 1) as usize, (y + 1) as usize)) } else { s5 };
    let s7 = if x + 1 < w && y > 0 { s6.push(((x + 1) as usize, (y - 1) as usize)) } else { s6 };
    if x + 1 < w && y + 1 < h { s7.push(((x + 1) as usize, (y + 1) as usize)) } else { s7 }
}

/// A field of gophers hidden under cells, with the state of a game on it.
pub struct GopherSweeper {
    config: GameConfig,
    remaining_cells: usize,
    field: Vec<Vec<Cell>>,
}

impl GopherSweeper {
    pub open spec fn width(self) -> int {
        self.config_spec().width()
    }

    pub open spec fn height(self) -> int {
        self.config_spec().height()
    }

    pub open spec fn in_bounds(self, x: int, y: int) -> bool {
        0 <= x < self.width() && 0 <= y < self.height()
    }

    pub closed spec fn config_spec(self) -> GameConfig {
        self.config
    }

    /// Number of safe cells that are not exposed yet, as tracked by the game.
    pub closed spec fn remaining_spec(self) -> int {
        self.remaining_cells as int
    }

    /// The cells, row by row.
    pub closed spec fn rows_view(self) -> Seq<Vec<Cell>> {
        self.field@
    }

    /// The cell in column `x` of row `y`.
    pub open spec fn cell_at(self, x: int, y: int) -> Cell {
        self.rows_view()[y]@[x]
    }

    /// Number of safe cells that are not exposed.
    pub open spec fn hidden_safe_count(self) -> nat {
        grid_count(self.rows_view(), hidden_safe())
    }

    /// Number of cells that hold a gopher.
    pub open spec fn gopher_count(self) -> nat {
        grid_count(self.rows_view(), holds_gopher())
    }

    /// 1 where `(x, y)` lies on the field and holds a gopher, else 0.
    pub open spec fn gopher_at(self, x: int, y: int) -> int {
        if self.in_bounds(x, y) && self.cell_at(x, y).has_gopher {
            1
        } else {
            0
        }
    }

    /// Number of gophers in the cells around `(x, y)`.
    pub open spec fn gophers_around(self, x: int, y: int) -> int {
        self.gopher_at(x - 1, y - 1) + self.gopher_at(x, y - 1) + self.gopher_at(x + 1, y - 1)
            + self.gopher_at(x - 1, y) + self.gopher_at(x + 1, y)
            + self.gopher_at(x - 1, y + 1) + self.gopher_at(x, y + 1) + self.gopher_at(x + 1, y + 1)
    }

    /// Every cell counts exactly the gophers around it.
    pub open spec fn counts_exact(self) -> bool {
        forall|x: int, y: int|
            self.in_bounds(x, y) ==> self.cell_at(x, y).surrounding_gophers
                == #[trigger] self.gophers_around(x, y)
    }

    /// Exposing `(x, y)` carries on to its neighbours: it is on the field and
    /// no gopher lies around it.
    pub open spec fn spreads(self, x: int, y: int) -> bool {
        self.in_bounds(x, y) && self.cell_at(x, y).surrounding_gophers == 0
    }

    /// The coordinates of the exposed cells.
    pub open spec fn exposed_set(self) -> Set<(int, int)> {
        Set::new(|p: (int, int)| self.in_bounds(p.0, p.1) && self.cell_at(p.0, p.1).is_exposed)
    }

    /// With each cell of `s` that spreads, `s` holds all of its neighbours on
    /// the field.
    pub open spec fn closed_under_spread(self, s: Set<(int, int)>) -> bool {
        forall|x: int, y: int, u: int, v: int|
            #[trigger] s.contains((x, y)) && #[trigger] adjacent(x, y, u, v) && self.spreads(x, y)
                && self.in_bounds(u, v) ==> s.contains((u, v))
    }

    /// The cells that exposing `(x, y)` leaves exposed: those that lie in every
    /// set that holds `(x, y)` and the cells exposed already, and is closed
    /// under spreading.
    pub open spec fn flood(self, x: int, y: int) -> Set<(int, int)> {
        Set::new(|p: (int, int)| forall|s: Set<(int, int)>| #[trigger] self.admits(x, y, s) ==> s.contains(p))
    }

    /// The field has the configured dimensions, its counts are exact, no
    /// gopher is exposed, and the tracked numbers of gophers and of hidden
    /// safe cells are right.
    pub closed spec fn consistent(self) -> bool {
        &&& self.config.cells() <= usize::MAX
        &&& self.field@.len() == self.height()
        &&& forall|y: int| 0 <= y < self.height() ==> #[trigger] self.field@[y]@.len() == self.width()
        &&& self.counts_exact()
        &&& forall|x: int, y: int|
            self.in_bounds(x, y) && #[trigger] self.cell_at(x, y).is_exposed ==> !self.cell_at(
                x,
                y,
            ).has_gopher
        &&& self.remaining_cells == self.hidden_safe_count()
        &&& self.gopher_count() == self.config.gophers_spec()
    }

    /// A consistent game in which exposure has spread as far as it goes.
    pub closed spec fn wf(self) -> bool {
        &&& self.consistent()
        &&& self.closed_under_spread(self.exposed_set())
    }

    /// `s` is a candidate for what exposing `(x, y)` leaves exposed: it holds
    /// `(x, y)` and the cells exposed already, and is closed under spreading.
    pub open spec fn admits(self, x: int, y: int, s: Set<(int, int)>) -> bool {
        &&& s.contains((x, y))
        &&& self.exposed_set().subset_of(s)
        &&& self.closed_under_spread(s)
    }

    /// `other` differs from `self` at most in which cells are exposed.
    pub open spec fn same_but_exposure(self, other: Self) -> bool {
        &&& other.config_spec() == self.config_spec()
        &&& forall|u: int, v: int|
            self.in_bounds(u, v) ==> #[trigger] other.cell_at(u, v) == Cell {
                is_exposed: other.cell_at(u, v).is_exposed,
                ..self.cell_at(u, v)
            }
    }

    /// `next` is `self` with the flag of `(x, y)` flipped.
    pub open spec fn flag_toggled(self, next: Self, x: int, y: int) -> bool {
        &&& next.config_spec() == self.config_spec()
        &&& next.remaining_spec() == self.remaining_spec()
        &&& next.cell_at(x, y) == Cell { is_flagged: !self.cell_at(x, y).is_flagged, ..self.cell_at(x, y) }
        &&& forall|u: int, v: int|
            self.in_bounds(u, v) && (u != x || v != y) ==> #[trigger] next.cell_at(u, v) == self.cell_at(u, v)
    }

    /// `self` and `other` are the same game: configuration, tracked count and
    /// every cell.
    pub open spec fn same_game(self, other: Self) -> bool {
        &&& other.config_spec() == self.config_spec()
        &&& other.remaining_spec() == self.remaining_spec()
        &&& forall|u: int, v: int| self.in_bounds(u, v) ==> #[trigger] other.cell_at(u, v) == self.cell_at(u, v)
    }

    /// A fresh game on `config` with its gophers placed at random: nothing
    /// exposed or flagged, and every cell counting the gophers around it.
    pub fn new(config: GameConfig) -> (r: Self)
        requires
            config.cells() <= usize::MAX,
            config.gophers_spec() <= config.cells(),
        ensures
            r.wf(),
            r.config_spec() == config,
            r.counts_exact(),
            r.gopher_count() == config.gophers_spec(),
            r.remaining_spec() == config.cells() - config.gophers_spec(),
            forall|x: int, y: int|
                r.in_bounds(x, y) ==> !(#[trigger] r.cell_at(x, y)).is_exposed && !r.cell_at(x, y).is_flagged,
    {
        let (width, height) = config.size();
        let gophers = config.gophers();
        let mut rng = rand::thread_rng();
        let cells = choose_gopher_cells(&mut rng, width, height, gophers);
        GopherSweeper::with_gophers(config, &cells)
    }

    /// A fresh game on `config` with gophers at the given distinct positions:
    /// nothing exposed or flagged, and every cell counting the gophers
    /// around it.
    pub fn with_gophers(config: GameConfig, gophers: &Vec<(usize, usize)>) -> (r: Self)
        requires
            config.cells() <= usize::MAX,
            gophers@.len() == config.gophers_spec(),
            within(gophers@, config.width(), config.height()),
            distinct(gophers@),
        ensures
            r.wf(),
            r.config_spec() == config,
            r.counts_exact(),
            r.gopher_count() == config.gophers_spec(),
            r.remaining_spec() == config.cells() - config.gophers_spec(),
            forall|x: int, y: int|
                r.in_bounds(x, y) ==> !(#[trigger] r.cell_at(x, y)).is_exposed && !r.cell_at(x, y).is_flagged
                    && (r.cell_at(x, y).has_gopher <==> gophers@.contains((x as usize, y as usize))),
    {
        let (width, height) = config.size();
        let mut field: Vec<Vec<Cell>> = Vec::with_capacity(height);
        let mut y: usize = 0;
        while y < height
            invariant
                (width, height) == config.field_size_spec().dims(),
                width * height <= usize::MAX,
                y <= height,
                field@.len() == y,
                forall|v: int| 0 <= v < y ==> #[trigger] field@[v]@.len() == width,
                forall|u: int, v: int| 0 <= v < y && 0 <= u < width ==> #[trigger] field@[v]@[u] == Cell::blank(),
                grid_count(field@, hidden_safe()) == y * width,
                grid_count(field@, holds_gopher()) == 0,
            decreases height - y,
        {
            let mut row: Vec<Cell> = Vec::with_capacity(width);
            let mut x: usize = 0;
            while x < width
                invariant
                    x <= width,
                    row@.len() == x,
                    forall|u: int| 0 <= u < x ==> #[trigger] row@[u] == Cell::blank(),
                    row_count(row@, hidden_safe()) == x,
                    row_count(row@, holds_gopher()) == 0,
                decreases width - x,
            {
                let ghost r0 = row@;
                row.push(Cell::default());
                proof {
                    assert(row@.drop_last() =~= r0);
                }
                x += 1;
            }
            let ghost f0 = field@;
            field.push(row);
            proof {
                assert(field@.drop_last() =~= f0);
                assert(y * width + width == (y + 1) * width) by (nonlinear_arith);
            }
            y += 1;
        }
        proof {
            assert(height * width == width * height) by (nonlinear_arith);
        }
        let mut result = GopherSweeper { config, remaining_cells: 0, field };
        let mut i: usize = 0;
        while i < gophers.len()
            invariant
                (width, height) == config.field_size_spec().dims(),
                width * height <= usize::MAX,
                result.config == config,
                result.field@.len() == height,
                forall|v: int| 0 <= v < height ==> #[trigger] result.field@[v]@.len() == width,
                gophers@.len() == config.gophers_spec(),
                forall|k: int|
                    0 <= k < gophers@.len() ==> (#[trigger] gophers@[k]).0 < width && gophers@[k].1 < height,
                forall|k: int, l: int|
                    0 <= k < gophers@.len() && 0 <= l < gophers@.len() && k != l ==> #[trigger] gophers@[k]
                        != #[trigger] gophers@[l],
                i <= gophers@.len(),
                forall|u: int, v: int|
                    result.in_bounds(u, v) ==> {
                        let c = #[trigger] result.cell_at(u, v);
                        &&& !c.is_exposed
                        &&& !c.is_flagged
                        &&& c.surrounding_gophers == 0
                        &&& (c.has_gopher <==> gophers@.take(i as int).contains((u as usize, v as usize)))
                    },
                grid_count(result.field@, hidden_safe()) == width * height - i,
                grid_count(result.field@, holds_gopher()) == i,
            decreases gophers@.len() - i,
        {
            let (gx, gy) = gophers[i];
            let ghost before = result;
            proof {
                assert(gophers@.take(i as int + 1) =~= gophers@.take(i as int).push((gx, gy)));
                broadcast use vstd::seq_lib::lemma_seq_contains_after_push;
                if gophers@.take(i as int).contains((gx, gy)) {
                    let k = choose|k: int| 0 <= k < i && gophers@.take(i as int)[k] == (gx, gy);
                    assert(gophers@[k] == gophers@[i as int]);
                }
                assert(!before.cell_at(gx as int, gy as int).has_gopher);
            }
            let mut cell = result.field[gy][gx];
            cell.has_gopher = true;
            result.set_cell(gx, gy, cell);
            i += 1;
        }
        proof {
            assert(gophers@.take(gophers@.len() as int) =~= gophers@);
        }
        let ghost placed = result;
        let mut y: usize = 0;
        while y < height
            invariant
                (width, height) == config.field_size_spec().dims(),
                width * height <= usize::MAX,
                result.config == config,
                placed.config == config,
                forall|u: int, v: int|
                    placed.in_bounds(u, v) ==> !(#[trigger] placed.cell_at(u, v)).is_exposed && !placed.cell_at(u, v).is_flagged
                        && (placed.cell_at(u, v).has_gopher <==> gophers@.contains((u as usize, v as usize))),
                result.field@.len() == height,
                forall|v: int| 0 <= v < height ==> #[trigger] result.field@[v]@.len() == width,
                y <= height,
                forall|u: int, v: int|
                    result.in_bounds(u, v) ==> #[trigger] result.cell_at(u, v) == (Cell {
                        surrounding_gophers: result.cell_at(u, v).surrounding_gophers,
                        ..placed.cell_at(u, v)
                    }),
                forall|u: int, v: int|
                    result.in_bounds(u, v) && v < y ==> #[trigger] result.cell_at(u, v).surrounding_gophers
                        == placed.gophers_around(u, v),
                grid_count(result.field@, hidden_safe()) == grid_count(placed.field@, hidden_safe()),
                grid_count(result.field@, holds_gopher()) == grid_count(placed.field@, holds_gopher()),
            decreases height - y,
        {
            let mut x: usize = 0;
            while x < width
                invariant
                    (width, height) == config.field_size_spec().dims(),
                    width * height <= usize::MAX,
                    result.config == config,
                    placed.config == config,
                    forall|u: int, v: int|
                        placed.in_bounds(u, v) ==> !(#[trigger] placed.cell_at(u, v)).is_exposed && !placed.cell_at(u, v).is_flagged
                            && (placed.cell_at(u, v).has_gopher <==> gophers@.contains((u as usize, v as usize))),
                forall|u: int, v: int|
                    placed.in_bounds(u, v) ==> !(#[trigger] placed.cell_at(u, v)).is_exposed && !placed.cell_at(u, v).is_flagged
                        && (placed.cell_at(u, v).has_gopher <==> gophers@.contains((u as usize, v as usize))),
                    result.field@.len() == height,
                    forall|v: int| 0 <= v < height ==> #[trigger] result.field@[v]@.len() == width,
                    y < height,
                    x <= width,
                    forall|u: int, v: int|
                        result.in_bounds(u, v) ==> #[trigger] result.cell_at(u, v) == (Cell {
                            surrounding_gophers: result.cell_at(u, v).surrounding_gophers,
                            ..placed.cell_at(u, v)
                        }),
                    forall|u: int, v: int|
                        result.in_bounds(u, v) && (v < y || (v == y && u < x)) ==> #[trigger] result.cell_at(
                            u,
                            v,
                        ).surrounding_gophers == placed.gophers_around(u, v),
                    grid_count(result.field@, hidden_safe()) == grid_count(placed.field@, hidden_safe()),
                    grid_count(result.field@, holds_gopher()) == grid_count(placed.field@, holds_gopher()),
                decreases width - x,
            {
                let n = result.count_around(x, y);
                proof {
                    placed.lemma_gophers_around_same(result, x as int, y as int);
                }
                let mut cell = result.field[y][x];
                cell.surrounding_gophers = n;
                result.set_cell(x, y, cell);
                x += 1;
            }
            y += 1;
        }
        proof {
            assert(width * height - gophers@.len() >= 0);
            assert forall|x: int, y: int| result.in_bounds(x, y) implies result.cell_at(x, y).surrounding_gophers
                == #[trigger] result.gophers_around(x, y) by {
                placed.lemma_gophers_around_same(result, x, y);
                assert(result.cell_at(x, y).surrounding_gophers == placed.gophers_around(x, y));
            }
        }
        let ghost counted = result;
        result.remaining_cells = width * height - gophers.len();
        proof {
            assert forall|u: int, v: int| counted.in_bounds(u, v) implies counted.cell_at(u, v)
                == #[trigger] result.cell_at(u, v) by {}
            counted.lemma_counts_kept(result);
            assert(result.exposed_set() =~= Set::empty());
        }
        result
    }

    /// Number of gophers in the cells around `(x, y)`.
    fn count_around(&self, x: usize, y: usize) -> (r: u8)
        requires
            self.config.cells() <= usize::MAX,
            self.field@.len() == self.height(),
            forall|v: int| 0 <= v < self.height() ==> #[trigger] self.field@[v]@.len() == self.width(),
            self.in_bounds(x as int, y as int),
        ensures
            r == self.gophers_around(x as int, y as int),
    {
        let (w, h) = self.config.size();
        let mut n: u8 = 0;
        if x > 0 && y > 0 && self.field[y - 1][x - 1].has_gopher {
            n = n + 1;
        }
        if y > 0 && self.field[y - 1][x].has_gopher {
            n = n + 1;
        }
        if x + 1 < w && y > 0 && self.field[y - 1][x + 1].has_gopher {
            n = n + 1;
        }
        if x > 0 && self.field[y][x - 1].has_gopher {
            n = n + 1;
        }
        if x + 1 < w && self.field[y][x + 1].has_gopher {
            n = n + 1;
        }
        if x > 0 && y + 1 < h && self.field[y + 1][x - 1].has_gopher {
            n = n + 1;
        }
        if y + 1 < h && self.field[y + 1][x].has_gopher {
            n = n + 1;
        }
        if x + 1 < w && y + 1 < h && self.field[y + 1][x + 1].has_gopher {
            n = n + 1;
        }
        n
    }

    /// Games that agree on where the gophers are agree on every count.
    proof fn lemma_gophers_around_same(self, other: Self, x: int, y: int)
        requires
            other.config == self.config,
            forall|u: int, v: int|
                self.in_bounds(u, v) ==> (#[trigger] self.cell_at(u, v)).has_gopher == other.cell_at(u, v).has_gopher,
        ensures
            other.gophers_around(x, y) == self.gophers_around(x, y),
    {
        assert(self.cell_at(x - 1, y - 1) == self.cell_at(x - 1, y - 1));
        assert(self.cell_at(x, y - 1) == self.cell_at(x, y - 1));
        assert(self.cell_at(x + 1, y - 1) == self.cell_at(x + 1, y - 1));
        assert(self.cell_at(x - 1, y) == self.cell_at(x - 1, y));
        assert(self.cell_at(x + 1, y) == self.cell_at(x + 1, y));
        assert(self.cell_at(x - 1, y + 1) == self.cell_at(x - 1, y + 1));
        assert(self.cell_at(x, y + 1) == self.cell_at(x, y + 1));
        assert(self.cell_at(x + 1, y + 1) == self.cell_at(x + 1, y + 1));
    }

    /// The state of the cell in column `x` of row `y`.
    pub fn cell(&self, x: usize, y: usize) -> (r: &Cell)
        requires
            self.wf(),
            self.in_bounds(x as int, y as int),
        ensures
            *r == self.cell_at(x as int, y as int),
    {
        &self.field[y][x]
    }

    pub fn config(&self) -> (r: &GameConfig)
        ensures
            *r == self.config_spec(),
    {
        &self.config
    }

    /// Number of safe cells that are still to be exposed.
    pub fn remaining_cells(&self) -> (r: usize)
        requires
            self.wf(),
        ensures
            r == self.remaining_spec(),
            r == self.hidden_safe_count(),
    {
        self.remaining_cells
    }

    /// The cells, row by row.
    pub fn rows(&self) -> (r: &Vec<Vec<Cell>>)
        requires
            self.wf(),
        ensures
            r@ == self.rows_view(),
            r@.len() == self.height(),
            forall|y: int| 0 <= y < self.height() ==> #[trigger] r@[y]@.len() == self.width(),
    {
        &self.field
    }

    /// Flips the flag of an unexposed cell; an exposed cell is left alone.
    pub fn toggle_flag(&mut self, x: usize, y: usize) -> (r: ToggleFlagResult)
        requires
            old(self).wf(),
            old(self).in_bounds(x as int, y as int),
        ensures
            final(self).wf(),
            old(self).cell_at(x as int, y as int).is_exposed ==> r == ToggleFlagResult::CellWasExposed
                && *final(self) == *old(self),
            !old(self).cell_at(x as int, y as int).is_exposed ==> old(self).flag_toggled(
                *final(self),
                x as int,
                y as int,
            ) && r == (if final(self).cell_at(x as int, y as int).is_flagged {
                ToggleFlagResult::Enabled
            } else {
                ToggleFlagResult::Disabled
            }),
    {
        if self.field[y][x].is_exposed {
            return ToggleFlagResult::CellWasExposed;
        }
        let mut cell = self.field[y][x];
        cell.is_flagged = !cell.is_flagged;
        self.set_cell(x, y, cell);
        proof {
            old(self).lemma_same_layout(*self);
        }
        if cell.is_flagged {
            ToggleFlagResult::Enabled
        } else {
            ToggleFlagResult::Disabled
        }
    }

    /// Replaces the cell at `(x, y)`.
    fn set_cell(&mut self, x: usize, y: usize, c: Cell)
        requires
            old(self).field@.len() == old(self).height(),
            forall|v: int| 0 <= v < old(self).height() ==> #[trigger] old(self).field@[v]@.len() == old(self).width(),
            old(self).in_bounds(x as int, y as int),
        ensures
            final(self).config == old(self).config,
            final(self).remaining_cells == old(self).remaining_cells,
            final(self).field@.len() == old(self).field@.len(),
            forall|v: int| 0 <= v < final(self).height() ==> #[trigger] final(self).field@[v]@.len() == final(self).width(),
            final(self).cell_at(x as int, y as int) == c,
            forall|u: int, v: int|
                old(self).in_bounds(u, v) && (u != x || v != y) ==> #[trigger] final(self).cell_at(u, v)
                    == old(self).cell_at(u, v),
            final(self).hidden_safe_count() + one_if(old(self).cell_at(x as int, y as int).is_hidden_safe())
                == old(self).hidden_safe_count() + one_if(c.is_hidden_safe()),
            final(self).gopher_count() + one_if(old(self).cell_at(x as int, y as int).has_gopher)
                == old(self).gopher_count() + one_if(c.has_gopher),
    {
        let ghost rows = self.field@;
        let ghost row = self.field@[y as int]@;
        self.field[y][x] = c;
        proof {
            let hs = hidden_safe();
            let hg = holds_gopher();
            lemma_row_count_update(row, x as int, c, hs);
            lemma_grid_count_update(rows, y as int, self.field@[y as int], hs);
            lemma_row_count_update(row, x as int, c, hg);
            lemma_grid_count_update(rows, y as int, self.field@[y as int], hg);
            assert(rows.update(y as int, self.field@[y as int]) =~= self.field@);
        }
    }

    /// Tries to expose the cell at `(x, y)`. An exposed, flagged or
    /// gopher-holding cell is left alone; otherwise the cell is exposed and
    /// exposure spreads from every exposed cell with no gopher around it.
    pub fn try_expose_cell(&mut self, x: usize, y: usize) -> (r: ExposeResult)
        requires
            old(self).wf(),
            old(self).in_bounds(x as int, y as int),
        ensures
            final(self).wf(),
            ({
                let c = old(self).cell_at(x as int, y as int);
                if c.is_exposed {
                    r == ExposeResult::WasAlreadyExposed && *final(self) == *old(self)
                } else if c.is_flagged {
                    r == ExposeResult::IsFlagged && *final(self) == *old(self)
                } else if c.has_gopher {
                    r == ExposeResult::HasGopher && *final(self) == *old(self)
                } else {
                    &&& old(self).same_but_exposure(*final(self))
                    &&& final(self).exposed_set() == old(self).flood(x as int, y as int)
                    &&& r == if final(self).remaining_spec() == 0 {
                        ExposeResult::Win
                    } else {
                        ExposeResult::Exposed
                    }
                }
            }),
    {
        if self.field[y][x].is_exposed {
            return ExposeResult::WasAlreadyExposed;
        }
        if self.field[y][x].is_flagged {
            return ExposeResult::IsFlagged;
        }
        if self.field[y][x].has_gopher {
            return ExposeResult::HasGopher;
        }
        self.expose_recursively(x, y);
        if self.remaining_cells == 0 {
            return ExposeResult::Win;
        }
        ExposeResult::Exposed
    }

    /// Exposes the hidden safe cell `(x, y)`, then, working through a stack
    /// of freshly exposed cells, every unexposed neighbour of each of them
    /// that has no gopher around it.
    fn expose_recursively(&mut self, x: usize, y: usize)
        requires
            old(self).wf(),
            old(self).in_bounds(x as int, y as int),
            old(self).cell_at(x as int, y as int).is_hidden_safe(),
        ensures
            final(self).wf(),
            old(self).same_but_exposure(*final(self)),
            final(self).exposed_set() == old(self).flood(x as int, y as int),
    {
        let ghost start = *old(self);
        let ghost sx = x as int;
        let ghost sy = y as int;
        self.expose_one(x, y);
        let mut stack: Vec<(usize, usize)> = Vec::new();
        stack.push((x, y));
        broadcast use vstd::seq_lib::lemma_seq_contains_after_push;
        while stack.len() > 0
            invariant
                self.consistent(),
                start.same_but_exposure(*self),
                start.exposed_set().subset_of(self.exposed_set()),
                self.exposed_set().contains((sx, sy)),
                forall|i: int|
                    0 <= i < stack@.len() ==> self.in_bounds(#[trigger] stack@[i].0 as int, stack@[i].1 as int)
                        && self.cell_at(stack@[i].0 as int, stack@[i].1 as int).is_exposed,
                forall|a: int, b: int, u: int, v: int|
                    #[trigger] self.exposed_set().contains((a, b)) && #[trigger] adjacent(a, b, u, v)
                        && self.spreads(a, b) && self.in_bounds(u, v) && !stack@.contains(
                        (a as usize, b as usize),
                    ) ==> self.exposed_set().contains((u, v)),
                forall|s: Set<(int, int)>| #[trigger] start.admits(sx, sy, s) ==> self.exposed_set().subset_of(s),
            decreases 2 * self.remaining_cells + stack@.len(),
        {
            let ghost measure = 2 * self.remaining_cells + stack@.len();
            let ghost stack0 = stack@;
            let (px, py) = stack.pop().unwrap();
            proof {
                assert(stack0[stack0.len() - 1] == (px, py));
                assert(stack0 =~= stack@.push((px, py)));
                assert(self.in_bounds(px as int, py as int));
            }
            if self.field[py][px].surrounding_gophers == 0 {
                let around = self.surrounding_cells_coords(px, py);
                let mut j: usize = 0;
                while j < around.len()
                    invariant
                        self.consistent(),
                        start.same_but_exposure(*self),
                        start.exposed_set().subset_of(self.exposed_set()),
                        self.exposed_set().contains((sx, sy)),
                        self.in_bounds(px as int, py as int),
                        self.cell_at(px as int, py as int).is_exposed,
                        self.cell_at(px as int, py as int).surrounding_gophers == 0,
                        around@ == neighbor_seq(self.width(), self.height(), px as int, py as int),
                        forall|i: int|
                            0 <= i < around@.len() ==> self.in_bounds(#[trigger] around@[i].0 as int, around@[i].1 as int)
                                && adjacent(px as int, py as int, around@[i].0 as int, around@[i].1 as int),
                        forall|u: int, v: int|
                            self.in_bounds(u, v) && #[trigger] adjacent(px as int, py as int, u, v) ==> around@.contains(
                                (u as usize, v as usize),
                            ),
                        forall|i: int|
                            0 <= i < j ==> self.cell_at(#[trigger] around@[i].0 as int, around@[i].1 as int).is_exposed,
                        forall|i: int|
                            0 <= i < stack@.len() ==> self.in_bounds(#[trigger] stack@[i].0 as int, stack@[i].1 as int)
                                && self.cell_at(stack@[i].0 as int, stack@[i].1 as int).is_exposed,
                        forall|a: int, b: int, u: int, v: int|
                            #[trigger] self.exposed_set().contains((a, b)) && #[trigger] adjacent(a, b, u, v)
                                && self.spreads(a, b) && self.in_bounds(u, v) && !stack@.contains(
                                (a as usize, b as usize),
                            ) && (a != px || b != py) ==> self.exposed_set().contains((u, v)),
                        forall|s: Set<(int, int)>| #[trigger] start.admits(sx, sy, s) ==> self.exposed_set().subset_of(s),
                        2 * self.remaining_cells + stack@.len() < measure,
                    decreases around.len() - j,
                {
                    let (qx, qy) = around[j];
                    proof {
                        assert(self.in_bounds(around@[j as int].0 as int, around@[j as int].1 as int));
                        assert(adjacent(px as int, py as int, qx as int, qy as int));
                    }
                    if !self.field[qy][qx].is_exposed {
                        proof {
                            self.lemma_no_gopher_next_to_spreading(px as int, py as int, qx as int, qy as int);
                        }
                        let ghost mid = *self;
                        let ghost stack1 = stack@;
                        self.expose_one(qx, qy);
                        stack.push((qx, qy));
                        proof {
                            start.lemma_expose_step(mid, *self, stack1, stack@, sx, sy, px as int, py as int, qx, qy);
                            assert forall|i: int|
                                0 <= i < stack@.len() implies self.in_bounds(#[trigger] stack@[i].0 as int, stack@[i].1 as int)
                                    && self.cell_at(stack@[i].0 as int, stack@[i].1 as int).is_exposed by {
                                if i < stack1.len() {
                                    assert(stack@[i] == stack1[i]);
                                    assert(mid.cell_at(stack1[i].0 as int, stack1[i].1 as int).is_exposed);
                                }
                            }
                            assert forall|i: int|
                                0 <= i < j + 1 implies self.cell_at(#[trigger] around@[i].0 as int, around@[i].1 as int).is_exposed by {
                                if i < j {
                                    assert(mid.cell_at(around@[i].0 as int, around@[i].1 as int).is_exposed);
                                }
                            }
                        }
                    }
                    j += 1;
                }
                proof {
                    assert forall|u: int, v: int|
                        self.in_bounds(u, v) && #[trigger] adjacent(px as int, py as int, u, v) implies self.exposed_set().contains((u, v)) by {
                        assert(around@.contains((u as usize, v as usize)));
                        let i = choose|i: int| 0 <= i < around@.len() && around@[i] == (u as usize, v as usize);
                        assert(self.cell_at(around@[i].0 as int, around@[i].1 as int).is_exposed);
                    }
                }
            }
        }
        proof {
            assert forall|p: (int, int)| #[trigger] self.exposed_set().contains(p) implies start.flood(sx, sy).contains(p) by {
                assert forall|s: Set<(int, int)>| #[trigger] start.admits(sx, sy, s) implies s.contains(p) by {
                    assert(self.exposed_set().subset_of(s));
                }
            }
            assert(start.closed_under_spread(self.exposed_set())) by {
                assert forall|a: int, b: int, u: int, v: int|
                    #[trigger] self.exposed_set().contains((a, b)) && #[trigger] adjacent(a, b, u, v)
                        && start.spreads(a, b) && start.in_bounds(u, v) implies self.exposed_set().contains((u, v)) by {
                    assert(self.cell_at(a, b) == Cell { is_exposed: self.cell_at(a, b).is_exposed, ..start.cell_at(a, b) });
                }
            }
            assert(start.admits(sx, sy, self.exposed_set()));
            assert forall|p: (int, int)| #[trigger] start.flood(sx, sy).contains(p) implies self.exposed_set().contains(p) by {
                assert(start.admits(sx, sy, self.exposed_set()));
            }
            assert(self.exposed_set() =~= start.flood(sx, sy));
        }
    }

    /// Exposing `(qx, qy)` next to the exposed spreading cell `(px, py)`, and
    /// pushing it on the stack, keeps the flood's invariants.
    proof fn lemma_expose_step(
        self,
        mid: Self,
        next: Self,
        stack1: Seq<(usize, usize)>,
        stack2: Seq<(usize, usize)>,
        sx: int,
        sy: int,
        px: int,
        py: int,
        qx: usize,
        qy: usize,
    )
        requires
            self.same_but_exposure(mid),
            mid.same_but_exposure(next),
            mid.in_bounds(px, py),
            mid.cell_at(px, py).is_exposed,
            mid.cell_at(px, py).surrounding_gophers == 0,
            mid.in_bounds(qx as int, qy as int),
            adjacent(px, py, qx as int, qy as int),
            next.exposed_set() == mid.exposed_set().insert((qx as int, qy as int)),
            stack2 == stack1.push((qx, qy)),
            forall|s: Set<(int, int)>| #[trigger] self.admits(sx, sy, s) ==> mid.exposed_set().subset_of(s),
            forall|a: int, b: int, u: int, v: int|
                #[trigger] mid.exposed_set().contains((a, b)) && #[trigger] adjacent(a, b, u, v)
                    && mid.spreads(a, b) && mid.in_bounds(u, v) && !stack1.contains((a as usize, b as usize))
                    && (a != px || b != py) ==> mid.exposed_set().contains((u, v)),
        ensures
            forall|s: Set<(int, int)>| #[trigger] self.admits(sx, sy, s) ==> next.exposed_set().subset_of(s),
            forall|a: int, b: int, u: int, v: int|
                #[trigger] next.exposed_set().contains((a, b)) && #[trigger] adjacent(a, b, u, v)
                    && next.spreads(a, b) && next.in_bounds(u, v) && !stack2.contains((a as usize, b as usize))
                    && (a != px || b != py) ==> next.exposed_set().contains((u, v)),
    {
        broadcast use vstd::seq_lib::lemma_seq_contains_after_push;
        assert forall|s: Set<(int, int)>| #[trigger] self.admits(sx, sy, s) implies next.exposed_set().subset_of(s) by {
            assert(mid.exposed_set().contains((px, py)));
            assert(s.contains((px, py)));
            assert(mid.cell_at(px, py) == Cell { is_exposed: mid.cell_at(px, py).is_exposed, ..self.cell_at(px, py) });
            assert(s.contains((qx as int, qy as int)));
        }
        assert forall|a: int, b: int, u: int, v: int|
            #[trigger] next.exposed_set().contains((a, b)) && #[trigger] adjacent(a, b, u, v)
                && next.spreads(a, b) && next.in_bounds(u, v) && !stack2.contains((a as usize, b as usize))
                && (a != px || b != py) implies next.exposed_set().contains((u, v)) by {
            if a == qx as int && b == qy as int {
                assert(stack2.contains((qx, qy)));
            } else {
                assert(mid.exposed_set().contains((a, b)));
                assert(next.cell_at(a, b) == Cell { is_exposed: next.cell_at(a, b).is_exposed, ..mid.cell_at(a, b) });
                assert(mid.spreads(a, b));
                assert(mid.exposed_set().contains((u, v)));
            }
        }
    }

    /// No gopher lies next to a cell that has no gopher around it.
    proof fn lemma_no_gopher_next_to_spreading(self, x: int, y: int, u: int, v: int)
        requires
            self.consistent(),
            self.spreads(x, y),
            self.in_bounds(u, v),
            adjacent(x, y, u, v),
        ensures
            !self.cell_at(u, v).has_gopher,
    {
        assert(self.cell_at(x, y).surrounding_gophers == self.gophers_around(x, y));
        assert(self.gopher_at(u, v) == 0);
    }

    /// Exposes the hidden safe cell `(x, y)` alone.
    fn expose_one(&mut self, x: usize, y: usize)
        requires
            old(self).consistent(),
            old(self).in_bounds(x as int, y as int),
            old(self).cell_at(x as int, y as int).is_hidden_safe(),
        ensures
            final(self).consistent(),
            old(self).same_but_exposure(*final(self)),
            final(self).cell_at(x as int, y as int).is_exposed,
            forall|u: int, v: int|
                old(self).in_bounds(u, v) && (u != x || v != y) ==> #[trigger] final(self).cell_at(u, v)
                    == old(self).cell_at(u, v),
            final(self).exposed_set() == old(self).exposed_set().insert((x as int, y as int)),
            final(self).remaining_cells == old(self).remaining_cells - 1,
    {
        let mut cell = self.field[y][x];
        cell.is_exposed = true;
        self.set_cell(x, y, cell);
        proof {
            assert(cell == Cell { is_exposed: true, ..old(self).cell_at(x as int, y as int) });
            assert(self.cell_at(x as int, y as int) == cell);
        }
        let ghost mid = *self;
        self.remaining_cells = self.remaining_cells - 1;
        proof {
            assert forall|u: int, v: int| old(self).in_bounds(u, v) implies #[trigger] self.cell_at(u, v) == mid.cell_at(u, v) by {}
            old(self).lemma_counts_kept(*self);
            assert(self.exposed_set() =~= old(self).exposed_set().insert((x as int, y as int)));
        }
    }

    /// Counts stay exact where gophers and counts stay the same.
    proof fn lemma_counts_kept(self, other: Self)
        requires
            self.counts_exact(),
            other.config == self.config,
            forall|u: int, v: int|
                self.in_bounds(u, v) ==> {
                    let a = #[trigger] self.cell_at(u, v);
                    let b = other.cell_at(u, v);
                    a.has_gopher == b.has_gopher && a.surrounding_gophers == b.surrounding_gophers
                },
        ensures
            other.counts_exact(),
    {
        assert forall|x: int, y: int| other.in_bounds(x, y) implies other.cell_at(x, y).surrounding_gophers
            == #[trigger] other.gophers_around(x, y) by {
            assert(self.cell_at(x, y).surrounding_gophers == self.gophers_around(x, y));
            self.lemma_gophers_around_same(other, x, y);
        }
    }

    /// A game that differs from a well-formed one in flags alone is
    /// well-formed.
    proof fn lemma_same_layout(self, other: Self)
        requires
            self.wf(),
            other.config == self.config,
            other.remaining_cells == self.remaining_cells,
            other.field@.len() == self.field@.len(),
            forall|v: int| 0 <= v < other.height() ==> #[trigger] other.field@[v]@.len() == other.width(),
            forall|u: int, v: int|
                self.in_bounds(u, v) ==> {
                    let a = #[trigger] self.cell_at(u, v);
                    let b = other.cell_at(u, v);
                    a.has_gopher == b.has_gopher && a.is_exposed == b.is_exposed
                        && a.surrounding_gophers == b.surrounding_gophers
                },
            grid_count(other.field@, hidden_safe()) == grid_count(self.field@, hidden_safe()),
            grid_count(other.field@, holds_gopher()) == grid_count(self.field@, holds_gopher()),
        ensures
            other.wf(),
    {
        self.lemma_counts_kept(other);
        assert(other.exposed_set() =~= self.exposed_set());
        assert forall|x: int, y: int, u: int, v: int|
            #[trigger] other.exposed_set().contains((x, y)) && #[trigger] adjacent(x, y, u, v)
                && other.spreads(x, y) && other.in_bounds(u, v) implies other.exposed_set().contains(
            (u, v),
        ) by {
            assert(self.exposed_set().contains((x, y)));
        }
        assert forall|x: int, y: int|
            other.in_bounds(x, y) && #[trigger] other.cell_at(x, y).is_exposed implies !other.cell_at(
            x,
            y,
        ).has_gopher by {
            assert(self.cell_at(x, y).is_exposed);
        }
    }

    /// The coordinates around `(x, y)` that lie on the field.
    fn surrounding_cells_coords(&self, x: usize, y: usize) -> (r: Vec<(usize, usize)>)
        requires
            self.in_bounds(x as int, y as int),
        ensures
            r@ == neighbor_seq(self.width(), self.height(), x as int, y as int),
            r@.len() <= 8,
            forall|i: int|
                0 <= i < r@.len() ==> self.in_bounds(r@[i].0 as int, r@[i].1 as int) && adjacent(
                    x as int,
                    y as int,
                    r@[i].0 as int,
                    r@[i].1 as int,
                ),
            forall|u: int, v: int|
                self.in_bounds(u, v) && #[trigger] adjacent(x as int, y as int, u, v) ==> r@.contains(
                    (u as usize, v as usize),
                ),
    {
        let mut result: Vec<(usize, usize)> = Vec::with_capacity(8);
        let (w, h) = self.config.size();
        if x > 0 {
            result.push((x - 1, y));
        }
        if y > 0 {
            result.push((x, y - 1));
        }
        if x + 1 < w {
            result.push((x + 1, y));
        }
        if y + 1 < h {
            result.push((x, y + 1));
        }
        if x > 0 && y > 0 {
            result.push((x - 1, y - 1));
        }
        if x > 0 && y + 1 < h {
            result.push((x - 1, y + 1));
        }
        if x + 1 < w && y > 0 {
            result.push((x + 1, y - 1));
        }
        if x + 1 < w && y + 1 < h {
            result.push((x + 1, y + 1));
        }
        proof {
            assert forall|u: int, v: int|
                self.in_bounds(u, v) && #[trigger] adjacent(x as int, y as int, u, v) implies result@.contains(
                (u as usize, v as usize),
            ) by {
                broadcast use vstd::seq_lib::lemma_seq_contains_after_push, vstd::seq_lib::lemma_seq_empty_contains_nothing;
            }
        }
        result
    }
}

/// Every well-formed game counts, in each cell, exactly the gophers around
/// it.
pub proof fn lemma_counts_are_exact(g: GopherSweeper)
    requires
        g.wf(),
    ensures
        g.counts_exact(),
{
}

/// Every well-formed game holds exactly as many gophers as its configuration
/// asks for.
pub proof fn lemma_gophers_as_configured(g: GopherSweeper)
    requires
        g.wf(),
    ensures
        g.gopher_count() == g.config_spec().gophers_spec(),
{
}

/// In every well-formed game the tracked number of remaining cells is the
/// number of safe cells that are not exposed, and no gopher is exposed.
pub proof fn lemma_remaining_counts_hidden_safe_cells(g: GopherSweeper)
    requires
        g.wf(),
    ensures
        g.remaining_spec() == g.hidden_safe_count(),
        forall|x: int, y: int| g.in_bounds(x, y) && #[trigger] g.cell_at(x, y).is_exposed ==> !g.cell_at(x, y).has_gopher,
{
}

/// Once no safe cell is left to expose, every cell is exposed or holds a
/// gopher, so no later exposure can succeed or report a win: a game is won
/// once at most.
pub proof fn lemma_won_game_stays_won(g: GopherSweeper, x: int, y: int)
    requires
        g.wf(),
        g.remaining_spec() == 0,
        g.in_bounds(x, y),
    ensures
        g.cell_at(x, y).is_exposed || g.cell_at(x, y).has_gopher,
{
    let c = g.cell_at(x, y);
    if !c.is_exposed && !c.has_gopher {
        lemma_row_count_positive(g.field@[y]@, x, hidden_safe());
        lemma_grid_count_positive(g.field@, y, hidden_safe());
    }
}

/// A cell that satisfies `f` makes the count of its row positive.
proof fn lemma_row_count_positive(row: Seq<Cell>, i: int, f: spec_fn(Cell) -> bool)
    requires
        0 <= i < row.len(),
        f(row[i]),
    ensures
        row_count(row, f) >= 1,
    decreases row.len(),
{
    if i < row.len() - 1 {
        lemma_row_count_positive(row.drop_last(), i, f);
    }
}

/// A row with a positive count makes the count of the grid positive.
proof fn lemma_grid_count_positive(rows: Seq<Vec<Cell>>, y: int, f: spec_fn(Cell) -> bool)
    requires
        0 <= y < rows.len(),
        row_count(rows[y]@, f) >= 1,
    ensures
        grid_count(rows, f) >= 1,
    decreases rows.len(),
{
    if y < rows.len() - 1 {
        lemma_grid_count_positive(rows.drop_last(), y, f);
    }
}

/// Exposing a cell with no gopher around it exposes each of its neighbours;
/// together with the definition of `flood`, exposure reaches the whole
/// region of such cells connected to it, with the cells that border it, and
/// no cell outside every spread-closed set.
pub proof fn lemma_flood_takes_neighbours(g: GopherSweeper, x: int, y: int, u: int, v: int)
    requires
        g.spreads(x, y),
        g.in_bounds(u, v),
        adjacent(x, y, u, v),
    ensures
        g.flood(x, y).contains((x, y)),
        g.flood(x, y).contains((u, v)),
{
    assert forall|s: Set<(int, int)>| #[trigger] g.admits(x, y, s) implies s.contains((u, v)) by {
        assert(s.contains((x, y)));
    }
}

/// Toggling the flag of an unexposed cell twice flips it and then flips it
/// back, restoring the game: the first toggle enables the flag of an
/// unflagged cell and the second disables it.
pub proof fn lemma_toggle_twice_restores(a: GopherSweeper, b: GopherSweeper, c: GopherSweeper, x: int, y: int)
    requires
        a.in_bounds(x, y),
        !a.cell_at(x, y).is_exposed,
        a.flag_toggled(b, x, y),
        b.flag_toggled(c, x, y),
    ensures
        !b.cell_at(x, y).is_exposed,
        b.cell_at(x, y).is_flagged == !a.cell_at(x, y).is_flagged,
        c.cell_at(x, y).is_flagged == a.cell_at(x, y).is_flagged,
        a.same_game(c),
{
    assert forall|u: int, v: int| a.in_bounds(u, v) implies #[trigger] c.cell_at(u, v) == a.cell_at(u, v) by {
        if u != x || v != y {
            assert(b.cell_at(u, v) == a.cell_at(u, v));
        }
    }
}

} // verus!
