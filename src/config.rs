//! Field size and difficulty, resolved into dimensions and a gopher count.

use vstd::prelude::*;

verus! {

pub const SMALL_WIDTH: usize = 10;
pub const SMALL_HEIGHT: usize = 8;
pub const MEDIUM_WIDTH: usize = 18;
pub const MEDIUM_HEIGHT: usize = 12;
pub const BIG_WIDTH: usize = 24;
pub const BIG_HEIGHT: usize = 20;

/// Share of the cells, in percent, that hold a gopher on each preset.
pub const EASY_PERCENT: u8 = 10;
pub const NORMAL_PERCENT: u8 = 15;
pub const HARD_PERCENT: u8 = 20;

/// The dimensions of the field: a preset or a custom pair.
#[derive(Debug, Clone, Copy, PartialEq, Eq, Structural)]
pub enum FieldSize {
    Small,
    Medium,
    Big,
    Custom { width: usize, height: usize },
}

/// How densely the field is seeded with gophers: a preset or a custom
/// percentage of the cells.
#[derive(Debug, Clone, Copy, PartialEq, Eq, Structural)]
pub enum Difficulty {
    Easy,
    Normal,
    Hard,
    Custom { gophers_percentage: u8 },
}

/// A field size together with a difficulty.
#[derive(Debug, Clone, Copy, PartialEq, Eq, Structural)]
pub struct GameConfig {
    field_size: FieldSize,
    difficulty: Difficulty,
}

impl Default for FieldSize {
    fn default() -> (r: FieldSize)
        ensures
            r == FieldSize::Small,
    {
        FieldSize::Small
    }
}

impl Default for Difficulty {
    fn default() -> (r: Difficulty)
        ensures
            r == Difficulty::Easy,
    {
        Difficulty::Easy
    }
}

impl Default for GameConfig {
    fn default() -> (r: GameConfig)
        ensures
            r.field_size_spec() == FieldSize::Small,
            r.difficulty_spec() == Difficulty::Easy,
    {
        GameConfig { field_size: FieldSize::Small, difficulty: Difficulty::Easy }
    }
}

/// The smallest integer at least `a / b`.
pub open spec fn ceil_div(a: int, b: int) -> int {
    (a + b - 1) / b
}

impl FieldSize {
    /// Width and height of the field.
    pub open spec fn dims(self) -> (usize, usize) {
        match self {
            FieldSize::Small => (SMALL_WIDTH, SMALL_HEIGHT),
            FieldSize::Medium => (MEDIUM_WIDTH, MEDIUM_HEIGHT),
            FieldSize::Big => (BIG_WIDTH, BIG_HEIGHT),
            FieldSize::Custom { width, height } => (width, height),
        }
    }
}

impl Difficulty {
    /// Percentage of the cells that hold a gopher.
    pub open spec fn percent(self) -> int {
        match self {
            Difficulty::Easy => EASY_PERCENT as int,
            Difficulty::Normal => NORMAL_PERCENT as int,
            Difficulty::Hard => HARD_PERCENT as int,
            Difficulty::Custom { gophers_percentage } => gophers_percentage as int,
        }
    }
}

impl GameConfig {
    pub closed spec fn field_size_spec(self) -> FieldSize {
        self.field_size
    }

    pub closed spec fn difficulty_spec(self) -> Difficulty {
        self.difficulty
    }

    pub open spec fn width(self) -> int {
        self.field_size_spec().dims().0 as int
    }

    pub open spec fn height(self) -> int {
        self.field_size_spec().dims().1 as int
    }

    /// Number of cells of the field.
    pub open spec fn cells(self) -> int {
        self.width() * self.height()
    }

    /// Number of gophers: the density times the number of cells, rounded up.
    pub open spec fn gophers_spec(self) -> int {
        ceil_div(self.difficulty_spec().percent() * self.cells(), 100)
    }

    /// The number of cells and the number of gophers fit in a `usize`.
    pub open spec fn fits(self) -> bool {
        self.cells() <= usize::MAX && self.gophers_spec() <= usize::MAX
    }

    /// The density is at most one gopher per cell.
    pub open spec fn valid(self) -> bool {
        self.difficulty_spec().percent() <= 100
    }

    pub fn new(field_size: FieldSize, difficulty: Difficulty) -> (r: GameConfig)
        ensures
            r.field_size_spec() == field_size,
            r.difficulty_spec() == difficulty,
    {
        GameConfig { field_size, difficulty }
    }

    pub fn field_size(&self) -> (r: FieldSize)
        ensures
            r == self.field_size_spec(),
    {
        self.field_size
    }

    pub fn difficulty(&self) -> (r: Difficulty)
        ensures
            r == self.difficulty_spec(),
    {
        self.difficulty
    }

    /// Width and height of the field.
    pub fn size(&self) -> (r: (usize, usize))
        ensures
            r == self.field_size_spec().dims(),
    {
        match self.field_size {
            FieldSize::Small => (SMALL_WIDTH, SMALL_HEIGHT),
            FieldSize::Medium => (MEDIUM_WIDTH, MEDIUM_HEIGHT),
            FieldSize::Big => (BIG_WIDTH, BIG_HEIGHT),
            FieldSize::Custom { width, height } => (width, height),
        }
    }

    /// Number of gophers to plant: the density times the number of cells,
    /// rounded up.
    pub fn gophers(&self) -> (r: usize)
        requires
            self.fits(),
        ensures
            r == self.gophers_spec(),
    {
        let (width, height) = self.size();
        let percent: u8 = match self.difficulty {
            Difficulty::Easy => EASY_PERCENT,
            Difficulty::Normal => NORMAL_PERCENT,
            Difficulty::Hard => HARD_PERCENT,
            Difficulty::Custom { gophers_percentage } => gophers_percentage,
        };
        assert(width as int * height as int <= usize::MAX);
        let cells: usize = width * height;
        assert(percent as int * cells as int <= 255 * usize::MAX) by (nonlinear_arith)
            requires
                percent <= 255,
                cells <= usize::MAX,
        ;
        let scaled: u128 = percent as u128 * cells as u128;
        ((scaled + 99) / 100) as usize
    }
}

/// For a valid configuration the number of gophers never exceeds the number
/// of cells, and it is the density times the number of cells rounded up:
/// enough to reach that product, and one fewer would not.
pub proof fn lemma_gophers_within_cells(config: GameConfig)
    requires
        config.valid(),
    ensures
        0 <= config.gophers_spec() <= config.cells(),
        100 * config.gophers_spec() >= config.difficulty_spec().percent() * config.cells(),
        100 * (config.gophers_spec() - 1) < config.difficulty_spec().percent() * config.cells(),
{
    let p = config.difficulty_spec().percent();
    let c = config.cells();
    assert(c >= 0) by (nonlinear_arith)
        requires
            c == config.width() * config.height(),
            config.width() >= 0,
            config.height() >= 0,
    ;
    assert(0 <= p * c <= 100 * c) by (nonlinear_arith)
        requires
            0 <= p <= 100,
            c >= 0,
    ;
    let g = (p * c + 99) / 100;
    assert(0 <= g <= c && 100 * g >= p * c && 100 * (g - 1) < p * c) by (nonlinear_arith)
        requires
            g == (p * c + 99) / 100,
            0 <= p * c <= 100 * c,
    ;
}

} // verus!
