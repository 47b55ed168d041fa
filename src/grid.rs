use vstd::arithmetic::div_mod::{
    lemma_div_pos_is_pos, lemma_fundamental_div_mod, lemma_fundamental_div_mod_converse, lemma_mod_pos_bound,
    lemma_multiply_divide_lt, lemma_small_mod,
};
use vstd::prelude::*;

verus! {

/// One of the four directions of movement.
#[derive(Clone, Copy, Debug, PartialEq, Eq, Structural, Hash)]
pub enum Direction {
    Up,
    Down,
    Left,
    Right,
}

/// The direction that points the other way.
pub open spec fn spec_opposite(d: Direction) -> Direction {
    match d {
        Direction::Up => Direction::Down,
        Direction::Down => Direction::Up,
        Direction::Left => Direction::Right,
        Direction::Right => Direction::Left,
    }
}

impl Direction {
    /// The direction that points the other way.
    pub fn opposite(self) -> (r: Direction)
        ensures
            r == spec_opposite(self),
    {
        match self {
            Direction::Up => Direction::Down,
            Direction::Down => Direction::Up,
            Direction::Left => Direction::Right,
            Direction::Right => Direction::Left,
        }
    }
}

/// A grid position: `row` counts from the top, `col` from the left.
#[derive(Clone, Copy, Debug, PartialEq, Eq, Structural, Hash)]
pub struct Cell {
    pub row: usize,
    pub col: usize,
}

/// A fixed `height` by `width` board whose edges wrap around.
#[derive(Clone, Copy, Debug, PartialEq, Eq, Structural)]
pub struct Grid {
    pub height: usize,
    pub width: usize,
}

impl Grid {
    /// Both extents are positive and the number of cells fits in a `usize`.
    pub open spec fn valid(&self) -> bool {
        &&& self.height >= 1
        &&& self.width >= 1
        &&& self.height * self.width <= usize::MAX
    }

    pub open spec fn cell_count(&self) -> nat {
        (self.height * self.width) as nat
    }

    pub open spec fn contains(&self, c: Cell) -> bool {
        c.row < self.height && c.col < self.width
    }

    /// The neighbour of `c` in direction `d`, each axis taken modulo its extent.
    pub open spec fn spec_step(&self, c: Cell, d: Direction) -> Cell {
        let h = self.height as int;
        let w = self.width as int;
        match d {
            Direction::Up => Cell { row: ((c.row - 1) % h) as usize, col: c.col },
            Direction::Down => Cell { row: ((c.row + 1) % h) as usize, col: c.col },
            Direction::Left => Cell { row: c.row, col: ((c.col - 1) % w) as usize },
            Direction::Right => Cell { row: c.row, col: ((c.col + 1) % w) as usize },
        }
    }

    /// Row-major position of `c` among all cells.
    pub open spec fn index_of(&self, c: Cell) -> int {
        c.row * self.width + c.col
    }

    /// The cell at row-major position `k`.
    pub open spec fn cell_at(&self, k: int) -> Cell {
        Cell { row: (k / self.width as int) as usize, col: (k % self.width as int) as usize }
    }

    /// A grid of the given extents; `None` when one of them is zero or the
    /// number of cells does not fit in a `usize`.
    pub fn new(height: usize, width: usize) -> (r: Option<Grid>)
        ensures
            r is Some <==> (height >= 1 && width >= 1 && height * width <= usize::MAX),
            r matches Some(g) ==> g.height == height && g.width == width && g.valid(),
    {
        if height == 0 || width == 0 {
            return None;
        }
        match height.checked_mul(width) {
            Some(_) => Some(Grid { height, width }),
            None => None,
        }
    }

    pub fn dimensions(&self) -> (r: (usize, usize))
        ensures
            r == (self.height, self.width),
    {
        (self.height, self.width)
    }

    pub fn cell_count_exec(&self) -> (r: usize)
        requires
            self.valid(),
        ensures
            r == self.cell_count(),
    {
        self.height * self.width
    }

    /// The neighbour of `c` in direction `d`, wrapping at the edges.
    pub fn step(&self, c: Cell, d: Direction) -> (r: Cell)
        requires
            self.valid(),
            self.contains(c),
        ensures
            r == self.spec_step(c, d),
            self.contains(r),
    {
        proof {
            lemma_step_in_range(*self, c, d);
        }
        match d {
            Direction::Up => {
                let row = if c.row == 0 { self.height - 1 } else { c.row - 1 };
                Cell { row, col: c.col }
            },
            Direction::Down => {
                let row = if c.row + 1 == self.height { 0 } else { c.row + 1 };
                Cell { row, col: c.col }
            },
            Direction::Left => {
                let col = if c.col == 0 { self.width - 1 } else { c.col - 1 };
                Cell { row: c.row, col }
            },
            Direction::Right => {
                let col = if c.col + 1 == self.width { 0 } else { c.col + 1 };
                Cell { row: c.row, col }
            },
        }
    }

    /// Row-major position of `c`.
    pub fn index(&self, c: Cell) -> (r: usize)
        requires
            self.valid(),
            self.contains(c),
        ensures
            r == self.index_of(c),
            r < self.cell_count(),
    {
        proof {
            lemma_index_in_range(*self, c);
        }
        c.row * self.width + c.col
    }

    /// The cell at row-major position `k`.
    pub fn cell(&self, k: usize) -> (r: Cell)
        requires
            self.valid(),
            k < self.cell_count(),
        ensures
            r == self.cell_at(k as int),
            self.contains(r),
    {
        proof {
            lemma_cell_at_in_range(*self, k as int);
        }
        Cell { row: k / self.width, col: k % self.width }
    }
}

/// A move off one edge reenters at the opposite edge, and a move that stays
/// inside the board changes its coordinate by one.
pub proof fn lemma_step_in_range(g: Grid, c: Cell, d: Direction)
    requires
        g.valid(),
        g.contains(c),
    ensures
        g.contains(g.spec_step(c, d)),
        d == Direction::Up ==> g.spec_step(c, d).row == if c.row == 0 {
            g.height - 1
        } else {
            c.row - 1
        },
        d == Direction::Down ==> g.spec_step(c, d).row == if c.row + 1 == g.height {
            0
        } else {
            c.row + 1
        },
        d == Direction::Left ==> g.spec_step(c, d).col == if c.col == 0 {
            g.width - 1
        } else {
            c.col - 1
        },
        d == Direction::Right ==> g.spec_step(c, d).col == if c.col + 1 == g.width {
            0
        } else {
            c.col + 1
        },
{
    lemma_wrap_dec(c.row as int, g.height as int);
    lemma_wrap_inc(c.row as int, g.height as int);
    lemma_wrap_dec(c.col as int, g.width as int);
    lemma_wrap_inc(c.col as int, g.width as int);
}

proof fn lemma_wrap_dec(x: int, m: int)
    requires
        0 <= x < m,
    ensures
        (x - 1) % m == if x == 0 { m - 1 } else { x - 1 },
{
    if x == 0 {
        assert((m - 1) % m == m - 1) by {
            lemma_small_mod((m - 1) as nat, m as nat);
        }
        lemma_fundamental_div_mod_converse(-1, m, -1, m - 1);
    } else {
        lemma_small_mod((x - 1) as nat, m as nat);
    }
}

proof fn lemma_wrap_inc(x: int, m: int)
    requires
        0 <= x < m,
    ensures
        (x + 1) % m == if x + 1 == m { 0 } else { x + 1 },
{
    if x + 1 == m {
        lemma_fundamental_div_mod_converse(m, m, 1, 0);
    } else {
        lemma_small_mod((x + 1) as nat, m as nat);
    }
}

/// Stepping one way and then the opposite way returns to the starting cell.
pub proof fn lemma_step_inverse(g: Grid, c: Cell, d: Direction)
    requires
        g.valid(),
        g.contains(c),
    ensures
        g.spec_step(g.spec_step(c, d), spec_opposite(d)) == c,
{
    lemma_step_in_range(g, c, d);
    lemma_step_in_range(g, g.spec_step(c, d), spec_opposite(d));
}

/// The row-major position of a cell of the board is below the number of cells,
/// and the cell at that position is the cell itself.
pub proof fn lemma_index_in_range(g: Grid, c: Cell)
    requires
        g.valid(),
        g.contains(c),
    ensures
        0 <= g.index_of(c) < g.cell_count(),
        g.cell_at(g.index_of(c)) == c,
{
    let w = g.width as int;
    let h = g.height as int;
    assert(c.row * w + c.col < h * w) by (nonlinear_arith)
        requires
            0 <= c.row < h,
            0 <= c.col < w,
    ;
    assert(0 <= c.row * w) by (nonlinear_arith)
        requires
            0 <= c.row,
            0 <= w,
    ;
    lemma_fundamental_div_mod_converse(g.index_of(c), w, c.row as int, c.col as int);
}

/// Each position below the number of cells names a cell of the board, whose
/// row-major position is that position.
pub proof fn lemma_cell_at_in_range(g: Grid, k: int)
    requires
        g.valid(),
        0 <= k < g.cell_count(),
    ensures
        g.contains(g.cell_at(k)),
        g.index_of(g.cell_at(k)) == k,
{
    let w = g.width as int;
    let h = g.height as int;
    lemma_fundamental_div_mod(k, w);
    lemma_mod_pos_bound(k, w);
    lemma_multiply_divide_lt(k, w, h);
    lemma_div_pos_is_pos(k, w);
    assert(w * (k / w) == (k / w) * w) by (nonlinear_arith);
}

} // verus!
