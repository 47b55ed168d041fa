use crate::fruit::{random_below, random_location};
use crate::grid::{Cell, Direction, Grid};
use crate::snake::{Move, Snake};
use vstd::prelude::*;

verus! {

/// The least score a fruit is worth.
pub const BONUS_MIN: u32 = 5;

/// How many distinct scores a fruit can be worth, from `BONUS_MIN` up.
pub const BONUS_SPAN: usize = 5;

/// Why a round ended.
#[derive(Clone, Copy, Debug, PartialEq, Eq, Structural)]
pub enum EndReason {
    /// The head ran into the body.
    SelfCollision,
    /// The snake covers every cell of the board.
    BoardFull,
    /// The player asked to stop the round.
    Quit,
}

/// The signals read in one frame.
#[derive(Clone, Copy, Debug, PartialEq, Eq, Structural)]
pub struct Input {
    pub up: bool,
    pub down: bool,
    pub left: bool,
    pub right: bool,
    /// Ends the round.
    pub quit: bool,
    /// Leaves the game altogether.
    pub escape: bool,
}

/// What the shell should do after a frame.
#[derive(Clone, Copy, Debug, PartialEq, Eq, Structural)]
pub enum Status {
    /// The round goes on; `ate` tells whether a fruit was eaten this frame.
    Running { ate: bool },
    /// The round is over with this score.
    Over { score: u32, reason: EndReason },
    /// Leave the game at once.
    Exit,
}

/// The turn that the pressed keys ask for: the first of up, down, left and
/// right that is pressed and does not point against `current`.
pub open spec fn spec_update_dir(current: Direction, input: Input) -> Option<Direction> {
    if input.up && current != Direction::Down {
        Some(Direction::Up)
    } else if input.down && current != Direction::Up {
        Some(Direction::Down)
    } else if input.left && current != Direction::Right {
        Some(Direction::Left)
    } else if input.right && current != Direction::Left {
        Some(Direction::Right)
    } else {
        None
    }
}

/// The turn that the pressed keys ask for, checked in the order up, down,
/// left, right.
pub fn update_dir(current: Direction, input: &Input) -> (r: Option<Direction>)
    ensures
        r == spec_update_dir(current, *input),
{
    if input.up && current != Direction::Down {
        Some(Direction::Up)
    } else if input.down && current != Direction::Up {
        Some(Direction::Down)
    } else if input.left && current != Direction::Right {
        Some(Direction::Left)
    } else if input.right && current != Direction::Left {
        Some(Direction::Right)
    } else {
        None
    }
}

/// How a snake on `g` ends the round, if it does: by lying on its own body,
/// or else by covering every cell.
pub open spec fn end_of(s: Snake, g: Grid) -> Option<EndReason> {
    if s.collided() {
        Some(EndReason::SelfCollision)
    } else if s.cells().len() == g.cell_count() {
        Some(EndReason::BoardFull)
    } else {
        None
    }
}

/// `score` after a fruit worth `bonus`, held at `u32::MAX`.
pub open spec fn add_bonus(score: u32, bonus: u32) -> u32 {
    if score + bonus > u32::MAX {
        u32::MAX
    } else {
        (score + bonus) as u32
    }
}

/// One round: the board, the snake, the fruit, the score, and why the round
/// ended once it has.
pub struct Round {
    pub grid: Grid,
    pub snake: Snake,
    pub fruit: Cell,
    pub score: u32,
    pub ended: Option<EndReason>,
}

impl Round {
    /// While the round runs the snake is clear of itself and the fruit lies on
    /// a cell the snake does not cover.
    pub open spec fn wf(&self) -> bool {
        &&& self.snake.wf(self.grid)
        &&& self.grid.contains(self.fruit)
        &&& (self.ended is None ==> {
            &&& !self.snake.collided()
            &&& !self.snake.cells().contains(self.fruit)
        })
    }

    /// A fresh round: a one-cell snake in the middle of the board moving up,
    /// and a fruit on another cell. A board of one cell is full at once.
    pub fn new(grid: Grid) -> (r: Round)
        requires
            grid.valid(),
        ensures
            r.wf(),
            r.grid == grid,
            r.snake.head == (Cell { row: grid.height / 2, col: grid.width / 2 }),
            r.snake.body@ == Seq::<Cell>::empty(),
            r.snake.direction == Direction::Up,
            r.snake.pending is None,
            r.score == 0,
            r.ended == if grid.cell_count() == 1 {
                Some(EndReason::BoardFull)
            } else {
                None
            },
    {
        let head = Cell { row: grid.height / 2, col: grid.width / 2 };
        let snake = Snake::new(&grid, head, Direction::Up);
        if grid.cell_count_exec() == 1 {
            return Round { grid, snake, fruit: head, score: 0, ended: Some(EndReason::BoardFull) };
        }
        proof {
            crate::snake::lemma_cell_count(&snake, grid);
            assert(grid.height * grid.width >= 1) by (nonlinear_arith)
                requires
                    grid.height >= 1,
                    grid.width >= 1,
            ;
        }
        let fruit = random_location(&grid, &snake.occupancy);
        Round { grid, snake, fruit, score: 0, ended: None }
    }

    /// A running round with the given snake cells, fruit and score; `None`
    /// when the snake's cells are not distinct cells of the board, or the
    /// fruit is off the board or under the snake.
    pub fn from_cells(
        grid: Grid,
        head: Cell,
        body: &Vec<Cell>,
        direction: Direction,
        fruit: Cell,
        score: u32,
    ) -> (r: Option<Round>)
        requires
            grid.valid(),
        ensures
            r is Some <==> {
                &&& grid.contains(head)
                &&& forall|i: int| 0 <= i < body@.len() ==> grid.contains(#[trigger] body@[i])
                &&& body@.no_duplicates()
                &&& !body@.contains(head)
                &&& grid.contains(fruit)
                &&& fruit != head
                &&& !body@.contains(fruit)
            },
            r matches Some(round) ==> {
                &&& round.wf()
                &&& round.grid == grid
                &&& round.snake.head == head
                &&& round.snake.body@ == body@
                &&& round.snake.direction == direction
                &&& round.snake.pending is None
                &&& round.fruit == fruit
                &&& round.score == score
                &&& round.ended is None
            },
    {
        let snake = match Snake::from_cells(&grid, head, body, direction) {
            Some(s) => s,
            None => return None,
        };
        if fruit.row >= grid.height || fruit.col >= grid.width {
            return None;
        }
        if snake.covers(&grid, fruit) {
            return None;
        }
        Some(Round { grid, snake, fruit, score, ended: None })
    }

    /// One step of the snake, with `bonus` as the worth of a fruit eaten on it.
    ///
    /// The score grows by `bonus` when the head reaches the fruit; the round
    /// ends when the head lands on the body, or else when the snake covers the
    /// whole board. The fruit is left where it was.
    pub fn move_snake(&mut self, bonus: u32) -> (m: Move)
        requires
            old(self).wf(),
            old(self).ended is None,
        ensures
            old(self).snake.stepped(&final(self).snake, old(self).grid, old(self).fruit),
            final(self).snake.wf(final(self).grid),
            final(self).grid == old(self).grid,
            final(self).fruit == old(self).fruit,
            m.grew == (final(self).snake.head == old(self).fruit),
            m.collided == final(self).snake.collided(),
            final(self).score == if m.grew {
                add_bonus(old(self).score, bonus)
            } else {
                old(self).score
            },
            final(self).ended == end_of(final(self).snake, final(self).grid),
            !m.grew ==> final(self).wf(),
            m.grew ==> !m.collided,
    {
        let ghost old_cells = self.snake.cells();
        let m = self.snake.advance(&self.grid, self.fruit);
        proof {
            crate::snake::lemma_push_front(old(self).snake.head, old(self).snake.body@);
            let pushed = seq![old(self).snake.head] + old(self).snake.body@;
            if !m.grew {
                crate::snake::lemma_drop_last(pushed);
                assert(pushed.to_set().contains(self.fruit) == old_cells.contains(self.fruit));
            } else {
                assert(!pushed.contains(self.fruit)) by {
                    assert(!old_cells.contains(self.fruit));
                    if pushed.contains(self.fruit) {
                        assert(pushed.to_set().contains(self.fruit));
                    }
                }
            }
        }
        if m.grew {
            self.score = self.score.saturating_add(bonus);
        }
        if m.collided {
            self.ended = Some(EndReason::SelfCollision);
        } else if self.snake.occupied_count(&self.grid) == self.grid.cell_count_exec() {
            self.ended = Some(EndReason::BoardFull);
        }
        m
    }

    /// Puts the fruit on `c`, a cell the snake does not cover.
    pub fn place_fruit(&mut self, c: Cell)
        requires
            old(self).snake.wf(old(self).grid),
            old(self).grid.contains(c),
            !old(self).snake.collided(),
            !old(self).snake.cells().contains(c),
        ensures
            final(self).wf(),
            final(self).fruit == c,
            final(self).grid == old(self).grid,
            final(self).snake == old(self).snake,
            final(self).score == old(self).score,
            final(self).ended == old(self).ended,
    {
        self.fruit = c;
    }

    /// One simulation step: the snake moves; a fruit it eats is worth a random
    /// score from `BONUS_MIN` below `BONUS_MIN + BONUS_SPAN`, and a new fruit
    /// appears on a random free cell unless the round has ended.
    pub fn tick(&mut self) -> (m: Move)
        requires
            old(self).wf(),
            old(self).ended is None,
        ensures
            final(self).wf(),
            old(self).snake.stepped(&final(self).snake, old(self).grid, old(self).fruit),
            final(self).grid == old(self).grid,
            m.grew == (final(self).snake.head == old(self).fruit),
            m.collided == final(self).snake.collided(),
            final(self).ended == end_of(final(self).snake, final(self).grid),
            !m.grew ==> final(self).score == old(self).score && final(self).fruit == old(self).fruit,
            m.grew ==> exists|b: u32|
                BONUS_MIN <= b < BONUS_MIN + BONUS_SPAN && final(self).score == add_bonus(
                    old(self).score,
                    b,
                ),
    {
        let bonus = BONUS_MIN + random_below(BONUS_SPAN) as u32;
        let m = self.move_snake(bonus);
        if m.grew && self.ended.is_none() {
            proof {
                self.snake.occupancy.lemma_wf();
                crate::snake::lemma_cell_count(&self.snake, self.grid);
            }
            let c = random_location(&self.grid, &self.snake.occupancy);
            self.place_fruit(c);
        }
        m
    }

    /// Ends the round at the player's request.
    pub fn quit(&mut self)
        requires
            old(self).wf(),
            old(self).ended is None,
        ensures
            final(self).wf(),
            final(self).ended == Some(EndReason::Quit),
            final(self).grid == old(self).grid,
            final(self).snake == old(self).snake,
            final(self).fruit == old(self).fruit,
            final(self).score == old(self).score,
    {
        self.ended = Some(EndReason::Quit);
    }

    /// One frame of a running round: reads the turn that the keys ask for,
    /// steps the snake when `tick_due`, then reports the end of the round
    /// (by collision, a full board or `quit`), or else an exit on `escape`.
    pub fn frame(&mut self, input: &Input, tick_due: bool) -> (st: Status)
        requires
            old(self).wf(),
            old(self).ended is None,
        ensures
            final(self).wf(),
            final(self).grid == old(self).grid,
            ({
                let turned = match spec_update_dir(old(self).snake.direction, *input) {
                    Some(d) => if old(self).snake.pending is None && crate::snake::turn_allowed(
                        old(self).snake.direction,
                        d,
                    ) {
                        Some(d)
                    } else {
                        old(self).snake.pending
                    },
                    None => old(self).snake.pending,
                };
                if tick_due {
                    (Snake {
                        pending: turned,
                        direction: old(self).snake.direction,
                        head: old(self).snake.head,
                        body: old(self).snake.body,
                        occupancy: old(self).snake.occupancy,
                    }).stepped(&final(self).snake, old(self).grid, old(self).fruit)
                } else {
                    &&& final(self).snake.pending == turned
                    &&& final(self).snake.body@ == old(self).snake.body@
                    &&& final(self).snake.head == old(self).snake.head
                    &&& final(self).snake.direction == old(self).snake.direction
                    &&& final(self).fruit == old(self).fruit
                    &&& final(self).score == old(self).score
                }
            }),
            final(self).ended == if tick_due && end_of(final(self).snake, final(self).grid) is Some {
                end_of(final(self).snake, final(self).grid)
            } else if input.quit {
                Some(EndReason::Quit)
            } else {
                None
            },
            st == match final(self).ended {
                Some(reason) => Status::Over { score: final(self).score, reason },
                None => if input.escape {
                    Status::Exit
                } else {
                    Status::Running { ate: tick_due && final(self).snake.head == old(self).fruit }
                },
            },
    {
        if let Some(d) = update_dir(self.snake.direction, input) {
            self.snake.request(d);
        }
        let mut ate = false;
        if tick_due {
            let m = self.tick();
            ate = m.grew;
        }
        if self.ended.is_none() && input.quit {
            self.quit();
        }
        match self.ended {
            Some(reason) => Status::Over { score: self.score, reason },
            None => if input.escape {
                Status::Exit
            } else {
                Status::Running { ate }
            },
        }
    }
}

} // verus!
