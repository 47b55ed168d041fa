use crate::grid::{spec_opposite, Cell, Direction, Grid};
use crate::occupancy::Occupancy;
use std::collections::VecDeque;
use vstd::prelude::*;

verus! {

broadcast use vstd::std_specs::vecdeque::group_vec_dequeue_axioms;

/// The snake: its body from the segment behind the head (front) to the tail
/// (back), its head, the direction it moves in, a turn requested for the next
/// step, and the index of the cells it covers.
pub struct Snake {
    pub body: VecDeque<Cell>,
    pub head: Cell,
    pub direction: Direction,
    pub pending: Option<Direction>,
    pub occupancy: Occupancy,
}

/// What one step of the snake did.
#[derive(Clone, Copy, Debug, PartialEq, Eq, Structural)]
pub struct Move {
    /// The head landed on the fruit and the tail stayed.
    pub grew: bool,
    /// The head landed on the body.
    pub collided: bool,
}

/// A turn from `current` to `requested` that does not reverse the snake.
pub open spec fn turn_allowed(current: Direction, requested: Direction) -> bool {
    requested != spec_opposite(current)
}

impl Snake {
    /// The cells the snake covers.
    pub open spec fn cells(&self) -> Set<Cell> {
        self.body@.to_set().insert(self.head)
    }

    pub open spec fn wf(&self, g: Grid) -> bool {
        &&& g.valid()
        &&& self.occupancy.wf()
        &&& self.occupancy.grid() == g
        &&& g.contains(self.head)
        &&& forall|i: int| 0 <= i < self.body@.len() ==> g.contains(#[trigger] self.body@[i])
        &&& self.body@.no_duplicates()
        &&& self.occupancy@ == self.cells()
        &&& (self.pending matches Some(p) ==> turn_allowed(self.direction, p))
    }

    /// The head lies on the body.
    pub open spec fn collided(&self) -> bool {
        self.body@.contains(self.head)
    }

    /// The direction of the next step: the requested turn, if any.
    pub open spec fn next_direction(&self) -> Direction {
        match self.pending {
            Some(p) => p,
            None => self.direction,
        }
    }

    /// The cell that the next step would leave behind if the snake does not grow.
    pub open spec fn tail(&self) -> Cell {
        (seq![self.head] + self.body@).last()
    }

    /// `next` is this snake after one step on `g` with the fruit at `fruit`: the
    /// requested turn is taken, the old head joins the front of the body, the
    /// head moves one cell, and the tail leaves unless the head reached the fruit.
    pub open spec fn stepped(&self, next: &Snake, g: Grid, fruit: Cell) -> bool {
        let d = self.next_direction();
        let new_head = g.spec_step(self.head, d);
        let pushed = seq![self.head] + self.body@;
        &&& next.direction == d
        &&& next.pending is None
        &&& next.head == new_head
        &&& next.body@ == if new_head == fruit {
            pushed
        } else {
            pushed.drop_last()
        }
    }

    /// A snake of one cell at `head`, moving in `direction`.
    pub fn new(grid: &Grid, head: Cell, direction: Direction) -> (r: Snake)
        requires
            grid.valid(),
            grid.contains(head),
        ensures
            r.wf(*grid),
            r.head == head,
            r.body@ == Seq::<Cell>::empty(),
            r.direction == direction,
            r.pending is None,
    {
        let mut occupancy = Occupancy::new(*grid);
        occupancy.insert(head);
        let r = Snake { body: VecDeque::new(), head, direction, pending: None, occupancy };
        assert(r.body@.to_set() =~= Set::<Cell>::empty());
        assert(r.occupancy@ =~= r.cells());
        r
    }

    /// A snake with the given head and body (front first); `None` when a cell
    /// lies off the board or two cells coincide.
    pub fn from_cells(grid: &Grid, head: Cell, body: &Vec<Cell>, direction: Direction) -> (r: Option<
        Snake,
    >)
        requires
            grid.valid(),
        ensures
            r is Some <==> {
                &&& grid.contains(head)
                &&& forall|i: int| 0 <= i < body@.len() ==> grid.contains(#[trigger] body@[i])
                &&& body@.no_duplicates()
                &&& !body@.contains(head)
            },
            r matches Some(s) ==> {
                &&& s.wf(*grid)
                &&& s.head == head
                &&& s.body@ == body@
                &&& s.direction == direction
                &&& s.pending is None
            },
    {
        if head.row >= grid.height || head.col >= grid.width {
            return None;
        }
        let mut occupancy = Occupancy::new(*grid);
        occupancy.insert(head);
        let mut cells: VecDeque<Cell> = VecDeque::new();
        let mut i: usize = 0;
        while i < body.len()
            invariant
                grid.valid(),
                grid.contains(head),
                occupancy.wf(),
                occupancy.grid() == *grid,
                i <= body@.len(),
                cells@ == body@.subrange(0, i as int),
                forall|j: int| 0 <= j < i ==> grid.contains(#[trigger] body@[j]),
                cells@.no_duplicates(),
                !cells@.contains(head),
                occupancy@ == cells@.to_set().insert(head),
            decreases body@.len() - i,
        {
            let c = body[i];
            if c.row >= grid.height || c.col >= grid.width {
                return None;
            }
            if occupancy.contains(c) {
                proof {
                    if c == head {
                        assert(body@[i as int] == head);
                    } else {
                        let k = choose|k: int| 0 <= k < cells@.len() && cells@[k] == c;
                        assert(body@[k] == body@[i as int]);
                    }
                }
                return None;
            }
            let ghost before = cells@;
            occupancy.insert(c);
            cells.push_back(c);
            proof {
                assert(cells@ == before.push(c));
                assert(cells@ =~= body@.subrange(0, i + 1));
                assert(cells@.to_set() =~= before.to_set().insert(c)) by {
                    before.lemma_push_to_set_commute(c);
                }
                assert(occupancy@ =~= cells@.to_set().insert(head));
                assert forall|j: int, k: int|
                    0 <= j < cells@.len() && 0 <= k < cells@.len() && j != k implies cells@[j]
                    != cells@[k] by {
                    if j == before.len() as int {
                        assert(!before.contains(c));
                        assert(before[k] == cells@[k]);
                    } else if k == before.len() as int {
                        assert(!before.contains(c));
                        assert(before[j] == cells@[j]);
                    }
                }
                assert(!cells@.contains(head)) by {
                    if cells@.contains(head) {
                        let k = choose|k: int| 0 <= k < cells@.len() && cells@[k] == head;
                        if k < before.len() {
                            assert(before[k] == head);
                        }
                    }
                }
            }
            i = i + 1;
        }
        assert(cells@ =~= body@);
        let s = Snake { body: cells, head, direction, pending: None, occupancy };
        Some(s)
    }

    /// The number of cells the snake covers.
    pub fn occupied_count(&self, grid: &Grid) -> (r: usize)
        requires
            self.wf(*grid),
        ensures
            r == self.cells().len(),
    {
        self.occupancy.len()
    }

    /// Whether the snake covers `c`.
    pub fn covers(&self, grid: &Grid, c: Cell) -> (r: bool)
        requires
            self.wf(*grid),
            grid.contains(c),
        ensures
            r == self.cells().contains(c),
    {
        self.occupancy.contains(c)
    }

    /// Latches a turn for the next step, unless one is already latched or the
    /// turn would reverse the snake.
    pub fn request(&mut self, d: Direction) -> (latched: bool)
        ensures
            latched == (old(self).pending is None && turn_allowed(old(self).direction, d)),
            final(self).pending == if latched {
                Some(d)
            } else {
                old(self).pending
            },
            final(self).body@ == old(self).body@,
            final(self).head == old(self).head,
            final(self).direction == old(self).direction,
            final(self).occupancy == old(self).occupancy,
    {
        if self.pending.is_none() && d != self.direction.opposite() {
            self.pending = Some(d);
            true
        } else {
            false
        }
    }

    /// Moves the snake one cell: takes the latched turn, pushes the old head
    /// onto the body, steps the head, and drops the tail unless the head
    /// reached `fruit`. The tail leaves before the head is checked against the
    /// body, so following one's own tail is no collision.
    pub fn advance(&mut self, grid: &Grid, fruit: Cell) -> (m: Move)
        requires
            old(self).wf(*grid),
            !old(self).collided(),
        ensures
            old(self).stepped(final(self), *grid, fruit),
            final(self).wf(*grid),
            m.grew == (final(self).head == fruit),
            m.collided == final(self).collided(),
    {
        if let Some(p) = self.pending {
            self.direction = p;
        }
        self.pending = None;
        let old_head = self.head;
        let new_head = grid.step(old_head, self.direction);
        let ghost old_body = self.body@;
        self.body.push_front(old_head);
        proof {
            lemma_push_front(old_head, old_body);
        }
        let grew = new_head == fruit;
        if !grew {
            let ghost pushed = self.body@;
            match self.body.pop_back() {
                Some(tail) => {
                    proof {
                        lemma_drop_last(pushed);
                        assert(self.body@ =~= pushed.drop_last());
                    }
                    self.occupancy.remove(tail);
                },
                None => {},
            }
        }
        let collided = self.occupancy.contains(new_head);
        self.occupancy.insert(new_head);
        self.head = new_head;
        proof {
            assert(self.occupancy@ =~= self.cells());
            assert forall|i: int| 0 <= i < self.body@.len() implies grid.contains(
                #[trigger] self.body@[i],
            ) by {
                if i > 0 {
                    assert(self.body@[i] == old_body[i - 1]);
                }
            }
        }
        Move { grew, collided }
    }
}

/// A snake that has not run into itself covers one cell more than its body holds.
pub proof fn lemma_cell_count(s: &Snake, g: Grid)
    requires
        s.wf(g),
        !s.collided(),
    ensures
        s.cells().finite(),
        s.cells().len() == s.body@.len() + 1,
{
    s.body@.unique_seq_to_set();
}

/// A step that misses the fruit keeps the number of covered cells, and a step
/// onto the fruit adds one, whenever the snake does not run into itself.
pub proof fn lemma_step_count(s: &Snake, t: &Snake, g: Grid, fruit: Cell)
    requires
        s.wf(g),
        !s.collided(),
        s.stepped(t, g, fruit),
        t.wf(g),
        !t.collided(),
    ensures
        t.head != fruit ==> t.occupancy@.len() == s.occupancy@.len(),
        t.head == fruit ==> t.occupancy@.len() == s.occupancy@.len() + 1,
{
    lemma_cell_count(s, g);
    lemma_cell_count(t, g);
}

/// Moving onto the cell that the tail leaves in the same step is no collision.
pub proof fn lemma_following_tail_is_safe(s: &Snake, t: &Snake, g: Grid, fruit: Cell)
    requires
        s.wf(g),
        !s.collided(),
        s.stepped(t, g, fruit),
        t.head != fruit,
        t.head == s.tail(),
    ensures
        !t.collided(),
{
    lemma_push_front(s.head, s.body@);
    lemma_drop_last(seq![s.head] + s.body@);
}

/// The direction a step takes never reverses the direction the snake moves in.
pub proof fn lemma_never_reverses(s: &Snake, g: Grid)
    requires
        s.wf(g),
    ensures
        turn_allowed(s.direction, s.next_direction()),
{
}

/// Putting `h` in front of a sequence that lacks it adds `h` to its cells and
/// keeps it free of repeats.
pub(crate) proof fn lemma_push_front(h: Cell, s: Seq<Cell>)
    requires
        s.no_duplicates(),
        !s.contains(h),
    ensures
        (seq![h] + s).to_set() == s.to_set().insert(h),
        (seq![h] + s).no_duplicates(),
{
    let p = seq![h] + s;
    assert(p.to_set() =~= s.to_set().insert(h)) by {
        assert forall|c: Cell| p.contains(c) implies s.to_set().insert(h).contains(c) by {
            let k = choose|k: int| 0 <= k < p.len() && p[k] == c;
            if k > 0 {
                assert(s[k - 1] == c);
            }
        }
        assert forall|c: Cell| #[trigger] s.to_set().insert(h).contains(c) implies p.contains(c) by {
            if c == h {
                assert(p[0] == h);
            } else {
                let k = choose|k: int| 0 <= k < s.len() && s[k] == c;
                assert(p[k + 1] == c);
            }
        }
    }
    assert forall|j: int, k: int| 0 <= j < p.len() && 0 <= k < p.len() && j != k implies p[j]
        != p[k] by {
        if j == 0 {
            assert(p[k] == s[k - 1]);
        } else if k == 0 {
            assert(p[j] == s[j - 1]);
        } else {
            assert(p[j] == s[j - 1] && p[k] == s[k - 1]);
        }
    }
}

/// Dropping the last element of a sequence without repeats removes exactly
/// that element from its cells.
pub(crate) proof fn lemma_drop_last(s: Seq<Cell>)
    requires
        s.no_duplicates(),
        s.len() > 0,
    ensures
        s.drop_last().to_set() == s.to_set().remove(s.last()),
        s.drop_last().no_duplicates(),
        !s.drop_last().contains(s.last()),
{
    let d = s.drop_last();
    assert(!d.contains(s.last())) by {
        if d.contains(s.last()) {
            let k = choose|k: int| 0 <= k < d.len() && d[k] == s.last();
            assert(s[k] == s[s.len() - 1]);
        }
    }
    assert(d.to_set() =~= s.to_set().remove(s.last())) by {
        assert forall|c: Cell| d.contains(c) implies s.contains(c) by {
            let k = choose|k: int| 0 <= k < d.len() && d[k] == c;
            assert(s[k] == c);
        }
        assert forall|c: Cell| #[trigger] s.contains(c) && c != s.last() implies d.contains(c) by {
            let k = choose|k: int| 0 <= k < s.len() && s[k] == c;
            assert(d[k] == c);
        }
    }
}

} // verus!
