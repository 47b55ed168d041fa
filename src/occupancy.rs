use crate::grid::{lemma_cell_at_in_range, lemma_index_in_range, Cell, Grid};
use std::collections::HashSet;
use vstd::prelude::*;
use vstd::relations::injective_on;
use vstd::set_lib::{lemma_int_range, lemma_len_subset, lemma_map_size, set_int_range};

verus! {

broadcast use vstd::std_specs::hash::group_hash_axioms;

/// The set of cells covered by the snake, with constant-time membership.
///
/// Cells are kept by their row-major position on the grid.
pub struct Occupancy {
    grid: Grid,
    keys: HashSet<usize>,
}

/// Every cell of the board.
pub open spec fn all_cells(g: Grid) -> Set<Cell> {
    Set::new(|c: Cell| g.contains(c))
}

impl View for Occupancy {
    type V = Set<Cell>;

    closed spec fn view(&self) -> Set<Cell> {
        self.keys@.map(|k: usize| self.grid.cell_at(k as int))
    }
}

impl Occupancy {
    /// The board whose cells this index tracks.
    pub closed spec fn grid(&self) -> Grid {
        self.grid
    }

    pub closed spec fn wf(&self) -> bool {
        &&& self.grid.valid()
        &&& forall|k: usize| #[trigger] self.keys@.contains(k) ==> k < self.grid.cell_count()
    }

    /// The index holds finitely many cells, all of them on the board, and is
    /// full exactly when it holds every cell of the board.
    pub proof fn lemma_wf(&self)
        requires
            self.wf(),
        ensures
            self@.finite(),
            self@.subset_of(all_cells(self.grid())),
            all_cells(self.grid()).finite(),
            all_cells(self.grid()).len() == self.grid().cell_count(),
            self@.len() <= self.grid().cell_count(),
            self@.len() == self.grid().cell_count() <==> self@ == all_cells(self.grid()),
            self.grid().valid(),
            self@.len() < self.grid().cell_count() ==> exists|c: Cell|
                self.grid().contains(c) && !#[trigger] self@.contains(c),
    {
        let g = self.grid;
        assert forall|c: Cell| #[trigger] self@.contains(c) implies g.contains(c) by {
            let k = choose|k: usize| self.keys@.contains(k) && c == g.cell_at(k as int);
            lemma_cell_at_in_range(g, k as int);
        }
        self.lemma_view_len();
        lemma_all_cells_len(g);
        lemma_len_subset(self@, all_cells(g));
        if self@.len() == g.cell_count() {
            vstd::set_lib::lemma_subset_equality(self@, all_cells(g));
        }
        if self@.len() < g.cell_count() {
            if forall|c: Cell| g.contains(c) ==> #[trigger] self@.contains(c) {
                assert(all_cells(g) =~= self@);
            }
        }
    }

    /// The index holds as many cells as it keeps positions.
    proof fn lemma_view_len(&self)
        requires
            self.wf(),
        ensures
            self@.finite(),
            self@.len() == self.keys@.len(),
    {
        let g = self.grid;
        let f = |k: usize| g.cell_at(k as int);
        lemma_keys_finite(self.keys@, g.cell_count() as int);
        assert(injective_on(f, self.keys@)) by {
            assert forall|j: usize, k: usize|
                self.keys@.contains(j) && self.keys@.contains(k) && #[trigger] f(j) == #[trigger] f(
                    k,
                ) implies j == k by {
                lemma_cell_at_in_range(g, j as int);
                lemma_cell_at_in_range(g, k as int);
            }
        }
        lemma_map_size(self.keys@, self@, f);
    }

    /// A cell of the board is in the index exactly when its position is kept.
    proof fn lemma_contains(&self, c: Cell)
        requires
            self.wf(),
            self.grid.contains(c),
        ensures
            self@.contains(c) <==> self.keys@.contains(self.grid.index_of(c) as usize),
    {
        let g = self.grid;
        lemma_index_in_range(g, c);
        if self@.contains(c) {
            let k = choose|k: usize| self.keys@.contains(k) && c == g.cell_at(k as int);
            lemma_cell_at_in_range(g, k as int);
        }
        if self.keys@.contains(g.index_of(c) as usize) {
            assert(g.cell_at((g.index_of(c) as usize) as int) == c);
        }
    }

    /// An empty index over the cells of `grid`.
    pub fn new(grid: Grid) -> (r: Occupancy)
        requires
            grid.valid(),
        ensures
            r.wf(),
            r.grid() == grid,
            r@ == Set::<Cell>::empty(),
    {
        let r = Occupancy { grid, keys: HashSet::new() };
        assert(r@ =~= Set::<Cell>::empty());
        r
    }

    pub fn contains(&self, c: Cell) -> (r: bool)
        requires
            self.wf(),
            self.grid().contains(c),
        ensures
            r == self@.contains(c),
    {
        proof {
            self.lemma_contains(c);
        }
        let k = self.grid.index(c);
        self.keys.contains(&k)
    }

    pub fn insert(&mut self, c: Cell)
        requires
            old(self).wf(),
            old(self).grid().contains(c),
        ensures
            final(self).wf(),
            final(self).grid() == old(self).grid(),
            final(self)@ == old(self)@.insert(c),
    {
        let k = self.grid.index(c);
        let ghost before = self.keys@;
        self.keys.insert(k);
        proof {
            let g = self.grid;
            lemma_index_in_range(g, c);
            assert(self@ =~= old(self)@.insert(c)) by {
                assert forall|d: Cell| #[trigger] self@.contains(d) implies old(self)@.insert(
                    c,
                ).contains(d) by {
                    let j = choose|j: usize| self.keys@.contains(j) && d == g.cell_at(j as int);
                    if j != k {
                        assert(before.contains(j));
                    }
                }
                assert forall|d: Cell| #[trigger] old(self)@.insert(c).contains(d) implies self@.contains(
                    d,
                ) by {
                    if d != c {
                        let j = choose|j: usize| before.contains(j) && d == g.cell_at(j as int);
                        assert(self.keys@.contains(j));
                    } else {
                        assert(self.keys@.contains(k));
                    }
                }
            }
        }
    }

    pub fn remove(&mut self, c: Cell)
        requires
            old(self).wf(),
            old(self).grid().contains(c),
        ensures
            final(self).wf(),
            final(self).grid() == old(self).grid(),
            final(self)@ == old(self)@.remove(c),
    {
        let k = self.grid.index(c);
        let ghost before = self.keys@;
        self.keys.remove(&k);
        proof {
            let g = self.grid;
            lemma_index_in_range(g, c);
            assert(self@ =~= old(self)@.remove(c)) by {
                assert forall|d: Cell| #[trigger] self@.contains(d) implies old(self)@.remove(
                    c,
                ).contains(d) by {
                    let j = choose|j: usize| self.keys@.contains(j) && d == g.cell_at(j as int);
                    assert(before.contains(j));
                    lemma_cell_at_in_range(g, j as int);
                }
                assert forall|d: Cell| #[trigger] old(self)@.remove(c).contains(d) implies self@.contains(
                    d,
                ) by {
                    let j = choose|j: usize| before.contains(j) && d == g.cell_at(j as int);
                    assert(j != k);
                    assert(self.keys@.contains(j));
                }
            }
        }
    }

    pub fn len(&self) -> (r: usize)
        requires
            self.wf(),
        ensures
            r == self@.len(),
    {
        proof {
            self.lemma_view_len();
        }
        self.keys.len()
    }

    /// The cells of the board that the index does not hold, in row-major order.
    pub fn free_cells(&self) -> (r: Vec<Cell>)
        requires
            self.wf(),
        ensures
            forall|c: Cell| r@.contains(c) <==> self.grid().contains(c) && !self@.contains(c),
            forall|i: int, j: int|
                0 <= i < j < r@.len() ==> self.grid().index_of(r@[i]) < self.grid().index_of(r@[j]),
    {
        let g = self.grid;
        let n = g.cell_count_exec();
        let mut r: Vec<Cell> = Vec::new();
        let mut k: usize = 0;
        while k < n
            invariant
                self.wf(),
                g == self.grid,
                n == g.cell_count(),
                k <= n,
                forall|c: Cell|
                    #[trigger] r@.contains(c) <==> g.contains(c) && g.index_of(c) < k
                        && !self@.contains(c),
                forall|i: int, j: int|
                    0 <= i < j < r@.len() ==> g.index_of(r@[i]) < g.index_of(r@[j]),
                forall|i: int| 0 <= i < r@.len() ==> g.index_of(#[trigger] r@[i]) < k,
            decreases n - k,
        {
            let c = g.cell(k);
            proof {
                lemma_cell_at_in_range(g, k as int);
            }
            let ghost before = r@;
            if !self.contains(c) {
                r.push(c);
            }
            proof {
                assert forall|d: Cell| #[trigger] r@.contains(d) implies before.contains(d) || (d == c
                    && !self@.contains(c)) by {
                    let i = choose|i: int| 0 <= i < r@.len() && r@[i] == d;
                    if i < before.len() {
                        assert(before[i] == d);
                    }
                }
                assert forall|d: Cell| #[trigger] before.contains(d) implies r@.contains(d) by {
                    let i = choose|i: int| 0 <= i < before.len() && before[i] == d;
                    assert(r@[i] == d);
                }
                if !self@.contains(c) {
                    assert(r@[r@.len() - 1] == c);
                }
                assert forall|d: Cell|
                    #[trigger] r@.contains(d) <==> g.contains(d) && g.index_of(d) < k + 1 && !self@.contains(
                        d,
                    ) by {
                    if g.contains(d) && g.index_of(d) < k + 1 && !self@.contains(d) {
                        if g.index_of(d) == k {
                            lemma_index_in_range(g, d);
                            assert(d == c);
                            assert(r@.contains(d));
                        } else {
                            assert(before.contains(d));
                            assert(r@.contains(d));
                        }
                    }
                    if r@.contains(d) {
                        if before.contains(d) {
                            assert(g.contains(d) && g.index_of(d) < k && !self@.contains(d));
                        } else {
                            assert(d == c);
                        }
                    }
                }
            }
            k = k + 1;
        }
        proof {
            assert forall|c: Cell| g.contains(c) implies g.index_of(c) < k by {
                lemma_index_in_range(g, c);
            }
        }
        r
    }
}

proof fn lemma_keys_finite(keys: Set<usize>, n: int)
    requires
        0 <= n,
        forall|k: usize| #[trigger] keys.contains(k) ==> k < n,
    ensures
        keys.finite(),
{
    let f = |i: int| i as usize;
    lemma_int_range(0, n);
    vstd::set_lib::lemma_map_size_bound(set_int_range(0, n), set_int_range(0, n).map(f), f);
    assert forall|k: usize| keys.contains(k) implies set_int_range(0, n).map(f).contains(k) by {
        assert(set_int_range(0, n).contains(k as int));
        assert(f(k as int) == k);
    }
    lemma_len_subset(keys, set_int_range(0, n).map(f));
}

proof fn lemma_all_cells_len(g: Grid)
    requires
        g.valid(),
    ensures
        all_cells(g).finite(),
        all_cells(g).len() == g.cell_count(),
{
    let n = g.cell_count() as int;
    let f = |k: int| g.cell_at(k);
    lemma_int_range(0, n);
    assert(set_int_range(0, n).map(f) =~= all_cells(g)) by {
        assert forall|c: Cell| #[trigger] all_cells(g).contains(c) implies set_int_range(0, n).map(
            f,
        ).contains(c) by {
            lemma_index_in_range(g, c);
            assert(set_int_range(0, n).contains(g.index_of(c)));
        }
        assert forall|c: Cell| #[trigger] set_int_range(0, n).map(f).contains(c) implies all_cells(
            g,
        ).contains(c) by {
            let k = choose|k: int| set_int_range(0, n).contains(k) && c == f(k);
            lemma_cell_at_in_range(g, k);
        }
    }
    assert forall|j: int, k: int|
        set_int_range(0, n).contains(j) && set_int_range(0, n).contains(k) && #[trigger] f(j)
            == #[trigger] f(k) implies j == k by {
        lemma_cell_at_in_range(g, j);
        lemma_cell_at_in_range(g, k);
    }
    lemma_map_size(set_int_range(0, n), all_cells(g), f);
}

} // verus!
