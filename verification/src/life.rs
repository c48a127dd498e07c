//! Conway's game of life on a grid without borders.
//!
//! A grid is the set of its live cells. It is kept as a vector in which no
//! cell stands twice.

use vstd::prelude::*;

verus! {

/// A cell of the grid, by its two coordinates.
#[derive(Clone, Copy, Debug, PartialEq, Eq, Hash, Structural)]
pub struct Cell(pub isize, pub isize);

/// A set of live cells.
#[derive(Debug)]
pub struct Grid(Vec<Cell>);

/// Whether `a` and `b` are different cells that touch, at a side or a corner.
pub open spec fn adjacent(a: Cell, b: Cell) -> bool {
    a != b && -1 <= a.0 - b.0 <= 1 && -1 <= a.1 - b.1 <= 1
}

/// Whether the cell at `(x, y)` is in `alive`.
pub open spec fn lives(alive: Set<Cell>, x: int, y: int) -> bool {
    exists|c: Cell| alive.contains(c) && c.0 == x && c.1 == y
}

/// 1 if the cell at `(x, y)` is in `alive`, else 0.
pub open spec fn one_if_lives(alive: Set<Cell>, x: int, y: int) -> int {
    if lives(alive, x, y) {
        1
    } else {
        0
    }
}

/// The number of cells in `alive` that touch `c`.
pub open spec fn live_neighbors(alive: Set<Cell>, c: Cell) -> int {
    one_if_lives(alive, c.0 - 1, c.1 - 1) + one_if_lives(alive, c.0 - 1, c.1 as int) + one_if_lives(
        alive,
        c.0 - 1,
        c.1 + 1,
    ) + one_if_lives(alive, c.0 as int, c.1 - 1) + one_if_lives(alive, c.0 as int, c.1 + 1)
        + one_if_lives(alive, c.0 + 1, c.1 - 1) + one_if_lives(alive, c.0 + 1, c.1 as int)
        + one_if_lives(alive, c.0 + 1, c.1 + 1)
}

/// The rule of the game: a live cell stays alive with two or three live
/// neighbours, and a dead cell comes alive with exactly three.
pub open spec fn alive_next(alive: Set<Cell>, c: Cell) -> bool {
    if alive.contains(c) {
        live_neighbors(alive, c) == 2 || live_neighbors(alive, c) == 3
    } else {
        live_neighbors(alive, c) == 3
    }
}

/// Whether the coordinates of `c` are at least `margin` away from the ends
/// of their range.
pub open spec fn inside(c: Cell, margin: int) -> bool {
    &&& isize::MIN + margin <= c.0 <= isize::MAX - margin
    &&& isize::MIN + margin <= c.1 <= isize::MAX - margin
}

proof fn lemma_lives(alive: Set<Cell>, c: Cell)
    ensures
        alive.contains(c) == lives(alive, c.0 as int, c.1 as int),
{
    if lives(alive, c.0 as int, c.1 as int) {
        let w = choose|w: Cell| alive.contains(w) && w.0 == c.0 && w.1 == c.1;
        assert(w == c);
    }
}

/// A cell with a live neighbour touches a cell that is alive.
proof fn lemma_neighbor_exists(alive: Set<Cell>, c: Cell)
    requires
        live_neighbors(alive, c) > 0,
    ensures
        exists|a: Cell| alive.contains(a) && adjacent(c, a),
{
    if lives(alive, c.0 - 1, c.1 - 1) {
        let a = choose|a: Cell| alive.contains(a) && a.0 == c.0 - 1 && a.1 == c.1 - 1;
        assert(alive.contains(a) && adjacent(c, a));
    } else if lives(alive, c.0 - 1, c.1 as int) {
        let a = choose|a: Cell| alive.contains(a) && a.0 == c.0 - 1 && a.1 == c.1;
        assert(alive.contains(a) && adjacent(c, a));
    } else if lives(alive, c.0 - 1, c.1 + 1) {
        let a = choose|a: Cell| alive.contains(a) && a.0 == c.0 - 1 && a.1 == c.1 + 1;
        assert(alive.contains(a) && adjacent(c, a));
    } else if lives(alive, c.0 as int, c.1 - 1) {
        let a = choose|a: Cell| alive.contains(a) && a.0 == c.0 && a.1 == c.1 - 1;
        assert(alive.contains(a) && adjacent(c, a));
    } else if lives(alive, c.0 as int, c.1 + 1) {
        let a = choose|a: Cell| alive.contains(a) && a.0 == c.0 && a.1 == c.1 + 1;
        assert(alive.contains(a) && adjacent(c, a));
    } else if lives(alive, c.0 + 1, c.1 - 1) {
        let a = choose|a: Cell| alive.contains(a) && a.0 == c.0 + 1 && a.1 == c.1 - 1;
        assert(alive.contains(a) && adjacent(c, a));
    } else if lives(alive, c.0 + 1, c.1 as int) {
        let a = choose|a: Cell| alive.contains(a) && a.0 == c.0 + 1 && a.1 == c.1;
        assert(alive.contains(a) && adjacent(c, a));
    } else {
        assert(lives(alive, c.0 + 1, c.1 + 1));
        let a = choose|a: Cell| alive.contains(a) && a.0 == c.0 + 1 && a.1 == c.1 + 1;
        assert(alive.contains(a) && adjacent(c, a));
    }
}

/// Whether `c` stands in `cells`.
fn holds(cells: &Vec<Cell>, c: Cell) -> (found: bool)
    ensures
        found == cells@.contains(c),
{
    let mut i: usize = 0;
    while i < cells.len()
        invariant
            i <= cells.len(),
            forall|j: int| 0 <= j < i ==> cells@[j] != c,
        decreases cells.len() - i,
    {
        if cells[i] == c {
            return true;
        }
        i = i + 1;
    }
    false
}

impl Cell {
    /// The eight cells that touch this one.
    pub fn neighbors(&self) -> (g: Grid)
        requires
            inside(*self, 1),
        ensures
            g.wf(),
            forall|c: Cell| g@.contains(c) <==> adjacent(c, *self),
    {
        let x = self.0;
        let y = self.1;
        let mut cells: Vec<Cell> = Vec::new();
        cells.push(Cell(x - 1, y - 1));
        cells.push(Cell(x - 1, y));
        cells.push(Cell(x - 1, y + 1));
        cells.push(Cell(x, y - 1));
        cells.push(Cell(x, y + 1));
        cells.push(Cell(x + 1, y - 1));
        cells.push(Cell(x + 1, y));
        cells.push(Cell(x + 1, y + 1));
        let g = Grid(cells);
        proof {
            let s = g.0@;
            assert forall|c: Cell| s.contains(c) <==> adjacent(c, *self) by {
                if adjacent(c, *self) {
                    let k: int = if c.0 == x - 1 {
                        if c.1 == y - 1 {
                            0
                        } else if c.1 == y {
                            1
                        } else {
                            2
                        }
                    } else if c.0 == x {
                        if c.1 == y - 1 {
                            3
                        } else {
                            4
                        }
                    } else {
                        if c.1 == y - 1 {
                            5
                        } else if c.1 == y {
                            6
                        } else {
                            7
                        }
                    };
                    assert(s[k] == c);
                }
            }
        }
        g
    }
}

impl Grid {
    /// The live cells.
    pub closed spec fn view(&self) -> Set<Cell> {
        self.0@.to_set()
    }

    /// No cell stands twice.
    pub closed spec fn wf(&self) -> bool {
        self.0@.no_duplicates()
    }

    /// Every live cell is at least two steps away from the ends of the
    /// coordinates, so that the neighbours of its neighbours are cells.
    pub open spec fn roomy(&self) -> bool {
        forall|c: Cell| self@.contains(c) ==> inside(c, 2)
    }

    /// Three cells in a row: the blinker.
    pub fn new() -> (g: Self)
        ensures
            g.wf(),
            g.roomy(),
            forall|c: Cell| g@.contains(c) <==> (c == Cell(0, 0) || c == Cell(1, 0) || c == Cell(2, 0)),
    {
        let mut cells: Vec<Cell> = Vec::new();
        cells.push(Cell(0, 0));
        cells.push(Cell(1, 0));
        cells.push(Cell(2, 0));
        let g = Grid(cells);
        proof {
            let s = g.0@;
            assert(s[0] == Cell(0, 0) && s[1] == Cell(1, 0) && s[2] == Cell(2, 0));
        }
        g
    }

    /// A grid of the cells in `cells`, each once.
    pub fn from_cells(cells: &[Cell]) -> (g: Self)
        ensures
            g.wf(),
            forall|c: Cell| g@.contains(c) <==> cells@.contains(c),
    {
        let mut out: Vec<Cell> = Vec::new();
        let mut i: usize = 0;
        while i < cells.len()
            invariant
                i <= cells.len(),
                out@.no_duplicates(),
                forall|c: Cell| out@.contains(c) <==> exists|j: int| 0 <= j < i && cells@[j] == c,
            decreases cells.len() - i,
        {
            let c = cells[i];
            let ghost before = out@;
            if !holds(&out, c) {
                out.push(c);
            }
            proof {
                assert forall|d: Cell| out@.contains(d) <==> exists|j: int|
                    0 <= j < i + 1 && cells@[j] == d by {
                    if out@.contains(d) {
                        let k = choose|k: int| 0 <= k < out@.len() && out@[k] == d;
                        if k < before.len() {
                            assert(before[k] == d);
                            assert(before.contains(d));
                        } else {
                            assert(cells@[i as int] == d);
                        }
                    }
                    if exists|j: int| 0 <= j < i + 1 && cells@[j] == d {
                        let j = choose|j: int| 0 <= j < i + 1 && cells@[j] == d;
                        if j < i {
                            assert(before.contains(d));
                            let k = choose|k: int| 0 <= k < before.len() && before[k] == d;
                            assert(out@[k] == d);
                        } else if before.contains(d) {
                            let k = choose|k: int| 0 <= k < before.len() && before[k] == d;
                            assert(out@[k] == d);
                        } else {
                            assert(out@[out@.len() - 1] == d);
                        }
                    }
                }
            }
            i = i + 1;
        }
        Grid(out)
    }

    /// Whether `c` is alive.
    pub fn contains(&self, c: &Cell) -> (alive: bool)
        ensures
            alive == self@.contains(*c),
    {
        holds(&self.0, *c)
    }

    /// The number of live cells.
    pub fn len(&self) -> (n: usize)
        requires
            self.wf(),
        ensures
            n == self@.len(),
            self@.finite(),
    {
        proof {
            self.0@.unique_seq_to_set();
        }
        self.0.len()
    }

    /// The number of live cells that touch `c`.
    pub fn live_neighbors(&self, c: &Cell) -> (n: u8)
        requires
            inside(*c, 1),
        ensures
            n == live_neighbors(self@, *c),
            n <= 8,
    {
        let x = c.0;
        let y = c.1;
        proof {
            lemma_lives(self@, Cell((x - 1) as isize, (y - 1) as isize));
            lemma_lives(self@, Cell((x - 1) as isize, y));
            lemma_lives(self@, Cell((x - 1) as isize, (y + 1) as isize));
            lemma_lives(self@, Cell(x, (y - 1) as isize));
            lemma_lives(self@, Cell(x, (y + 1) as isize));
            lemma_lives(self@, Cell((x + 1) as isize, (y - 1) as isize));
            lemma_lives(self@, Cell((x + 1) as isize, y));
            lemma_lives(self@, Cell((x + 1) as isize, (y + 1) as isize));
        }
        let mut n: u8 = 0;
        if self.contains(&Cell(x - 1, y - 1)) {
            n = n + 1;
        }
        if self.contains(&Cell(x - 1, y)) {
            n = n + 1;
        }
        if self.contains(&Cell(x - 1, y + 1)) {
            n = n + 1;
        }
        if self.contains(&Cell(x, y - 1)) {
            n = n + 1;
        }
        if self.contains(&Cell(x, y + 1)) {
            n = n + 1;
        }
        if self.contains(&Cell(x + 1, y - 1)) {
            n = n + 1;
        }
        if self.contains(&Cell(x + 1, y)) {
            n = n + 1;
        }
        if self.contains(&Cell(x + 1, y + 1)) {
            n = n + 1;
        }
        n
    }

    /// Adds `p` to `out` if `p` is dead now and alive in the next generation.
    fn consider(&self, out: &mut Vec<Cell>, p: Cell)
        requires
            inside(p, 1),
            old(out)@.no_duplicates(),
        ensures
            final(out)@.no_duplicates(),
            forall|c: Cell|
                final(out)@.contains(c) <==> (old(out)@.contains(c) || (c == p && !self@.contains(p)
                    && alive_next(self@, p))),
    {
        let ghost before = out@;
        if !self.contains(&p) && self.live_neighbors(&p) == 3 && !holds(out, p) {
            out.push(p);
            proof {
                assert forall|c: Cell| out@.contains(c) <==> (before.contains(c) || c == p) by {
                    if out@.contains(c) {
                        let k = choose|k: int| 0 <= k < out@.len() && out@[k] == c;
                        if k < before.len() {
                            assert(before[k] == c);
                        }
                    }
                    if before.contains(c) {
                        let k = choose|k: int| 0 <= k < before.len() && before[k] == c;
                        assert(out@[k] == c);
                    }
                    if c == p {
                        assert(out@[out@.len() - 1] == c);
                    }
                }
            }
        }
    }

    /// The next generation: the live cells with two or three live
    /// neighbours, and the dead cells with exactly three.
    pub fn next_gen(self) -> (g: Grid)
        requires
            self.wf(),
            self.roomy(),
        ensures
            g.wf(),
            forall|c: Cell| g@.contains(c) <==> alive_next(self@, c),
    {
        let ghost alive = self@;
        let mut out: Vec<Cell> = Vec::new();
        let mut i: usize = 0;
        while i < self.0.len()
            invariant
                i <= self.0.len(),
                alive == self@,
                self.wf(),
                self.roomy(),
                out@.no_duplicates(),
                forall|c: Cell|
                    out@.contains(c) <==> exists|j: int|
                        0 <= j < i && self.0@[j] == c && alive_next(alive, c),
            decreases self.0.len() - i,
        {
            let c = self.0[i];
            let ghost before = out@;
            proof {
                assert(self.0@.contains(c));
                assert(self@.contains(c));
                assert(inside(c, 2));
            }
            let n = self.live_neighbors(&c);
            if n == 2 || n == 3 {
                proof {
                    if before.contains(c) {
                        let j = choose|j: int| 0 <= j < i && self.0@[j] == c;
                        assert(self.0@[j] == self.0@[i as int]);
                    }
                }
                out.push(c);
            }
            proof {
                assert forall|d: Cell| out@.contains(d) <==> exists|j: int|
                    0 <= j < i + 1 && self.0@[j] == d && alive_next(alive, d) by {
                    if out@.contains(d) {
                        let k = choose|k: int| 0 <= k < out@.len() && out@[k] == d;
                        if k < before.len() {
                            assert(before[k] == d);
                            assert(before.contains(d));
                        } else {
                            assert(self.0@[i as int] == d && alive_next(alive, d));
                        }
                    }
                    if exists|j: int| 0 <= j < i + 1 && self.0@[j] == d && alive_next(alive, d) {
                        let j = choose|j: int|
                            0 <= j < i + 1 && self.0@[j] == d && alive_next(alive, d);
                        if j < i {
                            assert(before.contains(d));
                            let k = choose|k: int| 0 <= k < before.len() && before[k] == d;
                            assert(out@[k] == d);
                        } else {
                            assert(out@[out@.len() - 1] == d);
                        }
                    }
                }
            }
            i = i + 1;
        }
        proof {
            assert forall|c: Cell| out@.contains(c) <==> (alive.contains(c) && alive_next(
                alive,
                c,
            )) by {
                if alive.contains(c) && alive_next(alive, c) {
                    let j = choose|j: int| 0 <= j < self.0@.len() && self.0@[j] == c;
                    assert(0 <= j < i && self.0@[j] == c && alive_next(alive, c));
                }
                if out@.contains(c) {
                    let j = choose|j: int| 0 <= j < i && self.0@[j] == c && alive_next(alive, c);
                    assert(self.0@.contains(c));
                }
            }
        }
        let mut i: usize = 0;
        while i < self.0.len()
            invariant
                i <= self.0.len(),
                alive == self@,
                self.wf(),
                self.roomy(),
                out@.no_duplicates(),
                forall|c: Cell| out@.contains(c) ==> alive_next(alive, c),
                forall|c: Cell| alive.contains(c) && alive_next(alive, c) ==> out@.contains(c),
                forall|c: Cell, j: int|
                    0 <= j < i && #[trigger] adjacent(c, self.0@[j]) && !alive.contains(c)
                        && alive_next(alive, c) ==> out@.contains(c),
            decreases self.0.len() - i,
        {
            let a = self.0[i];
            proof {
                assert(self.0@.contains(a));
                assert(self@.contains(a));
                assert(inside(a, 2));
            }
            let x = a.0;
            let y = a.1;
            self.consider(&mut out, Cell(x - 1, y - 1));
            self.consider(&mut out, Cell(x - 1, y));
            self.consider(&mut out, Cell(x - 1, y + 1));
            self.consider(&mut out, Cell(x, y - 1));
            self.consider(&mut out, Cell(x, y + 1));
            self.consider(&mut out, Cell(x + 1, y - 1));
            self.consider(&mut out, Cell(x + 1, y));
            self.consider(&mut out, Cell(x + 1, y + 1));
            proof {
                assert forall|c: Cell, j: int|
                    0 <= j < i + 1 && #[trigger] adjacent(c, self.0@[j]) && !alive.contains(c)
                        && alive_next(alive, c) implies out@.contains(c) by {
                    if j == i {
                        assert(c == Cell((x - 1) as isize, (y - 1) as isize) || c == Cell(
                            (x - 1) as isize,
                            y,
                        ) || c == Cell((x - 1) as isize, (y + 1) as isize) || c == Cell(
                            x,
                            (y - 1) as isize,
                        ) || c == Cell(x, (y + 1) as isize) || c == Cell(
                            (x + 1) as isize,
                            (y - 1) as isize,
                        ) || c == Cell((x + 1) as isize, y) || c == Cell(
                            (x + 1) as isize,
                            (y + 1) as isize,
                        ));
                    }
                }
            }
            i = i + 1;
        }
        let g = Grid(out);
        proof {
            assert forall|c: Cell| g@.contains(c) <==> alive_next(alive, c) by {
                if alive_next(alive, c) && !alive.contains(c) {
                    lemma_neighbor_exists(alive, c);
                    let a = choose|a: Cell| alive.contains(a) && adjacent(c, a);
                    let j = choose|j: int| 0 <= j < self.0@.len() && self.0@[j] == a;
                    assert(adjacent(c, self.0@[j]));
                }
            }
        }
        g
    }
}

} // verus!
