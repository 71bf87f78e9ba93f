//! Conway's game of life on a torus: the grid wraps around at its edges.
use crate::text::string_of;
use vstd::prelude::*;

verus! {

#[derive(Clone, Copy, Debug, PartialEq, Eq, Structural)]
pub enum Cell {
    Dead,
    Alive,
}

/// A grid of `width` columns and `height` rows, stored row by row.
pub struct Universe {
    cells: Vec<Cell>,
    width: u32,
    height: u32,
}

/// The abstract state of a universe.
pub struct UniverseView {
    pub cells: Seq<Cell>,
    pub width: nat,
    pub height: nat,
}

impl View for Universe {
    type V = UniverseView;

    closed spec fn view(&self) -> UniverseView {
        UniverseView { cells: self.cells@, width: self.width as nat, height: self.height as nat }
    }
}

/// The three row (or column) offsets looked at, in order: one back (as a
/// forward step of `n - 1` around the torus), none, one forward.
pub open spec fn offset(k: int, n: nat) -> int {
    if k == 0 {
        n - 1
    } else if k == 1 {
        0
    } else {
        1
    }
}

/// What a cell becomes, given how many of its neighbours are alive.
pub open spec fn next_state(cell: Cell, live: nat) -> Cell {
    match cell {
        Cell::Alive => if live == 2 || live == 3 {
            Cell::Alive
        } else {
            Cell::Dead
        },
        Cell::Dead => if live == 3 {
            Cell::Alive
        } else {
            Cell::Dead
        },
    }
}

/// How a cell is drawn: a white square when dead, a black one when alive.
pub open spec fn glyph(c: Cell) -> char {
    match c {
        Cell::Dead => '\u{25fb}',
        Cell::Alive => '\u{25fc}',
    }
}

/// The drawing of the first `n` cells, rows `width` cells long, each full
/// row ended by a newline.
pub open spec fn picture(cells: Seq<Cell>, width: nat, n: nat) -> Seq<char>
    decreases n,
{
    if n == 0 {
        Seq::empty()
    } else {
        let line = picture(cells, width, (n - 1) as nat).push(glyph(cells[n - 1]));
        if n % width == 0 {
            line.push('\n')
        } else {
            line
        }
    }
}

impl UniverseView {
    /// The grid holds exactly one cell per position.
    pub open spec fn wf(self) -> bool {
        &&& self.cells.len() == self.width * self.height
        &&& self.width * self.height <= u32::MAX
    }

    /// 1 if the cell at `row`, `col` (taken around the torus) is alive.
    pub open spec fn alive_at(self, row: int, col: int) -> nat {
        if self.cells[(row % self.height as int) * self.width + col % self.width as int] == Cell::Alive {
            1
        } else {
            0
        }
    }

    /// The contribution of offset pair (`k`, `l`) to the neighbours of
    /// `row`, `col`; the pair of zero offsets is the cell itself.
    pub open spec fn term(self, row: int, col: int, k: int, l: int) -> nat {
        let dr = offset(k, self.height);
        let dc = offset(l, self.width);
        if dr == 0 && dc == 0 {
            0
        } else {
            self.alive_at(row + dr, col + dc)
        }
    }

    /// How many neighbours of `row`, `col` are alive.
    pub open spec fn live_neighbours(self, row: int, col: int) -> nat {
        self.term(row, col, 0, 0) + self.term(row, col, 0, 1) + self.term(row, col, 0, 2)
            + self.term(row, col, 1, 0) + self.term(row, col, 1, 1) + self.term(row, col, 1, 2)
            + self.term(row, col, 2, 0) + self.term(row, col, 2, 1) + self.term(row, col, 2, 2)
    }

    /// The cells one generation later.
    pub open spec fn next_cells(self) -> Seq<Cell> {
        Seq::new(
            self.cells.len(),
            |i: int|
                next_state(
                    self.cells[i],
                    self.live_neighbours(i / self.width as int, i % self.width as int),
                ),
        )
    }
}

impl Universe {
    /// An all-dead universe of `width` by `height`.
    pub fn new(width: u32, height: u32) -> (r: Self)
        requires
            width * height <= u32::MAX,
        ensures
            r@.wf(),
            r@.width == width,
            r@.height == height,
            r@.cells == Seq::new((width * height) as nat, |i: int| Cell::Dead),
    {
        let n = width * height;
        let mut cells: Vec<Cell> = Vec::new();
        let mut i: u32 = 0;
        while i < n
            invariant
                i <= n,
                cells@ == Seq::new(i as nat, |k: int| Cell::Dead),
            decreases n - i,
        {
            cells.push(Cell::Dead);
            i = i + 1;
        }
        Universe { width, height, cells }
    }

    /// Where the cell at `row`, `col` is stored.
    pub fn get_index(&self, row: u32, col: u32) -> (r: usize)
        requires
            row * self@.width + col <= u32::MAX,
        ensures
            r == row * self@.width + col,
    {
        (row * self.width + col) as usize
    }

    /// The cell stored at `index`.
    pub fn cell(&self, index: usize) -> (r: Cell)
        requires
            index < self@.cells.len(),
        ensures
            r == self@.cells[index as int],
    {
        self.cells[index]
    }

    /// Sets the cell stored at `index`.
    pub fn set_cell(&mut self, index: usize, cell: Cell)
        requires
            index < old(self)@.cells.len(),
        ensures
            final(self)@ == (UniverseView { cells: old(self)@.cells.update(index as int, cell), ..old(self)@ }),
    {
        self.cells.set(index, cell);
    }

    /// The offset pair (`k`, `l`)'s share of the live neighbours of `row`,
    /// `col`.
    fn term(&self, row: u32, col: u32, k: u32, l: u32) -> (r: u8)
        requires
            self@.wf(),
            self@.width >= 1,
            self@.height >= 1,
            k < 3,
            l < 3,
        ensures
            r == self@.term(row as int, col as int, k as int, l as int),
    {
        let dr: u32 = if k == 0 {
            self.height - 1
        } else if k == 1 {
            0
        } else {
            1
        };
        let dc: u32 = if l == 0 {
            self.width - 1
        } else if l == 1 {
            0
        } else {
            1
        };
        if dr == 0 && dc == 0 {
            return 0;
        }
        let r_near = ((row as u64 + dr as u64) % self.height as u64) as u32;
        let c_near = ((col as u64 + dc as u64) % self.width as u64) as u32;
        proof {
            let (w, h) = (self.width as int, self.height as int);
            assert(r_near < h && c_near < w);
            assert(r_near * w + c_near < w * h) by (nonlinear_arith)
                requires
                    r_near < h,
                    c_near < w,
            ;
        }
        let idx = self.get_index(r_near, c_near);
        match self.cells[idx] {
            Cell::Alive => 1,
            Cell::Dead => 0,
        }
    }

    /// How many of the eight cells around `row`, `col` are alive, the grid
    /// wrapping around at its edges.
    pub fn live_count(&self, row: u32, col: u32) -> (r: u8)
        requires
            self@.wf(),
            self@.width >= 1,
            self@.height >= 1,
        ensures
            r == self@.live_neighbours(row as int, col as int),
    {
        let mut count: u8 = 0;
        count = count + self.term(row, col, 0, 0);
        count = count + self.term(row, col, 0, 1);
        count = count + self.term(row, col, 0, 2);
        count = count + self.term(row, col, 1, 0);
        count = count + self.term(row, col, 1, 1);
        count = count + self.term(row, col, 1, 2);
        count = count + self.term(row, col, 2, 0);
        count = count + self.term(row, col, 2, 1);
        count = count + self.term(row, col, 2, 2);
        count
    }

    /// Advances one generation: every cell changes at once, by the count
    /// of live neighbours it had before.
    pub fn tick(&mut self)
        requires
            old(self)@.wf(),
            old(self)@.width >= 1,
            old(self)@.height >= 1,
        ensures
            final(self)@ == (UniverseView { cells: old(self)@.next_cells(), ..old(self)@ }),
            final(self)@.wf(),
    {
        let mut next_cells = self.cells.clone();
        let n = self.cells.len();
        let mut i: usize = 0;
        while i < n
            invariant
                self@.wf(),
                self@.width >= 1,
                self@.height >= 1,
                n == self@.cells.len(),
                i <= n,
                next_cells@.len() == n,
                forall|j: int| 0 <= j < i ==> next_cells@[j] == #[trigger] self@.next_cells()[j],
                forall|j: int| i <= j < n ==> next_cells@[j] == self@.cells[j],
            decreases n - i,
        {
            let row = (i as u32) / self.width;
            let col = (i as u32) % self.width;
            let n_live = self.live_count(row, col);
            let next_cell = match (self.cells[i], n_live) {
                (Cell::Alive, x) if x < 2 => Cell::Dead,
                (Cell::Alive, x) if x > 3 => Cell::Dead,
                (Cell::Alive, 2) | (Cell::Alive, 3) => Cell::Alive,
                (Cell::Dead, 3) => Cell::Alive,
                (cell_state, _) => cell_state,
            };
            next_cells.set(i, next_cell);
            i = i + 1;
        }
        assert(next_cells@ =~= self@.next_cells());
        self.cells = next_cells;
    }

    /// The grid drawn row by row, one line per row.
    pub fn render(&self) -> (r: String)
        requires
            self@.wf(),
            self@.width >= 1,
        ensures
            r@ == picture(self@.cells, self@.width, self@.cells.len()),
    {
        let mut out: Vec<char> = Vec::new();
        let n = self.cells.len();
        let w = self.width as usize;
        let mut i: usize = 0;
        while i < n
            invariant
                n == self@.cells.len(),
                w == self@.width,
                w >= 1,
                i <= n,
                out@ == picture(self@.cells, self@.width, i as nat),
            decreases n - i,
        {
            match self.cells[i] {
                Cell::Dead => out.push('\u{25fb}'),
                Cell::Alive => out.push('\u{25fc}'),
            }
            if (i + 1) % w == 0 {
                out.push('\n');
            }
            i = i + 1;
        }
        string_of(out)
    }
}

} // verus!
