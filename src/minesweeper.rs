//! A minesweeper board: which cells are open, mined and flagged, opening a
//! cell (and, from a cell with no mine around it, everything reachable that
//! way), and flagging.
use crate::text::{digit, digit_char, string_of};
use rand::Rng;
use vstd::prelude::*;

verus! {

/// A cell by column and row.
pub type Position = (i32, i32);

/// A board of `width` columns and `height` rows. The cell sets are kept as
/// lists; only which positions they hold matters.
#[derive(Debug)]
pub struct Board {
    width: usize,
    height: usize,
    open_cells: Vec<Position>,
    mines: Vec<Position>,
    flagged_cells: Vec<Position>,
    game_over: bool,
}

/// What opening a cell found.
#[derive(Clone, Copy, Debug, PartialEq, Eq, Structural)]
pub enum OpenResult {
    /// Nothing was opened: the cell is flagged or the game is over.
    Untouched,
    /// The cell holds a mine.
    Mine,
    /// No mine; this many of its neighbours hold one.
    NoMine(u8),
}

/// The abstract state of a board.
pub struct BoardView {
    pub width: nat,
    pub height: nat,
    pub open: Set<Position>,
    pub mines: Set<Position>,
    pub flagged: Set<Position>,
    pub game_over: bool,
}

impl Board {
    /// The mine list holds each mine once.
    pub closed spec fn wf(&self) -> bool {
        self.mines@.no_duplicates()
    }
}

impl View for Board {
    type V = BoardView;

    closed spec fn view(&self) -> BoardView {
        BoardView {
            width: self.width as nat,
            height: self.height as nat,
            open: self.open_cells@.to_set(),
            mines: self.mines@.to_set(),
            flagged: self.flagged_cells@.to_set(),
            game_over: self.game_over,
        }
    }
}

/// Whether `v` holds `p`.
fn holds(v: &Vec<Position>, p: Position) -> (r: bool)
    ensures
        r == v@.to_set().contains(p),
{
    let mut i: usize = 0;
    while i < v.len()
        invariant
            i <= v@.len(),
            forall|k: int| 0 <= k < i ==> v@[k] != p,
        decreases v.len() - i,
    {
        if v[i].0 == p.0 && v[i].1 == p.1 {
            assert(v@.contains(p));
            return true;
        }
        i = i + 1;
    }
    false
}

/// Appending adds one element to the set a list holds.
proof fn lemma_push_to_set(s: Seq<Position>, a: Position)
    ensures
        s.push(a).to_set() == s.to_set().insert(a),
{
    assert forall|q: Position| #[trigger] s.push(a).to_set().contains(q) <==> s.to_set().insert(a).contains(q) by {
        if s.contains(q) {
            let k = choose|k: int| 0 <= k < s.len() && s[k] == q;
            assert(s.push(a)[k] == q);
        }
        if q == a {
            assert(s.push(a)[s.len() as int] == a);
        }
        if s.push(a).contains(q) && q != a {
            let k = choose|k: int| 0 <= k < s.len() + 1 && s.push(a)[k] == q;
            assert(s[k] == q);
        }
    }
    assert(s.push(a).to_set() =~= s.to_set().insert(a));
}

/// Adds `p` to the positions `v` holds.
fn insert_pos(v: &mut Vec<Position>, p: Position)
    ensures
        final(v)@.to_set() == old(v)@.to_set().insert(p),
        old(v)@.no_duplicates() ==> final(v)@.no_duplicates(),
{
    if !holds(v, p) {
        let ghost o = v@;
        v.push(p);
        proof {
            lemma_push_to_set(o, p);
        }
    } else {
        assert(v@.to_set() =~= v@.to_set().insert(p));
    }
}

/// Takes `p` out of the positions `v` holds.
fn remove_pos(v: &mut Vec<Position>, p: Position)
    ensures
        final(v)@.to_set() == old(v)@.to_set().remove(p),
{
    let mut kept: Vec<Position> = Vec::new();
    let mut i: usize = 0;
    assert(kept@.to_set() =~= v@.subrange(0, 0).to_set().remove(p));
    while i < v.len()
        invariant
            i <= v@.len(),
            kept@.to_set() == v@.subrange(0, i as int).to_set().remove(p),
        decreases v.len() - i,
    {
        let q = v[i];
        let ghost before = kept@;
        assert(v@.subrange(0, i + 1) == v@.subrange(0, i as int).push(q));
        proof {
            lemma_push_to_set(v@.subrange(0, i as int), q);
        }
        if !(q.0 == p.0 && q.1 == p.1) {
            kept.push(q);
            proof {
                lemma_push_to_set(before, q);
            }
            assert(kept@.to_set() =~= v@.subrange(0, i + 1).to_set().remove(p));
        } else {
            assert(kept@.to_set() =~= v@.subrange(0, i + 1).to_set().remove(p));
        }
        i = i + 1;
    }
    let ghost all = v@;
    assert(all.subrange(0, all.len() as int) == all);
    *v = kept;
}

/// Whether `q` lies on a board of `width` columns and `height` rows.
pub open spec fn in_board(width: nat, height: nat, q: Position) -> bool {
    0 <= q.0 < width && 0 <= q.1 < height
}

/// `p` is far enough from the ends of `i32` that its neighbours exist.
pub open spec fn inner(p: Position) -> bool {
    i32::MIN < p.0 < i32::MAX && i32::MIN < p.1 < i32::MAX
}

/// The eight cells around `p`, column by column, each column from the top.
pub open spec fn around(p: Position) -> Seq<Position> {
    let (x, y) = p;
    seq![
        ((x - 1) as i32, (y - 1) as i32),
        ((x - 1) as i32, y),
        ((x - 1) as i32, (y + 1) as i32),
        (x, (y - 1) as i32),
        (x, (y + 1) as i32),
        ((x + 1) as i32, (y - 1) as i32),
        ((x + 1) as i32, y),
        ((x + 1) as i32, (y + 1) as i32),
    ]
}

impl BoardView {
    pub open spec fn on_board(self, q: Position) -> bool {
        in_board(self.width, self.height, q)
    }

    /// The cells around `p` that lie on the board.
    pub open spec fn neighbours(self, p: Position) -> Seq<Position> {
        around(p).filter(|q: Position| self.on_board(q))
    }

    /// The cells around `p` on the board that are neither open nor flagged.
    pub open spec fn openable_neighbours(self, p: Position) -> Seq<Position> {
        around(p).filter(
            |q: Position| self.on_board(q) && !self.open.contains(q) && !self.flagged.contains(q),
        )
    }

    /// How many cells around `p` on the board hold a mine.
    pub open spec fn mines_around(self, p: Position) -> nat {
        mines_near(self.width, self.height, self.mines, p)
    }

    /// Opening `pos` does nothing: the game is over or the cell is flagged.
    pub open spec fn refuses(self, pos: Position) -> bool {
        self.game_over || self.flagged.contains(pos)
    }

    /// What opening `pos` reports.
    pub open spec fn open_result(self, pos: Position) -> OpenResult {
        if self.refuses(pos) {
            OpenResult::Untouched
        } else if self.mines.contains(pos) {
            OpenResult::Mine
        } else {
            OpenResult::NoMine(self.mines_around(pos) as u8)
        }
    }

    /// The same board with `pos` open.
    pub open spec fn with_open(self, pos: Position) -> BoardView {
        BoardView { open: self.open.insert(pos), ..self }
    }

    /// Every cell around `q` on the board that bears no flag is open.
    pub open spec fn expanded(self, q: Position) -> bool {
        forall|m: Position|
            #![trigger around(q).contains(m), self.open.contains(m)]
            around(q).contains(m) && self.on_board(m) && !self.flagged.contains(m) ==> self.open.contains(m)
    }

    /// Each cell opened since `before` lies on the board and holds neither a
    /// mine nor a flag.
    pub open spec fn opened_safely_since(self, before: BoardView) -> bool {
        forall|q: Position|
            #![trigger self.open.contains(q)]
            self.open.contains(q) && !before.open.contains(q) ==> self.on_board(q) && !self.mines.contains(
                q,
            ) && !self.flagged.contains(q)
    }

    /// Each cell opened since `before` with no mine around it has every
    /// unflagged cell around it on the board open.
    pub open spec fn flooded_since(self, before: BoardView) -> bool {
        forall|q: Position|
            #![trigger self.open.contains(q)]
            self.open.contains(q) && !before.open.contains(q) && self.mines_around(q) == 0
                ==> self.expanded(q)
    }

    /// How cell `pos` is drawn: the count of mines around it when open, a
    /// flag, a mine, or a closed cell; each followed by a space.
    pub open spec fn cell_text(self, pos: Position) -> Seq<char> {
        if self.open.contains(pos) {
            seq![' ', digit_char(self.mines_around(pos)), ' ']
        } else if self.flagged.contains(pos) {
            seq!['\u{1f6a9}', ' ']
        } else if self.mines.contains(pos) {
            seq!['\u{1f4a5}', ' ']
        } else {
            seq!['\u{1f7e7}', ' ']
        }
    }

    /// The drawing of the first `i` cells of row `j`.
    pub open spec fn row_text(self, j: int, i: nat) -> Seq<char>
        decreases i,
    {
        if i == 0 {
            Seq::empty()
        } else {
            self.row_text(j, (i - 1) as nat) + self.cell_text(((i - 1) as i32, j as i32))
        }
    }

    /// The drawing of the first `j` rows, each ended by a newline.
    pub open spec fn board_text(self, j: nat) -> Seq<char>
        decreases j,
    {
        if j == 0 {
            Seq::empty()
        } else {
            self.board_text((j - 1) as nat) + self.row_text(j - 1, self.width) + seq!['\n']
        }
    }

    /// How many cells of the board are not open.
    pub open spec fn closed_count(self) -> nat {
        closed_cells(self.open, self.width as int, self.height as int)
    }
}

/// How many of the first `i` cells of row `y` are not in `open`.
pub open spec fn closed_in_row(open: Set<Position>, y: int, i: int) -> nat
    decreases i,
{
    if i <= 0 {
        0
    } else {
        closed_in_row(open, y, i - 1) + if open.contains(((i - 1) as i32, y as i32)) {
            0nat
        } else {
            1nat
        }
    }
}

/// How many cells of the first `j` rows, `width` cells each, are not in `open`.
pub open spec fn closed_cells(open: Set<Position>, width: int, j: int) -> nat
    decreases j,
{
    if j <= 0 {
        0
    } else {
        closed_cells(open, width, j - 1) + closed_in_row(open, j - 1, width)
    }
}

/// Opening more cells leaves no more of a row closed; opening a closed cell
/// of it leaves fewer.
proof fn lemma_row_shrinks(a: Set<Position>, b: Set<Position>, y: int, i: int, x: int)
    requires
        a.subset_of(b),
    ensures
        closed_in_row(b, y, i) <= closed_in_row(a, y, i),
        0 <= x < i && !a.contains((x as i32, y as i32)) && b.contains((x as i32, y as i32))
            ==> closed_in_row(b, y, i) < closed_in_row(a, y, i),
    decreases i,
{
    if i > 0 {
        lemma_row_shrinks(a, b, y, i - 1, x);
    }
}

/// Opening more cells leaves no more of the board closed; opening a closed
/// cell of the board leaves fewer.
proof fn lemma_board_shrinks(a: Set<Position>, b: Set<Position>, width: int, j: int, q: Position)
    requires
        a.subset_of(b),
    ensures
        closed_cells(b, width, j) <= closed_cells(a, width, j),
        0 <= q.0 < width && 0 <= q.1 < j && !a.contains(q) && b.contains(q) ==> closed_cells(b, width, j)
            < closed_cells(a, width, j),
    decreases j,
{
    if j > 0 {
        lemma_board_shrinks(a, b, width, j - 1, q);
        lemma_row_shrinks(a, b, j - 1, width, q.0 as int);
        assert((q.0 as int) as i32 == q.0 && (q.1 as int) as i32 == q.1);
    }
}

/// How many cells around `p` on a board of `width` by `height` are in `mines`.
pub open spec fn mines_near(width: nat, height: nat, mines: Set<Position>, p: Position) -> nat {
    around(p).filter(|q: Position| in_board(width, height, q) && mines.contains(q)).len()
}

/// The eight cells around `p`.
fn around_vec(p: Position) -> (r: Vec<Position>)
    requires
        inner(p),
    ensures
        r@ == around(p),
{
    let (x, y) = p;
    let r = vec![
        (x - 1, y - 1),
        (x - 1, y),
        (x - 1, y + 1),
        (x, y - 1),
        (x, y + 1),
        (x + 1, y - 1),
        (x + 1, y),
        (x + 1, y + 1),
    ];
    assert(r@ =~= around(p));
    r
}

/// Relies on rand's `thread_rng().gen_range(0..bound)`: a value drawn below
/// `bound`. It panics on an empty range, which `bound > 0` rules out.
#[verifier::external_body]
fn random_below(bound: usize) -> (r: usize)
    requires
        bound > 0,
    ensures
        r < bound,
{
    rand::thread_rng().gen_range(0..bound)
}

/// Taking one element out of a list without duplicates leaves none.
proof fn lemma_remove_no_duplicates(s: Seq<Position>, i: int)
    requires
        s.no_duplicates(),
        0 <= i < s.len(),
    ensures
        s.remove(i).no_duplicates(),
        forall|q: Position| s.remove(i).contains(q) <==> s.contains(q) && q != s[i],
{
    let r = s.remove(i);
    assert forall|a: int, b: int| 0 <= a < b < r.len() implies r[a] != r[b] by {
        let oa = if a < i { a } else { a + 1 };
        let ob = if b < i { b } else { b + 1 };
        assert(r[a] == s[oa] && r[b] == s[ob]);
    }
    assert forall|q: Position| r.contains(q) <==> s.contains(q) && q != s[i] by {
        if r.contains(q) {
            let a = choose|a: int| 0 <= a < r.len() && r[a] == q;
            let oa = if a < i { a } else { a + 1 };
            assert(s[oa] == q);
        }
        if s.contains(q) && q != s[i] {
            let a = choose|a: int| 0 <= a < s.len() && s[a] == q;
            if a < i {
                assert(r[a] == q);
            } else {
                assert(r[a - 1] == q);
            }
        }
    }
}

impl Board {
    /// A board with `mine_count` mines, each on a distinct cell drawn at
    /// random; nothing is open or flagged. Drawing among the cells still free
    /// gives each placement the same chance as drawing among all cells and
    /// retrying on a mine.
    pub fn new(width: usize, height: usize, mine_count: usize) -> (r: Self)
        requires
            width <= i32::MAX,
            height <= i32::MAX,
            width * height <= usize::MAX,
            mine_count <= width * height,
        ensures
            r@.width == width,
            r@.height == height,
            r@.mines.len() == mine_count,
            r.wf(),
            forall|q: Position| r@.mines.contains(q) ==> r@.on_board(q),
            r@.open == Set::<Position>::empty(),
            r@.flagged == Set::<Position>::empty(),
            !r@.game_over,
    {
        let mut free: Vec<Position> = Vec::new();
        let mut y: usize = 0;
        while y < height
            invariant
                y <= height,
                height <= i32::MAX,
                width <= i32::MAX,
                width * height <= usize::MAX,
                free@.len() == y * width,
                free@.no_duplicates(),
                forall|q: Position| #[trigger] free@.contains(q) ==> in_board(width as nat, height as nat, q) && q.1 < y,
            decreases height - y,
        {
            let mut x: usize = 0;
            assert(y * width + width <= width * height) by (nonlinear_arith)
                requires
                    y < height,
            ;
            while x < width
                invariant
                    x <= width,
                    y < height,
                    height <= i32::MAX,
                    width <= i32::MAX,
                    y * width + width <= width * height,
                    width * height <= usize::MAX,
                    free@.len() == y * width + x,
                    free@.no_duplicates(),
                    forall|q: Position| #[trigger] free@.contains(q) ==> in_board(width as nat, height as nat, q)
                        && (q.1 < y || (q.1 == y && q.0 < x)),
                decreases width - x,
            {
                let p: Position = (x as i32, y as i32);
                let ghost before = free@;
                free.push(p);
                proof {
                    assert forall|q: Position| #[trigger] free@.contains(q) implies in_board(width as nat, height as nat, q)
                        && (q.1 < y || (q.1 == y && q.0 < x + 1)) by {
                        if q != p {
                            let k = choose|k: int| 0 <= k < free@.len() && free@[k] == q;
                            assert(before[k] == q);
                            assert(before.contains(q));
                        } else {
                            assert(x as i32 == x && y as i32 == y);
                        }
                    }
                    assert forall|a: int, b: int| 0 <= a < b < free@.len() implies free@[a] != free@[b] by {
                        if b == before.len() {
                            assert(before.contains(before[a]));
                        }
                    }
                }
                x = x + 1;
            }
            assert((y + 1) * width == y * width + width) by (nonlinear_arith);
            y = y + 1;
        }
        assert(height * width == width * height) by (nonlinear_arith);
        let mut mines: Vec<Position> = Vec::new();
        let mut t: usize = 0;
        while t < mine_count
            invariant
                t <= mine_count,
                mine_count <= width * height,
                mines@.len() == t,
                free@.len() + t == width * height,
                free@.no_duplicates(),
                mines@.no_duplicates(),
                forall|q: Position| #[trigger] free@.contains(q) ==> in_board(width as nat, height as nat, q) && !mines@.contains(q),
                forall|q: Position| #[trigger] mines@.contains(q) ==> in_board(width as nat, height as nat, q),
            decreases mine_count - t,
        {
            let idx = random_below(free.len());
            let ghost before = free@;
            let ghost placed = mines@;
            let p = free.remove(idx);
            proof {
                lemma_remove_no_duplicates(before, idx as int);
            }
            mines.push(p);
            proof {
                assert(before.contains(p));
                assert forall|q: Position| #[trigger] mines@.contains(q) implies in_board(width as nat, height as nat, q) by {
                    if q != p {
                        let k = choose|k: int| 0 <= k < mines@.len() && mines@[k] == q;
                        assert(placed[k] == q);
                        assert(placed.contains(q));
                    }
                }
                assert forall|q: Position| #[trigger] free@.contains(q) implies in_board(width as nat, height as nat, q) && !mines@.contains(q) by {
                    assert(before.contains(q) && q != p);
                    if mines@.contains(q) {
                        let k = choose|k: int| 0 <= k < mines@.len() && mines@[k] == q;
                        assert(placed[k] == q);
                        assert(placed.contains(q));
                    }
                }
                assert forall|a: int, b: int| 0 <= a < b < mines@.len() implies mines@[a] != mines@[b] by {
                    if b == placed.len() {
                        assert(placed.contains(placed[a]));
                    }
                }
            }
            t = t + 1;
        }
        proof {
            mines@.unique_seq_to_set();
        }
        let r = Board {
            width,
            height,
            open_cells: Vec::new(),
            mines,
            flagged_cells: Vec::new(),
            game_over: false,
        };
        assert(r@.open =~= Set::<Position>::empty());
        assert(r@.flagged =~= Set::<Position>::empty());
        r
    }

    /// Whether `q` lies on this board.
    fn on_board(&self, q: Position) -> (r: bool)
        ensures
            r == self@.on_board(q),
    {
        q.0 >= 0 && q.1 >= 0 && (q.0 as usize) < self.width && (q.1 as usize) < self.height
    }

    /// The cells around `pos` that lie on the board, column by column.
    pub fn iter_neighbours(&self, pos: Position) -> (r: Vec<Position>)
        requires
            inner(pos),
        ensures
            r@ == self@.neighbours(pos),
    {
        let cands = around_vec(pos);
        let ghost keep = |q: Position| self@.on_board(q);
        let mut r: Vec<Position> = Vec::new();
        let mut i: usize = 0;
        while i < cands.len()
            invariant
                i <= cands@.len(),
                r@ == cands@.subrange(0, i as int).filter(keep),
                keep == (|q: Position| self@.on_board(q)),
            decreases cands.len() - i,
        {
            let q = cands[i];
            assert(cands@.subrange(0, i + 1) == cands@.subrange(0, i as int).push(q));
            proof {
                cands@.subrange(0, i as int).lemma_filter_push(q, keep);
            }
            if self.on_board(q) {
                r.push(q);
            }
            i = i + 1;
        }
        assert(cands@.subrange(0, cands@.len() as int) == cands@);
        r
    }

    /// The cells around `pos` on the board that are neither open nor flagged.
    pub fn iter_openable_neighbours(&self, pos: Position) -> (r: Vec<Position>)
        requires
            inner(pos),
        ensures
            r@ == self@.openable_neighbours(pos),
    {
        let cands = around_vec(pos);
        let ghost keep = |q: Position|
            self@.on_board(q) && !self@.open.contains(q) && !self@.flagged.contains(q);
        let mut r: Vec<Position> = Vec::new();
        let mut i: usize = 0;
        while i < cands.len()
            invariant
                i <= cands@.len(),
                r@ == cands@.subrange(0, i as int).filter(keep),
                keep == (|q: Position|
                    self@.on_board(q) && !self@.open.contains(q) && !self@.flagged.contains(q)),
            decreases cands.len() - i,
        {
            let q = cands[i];
            assert(cands@.subrange(0, i + 1) == cands@.subrange(0, i as int).push(q));
            proof {
                cands@.subrange(0, i as int).lemma_filter_push(q, keep);
            }
            if self.on_board(q) && !holds(&self.open_cells, q) && !holds(&self.flagged_cells, q) {
                r.push(q);
            }
            i = i + 1;
        }
        assert(cands@.subrange(0, cands@.len() as int) == cands@);
        r
    }

    /// How many cells around `pos` on the board hold a mine.
    pub fn neighbour_mines(&self, pos: Position) -> (r: u8)
        requires
            inner(pos),
        ensures
            r == self@.mines_around(pos),
            r <= 8,
    {
        let cands = around_vec(pos);
        let ghost keep = |q: Position| in_board(self@.width, self@.height, q) && self@.mines.contains(q);
        let mut n: u8 = 0;
        let mut i: usize = 0;
        while i < cands.len()
            invariant
                i <= cands@.len(),
                cands@.len() == 8,
                n == cands@.subrange(0, i as int).filter(keep).len(),
                n <= i,
                keep == (|q: Position| in_board(self@.width, self@.height, q) && self@.mines.contains(q)),
            decreases cands.len() - i,
        {
            let q = cands[i];
            assert(cands@.subrange(0, i + 1) == cands@.subrange(0, i as int).push(q));
            proof {
                cands@.subrange(0, i as int).lemma_filter_push(q, keep);
            }
            if self.on_board(q) && holds(&self.mines, q) {
                n = n + 1;
            }
            i = i + 1;
        }
        assert(cands@.subrange(0, cands@.len() as int) == cands@);
        n
    }

    /// A board with the given mines; nothing is open or flagged.
    pub fn with_mines(width: usize, height: usize, mine_list: Vec<Position>) -> (r: Self)
        ensures
            r@.width == width,
            r@.height == height,
            r@.mines == mine_list@.to_set(),
            r.wf(),
            r@.open == Set::<Position>::empty(),
            r@.flagged == Set::<Position>::empty(),
            !r@.game_over,
    {
        let mut mines: Vec<Position> = Vec::new();
        let mut i: usize = 0;
        while i < mine_list.len()
            invariant
                i <= mine_list@.len(),
                mines@.no_duplicates(),
                mines@.to_set() == mine_list@.subrange(0, i as int).to_set(),
            decreases mine_list.len() - i,
        {
            proof {
                assert(mine_list@.subrange(0, i + 1) == mine_list@.subrange(0, i as int).push(mine_list@[i as int]));
                lemma_push_to_set(mine_list@.subrange(0, i as int), mine_list@[i as int]);
            }
            insert_pos(&mut mines, mine_list[i]);
            i = i + 1;
        }
        assert(mine_list@.subrange(0, mine_list@.len() as int) == mine_list@);
        let r = Board {
            width,
            height,
            open_cells: Vec::new(),
            mines,
            flagged_cells: Vec::new(),
            game_over: false,
        };
        assert(r@.open =~= Set::<Position>::empty());
        assert(r@.flagged =~= Set::<Position>::empty());
        r
    }

    /// How many mines the board holds.
    pub fn mine_count(&self) -> (r: usize)
        requires
            self.wf(),
        ensures
            r == self@.mines.len(),
    {
        proof {
            self.mines@.unique_seq_to_set();
        }
        self.mines.len()
    }

    /// Puts a flag on `pos`, or takes it off a closed cell; nothing once the
    /// game is over.
    pub fn flag(&mut self, pos: Position)
        ensures
            old(self).wf() ==> final(self).wf(),
            final(self)@ == (BoardView {
                flagged: if old(self)@.game_over {
                    old(self)@.flagged
                } else if old(self)@.flagged.contains(pos) && !old(self)@.open.contains(pos) {
                    old(self)@.flagged.remove(pos)
                } else {
                    old(self)@.flagged.insert(pos)
                },
                ..old(self)@
            }),
    {
        if !self.game_over {
            let is_flagged = holds(&self.flagged_cells, pos);
            let is_open = holds(&self.open_cells, pos);
            if is_flagged && !is_open {
                remove_pos(&mut self.flagged_cells, pos);
            } else {
                insert_pos(&mut self.flagged_cells, pos);
            }
        }
    }

    /// Opens `pos` alone and reports what it holds; a flagged cell, or any
    /// cell once the game is over, stays as it is.
    pub fn open_one(&mut self, pos: Position) -> (r: OpenResult)
        requires
            inner(pos),
        ensures
            old(self).wf() ==> final(self).wf(),
            r == old(self)@.open_result(pos),
            final(self)@ == if old(self)@.refuses(pos) {
                old(self)@
            } else {
                old(self)@.with_open(pos)
            },
    {
        if self.game_over || holds(&self.flagged_cells, pos) {
            return OpenResult::Untouched;
        }
        insert_pos(&mut self.open_cells, pos);
        if holds(&self.mines, pos) {
            OpenResult::Mine
        } else {
            let mines_close = self.neighbour_mines(pos);
            OpenResult::NoMine(mines_close)
        }
    }

    /// Opens `pos` and reports what it holds, as `open_one` does; from a cell
    /// with no mine around it, every unflagged neighbour on the board is
    /// opened in turn, and so on from each of those.
    pub fn open(&mut self, pos: Position) -> (r: OpenResult)
        requires
            inner(pos),
            old(self)@.width <= i32::MAX,
            old(self)@.height <= i32::MAX,
        ensures
            old(self).wf() ==> final(self).wf(),
            r == old(self)@.open_result(pos),
            old(self)@.refuses(pos) ==> final(self)@ == old(self)@,
            !old(self)@.refuses(pos) ==> {
                &&& final(self)@ == (BoardView { open: final(self)@.open, ..old(self)@ })
                &&& old(self)@.open.insert(pos).subset_of(final(self)@.open)
                &&& final(self)@.opened_safely_since(old(self)@.with_open(pos))
                &&& final(self)@.flooded_since(old(self)@.with_open(pos))
                &&& !final(self)@.mines.contains(pos) && final(self)@.mines_around(pos) == 0
                    ==> final(self)@.expanded(pos)
            },
        decreases
            2 * old(self)@.closed_count() + if old(self)@.on_board(pos) && !old(self)@.open.contains(
                pos,
            ) {
                0nat
            } else {
                1nat
            },
    {
        let ghost v0 = self@;
        if self.game_over || holds(&self.flagged_cells, pos) {
            return OpenResult::Untouched;
        }
        insert_pos(&mut self.open_cells, pos);
        let ghost v1 = self@;
        assert(v1 == v0.with_open(pos));
        if holds(&self.mines, pos) {
            return OpenResult::Mine;
        }
        let mines_close = self.neighbour_mines(pos);
        if mines_close == 0 {
            let neigh = self.iter_openable_neighbours(pos);
            proof {
                lemma_board_shrinks(v0.open, v1.open, v0.width as int, v0.height as int, pos);
            }
            let mut k: usize = 0;
            while k < neigh.len()
                invariant
                    k <= neigh@.len(),
                    neigh@ == v1.openable_neighbours(pos),
                    v1 == v0.with_open(pos),
                    v0 == old(self)@,
                    old(self).wf() ==> self.wf(),
                    !v0.refuses(pos),
                    !v1.mines.contains(pos),
                    v1.mines_around(pos) == 0,
                    v0.width <= i32::MAX,
                    v0.height <= i32::MAX,
                    inner(pos),
                    self@ == (BoardView { open: self@.open, ..v1 }),
                    v1.open.subset_of(self@.open),
                    self@.opened_safely_since(v1),
                    self@.flooded_since(v1),
                    forall|j: int| 0 <= j < k ==> self@.open.contains(#[trigger] neigh@[j]),
                    self@.closed_count() < v0.closed_count() || (self@.closed_count()
                        == v0.closed_count() && !(v0.on_board(pos) && !v0.open.contains(pos))),
                decreases neigh.len() - k,
            {
                let n = neigh[k];
                let ghost pred = |q: Position|
                    v1.on_board(q) && !v1.open.contains(q) && !v1.flagged.contains(q);
                proof {
                    around(pos).lemma_filter_pred(pred, k as int);
                    assert(neigh@.contains(n));
                    around(pos).lemma_filter_contains_rev(pred, n);
                }
                // A neighbour that an earlier branch of the flood opened was
                // flooded from there already.
                if !holds(&self.open_cells, n) {
                    let ghost s0 = self@;
                    proof {
                        let i = choose|i: int| 0 <= i < 8 && around(pos)[i] == n;
                        let mpred = |q: Position| in_board(v1.width, v1.height, q) && v1.mines.contains(q);
                        if v1.mines.contains(n) {
                            around(pos).lemma_filter_contains(mpred, i);
                        }
                    }
                    self.open(n);
                    proof {
                        lemma_board_shrinks(s0.open, self@.open, v0.width as int, v0.height as int, n);
                        assert forall|q: Position| #[trigger] self@.open.contains(q) && !v1.open.contains(q)
                            && self@.mines_around(q) == 0 implies self@.expanded(q) by {
                            if s0.open.contains(q) {
                                assert(s0.expanded(q));
                            }
                        }
                    }
                }
                k = k + 1;
            }
            proof {
                assert forall|m: Position|
                    around(pos).contains(m) && self@.on_board(m) && !self@.flagged.contains(m)
                        implies self@.open.contains(m) by {
                    if !v1.open.contains(m) {
                        let pred = |q: Position|
                            v1.on_board(q) && !v1.open.contains(q) && !v1.flagged.contains(q);
                        let i = choose|i: int| 0 <= i < 8 && around(pos)[i] == m;
                        around(pos).lemma_filter_contains(pred, i);
                        let j = choose|j: int| 0 <= j < neigh@.len() && neigh@[j] == m;
                    }
                }
            }
        }
        OpenResult::NoMine(mines_close)
    }

    /// The board drawn row by row, one line per row.
    pub fn render(&self) -> (r: String)
        requires
            self@.width <= i32::MAX,
            self@.height <= i32::MAX,
        ensures
            r@ == self@.board_text(self@.height),
    {
        let mut out: Vec<char> = Vec::new();
        let mut j: usize = 0;
        while j < self.height
            invariant
                j <= self@.height,
                self@.width <= i32::MAX,
                self@.height <= i32::MAX,
                out@ == self@.board_text(j as nat),
            decreases self.height - j,
        {
            let mut i: usize = 0;
            while i < self.width
                invariant
                    i <= self@.width,
                    j < self@.height,
                    self@.width <= i32::MAX,
                    self@.height <= i32::MAX,
                    out@ == self@.board_text(j as nat) + self@.row_text(j as int, i as nat),
                decreases self.width - i,
            {
                let pos: Position = (i as i32, j as i32);
                let ghost before = out@;
                if holds(&self.open_cells, pos) {
                    let n = self.neighbour_mines(pos);
                    out.push(' ');
                    out.push(digit(n));
                    out.push(' ');
                } else if holds(&self.flagged_cells, pos) {
                    out.push('\u{1f6a9}');
                    out.push(' ');
                } else if holds(&self.mines, pos) {
                    out.push('\u{1f4a5}');
                    out.push(' ');
                } else {
                    out.push('\u{1f7e7}');
                    out.push(' ');
                }
                assert(out@ =~= before + self@.cell_text(pos));
                assert(self@.board_text(j as nat) + self@.row_text(j as int, (i + 1) as nat) =~= before
                    + self@.cell_text(pos));
                i = i + 1;
            }
            out.push('\n');
            j = j + 1;
        }
        string_of(out)
    }
}

/// A new 10 by 10 board with 5 mines at random, drawn.
pub fn get_state() -> (r: String)
    ensures
        exists|b: BoardView|
            b.width == 10 && b.height == 10 && b.mines.len() == 5 && b.open.is_empty()
                && b.flagged.is_empty() && #[trigger] b.board_text(10) == r@,
{
    let ms = Board::new(10, 10, 5);
    let r = ms.render();
    assert(ms@.board_text(10) == r@);
    r
}

} // verus!
