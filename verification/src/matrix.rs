//! The board: a fixed 10x20 row-major store of optional colored cells, with
//! collision and placement tests, full-line detection, and line compaction.

use vstd::prelude::*;
use crate::geometry::{Coordinate, GridIncrement, HEIGHT, SIZE, WIDTH};
use crate::piece::{piece_cell, piece_in_bounds, pos_ok, Color, Piece};

verus! {

/// The board. A populated cell is a locked block of that color; row 0 is the
/// bottom row. The store always holds exactly `WIDTH * HEIGHT` cells.
pub struct Matrix {
    pub cells: Vec<Option<Color>>,
}

impl Matrix {
    /// Invariant: the store never changes size.
    pub open spec fn wf(self) -> bool {
        self.cells@.len() == SIZE
    }

    /// The cell at column `x` of row `y`.
    pub open spec fn at(self, x: int, y: int) -> Option<Color> {
        self.cells@[y * (WIDTH as int) + x]
    }

    /// The coordinate lies within the board's horizontal range.
    pub open spec fn spec_valid_coord(coord: Coordinate) -> bool {
        coord.x < WIDTH
    }

    /// The coordinate lies on the board on both axes.
    pub open spec fn spec_on_matrix(coord: Coordinate) -> bool {
        coord.x < WIDTH && coord.y < HEIGHT
    }

    pub fn valid_coord(coord: Coordinate) -> (r: bool)
        ensures
            r == Matrix::spec_valid_coord(coord),
    {
        coord.x < WIDTH
    }

    pub fn on_matrix(coord: Coordinate) -> (r: bool)
        ensures
            r == Matrix::spec_on_matrix(coord),
    {
        coord.x < WIDTH && coord.y < HEIGHT
    }

    /// A board with every cell vacant.
    pub fn blank() -> (r: Matrix)
        ensures
            r.wf(),
            forall|x: int, y: int| 0 <= x < WIDTH && 0 <= y < HEIGHT ==> r.at(x, y) is None,
    {
        let mut cells: Vec<Option<Color>> = Vec::new();
        let mut i: usize = 0;
        while i < SIZE
            invariant
                i <= SIZE,
                cells@.len() == i,
                forall|j: int| 0 <= j < i ==> cells@[j] is None,
            decreases SIZE - i,
        {
            cells.push(None);
            i += 1;
        }
        Matrix { cells }
    }

    /// Reads one cell. Coordinates reaching this layer are pre-validated by
    /// the caller.
    pub fn get(&self, coord: Coordinate) -> (r: Option<Color>)
        requires
            self.wf(),
            Matrix::spec_on_matrix(coord),
        ensures
            r == self.at(coord.x as int, coord.y as int),
    {
        self.cells[coord.y * WIDTH + coord.x]
    }

    /// Writes one cell, leaving every other cell unchanged.
    pub fn set(&mut self, coord: Coordinate, cell: Option<Color>)
        requires
            old(self).wf(),
            Matrix::spec_on_matrix(coord),
        ensures
            final(self).wf(),
            final(self).at(coord.x as int, coord.y as int) == cell,
            forall|x: int, y: int|
                0 <= x < WIDTH && 0 <= y < HEIGHT && !(x == coord.x && y == coord.y)
                    ==> final(self).at(x, y) == old(self).at(x, y),
    {
        let idx = coord.y * WIDTH + coord.x;
        self.cells.set(idx, cell);
    }

    /// The piece's position is geometrically illegal: some cell is off the
    /// board's horizontal range or below it, or some cell within the board's
    /// vertical range is already occupied. Cells above the board over vacant
    /// columns do not clip.
    pub open spec fn spec_is_clipping(self, p: Piece) -> bool {
        !piece_in_bounds(p) || exists|i: int|
            0 <= i < 4 && {
                let c = #[trigger] piece_cell(p, i);
                c.1 < HEIGHT && self.at(c.0, c.1) is Some
            }
    }

    /// Every cell of the piece lies on the board on both axes and is vacant;
    /// the test a lock must pass.
    pub open spec fn spec_is_placeable(self, p: Piece) -> bool {
        piece_in_bounds(p) && forall|i: int|
            0 <= i < 4 ==> {
                let c = #[trigger] piece_cell(p, i);
                c.1 < HEIGHT && self.at(c.0, c.1) is None
            }
    }

    pub fn is_clipping(&self, piece: &Piece) -> (r: bool)
        requires
            self.wf(),
            pos_ok(piece.position),
        ensures
            r == self.spec_is_clipping(*piece),
    {
        let cells = match piece.cells() {
            Some(cells) => cells,
            None => {
                return true;
            },
        };
        let mut i: usize = 0;
        while i < 4
            invariant
                self.wf(),
                piece_in_bounds(*piece),
                cells@.len() == 4,
                forall|j: int| 0 <= j < 4 ==> {
                    let c = #[trigger] cells@[j];
                    (c.x as int, c.y as int) == piece_cell(*piece, j)
                },
                i <= 4,
                forall|j: int| 0 <= j < i ==> !{
                    let c = #[trigger] piece_cell(*piece, j);
                    c.1 < HEIGHT && self.at(c.0, c.1) is Some
                },
            decreases 4 - i,
        {
            let c = cells[i];
            if c.y < HEIGHT {
                if self.get(c).is_some() {
                    return true;
                }
            }
            i += 1;
        }
        false
    }

    pub fn is_placeable(&self, piece: &Piece) -> (r: bool)
        requires
            self.wf(),
            pos_ok(piece.position),
        ensures
            r == self.spec_is_placeable(*piece),
    {
        let cells = match piece.cells() {
            Some(cells) => cells,
            None => {
                return false;
            },
        };
        let mut i: usize = 0;
        while i < 4
            invariant
                self.wf(),
                piece_in_bounds(*piece),
                cells@.len() == 4,
                forall|j: int| 0 <= j < 4 ==> {
                    let c = #[trigger] cells@[j];
                    (c.x as int, c.y as int) == piece_cell(*piece, j)
                },
                i <= 4,
                forall|j: int| 0 <= j < i ==> {
                    let c = #[trigger] piece_cell(*piece, j);
                    c.1 < HEIGHT && self.at(c.0, c.1) is None
                },
            decreases 4 - i,
        {
            let c = cells[i];
            if c.y >= HEIGHT {
                proof {
                    assert(piece_cell(*piece, i as int).1 >= HEIGHT);
                }
                return false;
            }
            if self.get(c).is_some() {
                proof {
                    assert(piece_cell(*piece, i as int).1 < HEIGHT);
                }
                return false;
            }
            i += 1;
        }
        true
    }
    /// The row `y` is completely occupied.
    pub open spec fn line_is_full(self, y: int) -> bool {
        forall|x: int| 0 <= x < WIDTH ==> self.at(x, y) is Some
    }

    fn line_full(&self, y: usize) -> (r: bool)
        requires
            self.wf(),
            y < HEIGHT,
        ensures
            r == self.line_is_full(y as int),
    {
        let mut x: usize = 0;
        while x < WIDTH
            invariant
                self.wf(),
                y < HEIGHT,
                x <= WIDTH,
                forall|x0: int| 0 <= x0 < x ==> self.at(x0, y as int) is Some,
            decreases WIDTH - x,
        {
            if self.get(Coordinate { x, y }).is_none() {
                return false;
            }
            x += 1;
        }
        true
    }

    /// The indices of all full rows, in ascending order.
    pub fn full_lines(&self) -> (r: Vec<usize>)
        requires
            self.wf(),
        ensures
            forall|j: int| 0 <= j < r@.len()
                ==> (#[trigger] r@[j]) < HEIGHT && self.line_is_full(r@[j] as int),
            forall|y: int| 0 <= y < HEIGHT && self.line_is_full(y) ==> r@.contains(y as usize),
            forall|i: int, j: int| 0 <= i < j < r@.len() ==> r@[i] < r@[j],
    {
        let mut r: Vec<usize> = Vec::new();
        let mut y: usize = 0;
        while y < HEIGHT
            invariant
                self.wf(),
                y <= HEIGHT,
                forall|j: int| 0 <= j < r@.len()
                    ==> (#[trigger] r@[j]) < y && self.line_is_full(r@[j] as int),
                forall|y0: int| 0 <= y0 < y && self.line_is_full(y0) ==> r@.contains(y0 as usize),
                forall|i: int, j: int| 0 <= i < j < r@.len() ==> r@[i] < r@[j],
            decreases HEIGHT - y,
        {
            let full = self.line_full(y);
            proof {
                let ghost prev = r@;
                if full {
                    assert forall|y0: int| 0 <= y0 < y + 1 && self.line_is_full(y0)
                        implies prev.push(y as usize).contains(y0 as usize) by {
                        if y0 == y {
                            assert(prev.push(y as usize)[prev.len() as int] == y0 as usize);
                        } else {
                            let k = choose|k: int| 0 <= k < prev.len() && prev[k] == y0 as usize;
                            assert(prev.push(y as usize)[k] == y0 as usize);
                        }
                    }
                }
            }
            if full {
                r.push(y);
            }
            y += 1;
        }
        r
    }

    /// Removes the given rows, ascending row indices expected: every
    /// surviving row slides down past the cleared rows below it, and the
    /// rows at the top left vacant by the shift become empty.
    pub fn clear_lines(&mut self, indices: &Vec<usize>)
        requires
            old(self).wf(),
            forall|i: int, j: int| 0 <= i < j < indices@.len() ==> indices@[i] < indices@[j],
            forall|i: int| 0 <= i < indices@.len() ==> (#[trigger] indices@[i]) < HEIGHT,
        ensures
            final(self).wf(),
            forall|x: int, y: int|
                0 <= x < WIDTH && 0 <= y < HEIGHT && !indices@.contains(y as usize)
                    ==> final(self).at(x, kept_below(indices@, y)) == #[trigger] old(self).at(x, y),
            forall|x: int, y: int|
                0 <= x < WIDTH && kept_below(indices@, HEIGHT as int) <= y < HEIGHT
                    ==> #[trigger] final(self).at(x, y) is None,
    {
        let mut next: Vec<Option<Color>> = Vec::new();
        let mut y: usize = 0;
        while y < HEIGHT
            invariant
                self.wf(),
                y <= HEIGHT,
                next@.len() == (WIDTH as int) * kept_below(indices@, y as int),
                forall|y0: int|
                    0 <= y0 < y && !indices@.contains(y0 as usize)
                        ==> 0 <= #[trigger] kept_below(indices@, y0)
                            && kept_below(indices@, y0) + 1 <= kept_below(indices@, y as int),
                forall|x: int, y0: int|
                    0 <= x < WIDTH && 0 <= y0 < y && !indices@.contains(y0 as usize)
                        ==> next@[kept_below(indices@, y0) * (WIDTH as int) + x]
                            == #[trigger] self.at(x, y0),
            decreases HEIGHT - y,
        {
            if !contains_row(indices, y) {
                let mut x: usize = 0;
                while x < WIDTH
                    invariant
                        self.wf(),
                        y < HEIGHT,
                        !indices@.contains(y),
                        x <= WIDTH,
                        next@.len() == (WIDTH as int) * kept_below(indices@, y as int) + x,
                        forall|y0: int|
                            0 <= y0 < y && !indices@.contains(y0 as usize)
                                ==> 0 <= #[trigger] kept_below(indices@, y0)
                                    && kept_below(indices@, y0) + 1 <= kept_below(indices@, y as int),
                        forall|x0: int, y0: int|
                            0 <= x0 < WIDTH && 0 <= y0 < y && !indices@.contains(y0 as usize)
                                ==> next@[kept_below(indices@, y0) * (WIDTH as int) + x0]
                                    == #[trigger] self.at(x0, y0),
                        forall|x0: int| 0 <= x0 < x
                            ==> next@[(WIDTH as int) * kept_below(indices@, y as int) + x0]
                                == self.at(x0, y as int),
                    decreases WIDTH - x,
                {
                    proof {
                        lemma_kept_below_bounds(indices@, y as int);
                    }
                    let ghost prev = next@;
                    next.push(self.cells[y * WIDTH + x]);
                    proof {
                        assert forall|x0: int, y0: int|
                            0 <= x0 < WIDTH && 0 <= y0 < y && !indices@.contains(y0 as usize)
                                implies next@[kept_below(indices@, y0) * (WIDTH as int) + x0]
                                    == self.at(x0, y0) by {
                            assert(kept_below(indices@, y0) * (WIDTH as int) + x0 < prev.len());
                            assert(next@[kept_below(indices@, y0) * (WIDTH as int) + x0]
                                == prev[kept_below(indices@, y0) * (WIDTH as int) + x0]);
                        }
                        assert forall|x0: int| 0 <= x0 < x + 1
                            implies next@[(WIDTH as int) * kept_below(indices@, y as int) + x0]
                                == self.at(x0, y as int) by {
                            if x0 < x {
                                assert(next@[(WIDTH as int) * kept_below(indices@, y as int) + x0]
                                    == prev[(WIDTH as int) * kept_below(indices@, y as int) + x0]);
                            } else {
                                assert(next@[(WIDTH as int) * kept_below(indices@, y as int) + x0]
                                    == self.cells@[(y * WIDTH + x) as int]);
                            }
                        }
                    }
                    x += 1;
                }
                proof {
                    assert(kept_below(indices@, y as int + 1)
                        == kept_below(indices@, y as int) + 1);
                    assert forall|y0: int|
                        0 <= y0 < y + 1 && !indices@.contains(y0 as usize)
                            implies 0 <= #[trigger] kept_below(indices@, y0)
                                && kept_below(indices@, y0) + 1
                                    <= kept_below(indices@, y as int + 1) by {
                        if y0 == y {
                            lemma_kept_below_bounds(indices@, y0);
                        }
                    }
                    assert forall|x0: int, y0: int|
                        0 <= x0 < WIDTH && 0 <= y0 < y + 1 && !indices@.contains(y0 as usize)
                            implies next@[kept_below(indices@, y0) * (WIDTH as int) + x0]
                                == self.at(x0, y0) by {
                        if y0 == y {
                            assert(kept_below(indices@, y0) * (WIDTH as int) + x0
                                == (WIDTH as int) * kept_below(indices@, y as int) + x0);
                        }
                    }
                }
            } else {
                proof {
                    assert(kept_below(indices@, y as int + 1)
                        == kept_below(indices@, y as int));
                }
            }
            y += 1;
        }
        proof {
            lemma_kept_below_bounds(indices@, HEIGHT as int);
            assert forall|y0: int| 0 <= y0 < HEIGHT && !indices@.contains(y0 as usize)
                implies 0 <= #[trigger] kept_below(indices@, y0)
                    && kept_below(indices@, y0) < kept_below(indices@, HEIGHT as int) by {
                lemma_kept_below_bounds(indices@, y0);
                assert(kept_below(indices@, y0 + 1) == kept_below(indices@, y0) + 1);
                lemma_kept_below_monotonic(indices@, y0 + 1, HEIGHT as int);
            }
        }
        while next.len() < SIZE
            invariant
                self.wf(),
                0 <= kept_below(indices@, HEIGHT as int) <= HEIGHT,
                (WIDTH as int) * kept_below(indices@, HEIGHT as int) <= next@.len() <= SIZE,
                forall|y0: int|
                    0 <= y0 < HEIGHT && !indices@.contains(y0 as usize)
                        ==> 0 <= #[trigger] kept_below(indices@, y0)
                            && kept_below(indices@, y0) < kept_below(indices@, HEIGHT as int),
                forall|x: int, y0: int|
                    0 <= x < WIDTH && 0 <= y0 < HEIGHT && !indices@.contains(y0 as usize)
                        ==> next@[kept_below(indices@, y0) * (WIDTH as int) + x]
                            == #[trigger] self.at(x, y0),
                forall|i: int|
                    (WIDTH as int) * kept_below(indices@, HEIGHT as int) <= i < next@.len()
                        ==> next@[i] is None,
            decreases SIZE - next@.len(),
        {
            let ghost prev = next@;
            next.push(None);
            proof {
                assert forall|x: int, y0: int|
                    0 <= x < WIDTH && 0 <= y0 < HEIGHT && !indices@.contains(y0 as usize)
                        implies next@[kept_below(indices@, y0) * (WIDTH as int) + x]
                            == self.at(x, y0) by {
                    assert(kept_below(indices@, y0) * (WIDTH as int) + x < prev.len());
                    assert(next@[kept_below(indices@, y0) * (WIDTH as int) + x]
                        == prev[kept_below(indices@, y0) * (WIDTH as int) + x]);
                }
                assert forall|i: int|
                    (WIDTH as int) * kept_below(indices@, HEIGHT as int) <= i < next@.len()
                        implies next@[i] is None by {
                    if i < prev.len() {
                        assert(next@[i] == prev[i]);
                    }
                }
            }
        }
        self.cells = next;
    }
}

/// The number of rows strictly below `y` that survive a clear of the rows
/// listed in `indices`; equally, how far the original row `y` slides down.
pub open spec fn kept_below(indices: Seq<usize>, y: int) -> int
    decreases y,
{
    if y <= 0 {
        0
    } else {
        kept_below(indices, y - 1) + if indices.contains((y - 1) as usize) {
            0int
        } else {
            1int
        }
    }
}

pub proof fn lemma_kept_below_bounds(indices: Seq<usize>, y: int)
    requires
        0 <= y,
    ensures
        0 <= kept_below(indices, y) <= y,
    decreases y,
{
    if y > 0 {
        lemma_kept_below_bounds(indices, y - 1);
    }
}

pub proof fn lemma_kept_below_monotonic(indices: Seq<usize>, y1: int, y2: int)
    requires
        0 <= y1 <= y2,
    ensures
        kept_below(indices, y1) <= kept_below(indices, y2),
    decreases y2,
{
    if y1 < y2 {
        lemma_kept_below_monotonic(indices, y1, y2 - 1);
    }
}

/// Law: compaction keeps the relative vertical order of surviving rows — a
/// surviving row below another surviving row lands strictly below it.
pub proof fn lemma_cleared_rows_keep_order(indices: Seq<usize>, y1: int, y2: int)
    requires
        0 <= y1 < y2,
        !indices.contains(y1 as usize),
    ensures
        kept_below(indices, y1) < kept_below(indices, y2),
{
    assert(kept_below(indices, y1 + 1) == kept_below(indices, y1) + 1);
    lemma_kept_below_monotonic(indices, y1 + 1, y2);
}

fn contains_row(indices: &Vec<usize>, y: usize) -> (r: bool)
    ensures
        r == indices@.contains(y),
{
    let mut i: usize = 0;
    while i < indices.len()
        invariant
            i <= indices@.len(),
            forall|j: int| 0 <= j < i ==> indices@[j] != y,
        decreases indices@.len() - i,
    {
        if indices[i] == y {
            return true;
        }
        i += 1;
    }
    false
}

/// Walks a board's cells in row-major scan order, yielding each coordinate
/// together with its contents.
pub struct CellIter<'a> {
    pub position: Coordinate,
    pub index: usize,
    pub cells: &'a Vec<Option<Color>>,
}

impl<'a> CellIter<'a> {
    /// The running coordinate always mirrors the running index.
    pub open spec fn wf(self) -> bool {
        &&& self.cells@.len() == SIZE
        &&& self.index <= SIZE
        &&& self.position.x == self.index as int % (WIDTH as int)
        &&& self.position.y == self.index as int / (WIDTH as int)
    }

    pub fn new(matrix: &'a Matrix) -> (r: CellIter<'a>)
        requires
            matrix.wf(),
        ensures
            r.wf(),
            r.index == 0,
            r.cells@ == matrix.cells@,
    {
        CellIter { position: Coordinate { x: 0, y: 0 }, index: 0, cells: &matrix.cells }
    }

    /// The next (coordinate, contents) pair in scan order, or `None` once the
    /// whole board has been walked.
    pub fn next(&mut self) -> (r: Option<(Coordinate, Option<Color>)>)
        requires
            old(self).wf(),
        ensures
            final(self).wf(),
            final(self).cells@ == old(self).cells@,
            old(self).index < SIZE ==> {
                &&& r == Some((old(self).position, old(self).cells@[old(self).index as int]))
                &&& final(self).index == old(self).index + 1
            },
            old(self).index >= SIZE ==> r is None && final(self).index == old(self).index,
    {
        if self.index < SIZE {
            let cell = self.cells[self.index];
            let coord = self.position;
            self.index += 1;
            self.position.grid_inc();
            Some((coord, cell))
        } else {
            None
        }
    }
}

/// Law: a piece whose cells all sit at or above the board's top row never
/// clips, whatever the board holds below.
pub proof fn lemma_above_board_not_clipping(m: Matrix, p: Piece)
    requires
        piece_in_bounds(p),
        forall|i: int| 0 <= i < 4 ==> (#[trigger] piece_cell(p, i)).1 >= HEIGHT,
    ensures
        !m.spec_is_clipping(p),
{
}

/// Law: a piece with a cell on an occupied board cell clips.
pub proof fn lemma_overlap_clips(m: Matrix, p: Piece, i: int)
    requires
        0 <= i < 4,
        piece_cell(p, i).1 < HEIGHT,
        m.at(piece_cell(p, i).0, piece_cell(p, i).1) is Some,
    ensures
        m.spec_is_clipping(p),
{
}

} // verus!
