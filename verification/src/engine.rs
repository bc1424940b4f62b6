//! The game-state engine: one board, one shuffled bag of upcoming kinds, at
//! most one falling piece (the cursor), and the movement, gravity, locking,
//! and line-clearing rules.

use vstd::prelude::*;
use crate::geometry::{Coordinate, Offset, HEIGHT, WIDTH};
use crate::matrix::{kept_below, CellIter, Matrix};
use crate::piece::{
    all_kinds_seq, cell_in_range, kind_cell, lemma_in_bounds_position, lemma_kind_cells_in_grid,
    piece_cell, piece_in_bounds, pos_ok, spec_color, spec_rotate, Color, Kind, Piece, Rotation,
};
use crate::rng::{fresh_rng, shuffle_kinds};

verus! {

/// Spawn column of a fresh piece's anchor grid.
pub const SPAWN_X: isize = 4;

/// Spawn row of a fresh piece's anchor grid: the piece starts at the board's
/// top edge, partly above the visible rows.
pub const SPAWN_Y: isize = 18;

/// The fixed position every fresh piece spawns at, rotation north.
pub open spec fn spawn_position() -> Offset {
    Offset { x: SPAWN_X, y: SPAWN_Y }
}

/// A requested horizontal move of the cursor.
#[derive(Clone, Copy, PartialEq, Eq, Structural, Debug)]
pub enum MoveKind {
    Left,
    Right,
}

impl MoveKind {
    /// The horizontal delta of the move.
    pub open spec fn spec_dx(self) -> int {
        match self {
            MoveKind::Left => -1,
            MoveKind::Right => 1,
        }
    }

    fn offset(&self) -> (r: Offset)
        ensures
            r.x as int == self.spec_dx(),
            r.y == 0,
    {
        match self {
            MoveKind::Left => Offset { x: -1, y: 0 },
            MoveKind::Right => Offset { x: 1, y: 0 },
        }
    }
}

/// Cursor positions the engine maintains: far enough from the integer limits
/// that a one-step move still satisfies every geometric precondition.
pub open spec fn cursor_pos_ok(o: Offset) -> bool {
    &&& isize::MIN + 16 <= o.x <= isize::MAX - 16
    &&& isize::MIN + 16 <= o.y <= isize::MAX - 16
}

/// The piece one gravity step below `p`.
pub open spec fn ticked(p: Piece) -> Piece {
    Piece { position: Offset { x: p.position.x, y: (p.position.y - 1) as isize }, ..p }
}

/// The piece `p` moved horizontally by `dx`.
pub open spec fn moved(p: Piece, dx: int) -> Piece {
    Piece { position: Offset { x: (p.position.x + dx) as isize, y: p.position.y }, ..p }
}

/// Where the piece comes to rest when dropped straight down on `m`: the
/// lowest position reached by legal one-step descents.
pub open spec fn spec_drop(m: Matrix, p: Piece) -> Piece
    decreases (if p.position.y < -4 { 0int } else { p.position.y + 5 }),
{
    if p.position.y < -4 || m.spec_is_clipping(ticked(p)) {
        p
    } else {
        spec_drop(m, ticked(p))
    }
}

/// The piece has a cell on column `x`, row `y`.
pub open spec fn piece_covers(p: Piece, x: int, y: int) -> bool {
    exists|i: int| 0 <= i < 4 && piece_cell(p, i) == (x, y)
}

/// The engine. The cursor is `None` between pieces, `Some` while one falls.
pub struct Engine {
    pub matrix: Matrix,
    pub bag: Vec<Kind>,
    pub rng: rand::rngs::ThreadRng,
    pub cursor: Option<Piece>,
    pub level: u8,
}

impl Engine {
    /// Invariant: the board keeps its size, the bag never holds a kind twice
    /// nor more than one full set, and a present cursor is geometrically
    /// valid and far from the integer limits.
    pub open spec fn wf(self) -> bool {
        &&& self.matrix.wf()
        &&& self.bag@.len() <= 7
        &&& self.bag@.no_duplicates()
        &&& match self.cursor {
            Some(p) => cursor_pos_ok(p.position) && piece_in_bounds(p),
            None => true,
        }
    }

    /// A fresh engine over a blank board, an empty bag, and no cursor.
    pub fn new() -> (r: Engine)
        ensures
            r.wf(),
            forall|x: int, y: int| 0 <= x < WIDTH && 0 <= y < HEIGHT ==> r.matrix.at(x, y) is None,
            r.bag@.len() == 0,
            r.cursor is None,
            r.level == 1,
    {
        Engine {
            matrix: Matrix::blank(),
            bag: Vec::new(),
            rng: fresh_rng(),
            cursor: None,
            level: 1,
        }
    }

    /// A fresh engine over a supplied board.
    pub fn with_matrix(matrix: Matrix) -> (r: Engine)
        requires
            matrix.wf(),
        ensures
            r.wf(),
            r.matrix == matrix,
            r.bag@.len() == 0,
            r.cursor is None,
            r.level == 1,
    {
        Engine { matrix, bag: Vec::new(), rng: fresh_rng(), cursor: None, level: 1 }
    }

    /// The current level, which drives the host's drop-speed curve.
    pub fn level(&self) -> (r: u8)
        ensures
            r == self.level,
    {
        self.level
    }

    /// Refills an empty bag with one full set of the seven kinds in random
    /// order.
    fn refill_bag(&mut self)
        requires
            old(self).wf(),
            old(self).bag@.len() == 0,
        ensures
            final(self).wf(),
            final(self).bag@.len() == 7,
            final(self).bag@.to_multiset() == all_kinds_seq().to_multiset(),
            final(self).matrix == old(self).matrix,
            final(self).cursor == old(self).cursor,
            final(self).level == old(self).level,
    {
        let mut kinds = Kind::all();
        shuffle_kinds(&mut kinds, &mut self.rng);
        self.bag = kinds;
        proof {
            lemma_all_kinds_distinct();
            all_kinds_seq().lemma_multiset_has_no_duplicates();
            self.bag@.lemma_multiset_has_no_duplicates_conv();
        }
    }

    /// Spawns the next piece: draws a kind from the bag, refilling the bag
    /// with a full shuffled set first when it is empty, and places the cursor
    /// at the fixed spawn position, rotation north.
    pub fn spawn(&mut self)
        requires
            old(self).wf(),
            old(self).cursor is None,
        ensures
            final(self).wf(),
            final(self).cursor is Some,
            final(self).cursor.unwrap().position == spawn_position(),
            final(self).cursor.unwrap().rotation == Rotation::N,
            final(self).matrix == old(self).matrix,
            final(self).level == old(self).level,
            old(self).bag@.len() > 0 ==> {
                &&& final(self).bag@ == old(self).bag@.drop_last()
                &&& final(self).cursor.unwrap().kind == old(self).bag@.last()
                &&& final(self).rng == old(self).rng
            },
            old(self).bag@.len() == 0 ==> {
                &&& final(self).bag@.len() == 6
                &&& final(self).bag@.push(final(self).cursor.unwrap().kind).to_multiset()
                    == all_kinds_seq().to_multiset()
            },
    {
        let ghost pre_draw: Seq<Kind>;
        if self.bag.len() == 0 {
            self.refill_bag();
        }
        proof {
            pre_draw = self.bag@;
        }
        let kind = self.bag.pop().unwrap();
        let piece = Piece { kind, position: Offset { x: SPAWN_X, y: SPAWN_Y }, rotation: Rotation::N };
        self.cursor = Some(piece);
        proof {
            assert(self.bag@.push(kind) =~= pre_draw);
            assert(self.bag@.no_duplicates()) by {
                assert(forall|i: int| 0 <= i < self.bag@.len() ==> self.bag@[i] == pre_draw[i]);
            }
            lemma_kind_cells_in_grid(kind);
            assert forall|i: int| 0 <= i < 4 implies cell_in_range(#[trigger] piece_cell(piece, i)) by {
                assert(spec_rotate(piece.kind, Rotation::N, kind_cell(piece.kind, i))
                    == kind_cell(piece.kind, i));
            }
        }
    }
    /// Sets the cursor directly, for tests and tooling; the piece must be
    /// geometrically valid.
    #[allow(non_snake_case)]
    pub fn DEBUG_test_cursor(&mut self, kind: Kind, position: Offset)
        requires
            old(self).wf(),
            cursor_pos_ok(position),
            piece_in_bounds((Piece { kind, position, rotation: Rotation::N })),
        ensures
            final(self).wf(),
            *final(self) == (Engine {
                cursor: Some((Piece { kind, position, rotation: Rotation::N })),
                ..*old(self)
            }),
    {
        let piece = Piece { kind, position, rotation: Rotation::N };
        self.cursor = Some(piece);
    }

    /// Attempts to move the cursor one column left or right. A move into a
    /// clipping position is rejected and leaves the engine unchanged; with no
    /// cursor present the request is a no-op.
    pub fn move_cursor(&mut self, kind: MoveKind) -> (r: Result<(), ()>)
        requires
            old(self).wf(),
        ensures
            final(self).wf(),
            match old(self).cursor {
                None => r is Ok && *final(self) == *old(self),
                Some(c) => {
                    let cand = moved(c, kind.spec_dx());
                    if old(self).matrix.spec_is_clipping(cand) {
                        r is Err && *final(self) == *old(self)
                    } else {
                        r is Ok && *final(self) == (Engine { cursor: Some(cand), ..*old(self) })
                    }
                },
            },
    {
        let cursor = match &self.cursor {
            Some(c) => *c,
            None => {
                return Ok(());
            },
        };
        let new = cursor.moved_by(kind.offset());
        if self.matrix.is_clipping(&new) {
            return Err(());
        }
        proof {
            lemma_in_bounds_position(new);
        }
        self.cursor = Some(new);
        Ok(())
    }

    /// The cursor one gravity step down, or `None` if there is no cursor or
    /// that step would clip.
    fn ticked_down_cursor(&self) -> (r: Option<Piece>)
        requires
            self.wf(),
        ensures
            match self.cursor {
                None => r is None,
                Some(c) => r == if self.matrix.spec_is_clipping(ticked(c)) {
                    Option::<Piece>::None
                } else {
                    Some(ticked(c))
                },
            },
    {
        let cursor = match &self.cursor {
            Some(c) => *c,
            None => {
                return None;
            },
        };
        let new = cursor.moved_by(Offset { x: 0, y: -1 });
        if self.matrix.is_clipping(&new) {
            None
        } else {
            Some(new)
        }
    }

    /// True exactly when a cursor is present and one further downward step
    /// would clip: the falling-to-resting predicate.
    pub fn cursor_has_hit_bottom(&self) -> (r: bool)
        requires
            self.wf(),
        ensures
            r == (self.cursor is Some
                && self.matrix.spec_is_clipping(ticked(self.cursor.unwrap()))),
    {
        self.cursor.is_some() && self.ticked_down_cursor().is_none()
    }

    /// One gravity step. Only legal while the cursor has a legal step left;
    /// callers check `cursor_has_hit_bottom` first.
    pub fn tick_down(&mut self)
        requires
            old(self).wf(),
            old(self).cursor is Some,
            !old(self).matrix.spec_is_clipping(ticked(old(self).cursor.unwrap())),
        ensures
            final(self).wf(),
            *final(self) == (Engine {
                cursor: Some(ticked(old(self).cursor.unwrap())),
                ..*old(self)
            }),
    {
        let new = match self.ticked_down_cursor() {
            Some(new) => new,
            None => {
                proof {
                    assert(false);
                }
                return;
            },
        };
        proof {
            lemma_in_bounds_position(new);
        }
        self.cursor = Some(new);
    }

    /// The falling piece's four cells and its color, or `None` between
    /// pieces.
    pub fn cursor_info(&self) -> (r: Option<(Vec<Coordinate>, Color)>)
        requires
            self.wf(),
        ensures
            match (r, self.cursor) {
                (None, None) => true,
                (Some((v, col)), Some(c)) => {
                    &&& col == spec_color(c.kind)
                    &&& v@.len() == 4
                    &&& forall|i: int| 0 <= i < 4 ==> {
                        let q = #[trigger] v@[i];
                        (q.x as int, q.y as int) == piece_cell(c, i)
                    }
                },
                _ => false,
            },
    {
        let cursor = match &self.cursor {
            Some(c) => *c,
            None => {
                return None;
            },
        };
        let cells = match cursor.cells() {
            Some(cells) => cells,
            None => {
                proof {
                    assert(false);
                }
                return None;
            },
        };
        Some((cells, cursor.kind.color()))
    }

    /// Locks the cursor into the board: writes each of its four cells with
    /// the kind's color and clears the cursor. Only legal on a placeable
    /// cursor; an unplaceable one is an engine bug, not a reachable state.
    fn place_cursor(&mut self)
        requires
            old(self).wf(),
            old(self).cursor is Some,
            old(self).matrix.spec_is_placeable(old(self).cursor.unwrap()),
        ensures
            final(self).wf(),
            final(self).cursor is None,
            final(self).bag == old(self).bag,
            final(self).level == old(self).level,
            final(self).rng == old(self).rng,
            forall|x: int, y: int| 0 <= x < WIDTH && 0 <= y < HEIGHT ==>
                #[trigger] final(self).matrix.at(x, y) == (
                    if piece_covers(old(self).cursor.unwrap(), x, y) {
                        Some(spec_color(old(self).cursor.unwrap().kind))
                    } else {
                        old(self).matrix.at(x, y)
                    }),
    {
        let cursor = match &self.cursor {
            Some(c) => *c,
            None => {
                proof {
                    assert(false);
                }
                return;
            },
        };
        self.cursor = None;
        let color = cursor.kind.color();
        let cells = match cursor.cells() {
            Some(cells) => cells,
            None => {
                proof {
                    assert(false);
                }
                return;
            },
        };
        let mut i: usize = 0;
        while i < 4
            invariant
                self.matrix.wf(),
                self.bag == old(self).bag,
                self.level == old(self).level,
                self.rng == old(self).rng,
                self.cursor is None,
                self.bag@.len() <= 7,
                self.bag@.no_duplicates(),
                old(self).matrix.spec_is_placeable(cursor),
                color == spec_color(cursor.kind),
                cells@.len() == 4,
                forall|j: int| 0 <= j < 4 ==> {
                    let q = #[trigger] cells@[j];
                    (q.x as int, q.y as int) == piece_cell(cursor, j)
                },
                i <= 4,
                forall|x: int, y: int| 0 <= x < WIDTH && 0 <= y < HEIGHT ==>
                    #[trigger] self.matrix.at(x, y) == (
                        if exists|j: int| 0 <= j < i && piece_cell(cursor, j) == (x, y) {
                            Some(spec_color(cursor.kind))
                        } else {
                            old(self).matrix.at(x, y)
                        }),
            decreases 4 - i,
        {
            let c = cells[i];
            proof {
                let ci = piece_cell(cursor, i as int);
                assert(cell_in_range(ci) && ci.1 < HEIGHT);
            }
            let ghost pre = self.matrix;
            self.matrix.set(c, Some(color));
            proof {
                assert forall|x: int, y: int| 0 <= x < WIDTH && 0 <= y < HEIGHT implies
                    #[trigger] self.matrix.at(x, y) == (
                        if exists|j: int| 0 <= j < i + 1 && piece_cell(cursor, j) == (x, y) {
                            Some(spec_color(cursor.kind))
                        } else {
                            old(self).matrix.at(x, y)
                        }) by {
                    if x == c.x as int && y == c.y as int {
                        assert(piece_cell(cursor, i as int) == (x, y));
                    } else {
                        assert(self.matrix.at(x, y) == pre.at(x, y));
                        if exists|j: int| 0 <= j < i + 1 && piece_cell(cursor, j) == (x, y) {
                            let j = choose|j: int| 0 <= j < i + 1 && piece_cell(cursor, j) == (x, y);
                            assert(j < i);
                            assert(exists|j0: int| 0 <= j0 < i && piece_cell(cursor, j0) == (x, y));
                        }
                    }
                }
            }
            i += 1;
        }
    }

    /// Drops the cursor straight down to its resting position, locks it into
    /// the board there, and clears the cursor.
    pub fn hard_drop(&mut self)
        requires
            old(self).wf(),
            old(self).cursor is Some,
            old(self).matrix.spec_is_placeable(
                spec_drop(old(self).matrix, old(self).cursor.unwrap())),
        ensures
            final(self).wf(),
            final(self).cursor is None,
            final(self).bag == old(self).bag,
            final(self).level == old(self).level,
            final(self).rng == old(self).rng,
            ({
                let rest = spec_drop(old(self).matrix, old(self).cursor.unwrap());
                forall|x: int, y: int| 0 <= x < WIDTH && 0 <= y < HEIGHT ==>
                    #[trigger] final(self).matrix.at(x, y) == (
                        if piece_covers(rest, x, y) {
                            Some(spec_color(rest.kind))
                        } else {
                            old(self).matrix.at(x, y)
                        })
            }),
    {
        while !self.cursor_has_hit_bottom()
            invariant
                self.wf(),
                self.cursor is Some,
                self.matrix == old(self).matrix,
                self.bag == old(self).bag,
                self.level == old(self).level,
                self.rng == old(self).rng,
                spec_drop(self.matrix, self.cursor.unwrap())
                    == spec_drop(old(self).matrix, old(self).cursor.unwrap()),
            decreases self.cursor.unwrap().position.y + 5,
        {
            proof {
                lemma_in_bounds_position(self.cursor.unwrap());
            }
            self.tick_down();
        }
        proof {
            let c = self.cursor.unwrap();
            assert(spec_drop(self.matrix, c) == c);
        }
        self.place_cursor();
    }

    /// One line-clear pass, invoked after a lock: detects every full row,
    /// compacts the board, and reports the cleared row indices in ascending
    /// order so the host can animate them.
    pub fn line_clear(&mut self) -> (r: Vec<usize>)
        requires
            old(self).wf(),
        ensures
            final(self).wf(),
            final(self).cursor == old(self).cursor,
            final(self).bag == old(self).bag,
            final(self).level == old(self).level,
            final(self).rng == old(self).rng,
            forall|j: int| 0 <= j < r@.len()
                ==> (#[trigger] r@[j]) < HEIGHT && old(self).matrix.line_is_full(r@[j] as int),
            forall|y: int| 0 <= y < HEIGHT && old(self).matrix.line_is_full(y)
                ==> r@.contains(y as usize),
            forall|i: int, j: int| 0 <= i < j < r@.len() ==> r@[i] < r@[j],
            forall|x: int, y: int|
                0 <= x < WIDTH && 0 <= y < HEIGHT && !r@.contains(y as usize)
                    ==> final(self).matrix.at(x, kept_below(r@, y))
                        == #[trigger] old(self).matrix.at(x, y),
            forall|x: int, y: int|
                0 <= x < WIDTH && kept_below(r@, HEIGHT as int) <= y < HEIGHT
                    ==> #[trigger] final(self).matrix.at(x, y) is None,
    {
        let lines = self.matrix.full_lines();
        self.matrix.clear_lines(&lines);
        lines
    }

    /// Walks the locked board in row-major scan order, for rendering.
    pub fn cells(&self) -> (r: CellIter<'_>)
        requires
            self.wf(),
        ensures
            r.wf(),
            r.index == 0,
            r.cells@ == self.matrix.cells@,
    {
        CellIter::new(&self.matrix)
    }
}

/// The canonical enumeration of the kinds lists each exactly once.
pub proof fn lemma_all_kinds_distinct()
    ensures
        all_kinds_seq().no_duplicates(),
        all_kinds_seq().len() == 7,
{
    let s = all_kinds_seq();
    assert(s[0] == Kind::O && s[1] == Kind::I && s[2] == Kind::T && s[3] == Kind::L
        && s[4] == Kind::J && s[5] == Kind::S && s[6] == Kind::Z);
    assert forall|i: int, j: int| 0 <= i < j < s.len() implies s[i] != s[j] by {
    }
}

/// Law: a dropped piece rests on support — one further downward step from
/// its resting position would clip, be it on the floor, on locked cells, or
/// off the horizontal range — and the drop changes nothing but how far down
/// the piece sits.
pub proof fn lemma_drop_rests(m: Matrix, p: Piece)
    requires
        pos_ok(p.position),
    ensures
        m.spec_is_clipping(ticked(spec_drop(m, p))),
        spec_drop(m, p).kind == p.kind,
        spec_drop(m, p).rotation == p.rotation,
        spec_drop(m, p).position.x == p.position.x,
        spec_drop(m, p).position.y <= p.position.y,
    decreases (if p.position.y < -4 { 0int } else { p.position.y + 5 }),
{
    if p.position.y < -4 {
        let t = ticked(p);
        lemma_kind_cells_in_grid(t.kind);
        crate::piece::lemma_rotate_stays_in_grid(t.kind, t.rotation, kind_cell(t.kind, 0));
        assert(!cell_in_range(piece_cell(t, 0)));
        assert(!piece_in_bounds(t));
    } else if m.spec_is_clipping(ticked(p)) {
    } else {
        lemma_drop_rests(m, ticked(p));
    }
}

/// Law: a bag holding one full set — as every refilled bag does — contains
/// each of the seven kinds exactly once, so the seven draws that exhaust it
/// are one permutation of all kinds, with no repeats.
pub proof fn lemma_full_bag_is_permutation(s: Seq<Kind>)
    requires
        s.to_multiset() == all_kinds_seq().to_multiset(),
    ensures
        s.len() == 7,
        s.no_duplicates(),
        forall|k: Kind| s.contains(k),
{
    broadcast use vstd::seq_lib::group_to_multiset_ensures;

    lemma_all_kinds_distinct();
    all_kinds_seq().lemma_multiset_has_no_duplicates();
    s.lemma_multiset_has_no_duplicates_conv();
    assert(s.to_multiset().len() == s.len());
    assert(all_kinds_seq().to_multiset().len() == all_kinds_seq().len());
    assert forall|k: Kind| s.contains(k) by {
        let a = all_kinds_seq();
        assert(a[0] == Kind::O && a[1] == Kind::I && a[2] == Kind::T && a[3] == Kind::L
            && a[4] == Kind::J && a[5] == Kind::S && a[6] == Kind::Z);
        assert(a.contains(k)) by {
            match k {
                Kind::O => assert(a[0] == k),
                Kind::I => assert(a[1] == k),
                Kind::T => assert(a[2] == k),
                Kind::L => assert(a[3] == k),
                Kind::J => assert(a[4] == k),
                Kind::S => assert(a[5] == k),
                Kind::Z => assert(a[6] == k),
            }
        }
        assert(s.to_multiset().count(k) > 0);
    }
}

} // verus!

