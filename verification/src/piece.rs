//! Tetromino pieces: the seven kinds, their canonical cell layouts, the
//! cardinal rotation states, and the computation of a piece's four absolute
//! board cells.

use vstd::prelude::*;
use crate::geometry::{Coordinate, Offset, WIDTH};

verus! {

/// The color of a locked cell; each piece kind has a fixed one.
#[derive(Clone, Copy, PartialEq, Eq, Structural, Debug)]
pub enum Color {
    Yellow,
    Cyan,
    Purple,
    Orange,
    Blue,
    Green,
    Red,
}

/// The seven tetromino kinds.
#[derive(Clone, Copy, PartialEq, Eq, Structural, Debug)]
pub enum Kind {
    O,
    I,
    T,
    L,
    J,
    S,
    Z,
}

/// A 90-degree-step rotation state: north is the unrotated orientation and
/// each step eastward turns the piece clockwise.
#[derive(Clone, Copy, PartialEq, Eq, Structural, Debug)]
pub enum Rotation {
    N,
    E,
    S,
    W,
}

/// A piece in the air: a kind, a position (the translation applied to its
/// rotated cells), and a rotation state.
#[derive(Clone, Copy, PartialEq, Eq, Structural, Debug)]
pub struct Piece {
    pub kind: Kind,
    pub position: Offset,
    pub rotation: Rotation,
}

/// Side length of the intrinsic anchor grid a kind's cells are defined on.
pub open spec fn spec_grid_size(k: Kind) -> int {
    match k {
        Kind::I => 4,
        _ => 3,
    }
}

/// The canonical (unrotated) cell layout of a kind, on its anchor grid.
pub open spec fn kind_cell(k: Kind, i: int) -> (int, int) {
    match k {
        Kind::O => if i == 0 { (1, 1) } else if i == 1 { (1, 2) } else if i == 2 { (2, 1) } else { (2, 2) },
        Kind::I => if i == 0 { (0, 2) } else if i == 1 { (1, 2) } else if i == 2 { (2, 2) } else { (3, 2) },
        Kind::T => if i == 0 { (0, 1) } else if i == 1 { (1, 1) } else if i == 2 { (2, 1) } else { (1, 2) },
        Kind::L => if i == 0 { (0, 1) } else if i == 1 { (1, 1) } else if i == 2 { (2, 1) } else { (2, 2) },
        Kind::J => if i == 0 { (0, 2) } else if i == 1 { (0, 1) } else if i == 2 { (1, 1) } else { (2, 1) },
        Kind::S => if i == 0 { (0, 1) } else if i == 1 { (1, 1) } else if i == 2 { (1, 2) } else { (2, 2) },
        Kind::Z => if i == 0 { (0, 2) } else if i == 1 { (1, 2) } else if i == 2 { (1, 1) } else { (2, 1) },
    }
}

/// A cell rotated about the intrinsic pivot of its kind's anchor grid: a
/// 90-degree clockwise turn per eastward step, re-anchored so the grid maps
/// onto itself. The O kind is rotation-invariant.
pub open spec fn spec_rotate(k: Kind, r: Rotation, c: (int, int)) -> (int, int) {
    if k == Kind::O {
        c
    } else {
        let s = spec_grid_size(k) - 1;
        match r {
            Rotation::N => c,
            Rotation::E => (c.1, s - c.0),
            Rotation::S => (s - c.0, s - c.1),
            Rotation::W => (s - c.1, c.0),
        }
    }
}

/// The `i`-th absolute cell of a piece: canonical cell, rotated, translated
/// by the piece's position.
pub open spec fn piece_cell(p: Piece, i: int) -> (int, int) {
    let c = spec_rotate(p.kind, p.rotation, kind_cell(p.kind, i));
    (c.0 + p.position.x, c.1 + p.position.y)
}

/// A cell that can be represented as a `Coordinate` within the board's
/// horizontal range; `y` may exceed the board's height.
pub open spec fn cell_in_range(c: (int, int)) -> bool {
    0 <= c.0 < WIDTH && 0 <= c.1
}

/// All four cells of the piece are representable (full-width validity).
pub open spec fn piece_in_bounds(p: Piece) -> bool {
    forall|i: int| 0 <= i < 4 ==> cell_in_range(#[trigger] piece_cell(p, i))
}

/// A position far enough from the integer limits that cell computation and
/// single-step moves cannot overflow.
pub open spec fn pos_ok(o: Offset) -> bool {
    &&& isize::MIN + 8 <= o.x <= isize::MAX - 8
    &&& isize::MIN + 8 <= o.y <= isize::MAX - 8
}

/// The fixed color of each kind.
pub open spec fn spec_color(k: Kind) -> Color {
    match k {
        Kind::O => Color::Yellow,
        Kind::I => Color::Cyan,
        Kind::T => Color::Purple,
        Kind::L => Color::Orange,
        Kind::J => Color::Blue,
        Kind::S => Color::Green,
        Kind::Z => Color::Red,
    }
}

/// The canonical enumeration order of the kinds, used to refill the bag.
pub open spec fn all_kinds_seq() -> Seq<Kind> {
    seq![Kind::O, Kind::I, Kind::T, Kind::L, Kind::J, Kind::S, Kind::Z]
}

impl Kind {
    /// Every kind once, in canonical order.
    pub fn all() -> (r: Vec<Kind>)
        ensures
            r@ == all_kinds_seq(),
    {
        let mut v: Vec<Kind> = Vec::new();
        v.push(Kind::O);
        v.push(Kind::I);
        v.push(Kind::T);
        v.push(Kind::L);
        v.push(Kind::J);
        v.push(Kind::S);
        v.push(Kind::Z);
        proof {
            assert(v@ =~= all_kinds_seq());
        }
        v
    }

    /// Side length of the kind's intrinsic anchor grid.
    pub fn grid_size(&self) -> (r: isize)
        ensures
            r as int == spec_grid_size(*self),
    {
        match self {
            Kind::I => 4,
            _ => 3,
        }
    }

    /// The kind's canonical cell layout, as offsets on its anchor grid.
    pub fn cells(&self) -> (r: Vec<Offset>)
        ensures
            r@.len() == 4,
            forall|i: int| 0 <= i < 4 ==> ((#[trigger] r@[i].x as int, r@[i].y as int) == kind_cell(*self, i)),
    {
        let mut v: Vec<Offset> = Vec::new();
        match self {
            Kind::O => {
                v.push(Offset { x: 1, y: 1 });
                v.push(Offset { x: 1, y: 2 });
                v.push(Offset { x: 2, y: 1 });
                v.push(Offset { x: 2, y: 2 });
            }
            Kind::I => {
                v.push(Offset { x: 0, y: 2 });
                v.push(Offset { x: 1, y: 2 });
                v.push(Offset { x: 2, y: 2 });
                v.push(Offset { x: 3, y: 2 });
            }
            Kind::T => {
                v.push(Offset { x: 0, y: 1 });
                v.push(Offset { x: 1, y: 1 });
                v.push(Offset { x: 2, y: 1 });
                v.push(Offset { x: 1, y: 2 });
            }
            Kind::L => {
                v.push(Offset { x: 0, y: 1 });
                v.push(Offset { x: 1, y: 1 });
                v.push(Offset { x: 2, y: 1 });
                v.push(Offset { x: 2, y: 2 });
            }
            Kind::J => {
                v.push(Offset { x: 0, y: 2 });
                v.push(Offset { x: 0, y: 1 });
                v.push(Offset { x: 1, y: 1 });
                v.push(Offset { x: 2, y: 1 });
            }
            Kind::S => {
                v.push(Offset { x: 0, y: 1 });
                v.push(Offset { x: 1, y: 1 });
                v.push(Offset { x: 1, y: 2 });
                v.push(Offset { x: 2, y: 2 });
            }
            Kind::Z => {
                v.push(Offset { x: 0, y: 2 });
                v.push(Offset { x: 1, y: 2 });
                v.push(Offset { x: 1, y: 1 });
                v.push(Offset { x: 2, y: 1 });
            }
        }
        v
    }

    /// The kind's fixed color.
    pub fn color(&self) -> (r: Color)
        ensures
            r == spec_color(*self),
    {
        match self {
            Kind::O => Color::Yellow,
            Kind::I => Color::Cyan,
            Kind::T => Color::Purple,
            Kind::L => Color::Orange,
            Kind::J => Color::Blue,
            Kind::S => Color::Green,
            Kind::Z => Color::Red,
        }
    }
}

/// Rotates one anchor-grid cell of the given kind by the given rotation.
pub fn rotate(kind: Kind, rotation: Rotation, cell: Offset) -> (r: Offset)
    requires
        0 <= cell.x <= 8,
        0 <= cell.y <= 8,
    ensures
        (r.x as int, r.y as int) == spec_rotate(kind, rotation, (cell.x as int, cell.y as int)),
{
    if let Kind::O = kind {
        return cell;
    }
    let s = kind.grid_size() - 1;
    match rotation {
        Rotation::N => cell,
        Rotation::E => Offset { x: cell.y, y: s - cell.x },
        Rotation::S => Offset { x: s - cell.x, y: s - cell.y },
        Rotation::W => Offset { x: s - cell.y, y: cell.x },
    }
}

/// Translates a cell or position by a delta.
pub fn translate(cell: Offset, delta: Offset) -> (r: Offset)
    requires
        isize::MIN <= cell.x + delta.x <= isize::MAX,
        isize::MIN <= cell.y + delta.y <= isize::MAX,
    ensures
        r.x == cell.x + delta.x,
        r.y == cell.y + delta.y,
{
    Offset { x: cell.x + delta.x, y: cell.y + delta.y }
}

impl Piece {
    /// A copy of the piece translated by `offset`; no validity check is made
    /// here (collision tests happen when `cells` is consulted).
    pub fn moved_by(&self, offset: Offset) -> (r: Piece)
        requires
            isize::MIN <= self.position.x + offset.x <= isize::MAX,
            isize::MIN <= self.position.y + offset.y <= isize::MAX,
        ensures
            r.kind == self.kind,
            r.rotation == self.rotation,
            r.position.x == self.position.x + offset.x,
            r.position.y == self.position.y + offset.y,
    {
        Piece { position: translate(self.position, offset), ..*self }
    }

    /// The piece's four absolute board cells, in the fixed order of its
    /// kind's canonical layout, or `None` if any cell falls outside the
    /// board's horizontal range or below zero.
    pub fn cells(&self) -> (r: Option<Vec<Coordinate>>)
        requires
            pos_ok(self.position),
        ensures
            match r {
                Some(v) => {
                    &&& piece_in_bounds(*self)
                    &&& v@.len() == 4
                    &&& forall|i: int| 0 <= i < 4 ==>
                        ((#[trigger] v@[i].x as int, v@[i].y as int) == piece_cell(*self, i))
                },
                None => !piece_in_bounds(*self),
            },
    {
        proof {
            lemma_kind_cells_in_grid(self.kind);
        }
        let base = self.kind.cells();
        let mut out: Vec<Coordinate> = Vec::new();
        let mut i: usize = 0;
        while i < 4
            invariant
                pos_ok(self.position),
                base@.len() == 4,
                forall|j: int| 0 <= j < 4 ==> {
                    let b = #[trigger] base@[j];
                    &&& (b.x as int, b.y as int) == kind_cell(self.kind, j)
                    &&& 0 <= b.x <= spec_grid_size(self.kind) - 1
                    &&& 0 <= b.y <= spec_grid_size(self.kind) - 1
                },
                i <= 4,
                out@.len() == i,
                forall|j: int| 0 <= j < i ==> cell_in_range(#[trigger] piece_cell(*self, j)),
                forall|j: int| 0 <= j < i ==> ((#[trigger] out@[j].x as int, out@[j].y as int) == piece_cell(*self, j)),
            decreases 4 - i,
        {
            let rot = rotate(self.kind, self.rotation, base[i]);
            proof {
                lemma_rotate_stays_in_grid(self.kind, self.rotation,
                    (base@[i as int].x as int, base@[i as int].y as int));
            }
            let cx = self.position.x + rot.x;
            let cy = self.position.y + rot.y;
            if cx < 0 || cy < 0 || cx >= WIDTH as isize {
                proof {
                    assert(!cell_in_range(piece_cell(*self, i as int)));
                }
                return None;
            }
            out.push(Coordinate { x: cx as usize, y: cy as usize });
            i += 1;
        }
        Some(out)
    }
}

/// A kind's canonical cells all lie on its intrinsic anchor grid.
pub proof fn lemma_kind_cells_in_grid(k: Kind)
    ensures
        forall|i: int| 0 <= i < 4 ==> {
            let c = #[trigger] kind_cell(k, i);
            0 <= c.0 <= spec_grid_size(k) - 1 && 0 <= c.1 <= spec_grid_size(k) - 1
        },
{
}

/// Rotation maps the intrinsic anchor grid onto itself.
pub proof fn lemma_rotate_stays_in_grid(k: Kind, r: Rotation, c: (int, int))
    requires
        0 <= c.0 <= spec_grid_size(k) - 1,
        0 <= c.1 <= spec_grid_size(k) - 1,
    ensures
        0 <= spec_rotate(k, r, c).0 <= spec_grid_size(k) - 1,
        0 <= spec_rotate(k, r, c).1 <= spec_grid_size(k) - 1,
{
}

/// Law: every piece occupies four pairwise-distinct cells, whatever its
/// kind, rotation state, and position.
pub proof fn lemma_piece_cells_distinct(p: Piece)
    ensures
        forall|i: int, j: int| 0 <= i < j < 4 ==> piece_cell(p, i) != piece_cell(p, j),
{
}

/// Law: the O kind's footprint is identical in every rotation state.
pub proof fn lemma_o_rotation_invariant(p: Piece, q: Piece)
    requires
        p.kind == Kind::O,
        q.kind == Kind::O,
        p.position == q.position,
    ensures
        forall|i: int| 0 <= i < 4 ==> piece_cell(p, i) == piece_cell(q, i),
{
}

/// Law: a piece's cells are a pure function of its kind, position, and
/// rotation state; equal inputs always yield the same four cells.
pub proof fn lemma_cells_deterministic(p: Piece, q: Piece)
    requires
        p.kind == q.kind,
        p.position == q.position,
        p.rotation == q.rotation,
    ensures
        forall|i: int| piece_cell(p, i) == piece_cell(q, i),
{
}

/// A piece in bounds sits no further than one anchor grid outside the
/// board's bottom-left corner.
pub proof fn lemma_in_bounds_position(p: Piece)
    requires
        piece_in_bounds(p),
    ensures
        -3 <= p.position.x < WIDTH,
        -3 <= p.position.y,
{
    lemma_kind_cells_in_grid(p.kind);
    lemma_rotate_stays_in_grid(p.kind, p.rotation, kind_cell(p.kind, 0));
    assert(cell_in_range(piece_cell(p, 0)));
}

} // verus!

