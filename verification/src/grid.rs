//! Interest grid: the plane cut into cells, to answer "who sees whom".

use vstd::prelude::*;
use crate::position::{Position, within};

verus! {

/// Coordinate of a cell of the interest grid.
#[derive(Debug, Clone, Copy, PartialEq, Eq, Structural, Hash, PartialOrd, Ord)]
pub struct CellCoord {
    pub cx: i32,
    pub cy: i32,
}

/// Partition of the plane into square cells.
#[derive(Debug, Clone, Copy, PartialEq, Eq, Structural)]
pub struct Grid {
    cell_size_cm: u32,
}

/// Whether `v` fits in an `i32`.
pub open spec fn fits_i32(v: int) -> bool {
    i32::MIN <= v <= i32::MAX
}

/// The cell holding a position: floor division of each coordinate.
pub open spec fn cell_at(size: int, p: Position) -> CellCoord {
    CellCoord { cx: (p.x as int / size) as i32, cy: (p.y as int / size) as i32 }
}

/// `cells` extended with the cell at offset `(dx, dy)` from `c`, when it
/// exists on the plane.
pub open spec fn push_shifted(cells: Seq<CellCoord>, c: CellCoord, dx: int, dy: int) -> Seq<CellCoord> {
    if fits_i32(c.cx + dx) && fits_i32(c.cy + dy) {
        cells.push(CellCoord { cx: (c.cx + dx) as i32, cy: (c.cy + dy) as i32 })
    } else {
        cells
    }
}

/// The block of nine cells centred on `c`, row by row from the top-left,
/// without the cells that would fall outside the plane.
pub open spec fn block_of(c: CellCoord) -> Seq<CellCoord> {
    let s0 = Seq::<CellCoord>::empty();
    let s1 = push_shifted(s0, c, -1, -1);
    let s2 = push_shifted(s1, c, 0, -1);
    let s3 = push_shifted(s2, c, 1, -1);
    let s4 = push_shifted(s3, c, -1, 0);
    let s5 = push_shifted(s4, c, 0, 0);
    let s6 = push_shifted(s5, c, 1, 0);
    let s7 = push_shifted(s6, c, -1, 1);
    let s8 = push_shifted(s7, c, 0, 1);
    push_shifted(s8, c, 1, 1)
}

/// Appends the cell at offset `(dx, dy)` from `c` if it exists on the plane.
fn push_neighbour(cells: &mut Vec<CellCoord>, c: CellCoord, dx: i32, dy: i32)
    requires
        -1 <= dx <= 1,
        -1 <= dy <= 1,
    ensures
        final(cells)@ == push_shifted(old(cells)@, c, dx as int, dy as int),
{
    match (c.cx.checked_add(dx), c.cy.checked_add(dy)) {
        (Some(cx), Some(cy)) => cells.push(CellCoord { cx, cy }),
        _ => {},
    }
}

impl Grid {
    /// Reference view radius: 40 m.
    pub const DEFAULT_VIEW_RADIUS_CM: u32 = 4_000;

    #[verifier::type_invariant]
    spec fn positive(self) -> bool {
        self.cell_size_cm > 0
    }

    /// Side of a cell.
    pub closed spec fn side(self) -> u32 {
        self.cell_size_cm
    }

    /// `None` when the cell is smaller than the view radius: the nine-cell
    /// block could then miss a visible entity.
    pub fn new(cell_size_cm: u32, view_radius_cm: u32) -> (r: Option<Self>)
        ensures
            r is Some <==> (cell_size_cm != 0 && cell_size_cm >= view_radius_cm),
            r matches Some(g) ==> g.side() == cell_size_cm,
    {
        if cell_size_cm == 0 || cell_size_cm < view_radius_cm {
            None
        } else {
            Some(Self { cell_size_cm })
        }
    }

    pub fn with_default_view() -> (r: Self)
        ensures
            r.side() == Self::DEFAULT_VIEW_RADIUS_CM,
    {
        Self { cell_size_cm: Self::DEFAULT_VIEW_RADIUS_CM }
    }

    pub fn cell_size_cm(self) -> (r: u32)
        ensures
            r == self.side(),
            r > 0,
    {
        proof {
            use_type_invariant(&self);
        }
        self.cell_size_cm
    }

    /// Cell holding `position`, by Euclidean (floor) division so that the
    /// origin does not get a cell twice as wide.
    pub fn cell_of(self, position: Position) -> (r: CellCoord)
        ensures
            r == cell_at(self.side() as int, position),
            r.cx as int == position.x as int / self.side() as int,
            r.cy as int == position.y as int / self.side() as int,
    {
        let size: i64 = self.cell_size_cm() as i64;
        let cx = Self::divide(position.x, size);
        let cy = Self::divide(position.y, size);
        CellCoord { cx, cy }
    }

    fn divide(value: i32, size: i64) -> (r: i32)
        requires
            size > 0,
        ensures
            r as int == value as int / size as int,
    {
        let v: i64 = value as i64;
        proof {
            if v >= 0 {
                vstd::arithmetic::div_mod::lemma_div_pos_is_pos(v as int, size as int);
                vstd::arithmetic::div_mod::lemma_div_is_ordered_by_denominator(v as int, 1, size as int);
            } else {
                let vi = v as int;
                let si = size as int;
                vstd::arithmetic::div_mod::lemma_fundamental_div_mod(vi, si);
                let q = vi / si;
                let m = vi % si;
                assert(q >= vi && q <= -1) by (nonlinear_arith)
                    requires
                        vi < 0,
                        si >= 1,
                        vi == si * q + m,
                        0 <= m < si;
            }
        }
        match v.checked_div_euclid(size) {
            Some(q) => q as i32,
            None => i32::MIN,
        }
    }

    /// The nine-cell block centred on `cell`, the cell itself included; cells
    /// that would fall outside the plane are omitted.
    pub fn neighbourhood(self, cell: CellCoord) -> (r: Vec<CellCoord>)
        ensures
            r@ == block_of(cell),
    {
        let mut cells: Vec<CellCoord> = Vec::new();
        push_neighbour(&mut cells, cell, -1, -1);
        push_neighbour(&mut cells, cell, 0, -1);
        push_neighbour(&mut cells, cell, 1, -1);
        push_neighbour(&mut cells, cell, -1, 0);
        push_neighbour(&mut cells, cell, 0, 0);
        push_neighbour(&mut cells, cell, 1, 0);
        push_neighbour(&mut cells, cell, -1, 1);
        push_neighbour(&mut cells, cell, 0, 1);
        push_neighbour(&mut cells, cell, 1, 1);
        cells
    }

    /// Whether moving from `from` to `to` changes cell.
    pub fn crosses_cell(self, from: Position, to: Position) -> (r: bool)
        ensures
            r == (cell_at(self.side() as int, from) != cell_at(self.side() as int, to)),
    {
        let before = self.cell_of(from);
        let after = self.cell_of(to);
        before.cx != after.cx || before.cy != after.cy
    }
}

/// What `push_shifted` adds to a sequence.
proof fn push_shifted_contains(cells: Seq<CellCoord>, c: CellCoord, dx: int, dy: int, d: CellCoord)
    ensures
        push_shifted(cells, c, dx, dy).contains(d) <==> (cells.contains(d) || (fits_i32(c.cx + dx)
            && fits_i32(c.cy + dy) && d.cx == c.cx + dx && d.cy == c.cy + dy)),
{
    let t = push_shifted(cells, c, dx, dy);
    if fits_i32(c.cx + dx) && fits_i32(c.cy + dy) {
        let e = CellCoord { cx: (c.cx + dx) as i32, cy: (c.cy + dy) as i32 };
        assert(t[cells.len() as int] == e);
        if cells.contains(d) {
            let i = choose|i: int| 0 <= i < cells.len() && cells[i] == d;
            assert(t[i] == d);
        }
        if t.contains(d) {
            let i = choose|i: int| 0 <= i < t.len() && t[i] == d;
            if i < cells.len() {
                assert(cells[i] == d);
            }
        }
    }
}

/// A cell of the plane belongs to the block of `c` exactly when both of its
/// coordinates are within one of those of `c`.
pub proof fn block_membership(c: CellCoord, d: CellCoord)
    ensures
        block_of(c).contains(d) <==> (-1 <= d.cx - c.cx <= 1 && -1 <= d.cy - c.cy <= 1),
{
    let s0 = Seq::<CellCoord>::empty();
    let s1 = push_shifted(s0, c, -1, -1);
    let s2 = push_shifted(s1, c, 0, -1);
    let s3 = push_shifted(s2, c, 1, -1);
    let s4 = push_shifted(s3, c, -1, 0);
    let s5 = push_shifted(s4, c, 0, 0);
    let s6 = push_shifted(s5, c, 1, 0);
    let s7 = push_shifted(s6, c, -1, 1);
    let s8 = push_shifted(s7, c, 0, 1);
    push_shifted_contains(s0, c, -1, -1, d);
    push_shifted_contains(s1, c, 0, -1, d);
    push_shifted_contains(s2, c, 1, -1, d);
    push_shifted_contains(s3, c, -1, 0, d);
    push_shifted_contains(s4, c, 0, 0, d);
    push_shifted_contains(s5, c, 1, 0, d);
    push_shifted_contains(s6, c, -1, 1, d);
    push_shifted_contains(s7, c, 0, 1, d);
    push_shifted_contains(s8, c, 1, 1, d);
}

/// Floor division by a positive size keeps a coordinate within `i32`.
proof fn quotient_fits(v: int, size: int)
    requires
        fits_i32(v),
        size >= 1,
    ensures
        fits_i32(v / size),
{
    vstd::arithmetic::div_mod::lemma_fundamental_div_mod(v, size);
    let q = v / size;
    let m = v % size;
    assert(fits_i32(q)) by (nonlinear_arith)
        requires
            fits_i32(v),
            size >= 1,
            v == size * q + m,
            0 <= m < size;
}

/// Two coordinates at most one cell side apart fall in the same or adjacent
/// cells.
proof fn close_coordinates_adjacent_cells(a: int, b: int, size: int)
    requires
        size >= 1,
        -size <= a - b <= size,
    ensures
        -1 <= a / size - b / size <= 1,
{
    vstd::arithmetic::div_mod::lemma_fundamental_div_mod(a, size);
    vstd::arithmetic::div_mod::lemma_fundamental_div_mod(b, size);
    let qa = a / size;
    let qb = b / size;
    let ma = a % size;
    let mb = b % size;
    assert(-1 <= qa - qb <= 1) by (nonlinear_arith)
        requires
            size >= 1,
            -size <= a - b <= size,
            a == size * qa + ma,
            b == size * qb + mb,
            0 <= ma < size,
            0 <= mb < size;
}

/// Everything visible within a radius no larger than the cell side lies in
/// the nine-cell block around the observer's cell.
pub proof fn visible_lies_in_block(side: u32, radius: u32, observer: Position, other: Position)
    requires
        side > 0,
        side >= radius,
        within(observer, other, radius as int),
    ensures
        block_of(cell_at(side as int, observer)).contains(cell_at(side as int, other)),
{
    let s = side as int;
    let r = radius as int;
    let dx = observer.x - other.x;
    let dy = observer.y - other.y;
    assert(r * r < u64::MAX) by (nonlinear_arith)
        requires 0 <= r <= 0xffff_ffff;
    assert(dx * dx >= 0 && dy * dy >= 0) by (nonlinear_arith);
    assert(dx * dx <= r * r);
    assert(dy * dy <= r * r);
    assert(-r <= dx <= r) by (nonlinear_arith)
        requires dx * dx <= r * r, r >= 0;
    assert(-r <= dy <= r) by (nonlinear_arith)
        requires dy * dy <= r * r, r >= 0;
    quotient_fits(observer.x as int, s);
    quotient_fits(observer.y as int, s);
    quotient_fits(other.x as int, s);
    quotient_fits(other.y as int, s);
    close_coordinates_adjacent_cells(observer.x as int, other.x as int, s);
    close_coordinates_adjacent_cells(observer.y as int, other.y as int, s);
    block_membership(cell_at(s, observer), cell_at(s, other));
}

} // verus!
