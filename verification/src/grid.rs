//! Coordinates, adjacency, and the row-major numbering of cells.

use vstd::prelude::*;

verus! {

/// A cell coordinate `(x, y)`: column first, row second, both zero-based.
pub type Position = (usize, usize);

/// The configuration of a board: `(width, height, mine_count)`.
pub type BoardSize = (usize, usize, usize);

/// Two distinct cells touch, by an edge or by a corner. Nothing wraps around.
pub open spec fn adjacent(p: Position, q: Position) -> bool {
    &&& p != q
    &&& p.0 <= q.0 + 1
    &&& q.0 <= p.0 + 1
    &&& p.1 <= q.1 + 1
    &&& q.1 <= p.1 + 1
}

/// The cell lies on a grid of the given dimensions.
pub open spec fn in_bounds(width: nat, height: nat, p: Position) -> bool {
    p.0 < width && p.1 < height
}

/// Every cell of a `width` by `height` grid.
pub open spec fn all_cells(width: nat, height: nat) -> Set<Position> {
    Set::new(|p: Position| in_bounds(width, height, p))
}

/// The row-major number of a cell.
pub open spec fn cell_index(width: nat, p: Position) -> int {
    p.1 * width + p.0
}

/// The cell with a given row-major number.
pub open spec fn cell_at(width: nat, i: int) -> Position {
    ((i % width as int) as usize, (i / width as int) as usize)
}

/// A cell on the grid has a number below `width * height`.
pub proof fn lemma_index_in_range(width: nat, height: nat, p: Position)
    requires
        in_bounds(width, height, p),
    ensures
        0 <= cell_index(width, p) < width * height,
{
    assert(p.1 * width + p.0 < width * height) by (nonlinear_arith)
        requires
            p.0 < width,
            p.1 < height,
    ;
    assert(0 <= p.1 * width) by (nonlinear_arith);
}

/// Numbering and un-numbering are inverse to each other on the grid.
pub proof fn lemma_index_roundtrip(width: nat, height: nat, p: Position)
    requires
        in_bounds(width, height, p),
        width * height <= usize::MAX,
    ensures
        cell_at(width, cell_index(width, p)) == p,
{
    let w = width as int;
    let x = p.0 as int;
    let y = p.1 as int;
    vstd::arithmetic::div_mod::lemma_fundamental_div_mod_converse(y * w + x, w, y, x);
}

/// Every number below `width * height` belongs to exactly one cell of the grid.
pub proof fn lemma_cell_at_in_bounds(width: nat, height: nat, i: int)
    requires
        0 <= i < width * height,
        width * height <= usize::MAX,
    ensures
        in_bounds(width, height, cell_at(width, i)),
        cell_index(width, cell_at(width, i)) == i,
{
    let w = width as int;
    assert(w > 0) by (nonlinear_arith)
        requires
            0 <= i < w * height,
            w >= 0,
    ;
    vstd::arithmetic::div_mod::lemma_fundamental_div_mod(i, w);
    vstd::arithmetic::div_mod::lemma_mod_bound(i, w);
    vstd::arithmetic::div_mod::lemma_div_pos_is_pos(i, w);
    assert(i / w < height) by (nonlinear_arith)
        requires
            0 <= i < w * height,
            w > 0,
            i == w * (i / w) + i % w,
            0 <= i % w < w,
    ;
    assert(w * (i / w) == (i / w) * w) by (nonlinear_arith);
}

/// Distinct cells of the grid have distinct numbers.
pub proof fn lemma_index_injective(width: nat, height: nat, p: Position, q: Position)
    requires
        in_bounds(width, height, p),
        in_bounds(width, height, q),
        width * height <= usize::MAX,
        cell_index(width, p) == cell_index(width, q),
    ensures
        p == q,
{
    lemma_index_roundtrip(width, height, p);
    lemma_index_roundtrip(width, height, q);
}

/// Where a cell that touches `p` lies relative to it: a number of `0..9`,
/// row-major over the three by three block around `p`, `4` for `p` itself.
pub open spec fn place_around(p: Position, q: Position) -> int {
    (q.0 - p.0 + 1) * 3 + (q.1 - p.1 + 1)
}

/// At most eight cells touch a cell.
pub proof fn lemma_adjacent_set_len(p: Position, s: Set<Position>)
    requires
        s.finite(),
        forall|q: Position| s.contains(q) ==> adjacent(p, q),
    ensures
        s.len() <= 8,
{
    let f = |q: Position| place_around(p, q);
    let image = s.map(f);
    assert(vstd::relations::injective_on(f, s)) by {
        assert forall|a: Position, b: Position|
            s.contains(a) && s.contains(b) && #[trigger] f(a) == #[trigger] f(b) implies a == b by {
            assert(adjacent(p, a) && adjacent(p, b));
        }
    }
    vstd::set_lib::lemma_map_size(s, image, f);
    let places = vstd::set_lib::set_int_range(0, 9).remove(4);
    vstd::set_lib::lemma_int_range(0, 9);
    assert forall|i: int| image.contains(i) implies places.contains(i) by {
        let q = choose|q: Position| s.contains(q) && i == f(q);
        assert(adjacent(p, q));
    }
    vstd::set_lib::lemma_len_subset(image, places);
}

} // verus!
