//! How a set of cell numbers stands for a set of cells.

use crate::grid::{
    all_cells, cell_at, cell_index, in_bounds, lemma_cell_at_in_bounds, lemma_index_in_range,
    lemma_index_injective, Position,
};
use vstd::prelude::*;

verus! {

/// The cells of a `width` by `height` grid whose row-major numbers are in
/// `numbers`.
pub open spec fn cells_of(numbers: Set<usize>, width: nat, height: nat) -> Set<Position> {
    Set::new(
        |p: Position|
            in_bounds(width, height, p) && numbers.contains(cell_index(width, p) as usize),
    )
}

/// Every number of the set belongs to a cell of the grid.
pub open spec fn numbers_on_grid(numbers: Set<usize>, width: nat, height: nat) -> bool {
    forall|i: usize| #[trigger] numbers.contains(i) ==> i < width * height
}

/// No number stands for no cell.
pub proof fn lemma_cells_of_empty(width: nat, height: nat)
    ensures
        cells_of(Set::<usize>::empty(), width, height) == Set::<Position>::empty(),
{
    assert(cells_of(Set::<usize>::empty(), width, height) =~= Set::<Position>::empty());
}

/// Adding the number of a cell adds that cell and no other.
pub proof fn lemma_cells_of_insert(numbers: Set<usize>, width: nat, height: nat, p: Position)
    requires
        in_bounds(width, height, p),
        width * height <= usize::MAX,
    ensures
        cells_of(numbers.insert(cell_index(width, p) as usize), width, height) == cells_of(
            numbers,
            width,
            height,
        ).insert(p),
{
    let i = cell_index(width, p) as usize;
    lemma_index_in_range(width, height, p);
    let lhs = cells_of(numbers.insert(i), width, height);
    let rhs = cells_of(numbers, width, height).insert(p);
    assert forall|q: Position| lhs.contains(q) <==> rhs.contains(q) by {
        if in_bounds(width, height, q) {
            lemma_index_in_range(width, height, q);
            if cell_index(width, q) == cell_index(width, p) {
                lemma_index_injective(width, height, p, q);
            }
        }
    }
    assert(lhs =~= rhs);
}

/// Taking away the number of a cell takes away that cell and no other.
pub proof fn lemma_cells_of_remove(numbers: Set<usize>, width: nat, height: nat, p: Position)
    requires
        in_bounds(width, height, p),
        width * height <= usize::MAX,
    ensures
        cells_of(numbers.remove(cell_index(width, p) as usize), width, height) == cells_of(
            numbers,
            width,
            height,
        ).remove(p),
{
    let i = cell_index(width, p) as usize;
    lemma_index_in_range(width, height, p);
    let lhs = cells_of(numbers.remove(i), width, height);
    let rhs = cells_of(numbers, width, height).remove(p);
    assert forall|q: Position| lhs.contains(q) <==> rhs.contains(q) by {
        if in_bounds(width, height, q) {
            lemma_index_in_range(width, height, q);
            if cell_index(width, q) == cell_index(width, p) {
                lemma_index_injective(width, height, p, q);
            }
        }
    }
    assert(lhs =~= rhs);
}

/// A finite set of numbers of the grid stands for as many cells.
pub proof fn lemma_cells_of_len(numbers: Set<usize>, width: nat, height: nat)
    requires
        numbers.finite(),
        numbers_on_grid(numbers, width, height),
        width * height <= usize::MAX,
    ensures
        cells_of(numbers, width, height).finite(),
        cells_of(numbers, width, height).len() == numbers.len(),
        cells_of(numbers, width, height).subset_of(all_cells(width, height)),
    decreases numbers.len(),
{
    if numbers.len() == 0 {
        assert(numbers =~= Set::<usize>::empty());
        lemma_cells_of_empty(width, height);
    } else {
        let i = numbers.choose();
        let rest = numbers.remove(i);
        let p = cell_at(width, i as int);
        lemma_cell_at_in_bounds(width, height, i as int);
        lemma_cells_of_len(rest, width, height);
        lemma_cells_of_insert(rest, width, height, p);
        assert(rest.insert(i) =~= numbers);
        assert(!cells_of(rest, width, height).contains(p));
    }
}

/// Two sets of numbers of the grid stand for the same cells only if they
/// are the same set.
pub proof fn lemma_cells_of_injective(a: Set<usize>, b: Set<usize>, width: nat, height: nat)
    requires
        numbers_on_grid(a, width, height),
        numbers_on_grid(b, width, height),
        width * height <= usize::MAX,
        cells_of(a, width, height) == cells_of(b, width, height),
    ensures
        a == b,
{
    assert forall|i: usize| a.contains(i) <==> b.contains(i) by {
        if a.contains(i) || b.contains(i) {
            lemma_cell_at_in_bounds(width, height, i as int);
            let p = cell_at(width, i as int);
            assert(cells_of(a, width, height).contains(p) <==> a.contains(i));
            assert(cells_of(b, width, height).contains(p) <==> b.contains(i));
        }
    }
    assert(a =~= b);
}

/// The grid has `width * height` cells.
pub proof fn lemma_all_cells_len(width: nat, height: nat)
    requires
        width * height <= usize::MAX,
    ensures
        all_cells(width, height).finite(),
        all_cells(width, height).len() == width * height,
{
    let n = (width * height) as int;
    let numbers = Set::new(|i: usize| i < n);
    lemma_numbers_below_len(n as nat);
    lemma_cells_of_len(numbers, width, height);
    assert forall|p: Position| in_bounds(width, height, p) implies cells_of(
        numbers,
        width,
        height,
    ).contains(p) by {
        lemma_index_in_range(width, height, p);
    }
    assert(cells_of(numbers, width, height) =~= all_cells(width, height));
}

/// There are `n` numbers below `n`.
pub proof fn lemma_numbers_below_len(n: nat)
    requires
        n <= usize::MAX,
    ensures
        Set::new(|i: usize| i < n).finite(),
        Set::new(|i: usize| i < n).len() == n,
    decreases n,
{
    let s = Set::new(|i: usize| i < n);
    if n == 0 {
        assert(s =~= Set::<usize>::empty());
    } else {
        let m = (n - 1) as nat;
        lemma_numbers_below_len(m);
        let smaller = Set::new(|i: usize| i < m);
        assert(smaller.insert(m as usize) =~= s);
    }
}

/// A finite set of numbers of the grid has at most `width * height` members.
pub proof fn lemma_numbers_len_bound(numbers: Set<usize>, width: nat, height: nat)
    requires
        numbers.finite(),
        numbers_on_grid(numbers, width, height),
        width * height <= usize::MAX,
    ensures
        numbers.len() <= width * height,
{
    let n = width * height;
    let all = Set::new(|i: usize| i < n);
    lemma_numbers_below_len(n);
    assert(numbers.subset_of(all));
    vstd::set_lib::lemma_len_subset(numbers, all);
}

} // verus!
