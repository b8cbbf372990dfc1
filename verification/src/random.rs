//! The supplier of mine positions: distinct cells of a grid, drawn at random.
//!
//! To choose `k` of `n` cells, `k` numbers are drawn, the first from
//! `0..=n - k`, each later one from a range that is longer by one, the last
//! from `0..=n - 1`. A draw `t` from `0..=j` selects the cell numbered `t`
//! if that cell is still free, and the cell numbered `j` otherwise. With
//! uniform draws every subset of `k` cells is equally likely, and the
//! number of draws does not depend on how full the grid is.

use crate::grid::{cell_at, in_bounds, lemma_cell_at_in_bounds, Position};
use rand::Rng;
use std::collections::HashSet;
use vstd::prelude::*;

verus! {

broadcast use vstd::std_specs::hash::group_hash_axioms;

/// The largest number that the draw of index `k` may be, where `count`
/// cells are chosen out of `n`.
pub open spec fn draw_limit(n: nat, count: nat, k: int) -> int {
    n - count + k
}

/// The draws can choose cells of a grid of `n` cells: there are at most `n`
/// of them, and each is within its limit.
pub open spec fn valid_draws(n: nat, draws: Seq<usize>) -> bool {
    &&& draws.len() <= n
    &&& forall|k: int| 0 <= k < draws.len() ==> #[trigger] draws[k] <= draw_limit(n, draws.len(), k)
}

/// The numbers of the cells that the first `k` draws select.
pub open spec fn selected_numbers(n: nat, draws: Seq<usize>, k: nat) -> Seq<usize>
    decreases k,
{
    if k == 0 {
        Seq::empty()
    } else {
        let before = selected_numbers(n, draws, (k - 1) as nat);
        let t = draws[k - 1];
        before.push(
            if before.contains(t) {
                draw_limit(n, draws.len(), k - 1) as usize
            } else {
                t
            },
        )
    }
}

/// The cells that the draws select on a grid of the given dimensions.
pub open spec fn selected_fields(width: nat, height: nat, draws: Seq<usize>) -> Seq<Position> {
    Seq::new(
        draws.len(),
        |k: int| cell_at(width, selected_numbers(width * height, draws, draws.len())[k] as int),
    )
}

/// Draws a number from `min..max` with the thread-local generator of `rand`
/// (`Rng::gen_range` on `thread_rng()`).
///
/// Trusted: `gen_range` returns a value of the half-open range it is given,
/// and panics on an empty range, which `requires` excludes. Nothing is
/// claimed of which value is drawn. The generator is seeded from the
/// operating system when a thread first uses it; `rand` panics if that
/// fails, whatever the arguments are.
#[verifier::external_body]
fn random_range(min: usize, max: usize) -> (r: usize)
    requires
        min < max,
    ensures
        min <= r < max,
{
    rand::thread_rng().gen_range(min..max)
}

/// The cells that the given draws select on a `width` by `height` grid, in
/// the order of the draws.
///
/// `None` is returned where the draws cannot choose cells of that grid: the
/// number of cells does not fit in a `usize`, or there are more draws than
/// cells, or a draw is beyond its limit.
pub fn fields_from_draws(width: usize, height: usize, draws: &Vec<usize>) -> (fields: Option<
    Vec<Position>,
>)
    ensures
        fields is Some <==> width * height <= usize::MAX && valid_draws(
            (width * height) as nat,
            draws@,
        ),
        fields matches Some(f) ==> {
            &&& f@ == selected_fields(width as nat, height as nat, draws@)
            &&& f@.no_duplicates()
            &&& forall|i: int|
                0 <= i < f@.len() ==> in_bounds(width as nat, height as nat, #[trigger] f@[i])
        },
{
    let n: usize = match width.checked_mul(height) {
        Some(n) => n,
        None => {
            return None;
        },
    };
    let count: usize = draws.len();
    if count > n {
        return None;
    }
    let ghost total = n as nat;
    let mut taken: HashSet<usize> = HashSet::new();
    let mut fields: Vec<Position> = Vec::new();
    let mut k: usize = 0;
    while k < count
        invariant
            n == width * height,
            total == n,
            count == draws@.len(),
            count <= n,
            0 <= k <= count,
            forall|i: int|
                0 <= i < k ==> #[trigger] draws@[i] <= draw_limit(total, count as nat, i),
            fields@.len() == k,
            taken@ == selected_numbers(total, draws@, k as nat).to_set(),
            selected_numbers(total, draws@, k as nat).len() == k,
            selected_numbers(total, draws@, k as nat).no_duplicates(),
            forall|i: int|
                0 <= i < k ==> #[trigger] selected_numbers(total, draws@, k as nat)[i] < draw_limit(
                    total,
                    count as nat,
                    k as int,
                ),
            forall|i: int|
                0 <= i < k ==> #[trigger] fields@[i] == cell_at(
                    width as nat,
                    selected_numbers(total, draws@, k as nat)[i] as int,
                ),
        decreases count - k,
    {
        let limit: usize = n - count + k;
        let t: usize = draws[k];
        if t > limit {
            proof {
                assert(!(draws@[k as int] <= draw_limit(total, count as nat, k as int)));
            }
            return None;
        }
        let ghost before = selected_numbers(total, draws@, k as nat);
        let pick: usize = if taken.contains(&t) {
            limit
        } else {
            t
        };
        proof {
            assert(selected_numbers(total, draws@, (k + 1) as nat) == before.push(pick));
            before.lemma_push_to_set_commute(pick);
            assert(!before.contains(pick)) by {
                if before.contains(pick) {
                    let i = choose|i: int| 0 <= i < before.len() && before[i] == pick;
                    assert(before[i] < draw_limit(total, count as nat, k as int));
                }
            }
        }
        taken.insert(pick);
        fields.push((pick % width, pick / width));
        k = k + 1;
    }
    proof {
        let numbers = selected_numbers(total, draws@, count as nat);
        assert(fields@ =~= selected_fields(width as nat, height as nat, draws@));
        assert forall|i: int| 0 <= i < fields@.len() implies in_bounds(
            width as nat,
            height as nat,
            #[trigger] fields@[i],
        ) by {
            lemma_cell_at_in_bounds(width as nat, height as nat, numbers[i] as int);
        }
        assert forall|i: int, j: int|
            0 <= i < j < fields@.len() implies fields@[i] != fields@[j] by {
            lemma_cell_at_in_bounds(width as nat, height as nat, numbers[i] as int);
            lemma_cell_at_in_bounds(width as nat, height as nat, numbers[j] as int);
        }
    }
    Some(fields)
}

/// Draws `num_fields` distinct cells of a `width` by `height` grid.
///
/// Which cells are drawn is left to chance; every outcome is a list of
/// `num_fields` cells of the grid, no two of them the same.
pub fn random_fields(width: usize, height: usize, num_fields: usize) -> (fields: Vec<Position>)
    requires
        width * height <= usize::MAX,
        num_fields <= width * height,
    ensures
        fields@.len() == num_fields,
        fields@.no_duplicates(),
        forall|i: int|
            0 <= i < fields@.len() ==> in_bounds(
                width as nat,
                height as nat,
                #[trigger] fields@[i],
            ),
{
    let n: usize = width * height;
    let mut draws: Vec<usize> = Vec::new();
    let mut k: usize = 0;
    while k < num_fields
        invariant
            n == width * height,
            num_fields <= n,
            0 <= k <= num_fields,
            draws@.len() == k,
            forall|i: int|
                0 <= i < k ==> #[trigger] draws@[i] <= draw_limit(n as nat, num_fields as nat, i),
        decreases num_fields - k,
    {
        let t: usize = random_range(0, n - num_fields + k + 1);
        draws.push(t);
        k = k + 1;
    }
    fields_from_draws(width, height, &draws).unwrap()
}

} // verus!
