//! What a reveal, a chord and the showing of a loss open: lemmas about the
//! regions and the steps that [`Board`] defines.

use crate::board::Board;
use crate::grid::{adjacent, Position};
use vstd::prelude::*;

verus! {

/// The clearing that starts at a cell reaches that cell.
pub proof fn lemma_floods_to_self(b: Board, p: Position)
    ensures
        b.floods_to(p, p),
{
    let path = seq![p];
    assert(b.flood_path(path));
    assert(path[0] == p && path.last() == p);
}

/// The clearing goes on from every blank cell it has reached.
pub proof fn lemma_floods_to_step(b: Board, from: Position, a: Position, c: Position)
    requires
        b.floods_to(from, a),
        b.flood_step(a, c),
    ensures
        b.floods_to(from, c),
{
    let path = choose|path: Seq<Position>|
        #[trigger] b.flood_path(path) && path[0] == from && path.last() == a;
    let longer = path.push(c);
    assert forall|i: int| 0 <= i < longer.len() - 1 implies b.flood_step(
        #[trigger] longer[i],
        longer[i + 1],
    ) by {
        if i < path.len() - 1 {
            assert(b.flood_step(path[i], path[i + 1]));
        }
    }
    assert(b.flood_path(longer));
    assert(longer[0] == from && longer.last() == c);
}

/// A set that holds the start and is closed under the steps of the clearing
/// holds everything the clearing reaches.
pub proof fn lemma_closed_set_holds_region(b: Board, from: Position, t: Set<Position>)
    requires
        t.contains(from),
        forall|a: Position, c: Position|
            t.contains(a) && #[trigger] b.flood_step(a, c) ==> t.contains(c),
    ensures
        b.flood_region(from).subset_of(t),
{
    assert forall|p: Position| b.flood_region(from).contains(p) implies t.contains(p) by {
        let path = choose|path: Seq<Position>|
            #[trigger] b.flood_path(path) && path[0] == from && path.last() == p;
        lemma_path_stays_in_closed_set(b, path, t, path.len() - 1);
    }
}

proof fn lemma_path_stays_in_closed_set(b: Board, path: Seq<Position>, t: Set<Position>, k: int)
    requires
        b.flood_path(path),
        0 <= k < path.len(),
        t.contains(path[0]),
        forall|a: Position, c: Position|
            t.contains(a) && #[trigger] b.flood_step(a, c) ==> t.contains(c),
    ensures
        t.contains(path[k]),
    decreases k,
{
    if k > 0 {
        lemma_path_stays_in_closed_set(b, path, t, k - 1);
        assert(b.flood_step(path[k - 1], path[k - 1 + 1]));
    }
}

/// Whatever the clearing reaches beyond its start was covered, touches a
/// blank cell that the clearing reached too, and holds no mine.
pub proof fn lemma_flooded_cell(b: Board, from: Position, to: Position)
    requires
        b.mines.finite(),
        b.floods_to(from, to),
        to != from,
    ensures
        b.covered(to),
        !b.mines.contains(to),
        exists|a: Position| b.floods_to(from, a) && #[trigger] b.flood_step(a, to),
{
    let path = choose|path: Seq<Position>|
        #[trigger] b.flood_path(path) && path[0] == from && path.last() == to;
    let k = path.len() - 2;
    assert(path.len() >= 2);
    let a = path[k];
    assert(b.flood_step(path[k], path[k + 1]));
    let shorter = path.take(k + 1);
    assert forall|i: int| 0 <= i < shorter.len() - 1 implies b.flood_step(
        #[trigger] shorter[i],
        shorter[i + 1],
    ) by {
        assert(b.flood_step(path[i], path[i + 1]));
    }
    assert(b.flood_path(shorter));
    assert(shorter[0] == from && shorter.last() == a);
    assert(b.floods_to(from, a));
    lemma_blank_neighbour_is_safe(b, a, to);
}

/// No mine touches a blank cell.
pub proof fn lemma_blank_neighbour_is_safe(b: Board, a: Position, c: Position)
    requires
        b.mines.finite(),
        b.blank(a),
        adjacent(a, c),
    ensures
        !b.mines.contains(c),
{
    if b.mines.contains(c) {
        assert(b.adjacent_mines(a).contains(c));
        b.mines.lemma_len_filter(|q: Position| adjacent(a, q));
        vstd::set_lib::lemma_set_subset_finite(b.mines, b.adjacent_mines(a));
        assert(b.adjacent_mines(a).len() > 0) by {
            if b.adjacent_mines(a).len() == 0 {
                b.adjacent_mines(a).lemma_len0_is_empty();
            }
        }
    }
}

/// Revealing a mine, or a cell that a mine touches, opens that cell alone.
pub proof fn lemma_region_of_numbered_cell(b: Board, p: Position)
    requires
        !b.blank(p),
    ensures
        b.flood_region(p) == set![p],
{
    lemma_floods_to_self(b, p);
    assert forall|c: Position| b.floods_to(p, c) implies c == p by {
        let path = choose|path: Seq<Position>|
            #[trigger] b.flood_path(path) && path[0] == p && path.last() == c;
        if path.len() > 1 {
            assert(b.flood_step(path[0int], path[0int + 1]));
        }
    }
    assert(b.flood_region(p) =~= set![p]);
}

/// The state of a clearing that is under way.
///
/// `now` is the set of open cells so far, and `pending` lists the blank
/// cells among them whose neighbours are still to be looked at: everything
/// opened so far was reached from `from`, and every blank cell opened so
/// far that is not pending has had its covered neighbours opened.
pub open spec fn clearing(
    b: Board,
    from: Position,
    now: Set<Position>,
    pending: Seq<Position>,
) -> bool {
    &&& b.open.subset_of(now)
    &&& now.contains(from)
    &&& forall|p: Position| now.contains(p) && !b.open.contains(p) ==> b.floods_to(from, p)
    &&& forall|i: int|
        0 <= i < pending.len() ==> now.contains(#[trigger] pending[i]) && !b.open.contains(
            pending[i],
        ) && b.blank(pending[i])
    &&& forall|a: Position, c: Position|
        now.contains(a) && !b.open.contains(a) && !pending.contains(a) && #[trigger] b.flood_step(
            a,
            c,
        ) ==> now.contains(c)
}

/// A clearing starts with its first cell, a blank one, open and pending.
pub proof fn lemma_clearing_starts(b: Board, from: Position)
    requires
        b.covered(from),
        b.blank(from),
    ensures
        clearing(b, from, b.open.insert(from), seq![from]),
{
    lemma_floods_to_self(b, from);
    let pending = seq![from];
    assert(pending[0] == from);
    assert forall|a: Position|
        b.open.insert(from).contains(a) && !b.open.contains(a) implies pending.contains(a) by {
        assert(a == from);
    }
}

/// While the neighbours of the blank cell `current` are looked at, a
/// covered neighbour `n` is opened, and is pending from then on if it is
/// blank itself.
pub proof fn lemma_clearing_opens(
    b: Board,
    from: Position,
    now: Set<Position>,
    pending: Seq<Position>,
    current: Position,
    n: Position,
)
    requires
        clearing(b, from, now, pending.push(current)),
        b.flood_step(current, n),
    ensures
        clearing(
            b,
            from,
            now.insert(n),
            (if b.blank(n) {
                pending.push(n)
            } else {
                pending
            }).push(current),
        ),
{
    let before = pending.push(current);
    let after = (if b.blank(n) {
        pending.push(n)
    } else {
        pending
    }).push(current);
    assert(before[pending.len() as int] == current);
    lemma_floods_to_step(b, from, current, n);
    assert forall|a: Position| before.contains(a) implies after.contains(a) by {
        let i = choose|i: int| 0 <= i < before.len() && before[i] == a;
        if i < pending.len() {
            assert(after[i] == a);
        } else {
            assert(after[after.len() - 1] == a);
        }
    }
    assert forall|i: int| 0 <= i < after.len() implies now.insert(n).contains(#[trigger] after[i])
        && !b.open.contains(after[i]) && b.blank(after[i]) by {
        if i < pending.len() {
            assert(before[i] == after[i]);
        }
    }
    assert forall|a: Position, c: Position|
        now.insert(n).contains(a) && !b.open.contains(a) && !after.contains(a)
            && #[trigger] b.flood_step(a, c) implies now.insert(n).contains(c) by {
        if a == n {
            assert(after[pending.len() as int] == n);
        }
    }
}

/// When every covered neighbour of the pending cell `current` is open, the
/// cell is pending no more.
pub proof fn lemma_clearing_visited(
    b: Board,
    from: Position,
    now: Set<Position>,
    pending: Seq<Position>,
    current: Position,
)
    requires
        clearing(b, from, now, pending.push(current)),
        forall|c: Position| #[trigger] b.flood_step(current, c) ==> now.contains(c),
    ensures
        clearing(b, from, now, pending),
{
    let before = pending.push(current);
    assert forall|i: int| 0 <= i < pending.len() implies now.contains(#[trigger] pending[i])
        && !b.open.contains(pending[i]) && b.blank(pending[i]) by {
        assert(before[i] == pending[i]);
    }
    assert forall|a: Position, c: Position|
        now.contains(a) && !b.open.contains(a) && !pending.contains(a) && #[trigger] b.flood_step(
            a,
            c,
        ) implies now.contains(c) by {
        if a != current && before.contains(a) {
            let i = choose|i: int| 0 <= i < before.len() && before[i] == a;
            assert(pending[i] == a);
        }
    }
}

/// When no cell is pending, the clearing has opened exactly its region.
pub proof fn lemma_clearing_done(b: Board, from: Position, now: Set<Position>)
    requires
        b.covered(from),
        clearing(b, from, now, Seq::<Position>::empty()),
    ensures
        now == b.open.union(b.flood_region(from)),
{
    let fresh = now.difference(b.open);
    assert forall|a: Position, c: Position| fresh.contains(a) && #[trigger] b.flood_step(
        a,
        c,
    ) implies fresh.contains(c) by {
        assert(!Seq::<Position>::empty().contains(a));
    }
    lemma_closed_set_holds_region(b, from, fresh);
    assert(now =~= b.open.union(b.flood_region(from)));
}

/// One reveal after others: on a board where a set `u` of covered cells
/// has been opened that is closed under the steps of the clearing,
/// revealing a cell that is still covered leaves open what revealing it on
/// the board before would have left open.
pub proof fn lemma_reveal_after_reveals(b0: Board, b1: Board, u: Set<Position>, n: Position)
    requires
        b1.width == b0.width,
        b1.height == b0.height,
        b1.mines == b0.mines,
        b1.flagged == b0.flagged,
        b1.open == b0.open.union(u),
        forall|a: Position| u.contains(a) ==> b0.covered(a),
        forall|a: Position, c: Position|
            u.contains(a) && #[trigger] b0.flood_step(a, c) ==> u.contains(c),
        b1.covered(n),
    ensures
        b1.open.union(b1.flood_region(n)) == b0.open.union(u.union(b0.flood_region(n))),
{
    // What the later reveal reaches, the earlier one would have reached.
    let r0 = b0.flood_region(n);
    lemma_floods_to_self(b0, n);
    assert forall|a: Position, c: Position| r0.contains(a) && #[trigger] b1.flood_step(
        a,
        c,
    ) implies r0.contains(c) by {
        assert(b0.adjacent_mines(a) == b1.adjacent_mines(a));
        assert(b0.flood_step(a, c));
        lemma_floods_to_step(b0, n, a, c);
    }
    lemma_closed_set_holds_region(b1, n, r0);
    // What the earlier reveal would have reached is open after the later one.
    let t = u.union(b1.flood_region(n));
    lemma_floods_to_self(b1, n);
    assert forall|a: Position, c: Position| t.contains(a) && #[trigger] b0.flood_step(
        a,
        c,
    ) implies t.contains(c) by {
        if !u.contains(a) {
            assert(b0.adjacent_mines(a) == b1.adjacent_mines(a));
            if b1.open.contains(c) {
                assert(u.contains(c));
            } else {
                assert(b1.flood_step(a, c));
                lemma_floods_to_step(b1, n, a, c);
            }
        }
    }
    lemma_closed_set_holds_region(b0, n, t);
    assert(b1.open.union(b1.flood_region(n)) =~= b0.open.union(u.union(b0.flood_region(n))));
}

/// What a chord has opened once the first `k` of the listed neighbours have
/// had their turn: whatever revealing each covered one of them opens.
pub open spec fn chord_progress(b: Board, neighbors: Seq<Position>, k: int) -> Set<Position> {
    Set::new(
        |c: Position|
            exists|i: int|
                0 <= i < k && b.covered(neighbors[i]) && #[trigger] b.floods_to(neighbors[i], c),
    )
}

/// One of the first `k` of the listed neighbours was covered and a mine.
pub open spec fn chord_hit(b: Board, neighbors: Seq<Position>, k: int) -> bool {
    exists|i: int|
        0 <= i < k && b.covered(neighbors[i]) && b.mines.contains(#[trigger] neighbors[i])
}

/// What a chord has opened so far was covered before, and is closed under
/// the steps of the clearing.
pub proof fn lemma_chord_progress_closed(b: Board, neighbors: Seq<Position>, k: int)
    requires
        b.mines.finite(),
    ensures
        forall|a: Position| chord_progress(b, neighbors, k).contains(a) ==> b.covered(a),
        forall|a: Position, c: Position|
            chord_progress(b, neighbors, k).contains(a) && #[trigger] b.flood_step(a, c)
                ==> chord_progress(b, neighbors, k).contains(c),
{
    let u = chord_progress(b, neighbors, k);
    assert forall|a: Position| u.contains(a) implies b.covered(a) by {
        let i = choose|i: int|
            0 <= i < k && b.covered(neighbors[i]) && #[trigger] b.floods_to(neighbors[i], a);
        if a != neighbors[i] {
            lemma_flooded_cell(b, neighbors[i], a);
        }
    }
    assert forall|a: Position, c: Position| u.contains(a) && #[trigger] b.flood_step(
        a,
        c,
    ) implies u.contains(c) by {
        let i = choose|i: int|
            0 <= i < k && b.covered(neighbors[i]) && #[trigger] b.floods_to(neighbors[i], a);
        lemma_floods_to_step(b, neighbors[i], a, c);
    }
}

/// A neighbour that was not covered adds nothing to a chord.
pub proof fn lemma_chord_skips(b: Board, neighbors: Seq<Position>, k: int)
    requires
        0 <= k < neighbors.len(),
        !b.covered(neighbors[k]),
    ensures
        chord_progress(b, neighbors, k + 1) == chord_progress(b, neighbors, k),
        chord_hit(b, neighbors, k + 1) == chord_hit(b, neighbors, k),
{
    assert(chord_progress(b, neighbors, k + 1) =~= chord_progress(b, neighbors, k));
}

/// A covered neighbour that an earlier turn of the chord has opened adds
/// nothing either: it is no mine, and what revealing it opens is open.
pub proof fn lemma_chord_meets_open(b: Board, neighbors: Seq<Position>, k: int)
    requires
        b.mines.finite(),
        neighbors.no_duplicates(),
        0 <= k < neighbors.len(),
        chord_progress(b, neighbors, k).contains(neighbors[k]),
    ensures
        chord_progress(b, neighbors, k + 1) == chord_progress(b, neighbors, k),
        chord_hit(b, neighbors, k + 1) == chord_hit(b, neighbors, k),
{
    let n = neighbors[k];
    let u = chord_progress(b, neighbors, k);
    let i = choose|i: int|
        0 <= i < k && b.covered(neighbors[i]) && #[trigger] b.floods_to(neighbors[i], n);
    lemma_flooded_cell(b, neighbors[i], n);
    lemma_chord_progress_closed(b, neighbors, k);
    lemma_closed_set_holds_region(b, n, u);
    assert forall|c: Position| chord_progress(b, neighbors, k + 1).contains(c) implies u.contains(
        c,
    ) by {
        let j = choose|j: int|
            0 <= j < k + 1 && b.covered(neighbors[j]) && #[trigger] b.floods_to(neighbors[j], c);
        if j == k {
            assert(b.flood_region(n).contains(c));
        }
    }
    assert(chord_progress(b, neighbors, k + 1) =~= u);
}

/// A neighbour that is still covered when its turn comes is revealed, and
/// the chord has then opened what the turns so far open one by one.
pub proof fn lemma_chord_reveals(b0: Board, b1: Board, neighbors: Seq<Position>, k: int)
    requires
        b0.mines.finite(),
        0 <= k < neighbors.len(),
        b1.width == b0.width,
        b1.height == b0.height,
        b1.mines == b0.mines,
        b1.flagged == b0.flagged,
        b1.open == b0.open.union(chord_progress(b0, neighbors, k)),
        b1.covered(neighbors[k]),
    ensures
        b0.covered(neighbors[k]),
        b1.open.union(b1.flood_region(neighbors[k])) == b0.open.union(
            chord_progress(b0, neighbors, k + 1),
        ),
        chord_hit(b0, neighbors, k + 1) == (chord_hit(b0, neighbors, k) || b0.mines.contains(
            neighbors[k],
        )),
{
    let n = neighbors[k];
    let u = chord_progress(b0, neighbors, k);
    lemma_chord_progress_closed(b0, neighbors, k);
    lemma_reveal_after_reveals(b0, b1, u, n);
    assert forall|c: Position| b0.flood_region(n).contains(c) implies chord_progress(
        b0,
        neighbors,
        k + 1,
    ).contains(c) by {
        assert(b0.floods_to(neighbors[k], c));
    }
    assert(chord_progress(b0, neighbors, k + 1) =~= u.union(b0.flood_region(n)));
}

/// When every neighbour has had its turn, the chord has opened its region.
pub proof fn lemma_chord_done(b: Board, p: Position, neighbors: Seq<Position>)
    requires
        forall|q: Position|
            #![trigger neighbors.contains(q)]
            #![trigger adjacent(p, q)]
            neighbors.contains(q) <==> b.has(q) && adjacent(p, q),
    ensures
        chord_progress(b, neighbors, neighbors.len() as int) == b.chord_region(p),
        chord_hit(b, neighbors, neighbors.len() as int) == b.chord_hits_mine(p),
{
    let k = neighbors.len() as int;
    assert forall|c: Position| chord_progress(b, neighbors, k).contains(c) implies b.chord_region(
        p,
    ).contains(c) by {
        let i = choose|i: int|
            0 <= i < k && b.covered(neighbors[i]) && #[trigger] b.floods_to(neighbors[i], c);
        assert(neighbors.contains(neighbors[i]));
    }
    assert forall|c: Position| b.chord_region(p).contains(c) implies chord_progress(
        b,
        neighbors,
        k,
    ).contains(c) by {
        let n = choose|n: Position| adjacent(p, n) && b.covered(n) && #[trigger] b.floods_to(n, c);
        assert(neighbors.contains(n));
        let i = choose|i: int| 0 <= i < neighbors.len() && neighbors[i] == n;
        assert(b.floods_to(neighbors[i], c));
    }
    assert(chord_progress(b, neighbors, k) =~= b.chord_region(p));
    if chord_hit(b, neighbors, k) {
        let i = choose|i: int|
            0 <= i < k && b.covered(neighbors[i]) && b.mines.contains(#[trigger] neighbors[i]);
        assert(neighbors.contains(neighbors[i]));
        assert(b.mines.contains(neighbors[i]));
    }
    if b.chord_hits_mine(p) {
        let n = choose|n: Position|
            adjacent(p, n) && b.covered(n) && #[trigger] b.mines.contains(n);
        assert(neighbors.contains(n));
        let i = choose|i: int| 0 <= i < neighbors.len() && neighbors[i] == n;
        assert(b.mines.contains(neighbors[i]));
    }
}

/// Laying open no cell changes nothing.
pub proof fn lemma_laid_open_nothing(b: Board, shown: Set<Position>)
    requires
        shown == Set::<Position>::empty(),
    ensures
        b.laid_open(shown) == b,
{
    assert(b.open.union(shown) =~= b.open);
    assert(b.flagged.difference(shown) =~= b.flagged);
}

/// Laying open one cell more opens it, takes its flag off, and reveals it
/// if it is a mine that was not open.
pub proof fn lemma_laid_open_one_more(b: Board, shown: Set<Position>, p: Position)
    ensures
        b.laid_open(shown.insert(p)) == ({
            let so_far = b.laid_open(shown);
            Board {
                open: so_far.open.insert(p),
                flagged: so_far.flagged.remove(p),
                lost: so_far.lost || (!b.open.contains(p) && b.mines.contains(p)),
                ..so_far
            }
        }),
{
    let so_far = b.laid_open(shown);
    let more = b.laid_open(shown.insert(p));
    assert(more.open =~= so_far.open.insert(p));
    assert(more.flagged =~= so_far.flagged.remove(p));
    if more.lost && !so_far.lost {
        let q = choose|q: Position|
            #[trigger] shown.insert(p).contains(q) && !b.open.contains(q) && b.mines.contains(q);
        assert(shown.contains(q) || q == p);
    }
    if !b.open.contains(p) && b.mines.contains(p) {
        assert(shown.insert(p).contains(p));
    }
    if so_far.lost && !b.lost {
        let q = choose|q: Position|
            #[trigger] shown.contains(q) && !b.open.contains(q) && b.mines.contains(q);
        assert(shown.insert(p).contains(q));
    }
}

} // verus!
