//! Whole-board validation at win-claim time: the disclosed 100-cell board
//! (padded to 128 table entries) must encode a legal fleet, and the Merkle
//! root re-derived over all 128 leaves must equal the claimant's
//! commitment.
//!
//! Cells are row-major on a 10x10 grid: cell `i` sits at row `i / 10`,
//! column `i % 10`. A ship is a maximal set of placed cells connected
//! through the four orthogonal directions. The validator checks, once per
//! ship and at its lowest-indexed cell (the seed where the scan first
//! meets it), that no placed cell touches that seed diagonally; every ship
//! must have 2 to 5 cells, and the fleet must consist of exactly one ship
//! of length 2, two of length 3, one of length 4 and one of length 5
//! (17 placed cells in all).

use vstd::prelude::*;
use vstd::set_lib::lemma_int_range;
use vstd::set_lib::lemma_len_subset;
use vstd::set_lib::set_int_range;

use crate::errors::CustomError;
use crate::hashing::leaf_digest;
use crate::hashing::BoardHash;

verus! {

/// The cells covered by the fixed fleet: one ship of length 2, two of
/// length 3, one of length 4 and one of length 5.
pub const FLEET_TOTAL_CELLS: u8 = 17;

/// One entry of a fully disclosed board table.
#[derive(Clone, Copy, PartialEq, Eq, Structural, Debug)]
pub struct ProofField {
    pub ship_placed: bool,
}

/// The ship flags claimed by a table.
pub open spec fn ships_of(table: Seq<ProofField>) -> Seq<bool> {
    Seq::new(table.len(), |i: int| table[i].ship_placed)
}

/// Whether `i` is a board cell (the first 100 indices) with a ship on it.
pub open spec fn cell_placed(t: Seq<bool>, i: int) -> bool {
    0 <= i < 100 && t[i]
}

/// Orthogonal adjacency of two board cells: `a + 1` and `a - 1` are the
/// same-row neighbours (unless a row boundary lies between), `a + 10` and
/// `a - 10` the same-column neighbours.
pub open spec fn adjacent(a: int, b: int) -> bool {
    &&& 0 <= a < 100
    &&& 0 <= b < 100
    &&& {
        ||| b == a + 10
        ||| a == b + 10
        ||| (b == a + 1 && a % 10 != 9)
        ||| (a == b + 1 && b % 10 != 9)
    }
}

/// Diagonal adjacency of two board cells: one row and one column apart.
pub open spec fn diag_adjacent(a: int, b: int) -> bool {
    &&& 0 <= a < 100
    &&& 0 <= b < 100
    &&& {
        ||| (b == a + 11 && a % 10 != 9)
        ||| (b == a + 9 && a % 10 != 0)
        ||| (a == b + 11 && b % 10 != 9)
        ||| (a == b + 9 && b % 10 != 0)
    }
}

/// A chain of placed cells, each orthogonally adjacent to the next.
pub open spec fn is_ship_path(t: Seq<bool>, p: Seq<int>) -> bool {
    &&& p.len() >= 1
    &&& forall|i: int| 0 <= i < p.len() ==> cell_placed(t, #[trigger] p[i])
    &&& forall|i: int| 0 <= i < p.len() - 1 ==> adjacent(#[trigger] p[i], p[i + 1])
}

/// Two placed cells joined by a chain of orthogonally adjacent placed
/// cells; this is the "same ship" relation. Kept opaque: all reasoning
/// about it goes through the lemmas below.
#[verifier::opaque]
pub open spec fn connected(t: Seq<bool>, a: int, b: int) -> bool {
    exists|p: Seq<int>| is_ship_path(t, p) && p.first() == a && p.last() == b
}

/// The ship containing cell `a`: every cell connected to it.
pub open spec fn component(t: Seq<bool>, a: int) -> Set<int> {
    Set::new(|b: int| connected(t, a, b))
}

/// The lowest-indexed cell of a ship: the cell at which an index-order
/// scan first meets that ship.
pub open spec fn is_seed(t: Seq<bool>, a: int) -> bool {
    cell_placed(t, a) && forall|b: int| #[trigger] connected(t, a, b) ==> a <= b
}

/// No placed cell touches `a` diagonally (checked once per ship, at its
/// seed cell only).
pub open spec fn seed_diag_clear(t: Seq<bool>, a: int) -> bool {
    forall|b: int| cell_placed(t, b) ==> !(#[trigger] diag_adjacent(a, b))
}

/// The seeds of the ships whose length is below `hi` in scan order.
pub open spec fn seeds_below(t: Seq<bool>, len: int, hi: int) -> Set<int> {
    Set::new(|a: int| 0 <= a < hi && is_seed(t, a) && component(t, a).len() == len)
}

/// The seeds of the ships of exactly `len` cells.
pub open spec fn seeds_of_length(t: Seq<bool>, len: int) -> Set<int> {
    Set::new(|a: int| is_seed(t, a) && component(t, a).len() == len)
}

/// A legal fleet: every ship's seed cell is free of diagonal contact,
/// every ship has 2 to 5 cells, and there are exactly one ship of length
/// 2, two of length 3, one of length 4 and one of length 5.
pub open spec fn legal_fleet(t: Seq<bool>) -> bool {
    &&& forall|a: int| #[trigger] is_seed(t, a) ==> seed_diag_clear(t, a) && 2 <= component(
        t,
        a,
    ).len() <= 5
    &&& seeds_of_length(t, 2).len() == 1
    &&& seeds_of_length(t, 3).len() == 2
    &&& seeds_of_length(t, 4).len() == 1
    &&& seeds_of_length(t, 5).len() == 1
}

/// The leaf digests of a disclosed table: cells 0..99 as claimed, the
/// padding entries 100..127 forced to carry no ship.
pub open spec fn table_leaves(t: Seq<bool>) -> Seq<Seq<u8>> {
    Seq::new(128, |i: int| leaf_digest(i as u8, if i < 100 {
        t[i]
    } else {
        false
    }))
}

/// The Merkle root that a disclosed table re-derives to.
pub open spec fn table_root(t: Seq<bool>) -> Seq<u8> {
    crate::merkle::root_of(table_leaves(t))
}

pub proof fn lemma_connected_placed(t: Seq<bool>, a: int, b: int)
    requires
        connected(t, a, b),
    ensures
        cell_placed(t, a),
        cell_placed(t, b),
{
    reveal(connected);
    let p = choose|p: Seq<int>| is_ship_path(t, p) && p.first() == a && p.last() == b;
    assert(cell_placed(t, p[0]));
    assert(cell_placed(t, p[p.len() - 1]));
}

pub proof fn lemma_connected_refl(t: Seq<bool>, a: int)
    requires
        cell_placed(t, a),
    ensures
        connected(t, a, a),
{
    reveal(connected);
    let p = seq![a];
    assert(is_ship_path(t, p) && p.first() == a && p.last() == a);
}

pub proof fn lemma_connected_sym(t: Seq<bool>, a: int, b: int)
    requires
        connected(t, a, b),
    ensures
        connected(t, b, a),
{
    reveal(connected);
    let p = choose|p: Seq<int>| is_ship_path(t, p) && p.first() == a && p.last() == b;
    let q = Seq::new(p.len(), |i: int| p[p.len() - 1 - i]);
    assert forall|i: int| 0 <= i < q.len() implies cell_placed(t, #[trigger] q[i]) by {
        assert(cell_placed(t, p[p.len() - 1 - i]));
    }
    assert forall|i: int| 0 <= i < q.len() - 1 implies #[trigger] adjacent(q[i], q[i + 1]) by {
        let j = p.len() - 2 - i;
        assert(adjacent(p[j], p[j + 1]));
        assert(q[i] == p[j + 1] && q[i + 1] == p[j]);
    }
    assert(is_ship_path(t, q) && q.first() == b && q.last() == a);
}

pub proof fn lemma_connected_trans(t: Seq<bool>, a: int, b: int, c: int)
    requires
        connected(t, a, b),
        connected(t, b, c),
    ensures
        connected(t, a, c),
{
    reveal(connected);
    let p1 = choose|p: Seq<int>| is_ship_path(t, p) && p.first() == a && p.last() == b;
    let p2 = choose|p: Seq<int>| is_ship_path(t, p) && p.first() == b && p.last() == c;
    let q = p1 + p2.skip(1);
    assert forall|i: int| 0 <= i < q.len() implies cell_placed(t, #[trigger] q[i]) by {
        if i < p1.len() {
            assert(q[i] == p1[i]);
        } else {
            assert(q[i] == p2[i - p1.len() + 1]);
            assert(cell_placed(t, p2[i - p1.len() + 1]));
        }
    }
    assert forall|i: int| 0 <= i < q.len() - 1 implies #[trigger] adjacent(q[i], q[i + 1]) by {
        if i < p1.len() - 1 {
            assert(q[i] == p1[i] && q[i + 1] == p1[i + 1]);
            assert(adjacent(p1[i], p1[i + 1]));
        } else if i == p1.len() - 1 {
            assert(q[i] == p1[p1.len() - 1]);
            assert(q[i + 1] == p2[1]);
            assert(adjacent(p2[0], p2[1]));
        } else {
            let j = i - p1.len() + 1;
            assert(q[i] == p2[j] && q[i + 1] == p2[j + 1]);
            assert(adjacent(p2[j], p2[j + 1]));
        }
    }
    if p2.len() == 1 {
        assert(q =~= p1);
        assert(q.last() == b == c);
    } else {
        assert(q.last() == p2[p2.len() - 1]);
    }
    assert(is_ship_path(t, q) && q.first() == a && q.last() == c);
}

pub proof fn lemma_connected_step(t: Seq<bool>, a: int, b: int, c: int)
    requires
        connected(t, a, b),
        adjacent(b, c),
        cell_placed(t, c),
    ensures
        connected(t, a, c),
{
    reveal(connected);
    let p = choose|p: Seq<int>| is_ship_path(t, p) && p.first() == a && p.last() == b;
    let q = p.push(c);
    assert forall|i: int| 0 <= i < q.len() implies cell_placed(t, #[trigger] q[i]) by {
        if i < p.len() {
            assert(q[i] == p[i]);
        } else {
            assert(q[i] == c);
        }
    }
    assert forall|i: int| 0 <= i < q.len() - 1 implies #[trigger] adjacent(q[i], q[i + 1]) by {
        if i < p.len() - 1 {
            assert(q[i] == p[i] && q[i + 1] == p[i + 1]);
            assert(adjacent(p[i], p[i + 1]));
        } else {
            assert(q[i] == p[p.len() - 1] && q[i + 1] == c);
        }
    }
    assert(is_ship_path(t, q) && q.first() == a && q.last() == c);
}

proof fn lemma_path_in_closed(t: Seq<bool>, s: Set<int>, p: Seq<int>)
    requires
        is_ship_path(t, p),
        s.contains(p.first()),
        forall|c: int, d: int|
            s.contains(c) && #[trigger] adjacent(c, d) && cell_placed(t, d) ==> s.contains(d),
    ensures
        s.contains(p.last()),
    decreases p.len(),
{
    if p.len() > 1 {
        assert(adjacent(p[0], p[1]));
        assert(cell_placed(t, p[1]));
        assert(s.contains(p[1]));
        let q = p.skip(1);
        assert forall|i: int| 0 <= i < q.len() implies cell_placed(t, #[trigger] q[i]) by {
            assert(q[i] == p[i + 1]);
            assert(cell_placed(t, p[i + 1]));
        }
        assert forall|i: int| 0 <= i < q.len() - 1 implies #[trigger] adjacent(q[i], q[i + 1]) by {
            assert(q[i] == p[i + 1] && q[i + 1] == p[i + 2]);
            assert(adjacent(p[i + 1], p[i + 2]));
        }
        assert(is_ship_path(t, q));
        lemma_path_in_closed(t, s, q);
        assert(q.last() == p.last());
    }
}

/// A set that contains cell `a` and is closed under stepping to adjacent
/// placed cells contains the whole ship of `a`.
pub proof fn lemma_component_in_closed(t: Seq<bool>, s: Set<int>, a: int)
    requires
        s.contains(a),
        forall|c: int, d: int|
            s.contains(c) && #[trigger] adjacent(c, d) && cell_placed(t, d) ==> s.contains(d),
    ensures
        forall|b: int| #[trigger] connected(t, a, b) ==> s.contains(b),
{
    reveal(connected);
    assert forall|b: int| #[trigger] connected(t, a, b) implies s.contains(b) by {
        let p = choose|p: Seq<int>| is_ship_path(t, p) && p.first() == a && p.last() == b;
        lemma_path_in_closed(t, s, p);
    }
}

/// Whether the sequence holds cell `d`.
pub open spec fn contains_cell(s: Seq<usize>, d: int) -> bool {
    exists|k: int| 0 <= k < s.len() && #[trigger] s[k] as int == d
}

/// A set of board cells is finite, with at most 100 members.
pub proof fn lemma_cells_finite(s: Set<int>)
    requires
        forall|c: int| #[trigger] s.contains(c) ==> 0 <= c < 100,
    ensures
        s.finite(),
        s.len() <= 100,
{
    lemma_int_range(0, 100);
    assert(s.subset_of(set_int_range(0, 100)));
    lemma_len_subset(s, set_int_range(0, 100));
}

/// Flood-fills the ship containing `seed` through the four orthogonal
/// directions with an explicit stack, marking its cells visited, and
/// returns the ship's cell count. Already-visited cells must belong to
/// other ships (they are never re-entered).
#[verifier::rlimit(100)]
fn flood_fill(table: &[ProofField; 128], visited: &mut [bool; 100], seed: usize) -> (count: usize)
    requires
        seed < 100,
        cell_placed(ships_of(table@), seed as int),
        !old(visited)@[seed as int],
        forall|c: int|
            0 <= c < 100 && old(visited)@[c] ==> !connected(ships_of(table@), seed as int, c),
    ensures
        forall|c: int|
            0 <= c < 100 ==> (final(visited)@[c] <==> (old(visited)@[c] || connected(
                ships_of(table@),
                seed as int,
                c,
            ))),
        count == component(ships_of(table@), seed as int).len(),
{
    let ghost t = ships_of(table@);
    let ghost v_old = visited@;
    let mut stack: Vec<usize> = Vec::new();
    stack.push(seed);
    let mut count: usize = 0;
    let ghost mut added: Set<int> = Set::empty();
    proof {
        lemma_connected_refl(t, seed as int);
        assert(stack@[0] == seed);
        assert(contains_cell(stack@, seed as int));
    }
    while stack.len() > 0
        invariant
            seed < 100,
            t == ships_of(table@),
            cell_placed(t, seed as int),
            !v_old[seed as int],
            forall|c: int| 0 <= c < 100 && v_old[c] ==> !connected(t, seed as int, c),
            forall|k: int|
                0 <= k < stack@.len() ==> (#[trigger] stack@[k]) < 100 && connected(
                    t,
                    seed as int,
                    stack@[k] as int,
                ),
            added.finite(),
            count == added.len(),
            forall|c: int| #[trigger] added.contains(c) ==> 0 <= c < 100 && connected(
                t,
                seed as int,
                c,
            ),
            forall|c: int| 0 <= c < 100 ==> (visited@[c] <==> (v_old[c] || added.contains(c))),
            added.contains(seed as int) || contains_cell(stack@, seed as int),
            forall|c: int, d: int|
                added.contains(c) && #[trigger] adjacent(c, d) && cell_placed(t, d)
                    ==> added.contains(d) || contains_cell(stack@, d),
        decreases 100 - added.len(), stack@.len(),
    {
        proof {
            lemma_cells_finite(added);
        }
        let ghost stack_before = stack@;
        let current = stack.pop().unwrap();
        proof {
            assert(stack_before[stack_before.len() - 1] == current);
            assert(connected(t, seed as int, current as int));
            assert(stack@ =~= stack_before.drop_last());
            lemma_contains_pop(stack_before);
        }
        if !visited[current] {
            visited[current] = true;
            proof {
                vstd::set::axiom_set_insert_len(added, current as int);
                added = added.insert(current as int);
                lemma_cells_finite(added);
            }
            count += 1;
            if current >= 10 {
                let n = current - 10;
                if table[n].ship_placed && !visited[n] {
                    proof {
                        assert(adjacent(current as int, n as int));
                        lemma_connected_step(t, seed as int, current as int, n as int);
                        lemma_contains_push(stack@, n);
                    }
                    stack.push(n);
                }
            }
            if current < 90 {
                let n = current + 10;
                if table[n].ship_placed && !visited[n] {
                    proof {
                        assert(adjacent(current as int, n as int));
                        lemma_connected_step(t, seed as int, current as int, n as int);
                        lemma_contains_push(stack@, n);
                    }
                    stack.push(n);
                }
            }
            if current % 10 != 0 {
                let n = current - 1;
                if table[n].ship_placed && !visited[n] {
                    proof {
                        assert(adjacent(current as int, n as int));
                        lemma_connected_step(t, seed as int, current as int, n as int);
                        lemma_contains_push(stack@, n);
                    }
                    stack.push(n);
                }
            }
            if current % 10 != 9 {
                let n = current + 1;
                if table[n].ship_placed && !visited[n] {
                    proof {
                        assert(adjacent(current as int, n as int));
                        lemma_connected_step(t, seed as int, current as int, n as int);
                        lemma_contains_push(stack@, n);
                    }
                    stack.push(n);
                }
            }
            proof {
                // every placed neighbour of `current` is now visited or
                // waiting on the stack
                assert forall|d: int|
                    #[trigger] adjacent(current as int, d) && cell_placed(t, d) implies visited@[d]
                    || contains_cell(stack@, d) by {
                    if d == current as int - 10 {
                        assert(current >= 10);
                    } else if d == current as int + 10 {
                        assert(current < 90);
                    } else if d == current as int - 1 {
                        assert(current % 10 != 0);
                    } else {
                        assert(d == current as int + 1 && current % 10 != 9);
                    }
                }
                assert forall|c: int, d: int|
                    added.contains(c) && #[trigger] adjacent(c, d) && cell_placed(t, d) implies
                    added.contains(d) || contains_cell(stack@, d) by {
                    if c == current as int {
                        lemma_connected_step(t, seed as int, current as int, d);
                        assert(!v_old[d]);
                    }
                }
            }
        } else {
            proof {
                assert(added.contains(current as int));
            }
        }
    }
    proof {
        lemma_component_in_closed(t, added, seed as int);
        assert(component(t, seed as int) =~= added);
    }
    count
}

/// Whether the first 100 table entries encode a legal fleet: scan the
/// cells in index order; at each unvisited placed cell (a ship's seed)
/// reject on any placed diagonal neighbour of the seed, flood-fill the
/// ship and reject on a length outside 2..=5; finally require exactly one
/// ship of length 2, two of length 3, one of length 4 and one of length
/// 5, covering 17 cells.
#[verifier::rlimit(100)]
pub fn validate_fleet(table: &[ProofField; 128]) -> (ok: bool)
    ensures
        ok == legal_fleet(ships_of(table@)),
{
    let ghost t = ships_of(table@);
    let mut visited: [bool; 100] = [false;100];
    let mut count2: usize = 0;
    let mut count3: usize = 0;
    let mut count4: usize = 0;
    let mut count5: usize = 0;
    let mut total: usize = 0;
    let mut index: usize = 0;
    proof {
        assert(seeds_below(t, 2, 0) =~= Set::<int>::empty());
        assert(seeds_below(t, 3, 0) =~= Set::<int>::empty());
        assert(seeds_below(t, 4, 0) =~= Set::<int>::empty());
        assert(seeds_below(t, 5, 0) =~= Set::<int>::empty());
    }
    while index < 100
        invariant
            t == ships_of(table@),
            index <= 100,
            forall|c: int|
                0 <= c < 100 ==> ((#[trigger] visited@[c]) <==> (cell_placed(t, c)
                    && exists|s: int| 0 <= s < index as int && connected(t, c, s))),
            forall|a: int|
                0 <= a < index as int && #[trigger] is_seed(t, a) ==> seed_diag_clear(t, a) && 2
                    <= component(t, a).len() <= 5,
            count2 == seeds_below(t, 2, index as int).len(),
            count3 == seeds_below(t, 3, index as int).len(),
            count4 == seeds_below(t, 4, index as int).len(),
            count5 == seeds_below(t, 5, index as int).len(),
            count2 <= 100 && count3 <= 100 && count4 <= 100 && count5 <= 100,
            total == 2 * count2 + 3 * count3 + 4 * count4 + 5 * count5,
        decreases 100 - index,
    {
        if table[index].ship_placed && !visited[index] {
            proof {
                assert(cell_placed(t, index as int));
                assert forall|b: int| #[trigger] connected(t, index as int, b) implies index as int
                    <= b by {
                    lemma_connected_placed(t, index as int, b);
                    if b < index as int {
                        assert(visited@[index as int]);
                    }
                }
                assert(is_seed(t, index as int));
            }
            if index >= 10 && index % 10 != 0 {
                let d = index - 11;
                if table[d].ship_placed {
                    proof {
                        assert(diag_adjacent(index as int, d as int));
                        assert(!legal_fleet(t));
                    }
                    return false;
                }
            }
            if index >= 10 && index % 10 != 9 {
                let d = index - 9;
                if table[d].ship_placed {
                    proof {
                        assert(diag_adjacent(index as int, d as int));
                        assert(!legal_fleet(t));
                    }
                    return false;
                }
            }
            if index < 90 && index % 10 != 0 {
                let d = index + 9;
                if table[d].ship_placed {
                    proof {
                        assert(diag_adjacent(index as int, d as int));
                        assert(!legal_fleet(t));
                    }
                    return false;
                }
            }
            if index < 90 && index % 10 != 9 {
                let d = index + 11;
                if table[d].ship_placed {
                    proof {
                        assert(diag_adjacent(index as int, d as int));
                        assert(!legal_fleet(t));
                    }
                    return false;
                }
            }
            proof {
                assert forall|b: int| cell_placed(t, b) implies !(#[trigger] diag_adjacent(
                    index as int,
                    b,
                )) by {
                    if diag_adjacent(index as int, b) {
                        if b == index as int - 11 {
                            assert(index >= 10 && index % 10 != 0);
                        } else if b == index as int - 9 {
                            assert(index >= 10 && index % 10 != 9);
                        } else if b == index as int + 9 {
                            assert(index < 90 && index % 10 != 0);
                        } else {
                            assert(b == index as int + 11 && index < 90 && index % 10 != 9);
                        }
                    }
                }
                assert(seed_diag_clear(t, index as int));
                assert forall|c: int| 0 <= c < 100 && visited@[c] implies !connected(
                    t,
                    index as int,
                    c,
                ) by {
                    if connected(t, index as int, c) {
                        let s = choose|s: int| 0 <= s < index as int && connected(t, c, s);
                        lemma_connected_trans(t, index as int, c, s);
                        assert(visited@[index as int]);
                    }
                }
            }
            let ghost v_before = visited@;
            let size = flood_fill(table, &mut visited, index);
            proof {
                assert forall|c: int| 0 <= c < 100 implies ((#[trigger] visited@[c]) <==> (
                cell_placed(t, c) && exists|s: int|
                    0 <= s < index as int + 1 && connected(t, c, s))) by {
                    if visited@[c] && !v_before[c] {
                        lemma_connected_placed(t, index as int, c);
                        lemma_connected_sym(t, index as int, c);
                        assert(connected(t, c, index as int));
                    }
                    if !visited@[c] && cell_placed(t, c) {
                        if exists|s: int| 0 <= s < index as int + 1 && connected(t, c, s) {
                            let s = choose|s: int|
                                0 <= s < index as int + 1 && connected(t, c, s);
                            if s == index as int {
                                lemma_connected_sym(t, c, index as int);
                            } else {
                                assert(v_before[c]);
                            }
                        }
                    }
                }
            }
            if size < 2 || size > 5 {
                proof {
                    assert(!legal_fleet(t));
                }
                return false;
            }
            proof {
                let li = index as int;
                let sz = size as int;
                lemma_cells_finite(seeds_below(t, 2, li));
                lemma_cells_finite(seeds_below(t, 3, li));
                lemma_cells_finite(seeds_below(t, 4, li));
                lemma_cells_finite(seeds_below(t, 5, li));
                assert(seeds_below(t, sz, li + 1) =~= seeds_below(t, sz, li).insert(li));
                vstd::set::axiom_set_insert_len(seeds_below(t, sz, li), li);
                lemma_cells_finite(seeds_below(t, sz, li + 1));
                assert forall|len: int| 2 <= len <= 5 && len != sz implies seeds_below(
                    t,
                    len,
                    li + 1,
                ) =~= seeds_below(t, len, li) by {}
            }
            if size == 2 {
                count2 += 1;
            } else if size == 3 {
                count3 += 1;
            } else if size == 4 {
                count4 += 1;
            } else {
                count5 += 1;
            }
            total += size;
        } else {
            proof {
                let li = index as int;
                assert(!is_seed(t, li)) by {
                    if is_seed(t, li) {
                        assert(cell_placed(t, li));
                        assert(visited@[li]);
                        let s = choose|s: int| 0 <= s < li && connected(t, li, s);
                        assert(connected(t, li, s));
                    }
                }
                assert forall|len: int| 2 <= len <= 5 implies seeds_below(t, len, li + 1)
                    =~= seeds_below(t, len, li) by {}
                assert forall|c: int| 0 <= c < 100 implies ((#[trigger] visited@[c]) <==> (
                cell_placed(t, c) && exists|s: int| 0 <= s < li + 1 && connected(t, c, s))) by {
                    if !visited@[c] && cell_placed(t, c) {
                        if exists|s: int| 0 <= s < li + 1 && connected(t, c, s) {
                            let s = choose|s: int| 0 <= s < li + 1 && connected(t, c, s);
                            if s == li {
                                lemma_connected_placed(t, c, li);
                                assert(visited@[li]);
                                let s2 = choose|s2: int| 0 <= s2 < li && connected(t, li, s2);
                                lemma_connected_trans(t, c, li, s2);
                            }
                        }
                    }
                }
            }
        }
        index += 1;
    }
    proof {
        assert(seeds_of_length(t, 2) =~= seeds_below(t, 2, 100));
        assert(seeds_of_length(t, 3) =~= seeds_below(t, 3, 100));
        assert(seeds_of_length(t, 4) =~= seeds_below(t, 4, 100));
        assert(seeds_of_length(t, 5) =~= seeds_below(t, 5, 100));
    }
    if count2 == 1 && count3 == 2 && count4 == 1 && count5 == 1 {
        if total != FLEET_TOTAL_CELLS as usize {
            // unreachable: that tally always covers exactly 17 cells
            return false;
        }
        proof {
            assert forall|a: int| #[trigger] is_seed(t, a) implies seed_diag_clear(t, a) && 2
                <= component(t, a).len() <= 5 by {
                assert(cell_placed(t, a));
            }
            assert(legal_fleet(t));
        }
        true
    } else {
        false
    }
}

/// Validates a fully disclosed board against the claimant's committed
/// root: the fleet must be legal, and the Merkle root re-derived over all
/// 128 leaves (with the padding cells 100..127 forced empty) must equal
/// `expected_root`. Every failure is the single `InvalidFinalBoard`
/// rejection.
pub fn verify_table(table: &[ProofField; 128], expected_root: &BoardHash) -> (r: Result<
    (),
    CustomError,
>)
    ensures
        r is Ok <==> legal_fleet(ships_of(table@)) && table_root(ships_of(table@))
            == expected_root@,
        r is Err ==> r == Err::<(), CustomError>(CustomError::InvalidFinalBoard),
{
    let ghost t = ships_of(table@);
    if !validate_fleet(table) {
        return Err(CustomError::InvalidFinalBoard);
    }
    let mut leaves: Vec<BoardHash> = Vec::new();
    let mut i: usize = 0;
    while i < 128
        invariant
            t == ships_of(table@),
            i <= 128,
            leaves@.len() == i as int,
            forall|j: int| 0 <= j < i as int ==> (#[trigger] leaves@[j])@ == table_leaves(t)[j],
        decreases 128 - i,
    {
        let ship = if i < 100 {
            table[i].ship_placed
        } else {
            false
        };
        let leaf = crate::hashing::hash_leaf(
            &crate::hashing::GameField { index: i as u8, ship_placed: ship },
        );
        leaves.push(leaf);
        i += 1;
    }
    proof {
        assert(crate::merkle::digests_of(leaves@) =~= table_leaves(t));
    }
    let root = crate::merkle::build_root(&leaves);
    if crate::hashing::hashes_equal(&root, expected_root) {
        Ok(())
    } else {
        Err(CustomError::InvalidFinalBoard)
    }
}

proof fn lemma_contains_push(s: Seq<usize>, n: usize)
    ensures
        contains_cell(s.push(n), n as int),
        forall|d: int| #[trigger] contains_cell(s, d) ==> contains_cell(s.push(n), d),
{
    assert(s.push(n)[s.len() as int] == n);
    assert forall|d: int| #[trigger] contains_cell(s, d) implies contains_cell(s.push(n), d) by {
        let k = choose|k: int| 0 <= k < s.len() && (#[trigger] s[k]) as int == d;
        assert(s.push(n)[k] == s[k]);
    }
}

proof fn lemma_contains_pop(s: Seq<usize>)
    requires
        s.len() >= 1,
    ensures
        forall|d: int|
            #[trigger] contains_cell(s, d) ==> d == s.last() as int || contains_cell(
                s.drop_last(),
                d,
            ),
{
    assert forall|d: int|
        #[trigger] contains_cell(s, d) && d != s.last() as int implies contains_cell(
        s.drop_last(),
        d,
    ) by {
        let k = choose|k: int| 0 <= k < s.len() && (#[trigger] s[k]) as int == d;
        assert(k < s.len() - 1);
        assert(s.drop_last()[k] == s[k]);
    }
}

} // verus!
