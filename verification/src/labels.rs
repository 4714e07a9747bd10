//! Labels: every block carries the first cell of its group.
//!
//! A group is a largest set of blocks of one colour in which every block
//! can be reached from every other by steps between cells that share an
//! edge. Its leader is the member that comes first when the grid is read row
//! by row from the top.

use vstd::prelude::*;

use crate::board::Grid;
use crate::cell::{Cell, CellType};
use crate::game::{Game, GameState};
use crate::geometry::{lemma_rank_numbers_the_grid, lemma_touching_is_neighboring, Direction, Point};
use crate::groups::scan;
use crate::settings::{CELLS_X_LEN, CELLS_X_MIN, CELLS_Y_LEN, CELLS_Y_MIN, CELL_COUNT};

verus! {

/// The cells at `p` and `q` are blocks of one colour that share an edge.
pub open spec fn joined(grid: Grid, p: Point, q: Point) -> bool {
    &&& p.valid()
    &&& q.valid()
    &&& p.touches(q)
    &&& grid[p].cell_type == CellType::Block
    &&& grid[q].cell_type == CellType::Block
    &&& grid[p].color == grid[q].color
}

/// The step of the chain from its cell number `i` to the next goes from a
/// block to a joined one.
pub open spec fn step_joined(grid: Grid, chain: Seq<Point>, i: int) -> bool {
    joined(grid, chain[i], chain[i + 1])
}

/// A walk over blocks of one colour: it starts on a block, and every step
/// goes to a joined cell.
pub open spec fn is_chain(grid: Grid, chain: Seq<Point>) -> bool {
    &&& chain.len() > 0
    &&& chain[0].valid()
    &&& grid[chain[0]].cell_type == CellType::Block
    &&& forall|i: int| 0 <= i < chain.len() - 1 ==> #[trigger] step_joined(grid, chain, i)
}

/// The chain leads from `p` to `q`.
pub open spec fn links(grid: Grid, chain: Seq<Point>, p: Point, q: Point) -> bool {
    is_chain(grid, chain) && chain.first() == p && chain.last() == q
}

/// The blocks at `p` and `q` belong to one group.
pub open spec fn connected(grid: Grid, p: Point, q: Point) -> bool {
    exists|chain: Seq<Point>| #[trigger] links(grid, chain, p, q)
}

/// `r` is the leader of the group of `p`: it belongs to the group, and no
/// member comes before it in reading order.
pub open spec fn leads(grid: Grid, r: Point, p: Point) -> bool {
    connected(grid, p, r) && forall|q: Point| #[trigger]
        connected(grid, p, q) ==> r.rank() <= q.rank()
}

/// The label that the cell at `p` is to carry: for a block the leader of
/// its group, for any other cell none.
pub open spec fn label_of(grid: Grid, p: Point) -> Option<Point> {
    if grid[p].cell_type == CellType::Block {
        Some(choose|r: Point| leads(grid, r, p))
    } else {
        None
    }
}

/// The grid with every label worked out anew.
pub open spec fn labeled(grid: Grid) -> Grid {
    Map::new(|p: Point| p.valid(), |p: Point| Cell { leader: label_of(grid, p), ..grid[p] })
}

/// The two grids hold the same things in the same colours.
pub open spec fn same_blocks(one: Grid, other: Grid) -> bool {
    forall|q: Point| #[trigger]
        q.valid() ==> one[q].cell_type == other[q].cell_type && one[q].color == other[q].color
}

/// Every block is in a group with itself.
pub proof fn lemma_connected_to_itself(grid: Grid, p: Point)
    requires
        p.valid(),
        grid[p].cell_type == CellType::Block,
    ensures
        connected(grid, p, p),
{
    assert(links(grid, seq![p], p, p));
}

/// What is connected is a pair of blocks on the grid, of one colour.
pub proof fn lemma_connected_are_blocks(grid: Grid, p: Point, q: Point)
    requires
        connected(grid, p, q),
    ensures
        p.valid(),
        q.valid(),
        grid[p].cell_type == CellType::Block,
        grid[q].cell_type == CellType::Block,
        grid[p].color == grid[q].color,
{
    let chain = choose|chain: Seq<Point>| #[trigger] links(grid, chain, p, q);
    lemma_chain_of_one_colour(grid, chain, chain.len() - 1);
}

/// Every cell of a chain is a block of the colour of the first.
proof fn lemma_chain_of_one_colour(grid: Grid, chain: Seq<Point>, i: int)
    requires
        is_chain(grid, chain),
        0 <= i < chain.len(),
    ensures
        chain[i].valid(),
        grid[chain[i]].cell_type == CellType::Block,
        grid[chain[i]].color == grid[chain[0]].color,
    decreases i,
{
    if i > 0 {
        lemma_chain_of_one_colour(grid, chain, i - 1);
        assert(step_joined(grid, chain, i - 1));
    }
}

/// A group reaches over every joined cell.
pub proof fn lemma_connected_extends(grid: Grid, p: Point, q: Point, r: Point)
    requires
        connected(grid, p, q),
        joined(grid, q, r),
    ensures
        connected(grid, p, r),
{
    let chain = choose|chain: Seq<Point>| #[trigger] links(grid, chain, p, q);
    let longer = chain.push(r);
    assert forall|i: int| 0 <= i < longer.len() - 1 implies #[trigger] step_joined(
        grid,
        longer,
        i,
    ) by {
        if i < chain.len() - 1 {
            assert(step_joined(grid, chain, i));
        }
    }
    assert(links(grid, longer, p, r));
}

/// Belonging to one group is mutual.
pub proof fn lemma_connected_is_mutual(grid: Grid, p: Point, q: Point)
    requires
        connected(grid, p, q),
    ensures
        connected(grid, q, p),
{
    let chain = choose|chain: Seq<Point>| #[trigger] links(grid, chain, p, q);
    let back = chain.reverse();
    lemma_chain_of_one_colour(grid, chain, chain.len() - 1);
    assert forall|i: int| 0 <= i < back.len() - 1 implies #[trigger] step_joined(grid, back, i) by {
        assert(step_joined(grid, chain, chain.len() - 2 - i));
    }
    assert(links(grid, back, q, p));
}

/// Belonging to one group carries over.
pub proof fn lemma_connected_carries_over(grid: Grid, p: Point, q: Point, r: Point)
    requires
        connected(grid, p, q),
        connected(grid, q, r),
    ensures
        connected(grid, p, r),
{
    let first = choose|chain: Seq<Point>| #[trigger] links(grid, chain, p, q);
    let second = choose|chain: Seq<Point>| #[trigger] links(grid, chain, q, r);
    let whole = first + second.drop_first();
    assert forall|i: int| 0 <= i < whole.len() - 1 implies #[trigger] step_joined(
        grid,
        whole,
        i,
    ) by {
        if i < first.len() - 1 {
            assert(step_joined(grid, first, i));
        } else {
            assert(step_joined(grid, second, i - first.len() + 1));
        }
    }
    assert(links(grid, whole, p, r));
}

/// Groups depend on nothing but what the cells hold and in which colour.
pub proof fn lemma_connected_follows_blocks(one: Grid, other: Grid, p: Point, q: Point)
    requires
        same_blocks(one, other),
        connected(one, p, q),
    ensures
        connected(other, p, q),
{
    let chain = choose|chain: Seq<Point>| #[trigger] links(one, chain, p, q);
    assert forall|i: int| 0 <= i < chain.len() - 1 implies #[trigger] step_joined(
        other,
        chain,
        i,
    ) by {
        assert(step_joined(one, chain, i));
    }
    assert(links(other, chain, p, q));
}

/// If no member of the group of `p` comes before place `from` in reading
/// order, the group has a leader.
proof fn lemma_leader_found_from(grid: Grid, p: Point, from: int)
    requires
        p.valid(),
        grid[p].cell_type == CellType::Block,
        0 <= from <= p.rank(),
        forall|q: Point| #[trigger] connected(grid, p, q) ==> from <= q.rank(),
    ensures
        exists|r: Point| leads(grid, r, p),
    decreases p.rank() - from,
{
    lemma_rank_numbers_the_grid();
    let here = Point::of_rank(from);
    if connected(grid, p, here) {
        assert(leads(grid, here, p));
    } else {
        lemma_connected_to_itself(grid, p);
        assert forall|q: Point| #[trigger] connected(grid, p, q) implies from + 1 <= q.rank() by {
            lemma_connected_are_blocks(grid, p, q);
            if q.rank() == from {
                assert(Point::of_rank(q.rank()) == q);
            }
        }
        lemma_leader_found_from(grid, p, from + 1);
    }
}

/// Every group has exactly one leader.
pub proof fn lemma_group_has_one_leader(grid: Grid, p: Point)
    requires
        p.valid(),
        grid[p].cell_type == CellType::Block,
    ensures
        label_of(grid, p) matches Some(r) && leads(grid, r, p),
        forall|other: Point| leads(grid, other, p) ==> Some(other) == label_of(grid, p),
{
    lemma_rank_numbers_the_grid();
    assert forall|q: Point| #[trigger] connected(grid, p, q) implies 0 <= q.rank() by {
        lemma_connected_are_blocks(grid, p, q);
    }
    lemma_leader_found_from(grid, p, 0);
    let r = choose|r: Point| leads(grid, r, p);
    assert forall|other: Point| leads(grid, other, p) implies Some(other) == label_of(grid, p) by {
        lemma_connected_are_blocks(grid, p, other);
        lemma_connected_are_blocks(grid, p, r);
        assert(other.rank() == r.rank());
        assert(Point::of_rank(other.rank()) == other);
        assert(Point::of_rank(r.rank()) == r);
    }
}

/// Labels tell groups apart. Once the labels are worked out, a cell that
/// holds no block carries none; a block carries the first cell of its
/// group; and two blocks carry the same label exactly when they belong to
/// one group, that is when a chain of touching blocks of their colour leads
/// from one to the other.
pub proof fn lemma_labels_tell_groups(grid: Grid, p: Point, q: Point)
    requires
        p.valid(),
        q.valid(),
    ensures
        grid[p].cell_type != CellType::Block ==> labeled(grid)[p].leader is None,
        grid[p].cell_type == CellType::Block ==> (labeled(grid)[p].leader matches Some(r) && leads(
            grid,
            r,
            p,
        )),
        grid[p].cell_type == CellType::Block && grid[q].cell_type == CellType::Block ==> (labeled(
            grid,
        )[p].leader == labeled(grid)[q].leader <==> connected(grid, p, q)),
{
    if grid[p].cell_type == CellType::Block {
        lemma_group_has_one_leader(grid, p);
        if grid[q].cell_type == CellType::Block {
            lemma_group_has_one_leader(grid, q);
            let r = label_of(grid, p)->0;
            let t = label_of(grid, q)->0;
            if connected(grid, p, q) {
                lemma_connected_carries_over(grid, p, q, t);
                assert forall|other: Point| #[trigger] connected(grid, p, other) implies t.rank()
                    <= other.rank() by {
                    lemma_connected_is_mutual(grid, p, q);
                    lemma_connected_carries_over(grid, q, p, other);
                }
                assert(leads(grid, t, p));
            }
            if r == t {
                lemma_connected_is_mutual(grid, q, t);
                lemma_connected_carries_over(grid, p, r, q);
            }
        }
    }
}

/// Toward `d` the cell at `q` has no joined neighbour without a label.
spec fn side_enclosed(grid: Grid, q: Point, d: Direction) -> bool {
    match q.neighbor(d) {
        Some(n) => joined(grid, q, n) ==> grid[n].leader is Some,
        None => true,
    }
}

/// Every joined neighbour of the cell at `q` has a label.
#[verifier::opaque]
spec fn enclosed(grid: Grid, q: Point) -> bool {
    &&& side_enclosed(grid, q, Direction::Left)
    &&& side_enclosed(grid, q, Direction::Right)
    &&& side_enclosed(grid, q, Direction::Up)
    &&& side_enclosed(grid, q, Direction::Down)
}

/// Toward `d` the cell at `q` has no joined neighbour with another label.
spec fn side_agrees(grid: Grid, q: Point, d: Direction) -> bool {
    match q.neighbor(d) {
        Some(n) => joined(grid, q, n) ==> grid[n].leader == grid[q].leader,
        None => true,
    }
}

/// Every joined neighbour of the cell at `q` carries the label of `q`.
#[verifier::opaque]
spec fn agrees(grid: Grid, q: Point) -> bool {
    &&& side_agrees(grid, q, Direction::Left)
    &&& side_agrees(grid, q, Direction::Right)
    &&& side_agrees(grid, q, Direction::Up)
    &&& side_agrees(grid, q, Direction::Down)
}

proof fn lemma_enclosed_by_sides(grid: Grid, q: Point)
    ensures
        enclosed(grid, q) <==> forall|d: Direction| side_enclosed(grid, q, d),
{
    reveal(enclosed);
    if enclosed(grid, q) {
        assert forall|d: Direction| side_enclosed(grid, q, d) by {
            match d {
                Direction::Left => {},
                Direction::Right => {},
                Direction::Up => {},
                Direction::Down => {},
            }
        }
    }
}

proof fn lemma_agrees_by_sides(grid: Grid, q: Point)
    ensures
        agrees(grid, q) <==> forall|d: Direction| side_agrees(grid, q, d),
{
    reveal(agrees);
    if agrees(grid, q) {
        assert forall|d: Direction| side_agrees(grid, q, d) by {
            match d {
                Direction::Left => {},
                Direction::Right => {},
                Direction::Up => {},
                Direction::Down => {},
            }
        }
    }
}

/// From `before` to `after` nothing has changed but labels, and no cell has
/// lost or changed the label it had.
spec fn relabels(before: Grid, after: Grid) -> bool {
    forall|q: Point| #[trigger]
        q.valid() ==> after[q] == (Cell { leader: after[q].leader, ..before[q] }) && (
        before[q].leader is Some ==> after[q].leader == before[q].leader)
}

/// The test that a cell is a block without a label.
spec fn unlabeled(grid: Grid) -> spec_fn(Point) -> bool {
    |q: Point| grid[q].cell_type == CellType::Block && grid[q].leader is None
}

/// The number of blocks without a label.
spec fn loose(grid: Grid) -> nat {
    scan().filter(unlabeled(grid)).len()
}

/// A test that asks more keeps fewer elements; strictly fewer when the
/// element at `i` meets only the weaker test.
proof fn lemma_filter_shrinks(
    s: Seq<Point>,
    weak: spec_fn(Point) -> bool,
    strong: spec_fn(Point) -> bool,
    i: int,
)
    requires
        forall|j: int| 0 <= j < s.len() && strong(#[trigger] s[j]) ==> weak(s[j]),
    ensures
        s.filter(strong).len() <= s.filter(weak).len(),
        0 <= i < s.len() && weak(s[i]) && !strong(s[i]) ==> s.filter(strong).len() < s.filter(
            weak,
        ).len(),
    decreases s.len(),
{
    reveal(Seq::filter);
    if s.len() > 0 {
        let rest = s.drop_last();
        assert forall|j: int| 0 <= j < rest.len() && strong(#[trigger] rest[j]) implies weak(
            rest[j],
        ) by {
            assert(rest[j] == s[j]);
        }
        lemma_filter_shrinks(rest, weak, strong, i);
        assert(strong(s[s.len() - 1]) ==> weak(s[s.len() - 1]));
        if 0 <= i < rest.len() {
            assert(rest[i] == s[i]);
        }
    }
}

/// Giving labels never adds to the blocks without one, and giving one to the
/// block at `p` takes one away.
proof fn lemma_loose_shrinks(before: Grid, after: Grid, p: Point)
    requires
        relabels(before, after),
    ensures
        loose(after) <= loose(before),
        p.valid() && unlabeled(before)(p) && !unlabeled(after)(p) ==> loose(after) < loose(before),
{
    lemma_rank_numbers_the_grid();
    let all = scan();
    assert forall|j: int| 0 <= j < all.len() && unlabeled(after)(#[trigger] all[j]) implies unlabeled(
        before,
    )(all[j]) by {
        assert(Point::of_rank(j).valid());
    }
    if p.valid() {
        assert(all[p.rank()] == p);
    }
    lemma_filter_shrinks(all, unlabeled(before), unlabeled(after), p.rank());
}

/// The neighbours of a position on the grid lie on the grid, and a step to
/// one is undone by a step in the opposite direction.
proof fn lemma_neighbor_back(q: Point, d: Direction)
    requires
        q.valid(),
    ensures
        q.neighbor(d) matches Some(n) ==> n.valid() && n.neighbor(opposite(d)) == Some(q),
{
}

/// The direction that leads back.
spec fn opposite(d: Direction) -> Direction {
    match d {
        Direction::Left => Direction::Right,
        Direction::Right => Direction::Left,
        Direction::Up => Direction::Down,
        Direction::Down => Direction::Up,
    }
}

/// What is enclosed stays enclosed when labels are given.
proof fn lemma_enclosed_stays(before: Grid, after: Grid, q: Point)
    requires
        relabels(before, after),
        q.valid(),
        enclosed(before, q),
    ensures
        enclosed(after, q),
{
    lemma_enclosed_by_sides(before, q);
    lemma_enclosed_by_sides(after, q);
    assert forall|d: Direction| side_enclosed(after, q, d) by {
        lemma_neighbor_back(q, d);
        assert(side_enclosed(before, q, d));
    }
}

/// The flood from `p` has looked in all four directions, so the cell at `p`
/// is enclosed.
proof fn lemma_enclosed_all_round(grid: Grid, p: Point, directions: Seq<Direction>)
    requires
        directions == seq![Direction::Left, Direction::Right, Direction::Up, Direction::Down],
        forall|j: int| 0 <= j < 4 ==> side_enclosed(grid, p, #[trigger] directions[j]),
    ensures
        enclosed(grid, p),
{
    reveal(enclosed);
    assert(side_enclosed(grid, p, directions[0]));
    assert(side_enclosed(grid, p, directions[1]));
    assert(side_enclosed(grid, p, directions[2]));
    assert(side_enclosed(grid, p, directions[3]));
}

/// What the flood from a neighbour has newly labelled belongs to the group
/// of `p`.
proof fn lemma_flood_stays_in_group(entry: Grid, before: Grid, p: Point, neighbor: Point, q: Point)
    requires
        same_blocks(before, entry),
        p.valid(),
        neighbor.valid(),
        p.touches(neighbor),
        entry[p].cell_type == CellType::Block,
        entry[p].color == entry[neighbor].color,
        connected(before, neighbor, q),
    ensures
        connected(entry, p, q),
{
    lemma_connected_follows_blocks(before, entry, neighbor, q);
    lemma_connected_are_blocks(entry, neighbor, q);
    lemma_connected_to_itself(entry, p);
    assert(joined(entry, p, neighbor));
    lemma_connected_extends(entry, p, p, neighbor);
    lemma_connected_carries_over(entry, p, neighbor, q);
}

/// The order that the labels are in when the first `turns` cells in reading
/// order have had their turn, as far as the cell at `q` goes: nothing but
/// its label differs from `start`; a label names a block of the same group
/// that had its turn and comes no later than `q`, and no joined neighbour
/// carries another; a block that had its turn is not without a label.
spec fn in_order(start: Grid, now: Grid, q: Point, turns: int) -> bool {
    &&& now[q] == (Cell { leader: now[q].leader, ..start[q] })
    &&& now[q].leader matches Some(r) ==> {
        &&& start[q].cell_type == CellType::Block
        &&& r.valid()
        &&& r.rank() < turns
        &&& r.rank() <= q.rank()
        &&& connected(start, r, q)
        &&& agrees(now, q)
    }
    &&& q.rank() < turns && start[q].cell_type == CellType::Block ==> now[q].leader is Some
}

/// The labels are in order all over the grid.
spec fn labeled_up_to(start: Grid, now: Grid, turns: int) -> bool {
    forall|q: Point| q.valid() ==> #[trigger] in_order(start, now, q, turns)
}

/// The turn of the cell at `p` keeps the labels in order: either nothing
/// was to be done, or the flood from `p` has labelled its group.
proof fn lemma_turn_keeps_order(start: Grid, before: Grid, after: Grid, p: Point)
    requires
        p.valid(),
        labeled_up_to(start, before, p.rank()),
        relabels(before, after),
        forall|q: Point| #[trigger]
            q.valid() && before[q].leader is None && after[q].leader is Some ==> {
                &&& after[q].leader == Some(p)
                &&& connected(before, p, q)
                &&& enclosed(after, q)
            },
        start[p].cell_type == CellType::Block ==> after[p].leader is Some,
    ensures
        labeled_up_to(start, after, p.rank() + 1),
{
    let turns = p.rank();
    assert(same_blocks(before, start)) by {
        assert forall|q: Point| #[trigger] q.valid() implies before[q].cell_type
            == start[q].cell_type && before[q].color == start[q].color by {
            assert(in_order(start, before, q, turns));
        }
    }
    assert forall|q: Point| q.valid() implies #[trigger] in_order(start, after, q, turns + 1) by {
        assert(in_order(start, before, q, turns));
        if after[q].leader is Some {
            if before[q].leader is None {
                lemma_connected_follows_blocks(before, start, p, q);
                lemma_connected_are_blocks(start, p, q);
            }
            lemma_agrees_by_sides(after, q);
            assert forall|d: Direction| side_agrees(after, q, d) by {
                lemma_neighbor_back(q, d);
                if let Some(n) = q.neighbor(d) {
                    if joined(after, q, n) {
                        assert(in_order(start, before, n, turns));
                        assert(joined(before, n, q));
                        if before[q].leader is Some {
                            lemma_agrees_by_sides(before, q);
                            assert(side_agrees(before, q, d));
                        } else {
                            lemma_enclosed_by_sides(after, q);
                            assert(side_enclosed(after, q, d));
                            if before[n].leader is Some {
                                lemma_agrees_by_sides(before, n);
                                assert(side_agrees(before, n, opposite(d)));
                            }
                        }
                    }
                }
            }
        }
    }
}

/// Where the labels are in order over the whole grid, they are the same
/// all along a chain.
proof fn lemma_label_along_chain(start: Grid, now: Grid, chain: Seq<Point>, i: int)
    requires
        labeled_up_to(start, now, CELL_COUNT as int),
        is_chain(start, chain),
        0 <= i < chain.len(),
    ensures
        now[chain[i]].leader == now[chain[0]].leader,
    decreases i,
{
    if i > 0 {
        lemma_label_along_chain(start, now, chain, i - 1);
        let a = chain[i - 1];
        let b = chain[i];
        assert(step_joined(start, chain, i - 1));
        assert(joined(start, a, b));
        lemma_touching_is_neighboring(a, b);
        let d = choose|d: Direction| #[trigger] a.neighbor(d) == Some(b);
        assert(in_order(start, now, a, CELL_COUNT as int));
        assert(in_order(start, now, b, CELL_COUNT as int));
        assert(a.rank() < CELL_COUNT) by {
            lemma_rank_numbers_the_grid();
        }
        lemma_agrees_by_sides(now, a);
        assert(side_agrees(now, a, d));
        assert(joined(now, a, b));
    }
}

/// Where the labels are in order over the whole grid, every cell carries
/// the label that is due to it.
proof fn lemma_labels_are_leaders(start: Grid, now: Grid, q: Point)
    requires
        labeled_up_to(start, now, CELL_COUNT as int),
        q.valid(),
    ensures
        now[q] == (Cell { leader: label_of(start, q), ..start[q] }),
{
    lemma_rank_numbers_the_grid();
    assert(in_order(start, now, q, CELL_COUNT as int));
    if start[q].cell_type == CellType::Block {
        let r = now[q].leader->0;
        lemma_connected_is_mutual(start, r, q);
        assert forall|other: Point| #[trigger] connected(start, q, other) implies r.rank()
            <= other.rank() by {
            let chain = choose|chain: Seq<Point>| #[trigger] links(start, chain, q, other);
            lemma_label_along_chain(start, now, chain, chain.len() - 1);
            lemma_connected_are_blocks(start, q, other);
            assert(in_order(start, now, other, CELL_COUNT as int));
        }
        assert(leads(start, r, q));
        let c = choose|c: Point| leads(start, c, q);
        assert(leads(start, c, q));
        lemma_connected_are_blocks(start, q, c);
        assert(c.rank() == r.rank());
        assert(Point::of_rank(c.rank()) == c);
        assert(Point::of_rank(r.rank()) == r);
    }
}

impl Game {
    /// Works out every label anew. All labels are wiped; then the grid is
    /// read row by row from the top, and every block found without a label
    /// becomes the leader of its group, which is labelled at once. So the
    /// leader of a group is always its first cell in reading order,
    /// whatever the labels were before.
    pub fn set_leaders(&mut self)
        ensures
            final(self)@ == (GameState { grid: labeled(old(self)@.grid), ..old(self)@ }),
    {
        let ghost start = self@.grid;
        for y in CELLS_Y_MIN..CELLS_Y_LEN
            invariant
                start == old(self)@.grid,
                self@ == (GameState { grid: self@.grid, ..old(self)@ }),
                forall|q: Point| #[trigger]
                    q.valid() ==> self@.grid[q] == if q.y < y {
                        Cell { leader: None, ..start[q] }
                    } else {
                        start[q]
                    },
        {
            for x in CELLS_X_MIN..CELLS_X_LEN
                invariant
                    CELLS_Y_MIN <= y < CELLS_Y_LEN,
                    start == old(self)@.grid,
                    self@ == (GameState { grid: self@.grid, ..old(self)@ }),
                    forall|q: Point| #[trigger]
                        q.valid() ==> self@.grid[q] == if q.y < y || (q.y == y && q.x < x) {
                            Cell { leader: None, ..start[q] }
                        } else {
                            start[q]
                        },
            {
                let p = Point::new(x, y);
                self.cell_mut(p).leader = None;
            }
        }
        assert(labeled_up_to(start, self@.grid, 0)) by {
            assert forall|q: Point| q.valid() implies #[trigger] in_order(
                start,
                self@.grid,
                q,
                0,
            ) by {}
        }

        for y in CELLS_Y_MIN..CELLS_Y_LEN
            invariant
                start == old(self)@.grid,
                self@ == (GameState { grid: self@.grid, ..old(self)@ }),
                labeled_up_to(start, self@.grid, y * CELLS_X_LEN),
        {
            for x in CELLS_X_MIN..CELLS_X_LEN
                invariant
                    CELLS_Y_MIN <= y < CELLS_Y_LEN,
                    start == old(self)@.grid,
                    self@ == (GameState { grid: self@.grid, ..old(self)@ }),
                    labeled_up_to(start, self@.grid, y * CELLS_X_LEN + x),
            {
                let p = Point::new(x, y);
                let ghost before = self@.grid;
                assert(in_order(start, before, p, p.rank()));
                if self.cell(p).leader.is_none() {
                    self.set_leader(p, p);
                } else {
                    assert(relabels(before, before));
                }
                proof {
                    lemma_turn_keeps_order(start, before, self@.grid, p);
                }
            }
        }
        proof {
            assert forall|q: Point| #[trigger] q.valid() implies self@.grid[q] == labeled(
                start,
            )[q] by {
                lemma_labels_are_leaders(start, self@.grid, q);
            }
        }
        assert(self@.grid =~= labeled(start));
    }

    /// Gives the label `leader` to the block at `p` and to every block of
    /// its group that can be reached from it over blocks without a label.
    /// A cell that holds no block is left alone.
    fn set_leader(&mut self, p: Point, leader: Point)
        requires
            p.valid(),
            old(self)@.grid[p].leader is None,
        ensures
            final(self)@ == (GameState { grid: final(self)@.grid, ..old(self)@ }),
            relabels(old(self)@.grid, final(self)@.grid),
            forall|q: Point| #[trigger]
                q.valid() && old(self)@.grid[q].leader is None && final(self)@.grid[q].leader
                    is Some ==> {
                    &&& final(self)@.grid[q].leader == Some(leader)
                    &&& connected(old(self)@.grid, p, q)
                    &&& enclosed(final(self)@.grid, q)
                },
            old(self)@.grid[p].cell_type == CellType::Block ==> final(self)@.grid[p].leader
                is Some,
            loose(final(self)@.grid) <= loose(old(self)@.grid),
        decreases loose(old(self)@.grid),
    {
        let ghost entry = self@.grid;
        if self.cell(p).cell_type != CellType::Block {
            proof {
                lemma_loose_shrinks(entry, entry, p);
            }
            return ;
        }
        self.cell_mut(p).leader = Some(leader);
        proof {
            lemma_loose_shrinks(entry, self@.grid, p);
            lemma_connected_to_itself(entry, p);
        }
        let directions = Direction::all();
        let mut i: usize = 0;
        while i < 4
            invariant
                0 <= i <= 4,
                p.valid(),
                directions@ == seq![
                    Direction::Left,
                    Direction::Right,
                    Direction::Up,
                    Direction::Down,
                ],
                entry == old(self)@.grid,
                entry[p].cell_type == CellType::Block,
                entry[p].leader is None,
                connected(entry, p, p),
                self@ == (GameState { grid: self@.grid, ..old(self)@ }),
                relabels(entry, self@.grid),
                self@.grid[p].leader == Some(leader),
                forall|q: Point| #[trigger]
                    q.valid() && entry[q].leader is None && self@.grid[q].leader is Some ==> {
                        &&& self@.grid[q].leader == Some(leader)
                        &&& connected(entry, p, q)
                        &&& q != p ==> enclosed(self@.grid, q)
                    },
                forall|j: int| 0 <= j < i ==> side_enclosed(self@.grid, p, #[trigger] directions@[j]),
                loose(self@.grid) < loose(entry),
            decreases 4 - i,
        {
            let direction = directions[i];
            let ghost before = self@.grid;
            proof {
                lemma_neighbor_back(p, direction);
            }
            if let Some(neighbor) = self.neighbor(p, direction) {
                if self.cell(neighbor).color == self.cell(p).color && self.cell(
                    neighbor,
                ).leader.is_none() {
                    self.set_leader(neighbor, leader);
                    proof {
                        let after = self@.grid;
                        assert(same_blocks(before, entry));
                        assert forall|q: Point| #[trigger]
                            q.valid() && entry[q].leader is None && after[q].leader
                                is Some implies {
                            &&& after[q].leader == Some(leader)
                            &&& connected(entry, p, q)
                            &&& q != p ==> enclosed(after, q)
                        } by {
                            if before[q].leader is Some {
                                if q != p {
                                    lemma_enclosed_stays(before, after, q);
                                }
                            } else {
                                lemma_flood_stays_in_group(entry, before, p, neighbor, q);
                            }
                        }
                    }
                }
            }
            proof {
                let after = self@.grid;
                assert forall|j: int| 0 <= j < i + 1 implies side_enclosed(
                    after,
                    p,
                    #[trigger] directions@[j],
                ) by {
                    lemma_neighbor_back(p, directions@[j]);
                    if j < i {
                        assert(side_enclosed(before, p, directions@[j]));
                    }
                }
            }
            i += 1;
        }
        proof {
            lemma_enclosed_all_round(self@.grid, p, directions@);
        }
    }
}

} // verus!
