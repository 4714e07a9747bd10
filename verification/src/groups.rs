//! Groups by label: the cells that carry one leader.

use vstd::prelude::*;

use crate::board::Grid;
use crate::game::Game;
use crate::geometry::{lemma_rank_numbers_the_grid, Point};
use crate::settings::{CELLS_X_LEN, CELLS_X_MIN, CELLS_Y_LEN, CELLS_Y_MIN, CELL_COUNT};

verus! {

/// Every position of the grid, row by row from the top, each row from the
/// left.
pub open spec fn scan() -> Seq<Point> {
    Seq::new(CELL_COUNT as nat, |i: int| Point::of_rank(i))
}

/// The test that a position's cell carries the given label.
pub open spec fn carries(grid: Grid, label: Option<Point>) -> spec_fn(Point) -> bool {
    |q: Point| grid[q].leader == label
}

/// The positions whose cells carry the given label, in the order of
/// [`scan`].
pub open spec fn members(grid: Grid, label: Option<Point>) -> Seq<Point> {
    scan().filter(carries(grid, label))
}

/// The members of a label are the positions on the grid that carry it, each
/// listed once.
pub proof fn lemma_members(grid: Grid, label: Option<Point>)
    ensures
        forall|q: Point| #[trigger]
            members(grid, label).contains(q) <==> q.valid() && grid[q].leader == label,
        members(grid, label).no_duplicates(),
        members(grid, label).len() <= CELL_COUNT,
{
    let all = scan();
    let test = carries(grid, label);
    lemma_rank_numbers_the_grid();
    broadcast use {Seq::lemma_filter_pred, Seq::lemma_filter_contains};
    assert forall|q: Point| #[trigger]
        members(grid, label).contains(q) <==> q.valid() && grid[q].leader == label by {
        if members(grid, label).contains(q) {
            all.lemma_filter_contains_rev(test, q);
            let i = choose|i: int| 0 <= i < all.len() && all[i] == q;
            assert(q == Point::of_rank(i));
            let j = choose|j: int| 0 <= j < all.filter(test).len() && all.filter(test)[j] == q;
            assert(test(all.filter(test)[j]));
        }
        if q.valid() && grid[q].leader == label {
            assert(all[q.rank()] == q);
            assert(test(all[q.rank()]));
            assert(all.filter(test).contains(all[q.rank()]));
        }
    }
    assert(all.no_duplicates()) by {
        assert forall|i: int, j: int| 0 <= i < all.len() && 0 <= j < all.len() && i != j implies all[i]
            != all[j] by {
            assert(Point::of_rank(i).rank() == i);
            assert(Point::of_rank(j).rank() == j);
        }
    }
    lemma_filter_keeps_distinct(all, test);
}

/// Filtering a sequence without repeats leaves no repeats.
proof fn lemma_filter_keeps_distinct(s: Seq<Point>, test: spec_fn(Point) -> bool)
    requires
        s.no_duplicates(),
    ensures
        s.filter(test).no_duplicates(),
    decreases s.len(),
{
    reveal(Seq::filter);
    if s.len() > 0 {
        let rest = s.drop_last();
        lemma_filter_keeps_distinct(rest, test);
        let kept = rest.filter(test);
        if test(s.last()) {
            if kept.contains(s.last()) {
                rest.lemma_filter_contains_rev(test, s.last());
                let i = choose|i: int| 0 <= i < rest.len() && rest[i] == s.last();
                assert(s[i] == s[s.len() - 1]);
            }
            assert forall|i: int, j: int|
                0 <= i < kept.push(s.last()).len() && 0 <= j < kept.push(s.last()).len() && i
                    != j implies kept.push(s.last())[i] != kept.push(s.last())[j] by {
                if i == kept.len() {
                    assert(kept.contains(kept[j]));
                } else if j == kept.len() {
                    assert(kept.contains(kept[i]));
                }
            }
        }
    }
}

/// Two tests that agree on every element of a sequence keep the same
/// elements.
proof fn lemma_filter_agrees(
    s: Seq<Point>,
    one: spec_fn(Point) -> bool,
    other: spec_fn(Point) -> bool,
)
    requires
        forall|i: int| 0 <= i < s.len() ==> one(#[trigger] s[i]) == other(s[i]),
    ensures
        s.filter(one) == s.filter(other),
    decreases s.len(),
{
    reveal(Seq::filter);
    if s.len() > 0 {
        let rest = s.drop_last();
        assert forall|i: int| 0 <= i < rest.len() implies one(#[trigger] rest[i]) == other(
            rest[i],
        ) by {
            assert(rest[i] == s[i]);
        }
        lemma_filter_agrees(rest, one, other);
        assert(one(s[s.len() - 1]) == other(s[s.len() - 1]));
    }
}

/// Grids whose cells carry the same labels have the same members for every
/// label.
pub proof fn lemma_members_follow_labels(one: Grid, other: Grid, label: Option<Point>)
    requires
        forall|q: Point| #[trigger] q.valid() ==> one[q].leader == other[q].leader,
    ensures
        members(one, label) == members(other, label),
{
    lemma_rank_numbers_the_grid();
    let all = scan();
    assert forall|i: int| 0 <= i < all.len() implies carries(one, label)(#[trigger] all[i])
        == carries(other, label)(all[i]) by {
        assert(Point::of_rank(i).valid());
    }
    lemma_filter_agrees(all, carries(one, label), carries(other, label));
}

/// The first `i + 1` elements of a list are the first `i` and the element
/// at place `i`.
pub proof fn lemma_take_one_more(list: Seq<Point>, i: int)
    requires
        0 <= i < list.len(),
    ensures
        list.take(i + 1) == list.take(i).push(list[i]),
        forall|q: Point|
            list.take(i + 1).contains(q) <==> list.take(i).contains(q) || q == list[i],
{
    assert(list.take(i + 1) =~= list.take(i).push(list[i]));
    assert forall|q: Point|
        list.take(i + 1).contains(q) <==> list.take(i).contains(q) || q == list[i] by {
        if list.take(i).contains(q) {
            let j = choose|j: int| 0 <= j < list.take(i).len() && list.take(i)[j] == q;
            assert(list.take(i + 1)[j] == q);
        }
        if q == list[i] {
            assert(list.take(i + 1)[i] == q);
        }
    }
}

impl Game {
    /// The positions of all cells that carry the same label as the cell at
    /// `p`, in reading order.
    pub fn get_component(&self, p: Point) -> (component: Vec<Point>)
        requires
            p.valid(),
        ensures
            component@ == members(self@.grid, self@.grid[p].leader),
    {
        let ghost label = self@.grid[p].leader;
        let ghost test = carries(self@.grid, label);
        let mut result: Vec<Point> = Vec::new();
        proof {
            lemma_rank_numbers_the_grid();
            assert(scan().take(0).filter(test) =~= Seq::<Point>::empty()) by {
                reveal(Seq::filter);
            }
        }
        for yi in CELLS_Y_MIN..CELLS_Y_LEN
            invariant
                p.valid(),
                label == self@.grid[p].leader,
                test == carries(self@.grid, label),
                result@ == scan().take(yi * CELLS_X_LEN).filter(test),
        {
            for xi in CELLS_X_MIN..CELLS_X_LEN
                invariant
                    p.valid(),
                    CELLS_Y_MIN <= yi < CELLS_Y_LEN,
                    label == self@.grid[p].leader,
                    test == carries(self@.grid, label),
                    result@ == scan().take(yi * CELLS_X_LEN + xi).filter(test),
            {
                let xiyi = Point::new(xi, yi);
                let ghost done = scan().take(yi * CELLS_X_LEN + xi);
                proof {
                    assert(scan().take(yi * CELLS_X_LEN + xi + 1) =~= done.push(xiyi));
                    done.lemma_filter_push(xiyi, test);
                }
                if self.cell(xiyi).leader == self.cell(p).leader {
                    result.push(xiyi);
                }
            }
        }
        assert(scan().take(CELL_COUNT as int) =~= scan());
        result
    }
}

} // verus!
