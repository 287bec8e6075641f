//! The falling-sand rule: where each grain goes in one step, the step of the
//! whole grid, and the pointer edit that precedes it.

use crate::bitarr::BitArray2D;
use crate::grid::GridView;
use crate::input::{Mouse, UserMode};
use crate::random::BoolSource;
use vstd::prelude::*;

verus! {

/// What the rule lets a grain do, before any tie is broken.
#[derive(Clone, Copy, Debug, PartialEq, Eq, Structural)]
pub enum Fall {
    /// The grain stays where it is.
    Rest,
    /// The grain moves to the cell below.
    Down,
    /// The grain moves to the cell below and to the left.
    Left,
    /// The grain moves to the cell below and to the right.
    Right,
    /// Both lower diagonals are free: a coin toss picks one of them.
    Either,
}

impl Fall {
    /// The cell that a grain at `(x, y)` moves to. `go_left` breaks the tie of
    /// `Either` and is ignored otherwise.
    pub open spec fn target(self, x: int, y: int, go_left: bool) -> (int, int) {
        match self {
            Fall::Rest => (x, y),
            Fall::Down => (x, y - 1),
            Fall::Left => (x - 1, y - 1),
            Fall::Right => (x + 1, y - 1),
            Fall::Either => if go_left {
                (x - 1, y - 1)
            } else {
                (x + 1, y - 1)
            },
        }
    }

    /// Whether every cell that this move may lead to from `(x, y)` has
    /// coordinates that a `usize` can hold.
    pub open spec fn fits(self, x: int, y: int) -> bool {
        match self {
            Fall::Rest => true,
            Fall::Down => y >= 1,
            Fall::Left => x >= 1 && y >= 1,
            Fall::Right => y >= 1 && x < usize::MAX,
            Fall::Either => x >= 1 && y >= 1 && x < usize::MAX,
        }
    }

    /// The cell that a grain at `(x, y)` moves to, for a given outcome of the
    /// coin toss.
    pub fn destination(self, x: usize, y: usize, go_left: bool) -> (cell: (usize, usize))
        requires
            self.fits(x as int, y as int),
        ensures
            (cell.0 as int, cell.1 as int) == self.target(x as int, y as int, go_left),
    {
        match self {
            Fall::Rest => (x, y),
            Fall::Down => (x, y - 1),
            Fall::Left => (x - 1, y - 1),
            Fall::Right => (x + 1, y - 1),
            Fall::Either => if go_left {
                (x - 1, y - 1)
            } else {
                (x + 1, y - 1)
            },
        }
    }
}

impl GridView {
    /// Whether a grain may enter `(x, y)`: the cell exists and is empty. A
    /// cell outside the grid is never free.
    pub open spec fn is_free(self, x: int, y: int) -> bool {
        self.get(x, y) == Some(false)
    }

    /// The rule for a grain at `(x, y)`. On the floor it rests. Else it falls
    /// straight down where the cell below is free. Else it slides to a free
    /// lower diagonal: at the left edge only the right one is open to it, at
    /// the right edge only the left one, and between the edges both, with a
    /// coin toss where both are free. Where nothing is free it rests.
    pub open spec fn fall(self, x: int, y: int) -> Fall {
        if y == 0 {
            Fall::Rest
        } else if self.is_free(x, y - 1) {
            Fall::Down
        } else if x == 0 {
            if self.is_free(x + 1, y - 1) {
                Fall::Right
            } else {
                Fall::Rest
            }
        } else if x == self.width - 1 {
            if self.is_free(x - 1, y - 1) {
                Fall::Left
            } else {
                Fall::Rest
            }
        } else if self.is_free(x - 1, y - 1) && self.is_free(x + 1, y - 1) {
            Fall::Either
        } else if self.is_free(x - 1, y - 1) {
            Fall::Left
        } else if self.is_free(x + 1, y - 1) {
            Fall::Right
        } else {
            Fall::Rest
        }
    }

    /// The cell that the grain at `c` moves to in one step.
    pub open spec fn target(self, c: (int, int), go_left: bool) -> (int, int) {
        self.fall(c.0, c.1).target(c.0, c.1, go_left)
    }

    /// Whether the grain at `c` needs a coin toss.
    pub open spec fn is_contested(self, c: (int, int)) -> bool {
        self.fall(c.0, c.1) == Fall::Either
    }

    /// One step of the simulation: every grain moves to its target, all of
    /// them judged on this grid. `lefts` holds the grains whose coin toss
    /// said left.
    pub open spec fn step(self, lefts: Set<(int, int)>) -> GridView {
        GridView {
            width: self.width,
            height: self.height,
            cells: self.cells.map(|c: (int, int)| self.target(c, lefts.contains(c))),
        }
    }

    /// The cells that the first `n` grains of `order` move to.
    spec fn settled(self, order: Seq<(int, int)>, n: int, lefts: Set<(int, int)>) -> Set<
        (int, int),
    > {
        Set::new(
            |d: (int, int)|
                exists|i: int|
                    0 <= i < n && self.target(#[trigger] order[i], lefts.contains(order[i])) == d,
        )
    }

    /// The grid after a pointer edit: where the button is held over a cell of
    /// the grid, that cell is filled or emptied as the mode says; else nothing
    /// changes.
    pub open spec fn edit(self, mouse: Mouse, mode: UserMode) -> GridView {
        if mouse.left_button_pressed && self.in_bounds(
            mouse.grid_pos.0 as int,
            mouse.grid_pos.1 as int,
        ) {
            self.set(mouse.grid_pos.0 as int, mouse.grid_pos.1 as int, mode.fills())
        } else {
            self
        }
    }

    /// A grain of the grid ends its move on a cell of the grid: it stays, or
    /// it moves one row down, at most one column aside, into a cell that was
    /// empty.
    pub proof fn lemma_target_in_bounds(self, x: int, y: int, go_left: bool)
        requires
            self.in_bounds(x, y),
        ensures
            self.in_bounds(self.target((x, y), go_left).0, self.target((x, y), go_left).1),
            self.target((x, y), go_left) == (x, y) || {
                &&& self.target((x, y), go_left).1 == y - 1
                &&& x - 1 <= self.target((x, y), go_left).0 <= x + 1
                &&& !self.cells.contains(self.target((x, y), go_left))
            },
    {
    }

    /// A step of a well-formed grid is a well-formed grid of the same
    /// dimensions: no grain leaves the grid.
    pub proof fn lemma_step_wf(self, lefts: Set<(int, int)>)
        requires
            self.wf(),
        ensures
            self.step(lefts).wf(),
            self.step(lefts).width == self.width,
            self.step(lefts).height == self.height,
    {
        let next = self.step(lefts);
        assert forall|d: (int, int)| #[trigger] next.cells.contains(d) implies next.in_bounds(
            d.0,
            d.1,
        ) by {
            let c = choose|c: (int, int)|
                self.cells.contains(c) && d == self.target(c, lefts.contains(c));
            self.lemma_target_in_bounds(c.0, c.1, lefts.contains(c));
        }
    }

    /// Sand that lies on the floor only does not move: such a grid is a fixed
    /// point of the step, whatever the coin tosses.
    pub proof fn lemma_floor_is_fixed_point(self, lefts: Set<(int, int)>)
        requires
            forall|c: (int, int)| #[trigger] self.cells.contains(c) ==> c.1 == 0,
        ensures
            self.step(lefts) == self,
    {
        assert(self.step(lefts).cells =~= self.cells);
    }

    /// Whether no two grains move to the same cell.
    pub open spec fn no_collision(self, lefts: Set<(int, int)>) -> bool {
        forall|a: (int, int), b: (int, int)|
            #![trigger self.cells.contains(a), self.cells.contains(b)]
            self.cells.contains(a) && self.cells.contains(b) && a != b ==> self.target(
                a,
                lefts.contains(a),
            ) != self.target(b, lefts.contains(b))
    }

    /// A step never makes sand: its grains are finitely many and at most as
    /// many as before.
    pub proof fn lemma_step_never_adds(self, lefts: Set<(int, int)>)
        requires
            self.wf(),
        ensures
            self.step(lefts).cells.finite(),
            self.step(lefts).count() <= self.count(),
    {
        self.lemma_cells_finite();
        let f = |c: (int, int)| self.target(c, lefts.contains(c));
        vstd::set_lib::lemma_map_size_bound(self.cells, self.step(lefts).cells, f);
    }

    /// A step in which no two grains move to the same cell keeps the number
    /// of grains.
    pub proof fn lemma_step_keeps_count(self, lefts: Set<(int, int)>)
        requires
            self.wf(),
            self.no_collision(lefts),
        ensures
            self.step(lefts).cells.finite(),
            self.step(lefts).count() == self.count(),
    {
        self.lemma_cells_finite();
        let f = |c: (int, int)| self.target(c, lefts.contains(c));
        assert(vstd::relations::injective_on(f, self.cells)) by {
            assert forall|a: (int, int), b: (int, int)|
                self.cells.contains(a) && self.cells.contains(b) && #[trigger] f(a) == #[trigger] f(
                    b,
                ) implies a == b by {}
        }
        vstd::set_lib::lemma_map_size(self.cells, self.step(lefts).cells, f);
    }

    /// A step that loses no grain is one in which no two grains move to the
    /// same cell.
    pub proof fn lemma_count_kept_only_without_collision(self, lefts: Set<(int, int)>)
        requires
            self.wf(),
            self.step(lefts).count() == self.count(),
        ensures
            self.no_collision(lefts),
    {
        self.lemma_cells_finite();
        if !self.no_collision(lefts) {
            let (a, b) = choose|a: (int, int), b: (int, int)|
                #![trigger self.cells.contains(a), self.cells.contains(b)]
                self.cells.contains(a) && self.cells.contains(b) && a != b && self.target(
                    a,
                    lefts.contains(a),
                ) == self.target(b, lefts.contains(b));
            let f = |c: (int, int)| self.target(c, lefts.contains(c));
            let fewer = self.cells.remove(a);
            assert forall|d: (int, int)| self.step(lefts).cells.contains(d) == fewer.map(
                f,
            ).contains(d) by {
                if self.step(lefts).cells.contains(d) {
                    let c = choose|c: (int, int)| self.cells.contains(c) && d == f(c);
                    assert(fewer.contains(if c == a { b } else { c }));
                }
            }
            assert(self.step(lefts).cells =~= fewer.map(f));
            vstd::set_lib::lemma_map_size_bound(fewer, self.step(lefts).cells, f);
        }
    }

    /// A single grain at the left edge, above the floor, falls straight down:
    /// the step holds one grain, in the cell below, and looks at no cell to
    /// the left of the grid.
    pub proof fn lemma_left_edge_grain_falls(self, y: int, lefts: Set<(int, int)>)
        requires
            self.wf(),
            0 < y < self.height,
            self.cells == set![(0int, y)],
        ensures
            self.step(lefts).cells == set![(0int, y - 1)],
            self.step(lefts).wf(),
    {
        assert(self.cells.contains((0int, y)));
        assert(self.step(lefts).cells =~= set![(0int, y - 1)]);
        self.lemma_step_wf(lefts);
    }

    /// Where no grain needs a coin toss, the tosses do not matter: any two
    /// outcomes give the same step.
    pub proof fn lemma_step_without_toss(self, lefts_a: Set<(int, int)>, lefts_b: Set<(int, int)>)
        requires
            forall|c: (int, int)| #[trigger] self.cells.contains(c) ==> !self.is_contested(c),
        ensures
            self.step(lefts_a) == self.step(lefts_b),
    {
        assert(self.step(lefts_a).cells =~= self.step(lefts_b).cells);
    }

    /// Settling one more grain adds its target to the settled cells.
    proof fn lemma_settle_one(self, order: Seq<(int, int)>, n: int, lefts: Set<(int, int)>, go_left: bool)
        requires
            order.no_duplicates(),
            0 <= n < order.len(),
        ensures
            self.settled(
                order,
                n + 1,
                if go_left {
                    lefts.insert(order[n])
                } else {
                    lefts.remove(order[n])
                },
            ) == self.settled(order, n, lefts).insert(self.target(order[n], go_left)),
    {
        let lefts2 = if go_left {
            lefts.insert(order[n])
        } else {
            lefts.remove(order[n])
        };
        assert(self.settled(order, n + 1, lefts2) =~= self.settled(order, n, lefts).insert(
            self.target(order[n], go_left),
        ));
    }

    /// Once every grain of the row-major listing has settled, the settled
    /// cells are those of the step.
    proof fn lemma_settled_all(self, lefts: Set<(int, int)>)
        requires
            self.wf(),
        ensures
            self.settled(self.true_cells(), self.true_cells().len() as int, lefts) == self.step(
                lefts,
            ).cells,
    {
        let order = self.true_cells();
        let all = self.settled(order, order.len() as int, lefts);
        let stepped = self.step(lefts).cells;
        self.lemma_true_cells_sorted_and_exact();
        assert forall|d: (int, int)| all.contains(d) == stepped.contains(d) by {
            if all.contains(d) {
                let i = choose|i: int|
                    0 <= i < order.len() && self.target(
                        #[trigger] order[i],
                        lefts.contains(order[i]),
                    ) == d;
                assert(order.contains(order[i]));
            }
            if stepped.contains(d) {
                let c = choose|c: (int, int)|
                    self.cells.contains(c) && d == self.target(c, lefts.contains(c));
                assert(order.contains(c));
            }
        }
    }
}

/// What the rule lets the grain at `(x, y)` do.
pub fn fall_at(sand: &BitArray2D, x: usize, y: usize) -> (fall: Fall)
    requires
        sand.wf(),
        sand@.in_bounds(x as int, y as int),
    ensures
        fall == sand@.fall(x as int, y as int),
        fall.fits(x as int, y as int),
{
    proof {
        sand.lemma_view_wf();
    }
    if y == 0 {
        return Fall::Rest;
    }
    if is_free(sand, x, y - 1) {
        return Fall::Down;
    }
    if x == 0 {
        return if is_free(sand, x + 1, y - 1) {
            Fall::Right
        } else {
            Fall::Rest
        };
    }
    if x == sand.width() - 1 {
        return if is_free(sand, x - 1, y - 1) {
            Fall::Left
        } else {
            Fall::Rest
        };
    }
    let left: bool = is_free(sand, x - 1, y - 1);
    let right: bool = is_free(sand, x + 1, y - 1);
    if left && right {
        Fall::Either
    } else if left {
        Fall::Left
    } else if right {
        Fall::Right
    } else {
        Fall::Rest
    }
}

/// Whether a grain may enter `(x, y)`: the cell exists and is empty.
pub fn is_free(sand: &BitArray2D, x: usize, y: usize) -> (free: bool)
    requires
        sand.wf(),
    ensures
        free == sand@.is_free(x as int, y as int),
{
    match sand.get(x, y) {
        Some(occupied) => !occupied,
        None => false,
    }
}

/// Applies the pointer to the grid: with the button held over a cell of the
/// grid, fills that cell in `Add` mode and empties it in `Subtract` mode.
/// With the button released, or the pointer outside the grid, nothing changes.
pub fn user_input_sand(sand: &mut BitArray2D, mouse: &Mouse, mode: &UserMode)
    requires
        old(sand).wf(),
    ensures
        final(sand).wf(),
        final(sand)@ == old(sand)@.edit(*mouse, *mode),
{
    if mouse.left_button_pressed {
        let (x, y): (usize, usize) = mouse.grid_pos;
        if sand.get(x, y).is_some() {
            match mode {
                UserMode::Add => sand.set(x, y, true),
                UserMode::Subtract => sand.set(x, y, false),
            }
        }
    }
}

/// One step of the simulation. The grid that is read is left as it is; the
/// result is a new grid of the same dimensions, filled from an empty one.
/// Each grain is moved as the rule says, and `rng` is asked once for each
/// grain with both lower diagonals free: `true` sends it left.
///
/// Whatever `rng` answers, the result is the step of the grid for some
/// outcome of the tosses. Where no grain has both lower diagonals free, `rng`
/// is not asked and is left as it was.
pub fn update_sand<T: BoolSource>(sand: &BitArray2D, rng: &mut T) -> (next_sand: BitArray2D)
    requires
        sand.wf(),
    ensures
        next_sand.wf(),
        exists|lefts: Set<(int, int)>| next_sand@ == #[trigger] sand@.step(lefts),
        (forall|c: (int, int)| #[trigger] sand@.cells.contains(c) ==> !sand@.is_contested(c))
            ==> next_sand@ == sand@.step(Set::empty()),
        (forall|c: (int, int)| #[trigger] sand@.cells.contains(c) ==> !sand@.is_contested(c))
            ==> *final(rng) == *old(rng),
{
    proof {
        sand.lemma_view_wf();
        sand@.lemma_true_cells_sorted_and_exact();
    }
    let mut next_sand = BitArray2D::new(sand.width(), sand.height());
    let mut cursor = sand.iter_true();
    let ghost order = sand@.true_cells();
    let ghost mut done: int = 0;
    let ghost mut lefts: Set<(int, int)> = Set::empty();
    loop
        invariant_except_break
            cursor@ == order.skip(done),
        invariant
            sand.wf(),
            sand@.wf(),
            next_sand.wf(),
            cursor.wf(),
            cursor.grid() == sand@,
            order == sand@.true_cells(),
            order.no_duplicates(),
            forall|c: (int, int)| sand@.cells.contains(c) <==> #[trigger] order.contains(c),
            0 <= done <= order.len(),
            next_sand@.width == sand@.width,
            next_sand@.height == sand@.height,
            next_sand@.cells == sand@.settled(order, done, lefts),
            (forall|i: int| 0 <= i < done ==> !sand@.is_contested(#[trigger] order[i]))
                ==> *rng == *old(rng),
        ensures
            done == order.len(),
        decreases order.len() - done,
    {
        let item = cursor.next();
        match item {
            None => {
                break ;
            },
            Some((x, y)) => {
                proof {
                    assert(order.contains(order[done]));
                    sand@.lemma_target_in_bounds(x as int, y as int, true);
                    sand@.lemma_target_in_bounds(x as int, y as int, false);
                }
                let fall = fall_at(sand, x, y);
                let go_left: bool = match fall {
                    Fall::Either => rng.next_bool(),
                    _ => false,
                };
                let (nx, ny): (usize, usize) = fall.destination(x, y, go_left);
                next_sand.set(nx, ny, true);
                proof {
                    sand@.lemma_settle_one(order, done, lefts, go_left);
                    lefts = if go_left {
                        lefts.insert(order[done])
                    } else {
                        lefts.remove(order[done])
                    };
                    done = done + 1;
                }
            },
        }
    }
    proof {
        sand@.lemma_settled_all(lefts);
        if forall|c: (int, int)| #[trigger] sand@.cells.contains(c) ==> !sand@.is_contested(c) {
            sand@.lemma_step_without_toss(lefts, Set::empty());
            assert forall|i: int| 0 <= i < done implies !sand@.is_contested(#[trigger] order[i]) by {
                assert(order.contains(order[i]));
            }
        }
    }
    next_sand
}

} // verus!
