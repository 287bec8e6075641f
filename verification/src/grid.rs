//! The mathematical model of a grid: its dimensions and the set of occupied
//! cells. Every contract of the crate is stated over this model.

use vstd::prelude::*;

verus! {

/// What a grid is: `width` columns, `height` rows, and the coordinates
/// `(x, y)` of the cells that hold sand. Row 0 is the floor.
pub struct GridView {
    pub width: nat,
    pub height: nat,
    pub cells: Set<(int, int)>,
}

impl GridView {
    /// Whether `(x, y)` names a cell of the grid.
    pub open spec fn in_bounds(self, x: int, y: int) -> bool {
        0 <= x < self.width && 0 <= y < self.height
    }

    /// A grid has at least one cell, and sand lies only inside it.
    pub open spec fn wf(self) -> bool {
        &&& self.width > 0
        &&& self.height > 0
        &&& forall|c: (int, int)| #[trigger] self.cells.contains(c) ==> self.in_bounds(c.0, c.1)
    }

    /// The grid of the given dimensions without any sand.
    pub open spec fn empty(width: nat, height: nat) -> GridView {
        GridView { width, height, cells: Set::empty() }
    }

    /// Bounds-checked lookup: the occupancy of `(x, y)`, or `None` outside the grid.
    pub open spec fn get(self, x: int, y: int) -> Option<bool> {
        if self.in_bounds(x, y) {
            Some(self.cells.contains((x, y)))
        } else {
            None
        }
    }

    /// The grid that differs from this one at `(x, y)` only, where it holds `value`.
    pub open spec fn set(self, x: int, y: int, value: bool) -> GridView {
        GridView {
            width: self.width,
            height: self.height,
            cells: if value {
                self.cells.insert((x, y))
            } else {
                self.cells.remove((x, y))
            },
        }
    }

    /// The number of cells of the grid.
    pub open spec fn area(self) -> int {
        (self.width * self.height) as int
    }

    /// The row-major index of `(x, y)`: rows follow one another, row 0 first.
    pub open spec fn index_of(self, x: int, y: int) -> int {
        y * self.width + x
    }

    /// The cell whose row-major index is `k`.
    pub open spec fn cell_at(self, k: int) -> (int, int) {
        (k % (self.width as int), k / (self.width as int))
    }

    /// The occupied cells whose row-major index is at least `k`, in increasing
    /// index order.
    pub open spec fn true_cells_from(self, k: int) -> Seq<(int, int)>
        decreases self.area() - k,
    {
        if k >= self.area() {
            Seq::empty()
        } else if self.cells.contains(self.cell_at(k)) {
            seq![self.cell_at(k)] + self.true_cells_from(k + 1)
        } else {
            self.true_cells_from(k + 1)
        }
    }

    /// All occupied cells in row-major order.
    pub open spec fn true_cells(self) -> Seq<(int, int)> {
        self.true_cells_from(0)
    }

    /// The number of occupied cells.
    pub open spec fn count(self) -> nat {
        self.cells.len()
    }
}

impl GridView {
    /// What `true_cells_from(k)` lists: occupied cells only, each with an index
    /// of at least `k`, in strictly increasing index order, and none of the
    /// occupied cells from index `k` on is missing.
    pub proof fn lemma_true_cells_from(self, k: int)
        requires
            self.wf(),
            0 <= k,
        ensures
            forall|i: int|
                0 <= i < self.true_cells_from(k).len() ==> {
                    let c = #[trigger] self.true_cells_from(k)[i];
                    &&& self.cells.contains(c)
                    &&& k <= self.index_of(c.0, c.1) < self.area()
                },
            forall|i: int, j: int|
                0 <= i < j < self.true_cells_from(k).len() ==> {
                    let a = #[trigger] self.true_cells_from(k)[i];
                    let b = #[trigger] self.true_cells_from(k)[j];
                    self.index_of(a.0, a.1) < self.index_of(b.0, b.1)
                },
            forall|c: (int, int)|
                self.cells.contains(c) && k <= self.index_of(c.0, c.1)
                    ==> #[trigger] self.true_cells_from(k).contains(c),
        decreases self.area() - k,
    {
        let s = self.true_cells_from(k);
        let w = self.width as int;
        let h = self.height as int;
        if k >= self.area() {
            assert forall|c: (int, int)|
                self.cells.contains(c) && k <= self.index_of(c.0, c.1) implies s.contains(c) by {
                lemma_index_in_range(w, h, c.0, c.1);
            }
        } else {
            let rest = self.true_cells_from(k + 1);
            let here = self.cell_at(k);
            self.lemma_true_cells_from(k + 1);
            lemma_cell_in_range(w, h, k);
            if self.cells.contains(here) {
                assert(s[0] == here);
                assert forall|i: int| 1 <= i < s.len() implies s[i] == rest[i - 1] by {}
            }
            assert forall|c: (int, int)|
                self.cells.contains(c) && k <= self.index_of(c.0, c.1) implies s.contains(c) by {
                lemma_index_in_range(w, h, c.0, c.1);
                if self.index_of(c.0, c.1) != k {
                    assert(rest.contains(c));
                    let i = choose|i: int| 0 <= i < rest.len() && rest[i] == c;
                    if self.cells.contains(here) {
                        assert(s[i + 1] == c);
                    }
                }
            }
        }
    }

    /// The row-major listing visits the occupied cells, all of them and no
    /// other cell, each once, in strictly increasing index order.
    pub proof fn lemma_true_cells_sorted_and_exact(self)
        requires
            self.wf(),
        ensures
            forall|i: int, j: int|
                0 <= i < j < self.true_cells().len() ==> {
                    let a = #[trigger] self.true_cells()[i];
                    let b = #[trigger] self.true_cells()[j];
                    self.index_of(a.0, a.1) < self.index_of(b.0, b.1)
                },
            forall|c: (int, int)| self.cells.contains(c) <==> #[trigger] self.true_cells().contains(c),
            self.true_cells().no_duplicates(),
    {
        self.lemma_true_cells_from(0);
        let s = self.true_cells();
        assert forall|c: (int, int)| self.cells.contains(c) implies s.contains(c) by {
            lemma_index_in_range(self.width as int, self.height as int, c.0, c.1);
        }
    }

    /// A grid without sand lists no cell, from whatever index the listing starts.
    pub proof fn lemma_empty_lists_nothing(width: nat, height: nat, k: int)
        ensures
            GridView::empty(width, height).true_cells_from(k) == Seq::<(int, int)>::empty(),
        decreases width * height - k,
    {
        if k < width * height {
            Self::lemma_empty_lists_nothing(width, height, k + 1);
        }
    }

    /// The listing of a freshly made grid is the empty sequence.
    pub proof fn lemma_empty_has_no_true_cells(width: nat, height: nat)
        ensures
            GridView::empty(width, height).true_cells() == Seq::<(int, int)>::empty(),
    {
        Self::lemma_empty_lists_nothing(width, height, 0);
    }

    /// Reading a cell after writing it gives what was written, and writing
    /// one cell changes no other.
    pub proof fn lemma_set_is_local(self, x: int, y: int, value: bool)
        requires
            self.in_bounds(x, y),
        ensures
            self.set(x, y, value).get(x, y) == Some(value),
            forall|x2: int, y2: int|
                (x2, y2) != (x, y) ==> #[trigger] self.set(x, y, value).get(x2, y2) == self.get(
                    x2,
                    y2,
                ),
            self.wf() ==> self.set(x, y, value).wf(),
    {
    }

    /// The occupied cells of a well-formed grid are finitely many.
    pub proof fn lemma_cells_finite(self)
        requires
            self.wf(),
        ensures
            self.cells.finite(),
    {
        self.lemma_true_cells_sorted_and_exact();
        let s = self.true_cells();
        assert(self.cells =~= s.to_set());
        vstd::seq_lib::seq_to_set_is_finite(s);
    }
}

/// An in-bounds coordinate has an index below the area.
pub proof fn lemma_index_in_range(width: int, height: int, x: int, y: int)
    requires
        0 <= x < width,
        0 <= y < height,
    ensures
        0 <= y * width + x < width * height,
        width * y == y * width,
        (y * width + x) % width == x,
        (y * width + x) / width == y,
{
    assert(width * y == y * width) by (nonlinear_arith);
    assert(0 <= y * width) by (nonlinear_arith)
        requires
            0 <= y,
            0 <= width,
    ;
    assert(y * width + width <= height * width) by (nonlinear_arith)
        requires
            y + 1 <= height,
            0 <= width,
    ;
    vstd::arithmetic::div_mod::lemma_fundamental_div_mod_converse(y * width + x, width, y, x);
}

/// An index below the area names an in-bounds coordinate, and that
/// coordinate has the index again.
pub proof fn lemma_cell_in_range(width: int, height: int, k: int)
    requires
        0 < width,
        0 <= k < width * height,
    ensures
        0 <= k % width < width,
        0 <= k / width < height,
        (k / width) * width + k % width == k,
{
    vstd::arithmetic::div_mod::lemma_fundamental_div_mod(k, width);
    vstd::arithmetic::div_mod::lemma_mod_bound(k, width);
    let q = k / width;
    let r = k % width;
    assert(0 <= q) by (nonlinear_arith)
        requires
            q * width + r == k,
            0 <= k,
            0 <= r < width,
    ;
    assert(q < height) by (nonlinear_arith)
        requires
            q * width + r == k,
            k < width * height,
            0 <= r < width,
            0 <= q,
    ;
}

} // verus!
