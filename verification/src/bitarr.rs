//! The dense bit grid: a fixed-size field of cells, one bit each, stored row
//! by row in a `bit_vec::BitVec`.

use crate::grid::{lemma_cell_in_range, lemma_index_in_range, GridView};
use bit_vec::BitVec;
use vstd::prelude::*;

verus! {

/// `bit_vec::BitVec`, known to the verifier as an opaque type.
#[verifier::external_type_specification]
#[verifier::external_body]
#[verifier::reject_recursive_types(B)]
pub struct ExBitVec<B>(bit_vec::BitVec<B>);

/// The bits that a `BitVec` holds, in order of their index.
pub uninterp spec fn bits_of(v: BitVec) -> Seq<bool>;

/// `BitVec::from_elem`. Trusted: the new vector holds `nbits` bits, and each
/// of them equals `bit`.
#[verifier::external_body]
fn bitvec_from_elem(nbits: usize, bit: bool) -> (v: BitVec)
    ensures
        bits_of(v).len() == nbits,
        forall|i: int| 0 <= i < nbits ==> bits_of(v)[i] == bit,
{
    BitVec::from_elem(nbits, bit)
}

/// `BitVec::get`. Trusted: the bit at index `i`, or `None` where `i` is not
/// below the vector's length.
#[verifier::external_body]
fn bitvec_get(v: &BitVec, i: usize) -> (bit: Option<bool>)
    ensures
        bit == (if i < bits_of(*v).len() {
            Some(bits_of(*v)[i as int])
        } else {
            None::<bool>
        }),
{
    v.get(i)
}

/// `BitVec::set`, which panics on an index that is out of bounds. Trusted: the
/// bit at index `i` becomes `x` and no other bit changes.
#[verifier::external_body]
fn bitvec_set(v: &mut BitVec, i: usize, x: bool)
    requires
        i < bits_of(*old(v)).len(),
    ensures
        bits_of(*final(v)) == bits_of(*old(v)).update(i as int, x),
{
    v.set(i, x)
}

/// A `width` x `height` field of cells, each occupied or empty.
pub struct BitArray2D {
    data: BitVec,
    width: usize,
    height: usize,
}

impl View for BitArray2D {
    type V = GridView;

    closed spec fn view(&self) -> GridView {
        GridView {
            width: self.width as nat,
            height: self.height as nat,
            cells: Set::new(
                |c: (int, int)|
                    0 <= c.0 < self.width && 0 <= c.1 < self.height && bits_of(self.data)[c.1
                        * self.width + c.0],
            ),
        }
    }
}

impl BitArray2D {
    /// The storage holds exactly one bit for each cell of a non-empty grid.
    pub closed spec fn wf(&self) -> bool {
        &&& self.width > 0
        &&& self.height > 0
        &&& self.width * self.height <= usize::MAX
        &&& bits_of(self.data).len() == self.width * self.height
    }

    /// The model of a well-formed grid is well formed.
    pub proof fn lemma_view_wf(&self)
        requires
            self.wf(),
        ensures
            self@.wf(),
            self@.area() <= usize::MAX,
    {
    }

    /// The bit stored at a row-major index is the occupancy of the cell that
    /// has this index.
    proof fn lemma_bit_is_cell(&self, k: int)
        requires
            self.wf(),
            0 <= k < self.width * self.height,
        ensures
            self@.in_bounds(self@.cell_at(k).0, self@.cell_at(k).1),
            self@.cells.contains(self@.cell_at(k)) == bits_of(self.data)[k],
    {
        lemma_cell_in_range(self.width as int, self.height as int, k);
    }

    /// A grid of the given dimensions with every cell empty.
    pub fn new(width: usize, height: usize) -> (grid: Self)
        requires
            width > 0,
            height > 0,
            width * height <= usize::MAX,
        ensures
            grid.wf(),
            grid@ == GridView::empty(width as nat, height as nat),
    {
        let grid = Self { data: bitvec_from_elem(width * height, false), width, height };
        proof {
            assert forall|c: (int, int)| !grid@.cells.contains(c) by {
                if 0 <= c.0 < width && 0 <= c.1 < height {
                    lemma_index_in_range(width as int, height as int, c.0, c.1);
                }
            }
            assert(grid@.cells =~= Set::empty());
        }
        grid
    }

    /// The number of columns.
    pub fn width(&self) -> (w: usize)
        ensures
            w == self@.width,
    {
        self.width
    }

    /// The number of rows.
    pub fn height(&self) -> (h: usize)
        ensures
            h == self@.height,
    {
        self.height
    }

    /// The occupancy of the cell `(x, y)`, or `None` where `(x, y)` lies outside
    /// the grid.
    pub fn get(&self, x: usize, y: usize) -> (value: Option<bool>)
        requires
            self.wf(),
        ensures
            value == self@.get(x as int, y as int),
    {
        if x < self.width && y < self.height {
            proof {
                lemma_index_in_range(self.width as int, self.height as int, x as int, y as int);
            }
            let index: usize = self.width * y + x;
            bitvec_get(&self.data, index)
        } else {
            None
        }
    }

    /// Makes the cell `(x, y)` hold `value`; every other cell stays as it is.
    pub fn set(&mut self, x: usize, y: usize, value: bool)
        requires
            old(self).wf(),
            old(self)@.in_bounds(x as int, y as int),
        ensures
            final(self).wf(),
            final(self)@ == old(self)@.set(x as int, y as int, value),
    {
        proof {
            lemma_index_in_range(self.width as int, self.height as int, x as int, y as int);
        }
        let index: usize = self.width * y + x;
        bitvec_set(&mut self.data, index, value);
        proof {
            let w = self.width as int;
            let h = self.height as int;
            assert forall|c: (int, int)|
                self@.cells.contains(c) == old(self)@.set(x as int, y as int, value).cells.contains(
                    c,
                ) by {
                if 0 <= c.0 < w && 0 <= c.1 < h {
                    lemma_index_in_range(w, h, c.0, c.1);
                }
            }
            assert(self@.cells =~= old(self)@.set(x as int, y as int, value).cells);
        }
    }

    /// A cursor over the occupied cells, placed before the first of them.
    pub fn iter_true(&self) -> (cursor: TrueValuesIterator<'_>)
        requires
            self.wf(),
        ensures
            cursor.wf(),
            cursor.grid() == self@,
            cursor@ == self@.true_cells(),
    {
        TrueValuesIterator { bit_array: self, next_index: 0 }
    }
}

/// A cursor that walks the occupied cells of a grid in row-major order: row 0
/// from left to right, then row 1, and so on. Its view is the sequence of
/// cells that it has yet to hand out.
pub struct TrueValuesIterator<'a> {
    bit_array: &'a BitArray2D,
    next_index: usize,
}

impl<'a> View for TrueValuesIterator<'a> {
    type V = Seq<(int, int)>;

    closed spec fn view(&self) -> Seq<(int, int)> {
        self.bit_array@.true_cells_from(self.next_index as int)
    }
}

impl<'a> TrueValuesIterator<'a> {
    /// The cursor stands on a well-formed grid, at most one step past its last cell.
    pub closed spec fn wf(&self) -> bool {
        &&& self.bit_array.wf()
        &&& self.next_index <= self.bit_array.width * self.bit_array.height
    }

    /// The grid that the cursor walks.
    pub closed spec fn grid(&self) -> GridView {
        self.bit_array@
    }

    /// The row-major index from which the cursor goes on.
    pub closed spec fn position(&self) -> int {
        self.next_index as int
    }

    /// A valid cursor walks a well-formed grid, and what it has yet to hand
    /// out is the listing of that grid from the cursor's position on.
    pub proof fn lemma_cursor_wf(&self)
        requires
            self.wf(),
        ensures
            self.grid().wf(),
            0 <= self.position() <= self.grid().area(),
            self@ == self.grid().true_cells_from(self.position()),
    {
    }

    /// Hands out the next occupied cell, or `None` once all have been handed out.
    pub fn next(&mut self) -> (item: Option<(usize, usize)>)
        requires
            old(self).wf(),
        ensures
            final(self).wf(),
            final(self).grid() == old(self).grid(),
            match item {
                Some((x, y)) => {
                    &&& old(self)@.len() > 0
                    &&& old(self)@[0] == (x as int, y as int)
                    &&& final(self)@ == old(self)@.skip(1)
                },
                None => old(self)@.len() == 0 && final(self)@.len() == 0,
            },
    {
        let width: usize = self.bit_array.width;
        let area: usize = self.bit_array.width * self.bit_array.height;
        while self.next_index < area
            invariant
                self.wf(),
                self.bit_array == old(self).bit_array,
                width == self.bit_array.width,
                area == self.bit_array.width * self.bit_array.height,
                self@ == old(self)@,
            decreases area - self.next_index,
        {
            let index: usize = self.next_index;
            let bit = bitvec_get(&self.bit_array.data, index);
            proof {
                self.bit_array.lemma_bit_is_cell(index as int);
            }
            self.next_index = index + 1;
            if bit == Some(true) {
                return Some((index % width, index / width));
            }
        }
        None
    }
}

} // verus!
