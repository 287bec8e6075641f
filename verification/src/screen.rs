//! The picture of the world: the mapping between the rows of the screen,
//! which count downwards, and the rows of the grid, which count upwards from
//! the floor, and the painting of a frame of four bytes per pixel.

use crate::bitarr::BitArray2D;
use crate::grid::GridView;
use vstd::prelude::*;

verus! {

/// The side of the square world, in cells and in pixels.
pub const WORLD_SIZE: usize = 120;

/// The grid cell shown at the pixel `(x, y)`.
pub fn screen_to_world(x: usize, y: usize) -> (cell: (usize, usize))
    requires
        y < WORLD_SIZE,
    ensures
        cell.0 == x,
        cell.1 == WORLD_SIZE - 1 - y,
{
    (x, WORLD_SIZE - 1 - y)
}

/// The pixel that shows the grid cell `(x, y)`.
pub fn world_to_screen(x: usize, y: usize) -> (pixel: (usize, usize))
    requires
        y < WORLD_SIZE,
    ensures
        pixel.0 == x,
        pixel.1 == WORLD_SIZE - 1 - y,
{
    (x, WORLD_SIZE - 1 - y)
}

/// Where the four bytes of the pixel `(x, y)` start in a frame.
pub open spec fn pixel_offset(x: int, y: int) -> int {
    (WORLD_SIZE * y + x) * 4
}

/// The frame `before` with the pixel `(x, y)` painted in `color`.
pub open spec fn with_pixel(before: Seq<u8>, x: int, y: int, color: Seq<u8>) -> Seq<u8> {
    Seq::new(
        before.len(),
        |i: int|
            if pixel_offset(x, y) <= i < pixel_offset(x, y) + 4 {
                color[i - pixel_offset(x, y)]
            } else {
                before[i]
            },
    )
}

/// Paints the pixel `(x, y)` in `color`.
pub fn set_pixel(frame: &mut [u8], x: usize, y: usize, color: &[u8; 4])
    requires
        pixel_offset(x as int, y as int) + 4 <= old(frame)@.len(),
    ensures
        final(frame)@ == with_pixel(old(frame)@, x as int, y as int, color@),
{
    let len: usize = frame.len();
    assert((WORLD_SIZE * y + x) * 4 + 4 <= len);
    let index: usize = (WORLD_SIZE * y + x) * 4;
    frame[index] = color[0];
    frame[index + 1] = color[1];
    frame[index + 2] = color[2];
    frame[index + 3] = color[3];
}

/// The frame `before` with every whole pixel painted in `color`. Bytes past
/// the last whole pixel stay as they are.
pub open spec fn cleared(before: Seq<u8>, color: Seq<u8>) -> Seq<u8> {
    Seq::new(
        before.len(),
        |i: int|
            if i < before.len() - before.len() % 4 {
                color[i % 4]
            } else {
                before[i]
            },
    )
}

/// Paints every whole pixel of the frame in `color`.
pub fn clear_frame(frame: &mut [u8], color: &[u8; 4])
    ensures
        final(frame)@ == cleared(old(frame)@, color@),
{
    let len: usize = frame.len();
    let mut start: usize = 0;
    while len - start >= 4
        invariant
            start <= len,
            start % 4 == 0,
            frame@.len() == len,
            old(frame)@.len() == len,
            forall|i: int| 0 <= i < start ==> frame@[i] == color@[i % 4],
            forall|i: int| start <= i < len ==> frame@[i] == old(frame)@[i],
        decreases len - start,
    {
        frame[start] = color[0];
        frame[start + 1] = color[1];
        frame[start + 2] = color[2];
        frame[start + 3] = color[3];
        start = start + 4;
    }
}

/// The frame `before` with the row `row` of the picture painted in `color`.
pub open spec fn with_row(before: Seq<u8>, row: int, color: Seq<u8>) -> Seq<u8> {
    Seq::new(
        before.len(),
        |i: int|
            if pixel_offset(0, row) <= i < pixel_offset(0, row + 1) {
                color[i % 4]
            } else {
                before[i]
            },
    )
}

/// Paints the row `row` of the picture in `color`, pixel by pixel.
pub fn paint_row(frame: &mut [u8], row: usize, color: &[u8; 4])
    requires
        pixel_offset(0, row + 1) <= old(frame)@.len(),
    ensures
        final(frame)@ == with_row(old(frame)@, row as int, color@),
{
    let len: usize = frame.len();
    let mut col: usize = 0;
    while col < WORLD_SIZE
        invariant
            col <= WORLD_SIZE,
            frame@.len() == len,
            old(frame)@.len() == len,
            pixel_offset(0, row + 1) <= len,
            forall|i: int|
                0 <= i < len ==> frame@[i] == if pixel_offset(0, row as int) <= i < pixel_offset(
                    col as int,
                    row as int,
                ) {
                    color@[i % 4]
                } else {
                    old(frame)@[i]
                },
        decreases WORLD_SIZE - col,
    {
        set_pixel(frame, col, row, color);
        col = col + 1;
    }
}

/// The grid cell that the byte `i` of a frame belongs to.
pub open spec fn cell_of_byte(i: int) -> (int, int) {
    ((i / 4) % (WORLD_SIZE as int), WORLD_SIZE - 1 - (i / 4) / (WORLD_SIZE as int))
}

/// The number of bytes of a frame that shows the whole world.
pub open spec fn frame_len() -> int {
    4 * WORLD_SIZE * WORLD_SIZE
}

/// The frame `before` with the pixels of the first `n` cells of `order`
/// painted in `color`.
spec fn with_cells(before: Seq<u8>, order: Seq<(int, int)>, n: int, color: Seq<u8>) -> Seq<
    u8,
> {
    Seq::new(
        before.len(),
        |i: int|
            if i < frame_len() && exists|j: int| 0 <= j < n && #[trigger] order[j] == cell_of_byte(i) {
                color[i % 4]
            } else {
                before[i]
            },
    )
}

/// The frame `before` with the pixel of every occupied cell painted in
/// `color`. All other bytes stay as they are.
pub open spec fn with_sand(before: Seq<u8>, sand: GridView, color: Seq<u8>) -> Seq<u8> {
    Seq::new(
        before.len(),
        |i: int|
            if i < frame_len() && sand.cells.contains(cell_of_byte(i)) {
                color[i % 4]
            } else {
                before[i]
            },
    )
}

/// Paints the pixel of every occupied cell of `sand` in `color`.
pub fn render_sand(frame: &mut [u8], sand: &BitArray2D, color: &[u8; 4])
    requires
        sand.wf(),
        sand@.width <= WORLD_SIZE,
        sand@.height <= WORLD_SIZE,
        old(frame)@.len() >= frame_len(),
    ensures
        final(frame)@ == with_sand(old(frame)@, sand@, color@),
{
    proof {
        sand.lemma_view_wf();
        sand@.lemma_true_cells_sorted_and_exact();
    }
    let len: usize = frame.len();
    let mut cursor = sand.iter_true();
    let ghost order = sand@.true_cells();
    let ghost mut done: int = 0;
    loop
        invariant_except_break
            cursor@ == order.skip(done),
        invariant
            sand.wf(),
            sand@.wf(),
            sand@.width <= WORLD_SIZE,
            sand@.height <= WORLD_SIZE,
            cursor.wf(),
            cursor.grid() == sand@,
            order == sand@.true_cells(),
            forall|c: (int, int)| sand@.cells.contains(c) <==> #[trigger] order.contains(c),
            0 <= done <= order.len(),
            frame@.len() == len,
            old(frame)@.len() == len,
            len >= frame_len(),
            frame@ == with_cells(old(frame)@, order, done, color@),
        ensures
            done == order.len(),
        decreases order.len() - done,
    {
        let item = cursor.next();
        match item {
            None => {
                break ;
            },
            Some((x, y)) => {
                proof {
                    assert(order.contains(order[done]));
                }
                let (col, row): (usize, usize) = world_to_screen(x, y);
                set_pixel(frame, col, row, color);
                proof {
                    let offset = pixel_offset(col as int, row as int);
                    assert forall|i: int| 0 <= i < len implies frame@[i] == with_cells(
                        old(frame)@,
                        order,
                        done + 1,
                        color@,
                    )[i] by {
                        if i < frame_len() && !(offset <= i < offset + 4) && exists|j: int|
                            0 <= j < done + 1 && #[trigger] order[j] == cell_of_byte(i) {
                            let j = choose|j: int|
                                0 <= j < done + 1 && #[trigger] order[j] == cell_of_byte(i);
                        }
                    }
                    done = done + 1;
                }
            },
        }
    }
    proof {
        assert forall|i: int| 0 <= i < len implies frame@[i] == with_sand(
            old(frame)@,
            sand@,
            color@,
        )[i] by {
            if i < frame_len() {
                if sand@.cells.contains(cell_of_byte(i)) {
                    assert(order.contains(cell_of_byte(i)));
                }
                if exists|j: int| 0 <= j < done && #[trigger] order[j] == cell_of_byte(i) {
                    let j = choose|j: int| 0 <= j < done && #[trigger] order[j] == cell_of_byte(i);
                    assert(order.contains(order[j]));
                }
            }
        }
    }
}

} // verus!
