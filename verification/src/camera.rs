//! The order in which a frame is rendered.
//!
//! A frame is a buffer of pixels, row by row from the top of the picture to
//! the bottom, each row from left to right. The camera counts its rows from
//! the bottom.

use vstd::prelude::*;

verus! {

/// The place in the buffer of the pixel in column `i` of the row that is
/// `row` rows below the top, in a frame `width` pixels wide.
pub open spec fn place(row: int, i: int, width: int) -> int {
    row * width + i
}

/// A pixel of an earlier row, or an earlier pixel of the same row, has an
/// earlier place.
proof fn lemma_place_order(row: int, i: int, other_row: int, other_i: int, width: int)
    requires
        0 <= i < width,
        0 <= other_i <= width,
        0 <= row,
        row < other_row || (row == other_row && i < other_i),
    ensures
        0 <= place(row, i, width) < place(other_row, other_i, width),
{
    assert(row < other_row ==> row * width + width <= other_row * width) by (nonlinear_arith)
        requires
            width > 0,
    ;
    assert(0 <= row * width) by (nonlinear_arith)
        requires
            0 <= row,
            0 < width,
    ;
}

/// Renders one frame of `dims.0` rows and `dims.1` columns. `cast` yields
/// the pixel in column `i` of the camera's row `j`, rows counted from the
/// bottom; the frame holds the rows from the top one down, so the pixel of
/// `(i, j)` stands at the place of column `i` in row `height - 1 - j`.
///
/// A frame with no rows or no columns is empty.
pub fn render_helper<T, C: Fn(i32, i32) -> T>(dims: (i32, i32), cast: C) -> (frame: Vec<T>)
    requires
        forall|i: i32, j: i32| 0 <= i < dims.1 && 0 <= j < dims.0 ==> call_requires(cast, (i, j)),
    ensures
        dims.0 > 0 && dims.1 > 0 ==> frame@.len() == dims.0 * dims.1,
        dims.0 <= 0 || dims.1 <= 0 ==> frame@.len() == 0,
        forall|row: int, i: int|
            0 <= row < dims.0 && 0 <= i < dims.1 ==> call_ensures(
                cast,
                (i as i32, (dims.0 - 1 - row) as i32),
                #[trigger] frame@[place(row, i, dims.1 as int)],
            ),
{
    let (height, width) = dims;
    let mut frame: Vec<T> = Vec::new();
    if height <= 0 || width <= 0 {
        return frame;
    }
    let mut j: i32 = height;
    while j > 0
        invariant
            0 <= j <= height,
            0 < width,
            forall|i: i32, j: i32|
                0 <= i < width && 0 <= j < height ==> call_requires(cast, (i, j)),
            frame@.len() == place(height - j, 0, width as int),
            forall|row: int, i: int|
                0 <= row < height - j && 0 <= i < width ==> call_ensures(
                    cast,
                    (i as i32, (height - 1 - row) as i32),
                    #[trigger] frame@[place(row, i, width as int)],
                ),
        decreases j,
    {
        j -= 1;
        let ghost this_row = height - 1 - j;
        let mut i: i32 = 0;
        while i < width
            invariant
                0 <= j < height,
                0 <= i <= width,
                this_row == height - 1 - j,
                forall|i: i32, j: i32|
                    0 <= i < width && 0 <= j < height ==> call_requires(cast, (i, j)),
                frame@.len() == place(this_row, i as int, width as int),
                forall|row: int, k: int|
                    (0 <= row < this_row && 0 <= k < width) || (row == this_row && 0 <= k < i)
                        ==> call_ensures(
                        cast,
                        (k as i32, (height - 1 - row) as i32),
                        #[trigger] frame@[place(row, k, width as int)],
                    ),
            decreases width - i,
        {
            let pixel_color = cast(i, j);
            let ghost before = frame@;
            frame.push(pixel_color);
            proof {
                assert forall|row: int, k: int|
                    (0 <= row < this_row && 0 <= k < width) || (row == this_row && 0 <= k < i
                        + 1) implies call_ensures(
                    cast,
                    (k as i32, (height - 1 - row) as i32),
                    #[trigger] frame@[place(row, k, width as int)],
                ) by {
                    if row == this_row && k == i {
                    } else {
                        lemma_place_order(row, k, this_row, i as int, width as int);
                        assert(frame@[place(row, k, width as int)] == before[place(
                            row,
                            k,
                            width as int,
                        )]);
                    }
                }
            }
            i += 1;
        }
        assert(place(this_row, width as int, width as int) == place(this_row + 1, 0, width as int))
            by (nonlinear_arith);
    }
    assert(height * width == place(height as int, 0, width as int));
    frame
}

} // verus!
