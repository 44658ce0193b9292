//! Plot-area layout rules that do not depend on the data: the margins left
//! around the plot area and the row order of an image.
use vstd::prelude::*;

verus! {

/// Space in pixels between each edge of the image and the plot area.
#[derive(Clone, Copy, Debug, PartialEq, Eq, Structural)]
pub struct Margins {
    pub left: u32,
    pub right: u32,
    pub top: u32,
    pub bottom: u32,
}

/// The margins of a framed plot: 60 pixels on the left (80 with a y label), 30 on the
/// right, 25 on top (50 with a title) and 45 at the bottom (65 with an x label).
pub open spec fn margins_spec(has_title: bool, has_xlabel: bool, has_ylabel: bool) -> Margins {
    Margins {
        left: if has_ylabel { 80 } else { 60 },
        right: 30,
        top: if has_title { 50 } else { 25 },
        bottom: if has_xlabel { 65 } else { 45 },
    }
}

/// The margins of a framed plot (see `margins_spec`).
pub fn plot_margins(has_title: bool, has_xlabel: bool, has_ylabel: bool) -> (r: Margins)
    ensures
        r == margins_spec(has_title, has_xlabel, has_ylabel),
        r.left == if has_ylabel { 80u32 } else { 60u32 },
        r.right == 30,
        r.top == if has_title { 50u32 } else { 25u32 },
        r.bottom == if has_xlabel { 65u32 } else { 45u32 },
{
    Margins {
        left: if has_ylabel { 80 } else { 60 },
        right: 30,
        top: if has_title { 50 } else { 25 },
        bottom: if has_xlabel { 65 } else { 45 },
    }
}

/// Adding a title or an axis label only ever widens the margins, and each widens only
/// the margin on its own side.
pub proof fn law_labels_widen_margins(has_title: bool, has_xlabel: bool, has_ylabel: bool)
    ensures
        margins_spec(has_title, has_xlabel, has_ylabel).left >= margins_spec(false, false, false).left,
        margins_spec(has_title, has_xlabel, has_ylabel).top >= margins_spec(false, false, false).top,
        margins_spec(has_title, has_xlabel, has_ylabel).bottom >= margins_spec(false, false, false).bottom,
        margins_spec(has_title, has_xlabel, has_ylabel).right == margins_spec(false, false, false).right,
        margins_spec(has_title, has_xlabel, has_ylabel).left == margins_spec(false, false, has_ylabel).left,
        margins_spec(has_title, has_xlabel, has_ylabel).top == margins_spec(has_title, false, false).top,
        margins_spec(has_title, has_xlabel, has_ylabel).bottom == margins_spec(false, has_xlabel, false).bottom,
{
}

/// Vertical cell position, counted upward from the bottom of the image in data units,
/// at which row `row` of an image with `rows` rows is drawn: with the origin at the
/// bottom, row 0 is the lowest; otherwise row 0 is the highest.
pub open spec fn image_row_position_spec(row: int, rows: int, origin_lower: bool) -> int {
    if origin_lower {
        row
    } else {
        rows - 1 - row
    }
}

/// Position of image row `row` (see `image_row_position_spec`).
pub fn image_row_position(row: usize, rows: usize, origin_lower: bool) -> (r: usize)
    requires
        row < rows,
    ensures
        r == image_row_position_spec(row as int, rows as int, origin_lower),
        origin_lower ==> r == row,
        !origin_lower ==> r == rows - 1 - row,
        r < rows,
{
    if origin_lower {
        row
    } else {
        rows - 1 - row
    }
}

/// Either row order places every image row at a distinct position, and placing a
/// position again gives the row back.
pub proof fn law_image_rows_placed_once(row: int, other: int, rows: int, origin_lower: bool)
    requires
        0 <= row < rows,
        0 <= other < rows,
    ensures
        0 <= image_row_position_spec(row, rows, origin_lower) < rows,
        row != other ==> image_row_position_spec(row, rows, origin_lower) != image_row_position_spec(
            other,
            rows,
            origin_lower,
        ),
        image_row_position_spec(image_row_position_spec(row, rows, origin_lower), rows, origin_lower) == row,
{
}

/// Image rows keep their order: with the origin at the bottom, a later row is always drawn
/// higher, so each row sits at its own index; with the origin at the top, a later row is
/// always drawn lower, so row `row` sits at `rows - 1 - row`. Positions stay in `[0, rows)`.
pub proof fn law_image_rows_keep_order(r1: int, r2: int, rows: int, origin_lower: bool)
    requires
        0 <= r1 < r2 < rows,
    ensures
        origin_lower ==> image_row_position_spec(r1, rows, true) < image_row_position_spec(r2, rows, true),
        !origin_lower ==> image_row_position_spec(r1, rows, false) > image_row_position_spec(r2, rows, false),
        image_row_position_spec(r1, rows, true) == r1,
        image_row_position_spec(r2, rows, true) == r2,
        image_row_position_spec(r1, rows, false) == rows - 1 - r1,
        0 <= image_row_position_spec(r1, rows, origin_lower) < rows,
        0 <= image_row_position_spec(r2, rows, origin_lower) < rows,
{
}

} // verus!
