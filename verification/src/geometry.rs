//! The geometry of a spritesheet: which dimensions a sheet must have, where
//! each cell lies on it, and which cells belong to which direction.
//!
//! A sheet is a grid of square cells. With the vertical orientation each row
//! holds the frames of one direction; with the horizontal orientation each row
//! holds one frame in every direction. A frame group without directions has a
//! single lane: one row of frames when vertical, one column when horizontal.
//! The cells of a sheet are numbered row by row, starting at 0.

use crate::types::{direction_to_u8, u8_to_direction, Direction, Orientation};
use vstd::prelude::*;

verus! {

/// The number of lanes of a sheet: one for each direction, and one where there
/// are no directions.
pub open spec fn lanes(direction_count: u32) -> int {
    if direction_count > 0 {
        direction_count as int
    } else {
        1
    }
}

/// The number of cells in one row of a sheet.
pub open spec fn grid_columns(
    frame_count: u32,
    direction_count: u32,
    orientation: Orientation,
) -> int {
    match orientation {
        Orientation::Vertical => frame_count as int,
        Orientation::Horizontal => lanes(direction_count),
    }
}

/// The number of rows of a sheet.
pub open spec fn grid_rows(
    frame_count: u32,
    direction_count: u32,
    orientation: Orientation,
) -> int {
    match orientation {
        Orientation::Vertical => lanes(direction_count),
        Orientation::Horizontal => frame_count as int,
    }
}

/// The width in pixels that a sheet must have.
pub open spec fn sheet_width(
    sprite_size: u32,
    frame_count: u32,
    direction_count: u32,
    orientation: Orientation,
) -> int {
    sprite_size * grid_columns(frame_count, direction_count, orientation)
}

/// The height in pixels that a sheet must have.
pub open spec fn sheet_height(
    sprite_size: u32,
    frame_count: u32,
    direction_count: u32,
    orientation: Orientation,
) -> int {
    sprite_size * grid_rows(frame_count, direction_count, orientation)
}

proof fn lemma_product_fits(a: u32, b: u32)
    ensures
        0 <= a * b <= 0xffff_fffe_0000_0001,
{
    assert(0 <= a * b <= 0xffff_fffe_0000_0001) by (nonlinear_arith)
        requires
            0 <= a <= 0xffff_ffff,
            0 <= b <= 0xffff_ffff,
    ;
}

/// The dimensions in pixels that a sheet of `frame_count` frames in
/// `direction_count` directions must have, width first.
pub fn expected_sheet_size(
    sprite_size: u32,
    frame_count: u32,
    direction_count: u32,
    orientation: Orientation,
) -> (size: (u64, u64))
    ensures
        size.0 == sheet_width(sprite_size, frame_count, direction_count, orientation),
        size.1 == sheet_height(sprite_size, frame_count, direction_count, orientation),
{
    let lane_count: u32 = if direction_count > 0 {
        direction_count
    } else {
        1
    };
    proof {
        lemma_product_fits(sprite_size, frame_count);
        lemma_product_fits(sprite_size, lane_count);
    }
    let along_frames: u64 = sprite_size as u64 * frame_count as u64;
    let along_lanes: u64 = sprite_size as u64 * lane_count as u64;
    match orientation {
        Orientation::Vertical => (along_frames, along_lanes),
        Orientation::Horizontal => (along_lanes, along_frames),
    }
}

/// A rectangle of pixels on a sheet.
#[derive(Clone, Copy, Debug, PartialEq, Eq, Structural)]
pub struct CellRect {
    pub x: u64,
    pub y: u64,
    pub width: u32,
    pub height: u32,
}

/// The left edge of the cell of a frame in a lane.
pub open spec fn cell_x(
    frame: u32,
    direction_index: u32,
    sprite_size: u32,
    orientation: Orientation,
) -> int {
    match orientation {
        Orientation::Vertical => frame * sprite_size,
        Orientation::Horizontal => direction_index * sprite_size,
    }
}

/// The upper edge of the cell of a frame in a lane.
pub open spec fn cell_y(
    frame: u32,
    direction_index: u32,
    sprite_size: u32,
    orientation: Orientation,
) -> int {
    match orientation {
        Orientation::Vertical => direction_index * sprite_size,
        Orientation::Horizontal => frame * sprite_size,
    }
}

/// The rectangle of the cell that holds frame `frame` of the direction whose
/// lane is `direction_index`.
pub fn cell_rect(
    frame: u32,
    direction_index: u32,
    sprite_size: u32,
    orientation: Orientation,
) -> (rect: CellRect)
    ensures
        rect.x == cell_x(frame, direction_index, sprite_size, orientation),
        rect.y == cell_y(frame, direction_index, sprite_size, orientation),
        rect.width == sprite_size,
        rect.height == sprite_size,
{
    proof {
        lemma_product_fits(frame, sprite_size);
        lemma_product_fits(direction_index, sprite_size);
    }
    let along_frames: u64 = frame as u64 * sprite_size as u64;
    let along_lanes: u64 = direction_index as u64 * sprite_size as u64;
    match orientation {
        Orientation::Vertical => CellRect {
            x: along_frames,
            y: along_lanes,
            width: sprite_size,
            height: sprite_size,
        },
        Orientation::Horizontal => CellRect {
            x: along_lanes,
            y: along_frames,
            width: sprite_size,
            height: sprite_size,
        },
    }
}

/// The directions under which a frame group holds an animation.
pub open spec fn entry_keys<A>(entries: Seq<(Option<Direction>, A)>) -> Seq<Option<Direction>> {
    entries.map_values(|e: (Option<Direction>, A)| e.0)
}

/// The directions that occur among the keys of a frame group.
pub open spec fn present_directions(keys: Seq<Option<Direction>>) -> Set<Direction> {
    Set::new(|d: Direction| keys.contains(Some(d)))
}

/// How many of the directions with a code below `bound` are present.
pub open spec fn directions_below(present: Set<Direction>, bound: nat) -> nat
    decreases bound,
{
    if bound == 0 {
        0
    } else {
        directions_below(present, (bound - 1) as nat) + if present.contains(
            Direction::of_code((bound - 1) as u8),
        ) {
            1nat
        } else {
            0nat
        }
    }
}

/// The number of directions that are present.
pub open spec fn direction_count(present: Set<Direction>) -> nat {
    directions_below(present, 8)
}

/// The lane of a direction: its rank among the present directions, ordered by
/// code. It is not the code itself. A direction that is not present has lane 0.
pub open spec fn direction_index(dir: Direction, present: Set<Direction>) -> nat {
    if present.contains(dir) {
        directions_below(present, dir.code() as nat)
    } else {
        0
    }
}

/// No more directions lie below a bound than the bound says, and raising the
/// bound loses none.
pub proof fn lemma_directions_below_bounds(present: Set<Direction>, low: nat, high: nat)
    requires
        low <= high,
    ensures
        directions_below(present, low) <= low,
        directions_below(present, low) <= directions_below(present, high),
    decreases high,
{
    if low > 0 {
        lemma_directions_below_bounds(present, (low - 1) as nat, (low - 1) as nat);
    }
    if low < high {
        lemma_directions_below_bounds(present, low, (high - 1) as nat);
    }
}

/// The present directions with a code below `bound`.
pub open spec fn present_below(present: Set<Direction>, bound: nat) -> Set<Direction> {
    present.filter(|d: Direction| d.code() < bound)
}

/// `directions_below` counts the present directions with a code below the
/// bound.
pub proof fn lemma_directions_below_counts(present: Set<Direction>, bound: nat)
    requires
        bound <= 8,
    ensures
        present_below(present, bound).finite(),
        present_below(present, bound).len() == directions_below(present, bound),
    decreases bound,
{
    if bound == 0 {
        assert(present_below(present, 0) =~= Set::empty());
    } else {
        let below = (bound - 1) as nat;
        let direction = Direction::of_code(below as u8);
        lemma_directions_below_counts(present, below);
        assert(direction.code() == below);
        assert forall|d: Direction| d.code() == below implies d == direction by {
            assert(Direction::of_code(d.code()) == d);
        }
        if present.contains(direction) {
            assert(present_below(present, bound) =~= present_below(present, below).insert(
                direction,
            ));
        } else {
            assert(present_below(present, bound) =~= present_below(present, below));
        }
    }
}

/// The number of present directions is the number of elements of their set,
/// and the lane of a present direction is the number of present directions
/// with a smaller code.
pub proof fn lemma_direction_count_is_cardinality(dir: Direction, present: Set<Direction>)
    ensures
        present.finite(),
        direction_count(present) == present.len(),
        present.contains(dir) ==> direction_index(dir, present) == present_below(
            present,
            dir.code() as nat,
        ).len(),
{
    lemma_directions_below_counts(present, 8);
    lemma_directions_below_counts(present, dir.code() as nat);
    assert(present_below(present, 8) =~= present);
}

/// The lane of a present direction lies below the number of present
/// directions, and of two present directions the one with the smaller code has
/// the smaller lane.
pub proof fn lemma_direction_index_is_rank(a: Direction, b: Direction, present: Set<Direction>)
    requires
        present.contains(a),
        present.contains(b),
    ensures
        direction_index(a, present) < direction_count(present) <= 8,
        a.code() < b.code() ==> direction_index(a, present) < direction_index(b, present),
        a.code() == b.code() ==> direction_index(a, present) == direction_index(b, present),
{
    let code: nat = a.code() as nat;
    assert(Direction::of_code(a.code()) == a);
    assert(directions_below(present, code + 1) == directions_below(present, code) + 1);
    lemma_directions_below_bounds(present, code + 1, 8);
    lemma_directions_below_bounds(present, 8, 8);
    if a.code() < b.code() {
        lemma_directions_below_bounds(present, code + 1, b.code() as nat);
    }
}

/// Whether a frame group holds an animation under `dir`.
pub fn has_direction<A>(animations: &Vec<(Option<Direction>, A)>, dir: Direction) -> (found: bool)
    ensures
        found == present_directions(entry_keys(animations@)).contains(dir),
{
    let ghost keys = entry_keys(animations@);
    let mut i: usize = 0;
    while i < animations.len()
        invariant
            i <= animations.len(),
            keys == entry_keys(animations@),
            forall|j: int| 0 <= j < i ==> keys[j] != Some(dir),
        decreases animations.len() - i,
    {
        match animations[i].0 {
            Some(d) => {
                if d == dir {
                    assert(keys[i as int] == Some(dir));
                    return true;
                }
            },
            None => {},
        }
        i += 1;
    }
    false
}

/// How many directions with a code below `bound` a frame group holds an
/// animation under.
fn count_directions_below<A>(animations: &Vec<(Option<Direction>, A)>, bound: u8) -> (count: u32)
    requires
        bound <= 8,
    ensures
        count == directions_below(present_directions(entry_keys(animations@)), bound as nat),
        count <= bound,
{
    let ghost present = present_directions(entry_keys(animations@));
    let mut count: u32 = 0;
    let mut code: u8 = 0;
    while code < bound
        invariant
            code <= bound <= 8,
            present == present_directions(entry_keys(animations@)),
            count == directions_below(present, code as nat),
            count <= code,
        decreases bound - code,
    {
        if has_direction(animations, u8_to_direction(code)) {
            count += 1;
        }
        code += 1;
    }
    count
}

/// The number of directions under which a frame group holds an animation.
pub fn count_directions<A>(animations: &Vec<(Option<Direction>, A)>) -> (count: u32)
    ensures
        count == direction_count(present_directions(entry_keys(animations@))),
        count <= 8,
{
    count_directions_below(animations, 8)
}

/// The lane of `dir` on the sheet of a frame group: the rank of `dir` among
/// the directions that the frame group holds, ordered by code; 0 where the
/// frame group does not hold `dir`.
pub fn calculate_direction_row<A>(
    dir: Direction,
    animations: &Vec<(Option<Direction>, A)>,
) -> (row: usize)
    ensures
        row == direction_index(dir, present_directions(entry_keys(animations@))),
        row < 8,
{
    if !has_direction(animations, dir) {
        return 0;
    }
    let row: u32 = count_directions_below(animations, direction_to_u8(dir));
    row as usize
}

/// The number of the cell that holds frame `frame` of the direction in lane
/// `direction_index`, the cells of the sheet being counted row by row.
pub open spec fn slice_position(
    frame: int,
    direction_index: int,
    frame_count: u32,
    direction_count: u32,
    orientation: Orientation,
) -> int {
    match orientation {
        Orientation::Horizontal => frame * lanes(direction_count) + direction_index,
        Orientation::Vertical => direction_index * frame_count + frame,
    }
}

proof fn lemma_position_fits(
    frame: int,
    direction_index: u32,
    frame_count: u32,
    direction_count: u32,
)
    requires
        0 <= frame < frame_count,
    ensures
        0 <= frame * lanes(direction_count) + direction_index <= 0xffff_ffff_0000_0000,
        0 <= direction_index * frame_count + frame <= 0xffff_ffff_0000_0000,
{
    let lane_count = lanes(direction_count);
    assert(0 <= frame * lane_count <= 0xffff_fffe * 0xffff_ffff) by (nonlinear_arith)
        requires
            0 <= frame <= 0xffff_fffe,
            1 <= lane_count <= 0xffff_ffff,
    ;
    assert(0 <= direction_index * frame_count <= 0xffff_ffff * 0xffff_ffff) by (nonlinear_arith)
        requires
            0 <= direction_index <= 0xffff_ffff,
            0 <= frame_count <= 0xffff_ffff,
    ;
    assert(direction_index * frame_count + frame <= 0xffff_ffff_0000_0000) by (nonlinear_arith)
        requires
            0 <= direction_index <= 0xffff_ffff,
            0 <= frame < frame_count <= 0xffff_ffff,
    ;
}

/// The numbers of the cells that belong to the direction in lane
/// `direction_index`, in the order of its frames.
pub fn slice_indices(
    direction_index: u32,
    frame_count: u32,
    direction_count: u32,
    orientation: Orientation,
) -> (indices: Vec<u64>)
    ensures
        indices@.len() == frame_count,
        forall|frame: int|
            0 <= frame < frame_count ==> #[trigger] indices@[frame] == slice_position(
                frame,
                direction_index as int,
                frame_count,
                direction_count,
                orientation,
            ),
{
    let lane_count: u64 = if direction_count > 0 {
        direction_count as u64
    } else {
        1
    };
    let mut indices: Vec<u64> = Vec::new();
    let mut frame: u32 = 0;
    while frame < frame_count
        invariant
            frame <= frame_count,
            lane_count == lanes(direction_count),
            indices@.len() == frame,
            forall|f: int|
                0 <= f < frame ==> #[trigger] indices@[f] == slice_position(
                    f,
                    direction_index as int,
                    frame_count,
                    direction_count,
                    orientation,
                ),
        decreases frame_count - frame,
    {
        proof {
            lemma_position_fits(frame as int, direction_index, frame_count, direction_count);
        }
        let position: u64 = match orientation {
            Orientation::Horizontal => frame as u64 * lane_count + direction_index as u64,
            Orientation::Vertical => direction_index as u64 * frame_count as u64 + frame as u64,
        };
        indices.push(position);
        frame += 1;
    }
    indices
}

/// The cell that `slice_position` names is the one that `cell_x` and `cell_y`
/// place: counted row by row it lies in column `cell_x / sprite_size` of row
/// `cell_y / sprite_size`, and it lies on the sheet.
pub proof fn lemma_slice_position_is_cell(
    frame: u32,
    direction_index: u32,
    sprite_size: u32,
    frame_count: u32,
    direction_count: u32,
    orientation: Orientation,
)
    requires
        frame < frame_count,
        direction_index < lanes(direction_count),
    ensures
        ({
            let position = slice_position(
                frame as int,
                direction_index as int,
                frame_count,
                direction_count,
                orientation,
            );
            let columns = grid_columns(frame_count, direction_count, orientation);
            let rows = grid_rows(frame_count, direction_count, orientation);
            let x = cell_x(frame, direction_index, sprite_size, orientation);
            let y = cell_y(frame, direction_index, sprite_size, orientation);
            &&& 0 <= position < rows * columns
            &&& 0 <= position % columns < columns
            &&& 0 <= position / columns < rows
            &&& x == (position % columns) * sprite_size
            &&& y == (position / columns) * sprite_size
            &&& x + sprite_size <= sheet_width(
                sprite_size,
                frame_count,
                direction_count,
                orientation,
            )
            &&& y + sprite_size <= sheet_height(
                sprite_size,
                frame_count,
                direction_count,
                orientation,
            )
        }),
{
    let columns = grid_columns(frame_count, direction_count, orientation);
    let rows = grid_rows(frame_count, direction_count, orientation);
    let (row, column): (int, int) = match orientation {
        Orientation::Horizontal => (frame as int, direction_index as int),
        Orientation::Vertical => (direction_index as int, frame as int),
    };
    let position = row * columns + column;
    lemma_cell_of_position(row, column, rows, columns);
    assert(column * sprite_size + sprite_size <= sprite_size * columns) by (nonlinear_arith)
        requires
            0 <= column < columns,
            0 <= sprite_size,
    ;
    assert(row * sprite_size + sprite_size <= sprite_size * rows) by (nonlinear_arith)
        requires
            0 <= row < rows,
            0 <= sprite_size,
    ;
}

/// Two frames of one sheet lie in different cells, unless they are the same
/// frame in the same lane.
pub proof fn lemma_slice_positions_differ(
    first_frame: u32,
    first_lane: u32,
    second_frame: u32,
    second_lane: u32,
    frame_count: u32,
    direction_count: u32,
    orientation: Orientation,
)
    requires
        first_frame < frame_count,
        second_frame < frame_count,
        first_lane < lanes(direction_count),
        second_lane < lanes(direction_count),
        first_frame != second_frame || first_lane != second_lane,
    ensures
        slice_position(
            first_frame as int,
            first_lane as int,
            frame_count,
            direction_count,
            orientation,
        ) != slice_position(
            second_frame as int,
            second_lane as int,
            frame_count,
            direction_count,
            orientation,
        ),
{
    let columns = grid_columns(frame_count, direction_count, orientation);
    let rows = grid_rows(frame_count, direction_count, orientation);
    match orientation {
        Orientation::Horizontal => {
            lemma_cell_of_position(first_frame as int, first_lane as int, rows, columns);
            lemma_cell_of_position(second_frame as int, second_lane as int, rows, columns);
        },
        Orientation::Vertical => {
            lemma_cell_of_position(first_lane as int, first_frame as int, rows, columns);
            lemma_cell_of_position(second_lane as int, second_frame as int, rows, columns);
        },
    }
}

/// Cell `column` of row `row` is cell `row * columns + column` of the grid.
pub proof fn lemma_cell_of_position(row: int, column: int, rows: int, columns: int)
    requires
        0 <= row < rows,
        0 <= column < columns,
    ensures
        0 <= row * columns + column < rows * columns,
        (row * columns + column) / columns == row,
        (row * columns + column) % columns == column,
{
    vstd::arithmetic::div_mod::lemma_fundamental_div_mod_converse(
        row * columns + column,
        columns,
        row,
        column,
    );
    assert(row * columns + column < rows * columns) by (nonlinear_arith)
        requires
            0 <= row < rows,
            0 <= column < columns,
    ;
    assert(0 <= row * columns) by (nonlinear_arith)
        requires
            0 <= row,
            0 <= columns,
    ;
}

} // verus!
