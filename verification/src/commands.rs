//! One drawing command applied to the pixel grid: an action word, an
//! equation, and a colour, as the three comma-separated fields of a command
//! line. The equation is sampled once per column; each sample selects the
//! row to paint in that column.

use vstd::prelude::*;

use crate::ast::CalcError;
use crate::calculator::{calculate_eq, spec_calculate};
use crate::canvas::{
    add_color_change, blend_add, blend_sub, cell_painted, copy_grid, grid_wf, set_color_change,
    subtract_color_change, targets_in_grid, Pixel,
};
use crate::text::{eq_ignore_ascii_case, parse_channel_values, spec_channel_values, word_matches};

verus! {

/// The colour named by a command's third field: its three 8-bit channel
/// values, or white when it does not hold exactly three.
pub open spec fn spec_color(s: Seq<char>) -> Pixel {
    let vals = spec_channel_values(s, 0, Seq::empty(), Seq::empty());
    if vals.len() == 3 {
        Pixel { r: vals[0], g: vals[1], b: vals[2] }
    } else {
        Pixel { r: 255u8, g: 255u8, b: 255u8 }
    }
}

/// The grid row that a sampled value `y` selects, on a grid `height` rows
/// tall: the sample is measured upwards from the bottom row, and anything
/// off the grid is clamped — to the top row above it, and to the
/// paint-nothing marker `-1` below it.
pub open spec fn spec_screen_row(height: int, y: i32) -> int {
    let v = height - 1 - y;
    if v < -1 {
        -1
    } else if v > height - 1 {
        height - 1
    } else {
        v
    }
}

/// What a painted cell becomes under the command's action word (matched
/// ignoring ASCII case): brightened, darkened, replaced — or left alone
/// under an unknown word.
pub open spec fn spec_painted_cell(action: Seq<char>, old: Pixel, color: Pixel) -> Pixel {
    if word_matches(action, "add"@) {
        blend_add(old, color)
    } else if word_matches(action, "subtract"@) {
        blend_sub(old, color)
    } else if word_matches(action, "set"@) {
        color
    } else {
        old
    }
}

/// Applies one command — action word, equation, colour — to the grid: the
/// equation is sampled at every column, each sample selects a row, and the
/// selected cells are painted by the action. The first failing sample
/// aborts the command with its error and paints nothing.
#[verifier::loop_isolation(false)]
pub fn handle_cmds(
    cmds: Vec<String>,
    image_width: usize,
    image_height: usize,
    pixels: &Vec<Vec<Pixel>>,
) -> (r: Result<Vec<Vec<Pixel>>, CalcError>)
    requires
        cmds@.len() >= 3,
        1 <= image_height,
        image_height - 1 <= i32::MAX,
        pixels@.len() == image_height,
        grid_wf(pixels@, image_width as nat),
    ensures
        match r {
            Err(e) => spec_calculate(cmds@[1]@, image_width as nat) == Err::<Seq<i32>, CalcError>(
                e,
            ),
            Ok(g) => {
                &&& spec_calculate(cmds@[1]@, image_width as nat) is Ok
                &&& g@.len() == pixels@.len()
                &&& grid_wf(g@, image_width as nat)
                &&& ({
                    let ys = spec_calculate(cmds@[1]@, image_width as nat)->Ok_0;
                    let color = spec_color(cmds@[2]@);
                    forall|row: int, c: int|
                        0 <= row < pixels@.len() && 0 <= c < image_width ==> (#[trigger] g@[row]@[c])
                            == (if spec_screen_row(image_height as int, ys[c]) == row {
                            spec_painted_cell(cmds@[0]@, pixels@[row]@[c], color)
                        } else {
                            pixels@[row]@[c]
                        })
                })
            },
        },
{
    let rgb_values = parse_channel_values(&cmds[2]);
    let mut color_change = Pixel { r: 255, g: 255, b: 255 };
    if rgb_values.len() == 3 {
        color_change = Pixel { r: rgb_values[0], g: rgb_values[1], b: rgb_values[2] };
    }
    proof {
        assert(color_change == spec_color(cmds@[2]@));
    }
    let range_of_y = match calculate_eq(&cmds[1], image_width) {
        Ok(v) => v,
        Err(e) => {
            return Err(e);
        },
    };
    let ghost ys = spec_calculate(cmds@[1]@, image_width as nat)->Ok_0;
    let mut screen_range_of_y: Vec<i32> = Vec::new();
    let mut col: usize = 0;
    while col < image_width
        invariant
            col <= image_width,
            screen_range_of_y@.len() == col,
            forall|c: int|
                0 <= c < col ==> (#[trigger] screen_range_of_y@[c]) == spec_screen_row(
                    image_height as int,
                    ys[c],
                ),
        decreases image_width - col,
    {
        let y = range_of_y[col];
        let new_y: i64 = (image_height - 1) as i64 - y as i64;
        let top: i64 = (image_height - 1) as i64;
        let clamped: i64 = if new_y < -1 {
            -1
        } else if new_y > top {
            top
        } else {
            new_y
        };
        screen_range_of_y.push(clamped as i32);
        col += 1;
    }
    proof {
        assert(targets_in_grid(screen_range_of_y@, image_width as nat, pixels@.len()));
        assert forall|row: int, c: int|
            0 <= row < pixels@.len() && 0 <= c
                < image_width implies #[trigger] cell_painted(
            screen_range_of_y@,
            image_width as nat,
            row,
            c,
        ) == (spec_screen_row(image_height as int, ys[c]) == row) by {
            assert(screen_range_of_y@[c] == spec_screen_row(image_height as int, ys[c]));
        }
    }
    let new_pixels = if eq_ignore_ascii_case(&cmds[0], "add") {
        add_color_change(image_width, screen_range_of_y, color_change, pixels)
    } else if eq_ignore_ascii_case(&cmds[0], "subtract") {
        subtract_color_change(image_width, screen_range_of_y, color_change, pixels)
    } else if eq_ignore_ascii_case(&cmds[0], "set") {
        set_color_change(image_width, screen_range_of_y, color_change, pixels)
    } else {
        copy_grid(pixels)
    };
    Ok(new_pixels)
}

} // verus!
