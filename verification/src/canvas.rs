//! The pixel grid that sampled equations are drawn onto: one sampled row
//! index per column, blended into the grid cell it selects. Channels are
//! 8-bit and blending saturates at the channel bounds.

use vstd::prelude::*;

verus! {

/// One pixel: red, green and blue channels.
#[derive(Debug, Clone, Copy, PartialEq, Eq, Structural)]
pub struct Pixel {
    pub r: u8,
    pub g: u8,
    pub b: u8,
}

impl Default for Pixel {
    /// The default pixel is white.
    fn default() -> (p: Pixel)
        ensures
            p == (Pixel { r: 255u8, g: 255u8, b: 255u8 }),
    {
        Pixel { r: 255, g: 255, b: 255 }
    }
}

/// Addition of two channel values, saturating at the channel maximum.
pub open spec fn sat_add(a: u8, b: u8) -> u8 {
    if a + b > 255 {
        255u8
    } else {
        (a + b) as u8
    }
}

/// Subtraction of two channel values, saturating at zero.
pub open spec fn sat_sub(a: u8, b: u8) -> u8 {
    if a - b < 0 {
        0u8
    } else {
        (a - b) as u8
    }
}

/// A pixel brightened channel-wise by `c`, saturating.
pub open spec fn blend_add(p: Pixel, c: Pixel) -> Pixel {
    Pixel { r: sat_add(p.r, c.r), g: sat_add(p.g, c.g), b: sat_add(p.b, c.b) }
}

/// A pixel darkened channel-wise by `c`, saturating.
pub open spec fn blend_sub(p: Pixel, c: Pixel) -> Pixel {
    Pixel { r: sat_sub(p.r, c.r), g: sat_sub(p.g, c.g), b: sat_sub(p.b, c.b) }
}

/// Every row of the grid is exactly `width` cells wide.
pub open spec fn grid_wf(g: Seq<Vec<Pixel>>, width: nat) -> bool {
    forall|r: int| 0 <= r < g.len() ==> (#[trigger] g[r])@.len() == width
}

/// Every non-negative sampled row index within the first `width` columns
/// names a row of a grid `height` rows tall.
pub open spec fn targets_in_grid(range: Seq<i32>, width: nat, height: nat) -> bool {
    forall|c: int| 0 <= c < width && (#[trigger] range[c]) >= 0 ==> range[c] < height
}

/// Whether the cell at `row`, `c` is selected for painting: its column is
/// sampled and the sampled row index is non-negative and names this row. A
/// negative index paints nothing in that column.
pub open spec fn cell_painted(range: Seq<i32>, width: nat, row: int, c: int) -> bool {
    0 <= c < width && range[c] >= 0 && range[c] == row
}

/// A copy of the grid, row by row.
pub fn copy_grid(pixels: &Vec<Vec<Pixel>>) -> (r: Vec<Vec<Pixel>>)
    ensures
        r@.len() == pixels@.len(),
        forall|i: int| 0 <= i < pixels@.len() ==> (#[trigger] r@[i])@ == pixels@[i]@,
{
    let mut out: Vec<Vec<Pixel>> = Vec::new();
    let mut i: usize = 0;
    while i < pixels.len()
        invariant
            i <= pixels@.len(),
            out@.len() == i,
            forall|j: int| 0 <= j < i ==> (#[trigger] out@[j])@ == pixels@[j]@,
        decreases pixels@.len() - i,
    {
        let row = &pixels[i];
        let mut new_row: Vec<Pixel> = Vec::new();
        let mut j: usize = 0;
        while j < row.len()
            invariant
                j <= row@.len(),
                new_row@ == row@.subrange(0, j as int),
            decreases row@.len() - j,
        {
            new_row.push(row[j]);
            proof {
                assert(new_row@ =~= row@.subrange(0, j + 1));
            }
            j += 1;
        }
        proof {
            assert(new_row@ =~= row@);
        }
        out.push(new_row);
        i += 1;
    }
    out
}

/// Brightens, for each sampled column, the cell its row index selects, by
/// `color_change`, saturating per channel. Every other cell is unchanged.
#[verifier::loop_isolation(false)]
pub fn add_color_change(
    image_width: usize,
    screen_range_of_y: Vec<i32>,
    color_change: Pixel,
    pixels: &Vec<Vec<Pixel>>,
) -> (r: Vec<Vec<Pixel>>)
    requires
        screen_range_of_y@.len() >= image_width,
        targets_in_grid(screen_range_of_y@, image_width as nat, pixels@.len()),
        grid_wf(pixels@, image_width as nat),
    ensures
        r@.len() == pixels@.len(),
        grid_wf(r@, image_width as nat),
        forall|row: int, c: int|
            0 <= row < pixels@.len() && 0 <= c < image_width ==> (#[trigger] r@[row]@[c]) == (
            if cell_painted(screen_range_of_y@, image_width as nat, row, c) {
                blend_add(pixels@[row]@[c], color_change)
            } else {
                pixels@[row]@[c]
            }),
{
    let mut new_pixels = copy_grid(pixels);
    let mut col: usize = 0;
    while col < image_width
        invariant
            col <= image_width,
            new_pixels@.len() == pixels@.len(),
            grid_wf(new_pixels@, image_width as nat),
            forall|row: int, c: int|
                0 <= row < pixels@.len() && 0 <= c < image_width ==> (#[trigger] new_pixels@[row]@[c])
                    == (if c < col && cell_painted(
                    screen_range_of_y@,
                    image_width as nat,
                    row,
                    c,
                ) {
                    blend_add(pixels@[row]@[c], color_change)
                } else {
                    pixels@[row]@[c]
                }),
        decreases image_width - col,
    {
        let y = screen_range_of_y[col];
        if y >= 0 {
            let idx = y as usize;
            let pixel = pixels[idx][col];
            let blended = Pixel {
                r: pixel.r.saturating_add(color_change.r),
                g: pixel.g.saturating_add(color_change.g),
                b: pixel.b.saturating_add(color_change.b),
            };
            new_pixels[idx][col] = blended;
        }
        col += 1;
    }
    new_pixels
}

/// Darkens, for each sampled column, the cell its row index selects, by
/// `color_change`, saturating per channel. Every other cell is unchanged.
#[verifier::loop_isolation(false)]
pub fn subtract_color_change(
    image_width: usize,
    screen_range_of_y: Vec<i32>,
    color_change: Pixel,
    pixels: &Vec<Vec<Pixel>>,
) -> (r: Vec<Vec<Pixel>>)
    requires
        screen_range_of_y@.len() >= image_width,
        targets_in_grid(screen_range_of_y@, image_width as nat, pixels@.len()),
        grid_wf(pixels@, image_width as nat),
    ensures
        r@.len() == pixels@.len(),
        grid_wf(r@, image_width as nat),
        forall|row: int, c: int|
            0 <= row < pixels@.len() && 0 <= c < image_width ==> (#[trigger] r@[row]@[c]) == (
            if cell_painted(screen_range_of_y@, image_width as nat, row, c) {
                blend_sub(pixels@[row]@[c], color_change)
            } else {
                pixels@[row]@[c]
            }),
{
    let mut new_pixels = copy_grid(pixels);
    let mut col: usize = 0;
    while col < image_width
        invariant
            col <= image_width,
            new_pixels@.len() == pixels@.len(),
            grid_wf(new_pixels@, image_width as nat),
            forall|row: int, c: int|
                0 <= row < pixels@.len() && 0 <= c < image_width ==> (#[trigger] new_pixels@[row]@[c])
                    == (if c < col && cell_painted(
                    screen_range_of_y@,
                    image_width as nat,
                    row,
                    c,
                ) {
                    blend_sub(pixels@[row]@[c], color_change)
                } else {
                    pixels@[row]@[c]
                }),
        decreases image_width - col,
    {
        let y = screen_range_of_y[col];
        if y >= 0 {
            let idx = y as usize;
            let pixel = pixels[idx][col];
            let blended = Pixel {
                r: pixel.r.saturating_sub(color_change.r),
                g: pixel.g.saturating_sub(color_change.g),
                b: pixel.b.saturating_sub(color_change.b),
            };
            new_pixels[idx][col] = blended;
        }
        col += 1;
    }
    new_pixels
}

/// Sets, for each sampled column, the cell its row index selects, to
/// `color_change`. Every other cell is unchanged.
#[verifier::loop_isolation(false)]
pub fn set_color_change(
    image_width: usize,
    screen_range_of_y: Vec<i32>,
    color_change: Pixel,
    pixels: &Vec<Vec<Pixel>>,
) -> (r: Vec<Vec<Pixel>>)
    requires
        screen_range_of_y@.len() >= image_width,
        targets_in_grid(screen_range_of_y@, image_width as nat, pixels@.len()),
        grid_wf(pixels@, image_width as nat),
    ensures
        r@.len() == pixels@.len(),
        grid_wf(r@, image_width as nat),
        forall|row: int, c: int|
            0 <= row < pixels@.len() && 0 <= c < image_width ==> (#[trigger] r@[row]@[c]) == (
            if cell_painted(screen_range_of_y@, image_width as nat, row, c) {
                color_change
            } else {
                pixels@[row]@[c]
            }),
{
    let mut new_pixels = copy_grid(pixels);
    let mut col: usize = 0;
    while col < image_width
        invariant
            col <= image_width,
            new_pixels@.len() == pixels@.len(),
            grid_wf(new_pixels@, image_width as nat),
            forall|row: int, c: int|
                0 <= row < pixels@.len() && 0 <= c < image_width ==> (#[trigger] new_pixels@[row]@[c])
                    == (if c < col && cell_painted(
                    screen_range_of_y@,
                    image_width as nat,
                    row,
                    c,
                ) {
                    color_change
                } else {
                    pixels@[row]@[c]
                }),
        decreases image_width - col,
    {
        let y = screen_range_of_y[col];
        if y >= 0 {
            let idx = y as usize;
            new_pixels[idx][col] = color_change;
        }
        col += 1;
    }
    new_pixels
}

} // verus!
