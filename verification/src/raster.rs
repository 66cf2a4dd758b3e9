//! From a decoded image to the grid of codels.

use crate::color::{is_piet_rgb, PietColor};
use crate::grid::valid_grid;
use vstd::prelude::*;

verus! {

/// A pixel that is none of the twenty colours, with its place in the image.
#[derive(Debug, Clone, Copy, PartialEq, Eq)]
pub struct InvalidPixel {
    pub x: u32,
    pub y: u32,
    pub rgb: [u8; 3],
}

/// A decoded image: three bytes, red, green and blue, for each pixel, row by
/// row from the top and from left to right within a row.
#[derive(Debug, PartialEq, Eq)]
pub struct Raster {
    pub width: u32,
    pub height: u32,
    pub data: Vec<u8>,
}

impl Raster {
    /// The data hold exactly the pixels of the image.
    pub open spec fn well_formed(&self) -> bool {
        self.data@.len() == 3 * self.width * self.height
    }

    /// The image of the given size over `data`, if `data` holds exactly its
    /// pixels.
    pub fn new(width: u32, height: u32, data: Vec<u8>) -> (r: Option<Self>)
        ensures
            r is Some <==> data@.len() == 3 * width * height,
            r matches Some(raster) ==> raster.well_formed() && raster.width == width && raster.height
                == height && raster.data@ == data@,
    {
        assert(3 * width * height == 3 * (width * height) && width * height <= 0xffff_ffff
            * 0xffff_ffff) by (nonlinear_arith)
            requires
                0 <= width <= 0xffff_ffff,
                0 <= height <= 0xffff_ffff,
        ;
        let bytes: u128 = 3 * (width as u128 * height as u128);
        if data.len() as u128 != bytes {
            None
        } else {
            Some(Raster { width, height, data })
        }
    }
}

/// The channels of the pixel at `(x, y)` in an image of the given width,
/// stored row by row with three bytes to the pixel.
pub open spec fn pixel_at(data: Seq<u8>, width: int, x: int, y: int) -> (u8, u8, u8) {
    let at = 3 * (y * width + x);
    (data[at], data[at + 1], data[at + 2])
}

/// The pixel that stands for the codel in column `col` and row `row`: the
/// upper left one of its square.
pub open spec fn sample(data: Seq<u8>, width: int, codel_size: int, col: int, row: int) -> (
    u8,
    u8,
    u8,
) {
    pixel_at(data, width, col * codel_size, row * codel_size)
}

/// The sample of the codel is one of the twenty colours.
pub open spec fn sample_ok(data: Seq<u8>, width: int, codel_size: int, col: int, row: int) -> bool {
    let s = sample(data, width, codel_size, col, row);
    is_piet_rgb(s.0, s.1, s.2)
}

/// The codel `(col, row)` comes before `(c, r)` when the grid is read row by
/// row.
pub open spec fn comes_before(col: int, row: int, c: int, r: int) -> bool {
    row < r || (row == r && col < c)
}

proof fn lemma_sample_in_image(
    width: int,
    height: int,
    codel_size: int,
    col: int,
    row: int,
)
    requires
        codel_size >= 1,
        0 <= col < width / codel_size,
        0 <= row < height / codel_size,
    ensures
        0 <= col * codel_size < width,
        0 <= row * codel_size < height,
        0 <= 3 * (row * codel_size * width + col * codel_size),
        3 * (row * codel_size * width + col * codel_size) + 2 < 3 * width * height,
        0 <= row * codel_size * width <= width * height - width,
{
    let x = col * codel_size;
    let y = row * codel_size;
    assert(0 <= x && x + codel_size <= width) by (nonlinear_arith)
        requires
            codel_size >= 1,
            0 <= col < width / codel_size,
            x == col * codel_size,
    ;
    assert(0 <= y && y + codel_size <= height) by (nonlinear_arith)
        requires
            codel_size >= 1,
            0 <= row < height / codel_size,
            y == row * codel_size,
    ;
    assert(0 <= y * width && y * width + width <= width * height) by (nonlinear_arith)
        requires
            0 <= y < height,
            width > 0,
    ;
    assert(3 * width * height == 3 * (width * height)) by (nonlinear_arith);
}

/// Builds the grid of an image: one codel for every full square of
/// `codel_size` pixels a side, classified by the pixel in the square's upper
/// left corner. The first sample, row by row, that is none of the twenty
/// colours is handed back as the error.
pub fn load_image(raster: &Raster, codel_size: u32) -> (res: Result<Vec<Vec<PietColor>>, InvalidPixel>)
    requires
        raster.well_formed(),
        codel_size >= 1,
        raster.width >= codel_size,
        raster.height >= codel_size,
    ensures
        res is Ok <==> forall|col: int, row: int|
            0 <= col < raster.width / codel_size && 0 <= row < raster.height / codel_size ==> #[trigger] sample_ok(
                raster.data@,
                raster.width as int,
                codel_size as int,
                col,
                row,
            ),
        res matches Ok(grid) ==> {
            &&& grid@.len() == raster.height / codel_size
            &&& forall|row: int| 0 <= row < grid@.len() ==> (#[trigger] grid@[row])@.len() == raster.width / codel_size
            &&& forall|col: int, row: int|
                0 <= row < grid@.len() && 0 <= col < grid@[row]@.len() ==> (#[trigger] grid@[row]@[col]).well_formed()
                    && grid@[row]@[col].name.rgb() == sample(
                    raster.data@,
                    raster.width as int,
                    codel_size as int,
                    col,
                    row,
                )
            &&& (raster.width / codel_size) * (raster.height / codel_size) <= i32::MAX ==> valid_grid(grid@)
        },
        res matches Err(e) ==> exists|col: int, row: int|
            {
                &&& 0 <= col < raster.width / codel_size
                &&& 0 <= row < raster.height / codel_size
                &&& e.x == col * codel_size
                &&& e.y == row * codel_size
                &&& (e.rgb[0], e.rgb[1], e.rgb[2]) == sample(
                    raster.data@,
                    raster.width as int,
                    codel_size as int,
                    col,
                    row,
                )
                &&& !#[trigger] sample_ok(raster.data@, raster.width as int, codel_size as int, col, row)
                &&& forall|c: int, r: int|
                    0 <= c < raster.width / codel_size && 0 <= r < raster.height / codel_size && comes_before(
                        c,
                        r,
                        col,
                        row,
                    ) ==> #[trigger] sample_ok(raster.data@, raster.width as int, codel_size as int, c, r)
            },
{
    let width = raster.width;
    let height = raster.height;
    let data = &raster.data;
    let cols: u32 = width / codel_size;
    let rows: u32 = height / codel_size;
    let ghost w = width as int;
    let ghost cs = codel_size as int;
    let bytes: usize = data.len();
    assert(cols >= 1 && rows >= 1) by (nonlinear_arith)
        requires
            codel_size >= 1,
            width >= codel_size,
            height >= codel_size,
            cols == width / codel_size,
            rows == height / codel_size,
    ;
    let mut result: Vec<Vec<PietColor>> = Vec::new();
    let mut row: u32 = 0;
    while row < rows
        invariant
            row <= rows,
            cols == width / codel_size,
            rows == height / codel_size,
            codel_size >= 1,
            w == width,
            cs == codel_size,
            data@.len() == 3 * width * height,
            data@ == raster.data@,
            width == raster.width,
            height == raster.height,
            bytes == data@.len(),
            result@.len() == row,
            forall|r: int| 0 <= r < row ==> (#[trigger] result@[r])@.len() == cols,
            forall|c: int, r: int|
                0 <= r < row && 0 <= c < cols ==> (#[trigger] result@[r]@[c]).well_formed()
                    && result@[r]@[c].name.rgb() == sample(data@, w, cs, c, r),
            forall|c: int, r: int| 0 <= r < row && 0 <= c < cols ==> #[trigger] sample_ok(data@, w, cs, c, r),
        decreases rows - row,
    {
        let mut line: Vec<PietColor> = Vec::new();
        let mut col: u32 = 0;
        while col < cols
            invariant
                col <= cols,
                row < rows,
                cols == width / codel_size,
                rows == height / codel_size,
                codel_size >= 1,
                w == width,
                cs == codel_size,
                data@.len() == 3 * width * height,
                data@ == raster.data@,
                width == raster.width,
                height == raster.height,
                bytes == data@.len(),
                line@.len() == col,
                forall|c: int|
                    0 <= c < col ==> (#[trigger] line@[c]).well_formed() && line@[c].name.rgb() == sample(
                        data@,
                        w,
                        cs,
                        c,
                        row as int,
                    ),
                forall|c: int| 0 <= c < col ==> #[trigger] sample_ok(data@, w, cs, c, row as int),
                forall|c: int, r: int| 0 <= r < row && 0 <= c < cols ==> #[trigger] sample_ok(data@, w, cs, c, r),
            decreases cols - col,
        {
            proof {
                lemma_sample_in_image(w, height as int, cs, col as int, row as int);
            }
            let x: u32 = col * codel_size;
            let y: u32 = row * codel_size;
            let at: usize = 3 * (y as usize * width as usize + x as usize);
            let rgb: [u8; 3] = [data[at], data[at + 1], data[at + 2]];
            match PietColor::from_rgb(&rgb) {
                Ok(color) => {
                    line.push(color);
                },
                Err(_) => {
                    proof {
                        assert(!sample_ok(data@, w, cs, col as int, row as int));
                    }
                    return Err(InvalidPixel { x, y, rgb });
                },
            }
            col += 1;
        }
        result.push(line);
        row += 1;
    }
    proof {
        assert(result@[0]@.len() == cols);
    }
    Ok(result)
}

} // verus!
