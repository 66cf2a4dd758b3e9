use piet::color::ColorName;
use piet::grid::is_valid_grid;
use piet::raster::{load_image, InvalidPixel, Raster};

const RED: [u8; 3] = [255, 0, 0];
const BLUE: [u8; 3] = [0, 0, 255];
const WHITE: [u8; 3] = [255, 255, 255];
const BLACK: [u8; 3] = [0, 0, 0];
const GREY: [u8; 3] = [128, 128, 128];

fn raster(width: u32, height: u32, pixels: &[[u8; 3]]) -> Raster {
    let data: Vec<u8> = pixels.iter().flat_map(|p| p.iter().copied()).collect();
    Raster::new(width, height, data).unwrap()
}

#[test]
fn a_raster_holds_three_bytes_for_each_pixel() {
    let r = Raster::new(2, 1, vec![1, 2, 3, 4, 5, 6]).unwrap();
    assert_eq!((r.width, r.height), (2, 1));
    assert_eq!(r.data, vec![1, 2, 3, 4, 5, 6]);
    assert_eq!(Raster::new(2, 1, vec![1, 2, 3, 4, 5]), None);
    assert_eq!(Raster::new(2, 1, vec![0; 7]), None);
    assert_eq!(Raster::new(1, 2, vec![0; 3]), None);
    assert_eq!(Raster::new(u32::MAX, u32::MAX, vec![0; 3]), None);
    assert!(Raster::new(0, 5, Vec::new()).is_some());
}

#[test]
fn load_image_takes_every_pixel_at_codel_size_one() {
    let image = raster(3, 2, &[RED, BLUE, WHITE, BLACK, RED, BLUE]);
    let grid = load_image(&image, 1).unwrap();
    let names: Vec<Vec<ColorName>> = grid.iter().map(|row| row.iter().map(|c| c.name).collect()).collect();
    assert_eq!(
        names,
        vec![
            vec![ColorName::Red, ColorName::Blue, ColorName::White],
            vec![ColorName::Black, ColorName::Red, ColorName::Blue],
        ]
    );
    assert!(is_valid_grid(&grid));
}

#[test]
fn load_image_samples_the_upper_left_pixel_of_each_codel() {
    let image = raster(4, 4, &[
        RED, GREY, BLUE, GREY,
        GREY, GREY, GREY, GREY,
        WHITE, GREY, BLACK, GREY,
        GREY, GREY, GREY, GREY,
    ]);
    let grid = load_image(&image, 2).unwrap();
    let names: Vec<Vec<ColorName>> = grid.iter().map(|row| row.iter().map(|c| c.name).collect()).collect();
    assert_eq!(names, vec![vec![ColorName::Red, ColorName::Blue], vec![ColorName::White, ColorName::Black]]);
}

#[test]
fn load_image_leaves_out_a_partial_codel() {
    let image = raster(5, 3, &[
        RED, RED, BLUE, BLUE, GREY,
        RED, RED, BLUE, BLUE, GREY,
        GREY, GREY, GREY, GREY, GREY,
    ]);
    let grid = load_image(&image, 2).unwrap();
    assert_eq!(grid.len(), 1);
    assert_eq!(grid[0].len(), 2);
    assert_eq!(grid[0][0].name, ColorName::Red);
    assert_eq!(grid[0][1].name, ColorName::Blue);
}

#[test]
fn load_image_reports_the_first_pixel_that_is_no_colour() {
    let odd = [1u8, 2, 3];
    let image = raster(2, 3, &[RED, BLUE, RED, odd, RED, GREY]);
    assert_eq!(load_image(&image, 1), Err(InvalidPixel { x: 1, y: 1, rgb: odd }));
    let image = raster(4, 4, &[
        RED, RED, BLUE, BLUE,
        RED, RED, BLUE, BLUE,
        RED, RED, GREY, BLUE,
        RED, RED, BLUE, BLUE,
    ]);
    assert_eq!(load_image(&image, 2), Err(InvalidPixel { x: 2, y: 2, rgb: GREY }));
}

#[test]
fn load_image_with_one_codel_for_the_whole_image() {
    let image = raster(2, 2, &[BLUE, GREY, GREY, GREY]);
    let grid = load_image(&image, 2).unwrap();
    assert_eq!(grid.len(), 1);
    assert_eq!(grid[0].len(), 1);
    assert_eq!(grid[0][0].name, ColorName::Blue);
}
