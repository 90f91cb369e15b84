use image::DynamicImage;
use image::GenericImageView;
use image::Rgba;
use image::RgbaImage;

use spritesheet::compose::compose;
use spritesheet::layout::ComposeError;

const RED: [u8; 4] = [255, 0, 0, 255];
const GREEN: [u8; 4] = [0, 255, 0, 255];
const BLUE: [u8; 4] = [0, 0, 255, 255];
const BLANK: [u8; 4] = [0, 0, 0, 0];

fn solid(w: u32, h: u32, rgba: [u8; 4]) -> DynamicImage {
    DynamicImage::ImageRgba8(RgbaImage::from_pixel(w, h, Rgba(rgba)))
}

fn three_images() -> (Vec<DynamicImage>, Vec<String>) {
    let images = vec![solid(10, 10, RED), solid(20, 15, GREEN), solid(10, 10, BLUE)];
    let paths = vec!["in/1.png".to_string(), "in/2.png".to_string(), "in/3.png".to_string()];
    (images, paths)
}

#[test]
fn empty_set_fails_with_no_images() {
    let r = compose(&vec![], &vec![], &vec![], 10);
    assert_eq!(r.unwrap_err(), ComposeError::NoImages);
}

#[test]
fn scenario_three_images_two_columns() {
    let (images, paths) = three_images();
    let canvas = compose(&images, &paths, &vec![], 2).unwrap();
    assert_eq!((canvas.width(), canvas.height()), (40, 30));
    assert_eq!(canvas.get_pixel(0, 0), Rgba(RED));
    assert_eq!(canvas.get_pixel(9, 9), Rgba(RED));
    assert_eq!(canvas.get_pixel(20, 0), Rgba(GREEN));
    assert_eq!(canvas.get_pixel(39, 14), Rgba(GREEN));
    assert_eq!(canvas.get_pixel(0, 15), Rgba(BLUE));
    assert_eq!(canvas.get_pixel(9, 24), Rgba(BLUE));
    // image 1 is smaller than the tile: the remainder of its slot is blank
    assert_eq!(canvas.get_pixel(15, 0), Rgba(BLANK));
    assert_eq!(canvas.get_pixel(0, 12), Rgba(BLANK));
    // the slot after the last image stays blank
    assert_eq!(canvas.get_pixel(25, 20), Rgba(BLANK));
}

#[test]
fn ignored_image_keeps_tile_size_but_loses_its_slot() {
    let (images, paths) = three_images();
    let ignored = vec!["in/2.png".to_string()];
    let canvas = compose(&images, &paths, &ignored, 2).unwrap();
    // two placed images in one row; the tile is still sized by image 2
    assert_eq!((canvas.width(), canvas.height()), (40, 15));
    assert_eq!(canvas.get_pixel(0, 0), Rgba(RED));
    assert_eq!(canvas.get_pixel(20, 0), Rgba(BLUE));
    for x in 0..canvas.width() {
        for y in 0..canvas.height() {
            assert_ne!(canvas.get_pixel(x, y), Rgba(GREEN));
        }
    }
}

#[test]
fn composition_is_deterministic() {
    let (images, paths) = three_images();
    let a = compose(&images, &paths, &vec![], 2).unwrap();
    let b = compose(&images, &paths, &vec![], 2).unwrap();
    assert_eq!(a.as_bytes(), b.as_bytes());
}

#[test]
fn zero_columns_composes_like_one_column() {
    let (images, paths) = three_images();
    let a = compose(&images, &paths, &vec![], 0).unwrap();
    let b = compose(&images, &paths, &vec![], 1).unwrap();
    assert_eq!((a.width(), a.height()), (20, 45));
    assert_eq!(a.as_bytes(), b.as_bytes());
}

#[test]
fn canvas_dimensions_follow_the_formula() {
    let images = vec![
        solid(7, 3, RED),
        solid(2, 11, GREEN),
        solid(5, 5, BLUE),
        solid(1, 1, RED),
        solid(4, 2, GREEN),
    ];
    let paths: Vec<String> = (0..5).map(|i| format!("p/{}.png", i)).collect();
    let canvas = compose(&images, &paths, &vec![], 3).unwrap();
    // tile (7, 11), grid 3 x 2
    assert_eq!((canvas.width(), canvas.height()), (21, 22));
}

#[test]
fn all_ignored_still_yields_one_blank_row() {
    let (images, paths) = three_images();
    let ignored = paths.clone();
    let canvas = compose(&images, &paths, &ignored, 2).unwrap();
    assert_eq!((canvas.width(), canvas.height()), (40, 15));
    for x in 0..canvas.width() {
        for y in 0..canvas.height() {
            assert_eq!(canvas.get_pixel(x, y), Rgba(BLANK));
        }
    }
}
