use spritesheet::layout::ComposeError;
use spritesheet::layout::ImageDim;
use spritesheet::layout::max_rows;
use spritesheet::layout::normalize_max_cols;
use spritesheet::layout::plan_layout;
use spritesheet::layout::tile_size;

fn dim(width: u32, height: u32) -> ImageDim {
    ImageDim { width, height }
}

#[test]
fn tile_is_exactly_the_maxima() {
    let dims = vec![dim(10, 10), dim(20, 15), dim(10, 10)];
    assert_eq!(tile_size(&dims), (20, 15));
}

#[test]
fn tile_size_order_independent() {
    let a = vec![dim(3, 9), dim(7, 2), dim(5, 5)];
    let b = vec![dim(5, 5), dim(3, 9), dim(7, 2)];
    assert_eq!(tile_size(&a), tile_size(&b));
}

#[test]
fn tile_maxima_can_come_from_different_images() {
    let dims = vec![dim(30, 1), dim(1, 40)];
    assert_eq!(tile_size(&dims), (30, 40));
}

#[test]
fn rows_are_ceiling_division() {
    assert_eq!(max_rows(3, 2), 2);
    assert_eq!(max_rows(4, 2), 2);
    assert_eq!(max_rows(5, 2), 3);
    assert_eq!(max_rows(10, 10), 1);
    assert_eq!(max_rows(11, 10), 2);
}

#[test]
fn fewer_tiles_than_columns_take_one_row() {
    assert_eq!(max_rows(1, 10), 1);
    assert_eq!(max_rows(9, 10), 1);
    assert_eq!(max_rows(0, 2), 1);
}

#[test]
fn zero_columns_coerced_to_one() {
    assert_eq!(normalize_max_cols(0), 1);
    assert_eq!(normalize_max_cols(1), 1);
    assert_eq!(normalize_max_cols(7), 7);
}

#[test]
fn plan_scenario_three_tiles_two_columns() {
    let plan = plan_layout(20, 15, 3, 2).unwrap();
    assert_eq!(plan.cols, 2);
    assert_eq!(plan.rows, 2);
    assert_eq!(plan.canvas_width, 40);
    assert_eq!(plan.canvas_height, 30);
    let origins: Vec<(u32, u32)> = plan.placements.iter().map(|p| (p.x, p.y)).collect();
    assert_eq!(origins, vec![(0, 0), (20, 0), (0, 15)]);
}

#[test]
fn plan_with_zero_columns_equals_plan_with_one() {
    let p0 = plan_layout(8, 9, 4, 0).unwrap();
    let p1 = plan_layout(8, 9, 4, 1).unwrap();
    assert_eq!(p0.cols, p1.cols);
    assert_eq!(p0.rows, p1.rows);
    assert_eq!(p0.canvas_width, p1.canvas_width);
    assert_eq!(p0.canvas_height, p1.canvas_height);
    let o0: Vec<(u32, u32)> = p0.placements.iter().map(|p| (p.x, p.y)).collect();
    let o1: Vec<(u32, u32)> = p1.placements.iter().map(|p| (p.x, p.y)).collect();
    assert_eq!(o0, o1);
}

#[test]
fn plan_canvas_equals_tile_times_grid() {
    let plan = plan_layout(7, 11, 5, 3).unwrap();
    assert_eq!(plan.canvas_width, 7 * 3);
    assert_eq!(plan.canvas_height, 11 * 2);
}

#[test]
fn plan_refuses_oversized_canvas() {
    let r = plan_layout(u32::MAX, 1, 4, 2);
    assert_eq!(r.unwrap_err(), ComposeError::CanvasTooLarge);
}

#[test]
fn plan_with_no_tiles_is_one_blank_row() {
    let plan = plan_layout(6, 4, 0, 3).unwrap();
    assert_eq!(plan.rows, 1);
    assert_eq!(plan.canvas_width, 18);
    assert_eq!(plan.canvas_height, 4);
    assert!(plan.placements.is_empty());
}
