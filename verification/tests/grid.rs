use mandelbrot::grid::RowCol;

fn position_by_portion(min: f64, max: f64, portion: f64) -> f64 {
    portion * (max - min) + min
}

fn to_complex(cell: &RowCol, r_range: (f64, f64), i_range: (f64, f64)) -> (f64, f64) {
    let r_portion: f64 = (cell.col as f64) / (cell.width as f64);
    let i_portion: f64 = (cell.row as f64) / (cell.height as f64);
    (
        position_by_portion(r_range.0, r_range.1, r_portion),
        position_by_portion(i_range.0, i_range.1, i_portion),
    )
}

#[test]
fn test_rowcol() {
    let width: u32 = 512;
    let height: u32 = 512;

    let r1 = RowCol::from_index(0, &width, &height);
    assert!(r1.row == 0);
    assert!(r1.col == 0);

    let r2 = RowCol::from_index(153_800, &width, &height);
    assert!(r2.row == 300);
    assert!(r2.col == 200);

    let c = to_complex(&r1, (-2.0, 1.0), (-1.5, 1.5));
    let ac = (-2.0, -1.5);
    assert_eq!(c, ac);
}

#[test]
fn from_index_keeps_the_grid_dimensions() {
    let cell = RowCol::from_index(7, &3, &5);
    assert_eq!(cell.width, 3);
    assert_eq!(cell.height, 5);
}

#[test]
fn row_is_counted_by_height_and_column_by_width() {
    let cell = RowCol::from_index(5, &4, &2);
    assert_eq!(cell.row, 2);
    assert_eq!(cell.col, 1);
    let cell = RowCol::from_index(5, &2, &4);
    assert_eq!(cell.row, 1);
    assert_eq!(cell.col, 1);
}

#[test]
fn from_index_takes_the_largest_index() {
    let cell = RowCol::from_index(u32::MAX, &800, &800);
    assert_eq!(cell.row, 5_368_709);
    assert_eq!(cell.col, 95);
    let cell = RowCol::from_index(u32::MAX, &1, &1);
    assert_eq!(cell.row, u32::MAX);
    assert_eq!(cell.col, 0);
}

#[test]
fn square_grid_is_row_major() {
    let side: u32 = 7;
    for index in 0..side * side {
        let cell = RowCol::from_index(index, &side, &side);
        assert!(cell.row < side);
        assert!(cell.col < side);
        assert_eq!(cell.row * side + cell.col, index);
    }
}

#[test]
fn square_grid_cells_are_distinct() {
    let side: u32 = 6;
    for first in 0..side * side {
        for second in 0..side * side {
            let a = RowCol::from_index(first, &side, &side);
            let b = RowCol::from_index(second, &side, &side);
            assert_eq!(a == b, first == second);
        }
    }
}

#[test]
fn cell_inside_the_engine_grid() {
    let cell = RowCol::from_index(160_600, &800, &800);
    assert_eq!(cell.row, 200);
    assert_eq!(cell.col, 600);
    let c = to_complex(&cell, (-2.0, 2.0), (-2.0, 2.0));
    assert_eq!(c, (1.0, -1.0));
    let last = RowCol::from_index(639_999, &800, &800);
    assert_eq!(last.row, 799);
    assert_eq!(last.col, 799);
}
