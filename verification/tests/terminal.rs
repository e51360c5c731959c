use treader::terminal::WindowSize;

fn ws(rows: u16, cols: u16, cell_w: u16, cell_h: u16) -> WindowSize {
    WindowSize {
        rows,
        cols,
        width_px: cols * cell_w,
        cell_width_px: cell_w,
        cell_height_px: cell_h,
    }
}

#[test]
fn page_area_width_is_full_terminal() {
    let w = ws(24, 80, 10, 20);
    assert!((w.page_area_width_px() as f32 - 800.0).abs() < f32::EPSILON);
}

#[test]
fn page_area_height_excludes_status_bar() {
    let w = ws(25, 80, 10, 20);
    // (25-1) * 20 = 480
    assert!((w.page_area_height_px() as f32 - 480.0).abs() < f32::EPSILON);
}

#[test]
fn page_rows_excludes_status_bar() {
    let w = ws(25, 80, 10, 20);
    assert_eq!(w.page_rows(), 24);
}

#[test]
fn page_rows_saturates_at_zero() {
    let w = ws(0, 80, 10, 20);
    assert_eq!(w.page_rows(), 0);
}

#[test]
fn page_area_single_row() {
    let w = ws(1, 80, 10, 20);
    // page_rows = 0, page_area_height = 0
    assert_eq!(w.page_rows(), 0);
    assert!((w.page_area_height_px() as f32 - 0.0).abs() < f32::EPSILON);
}
