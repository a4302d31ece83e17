use sl_viewer::sculpt::sculpt_grid_indices;

#[test]
fn sculpt_grid_two_by_two_without_wrapping() {
    assert_eq!(sculpt_grid_indices(2, 2, false, false), vec![0, 1, 2, 2, 1, 3]);
}

#[test]
fn sculpt_grid_sphere_wraps_sides() {
    assert_eq!(
        sculpt_grid_indices(2, 2, true, false),
        vec![0, 1, 2, 2, 1, 3, 1, 0, 3, 3, 0, 2]
    );
}

#[test]
fn sculpt_grid_torus_wraps_sides_and_ends() {
    assert_eq!(
        sculpt_grid_indices(2, 2, true, true),
        vec![0, 1, 2, 2, 1, 3, 1, 0, 3, 3, 0, 2, 2, 3, 0, 0, 3, 1]
    );
}

#[test]
fn sculpt_grid_three_by_two_cells_in_row_order() {
    assert_eq!(
        sculpt_grid_indices(3, 2, false, false),
        vec![0, 1, 3, 3, 1, 4, 1, 2, 4, 4, 2, 5]
    );
}

#[test]
fn sculpt_grid_indices_stay_in_range() {
    let (w, h) = (32u32, 32u32);
    let indices = sculpt_grid_indices(w, h, true, true);
    assert_eq!(indices.len(), 6 * ((31 * 31) + 31 + 31));
    assert!(indices.iter().all(|&i| i < w * h));
}

#[test]
fn sculpt_grid_single_row_or_column_has_no_cells() {
    assert!(sculpt_grid_indices(1, 1, false, false).is_empty());
    assert!(sculpt_grid_indices(4, 1, true, false).is_empty());
    assert_eq!(sculpt_grid_indices(2, 1, false, true), vec![0, 1, 0, 0, 1, 1]);
}

#[test]
fn sculpt_index_count_is_six_per_cell_and_seam() {
    assert_eq!(sl_viewer::sculpt::sculpt_grid_indices(3, 4, false, false).len(), 36);
    assert_eq!(sl_viewer::sculpt::sculpt_grid_indices(3, 4, true, false).len(), 36 + 18);
    assert_eq!(sl_viewer::sculpt::sculpt_grid_indices(3, 4, true, true).len(), 36 + 18 + 12);
    assert_eq!(sl_viewer::sculpt::sculpt_grid_indices(1, 1, true, true).len(), 0);
}
