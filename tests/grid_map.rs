use mapping_algorithms::grid_map::GridMap;

fn grid() -> GridMap<2> {
    // Occupied adds 5, free takes off 2, occupied stops adding at 12.
    GridMap::create(&[4, 3], 5, 2, 12)
}

#[test]
fn create_zeroes_every_cell() {
    let g = grid();
    for x in 0..4 {
        for y in 0..3 {
            assert_eq!(g.get_cell_log_odds(&[x, y]), Some(0));
        }
    }
    // Row-major: the last cell is at offset 3 + 2 * 4 = 11; the next one is outside.
    assert_eq!(g.get_cell_log_odds(&[0, 3]), None);
    assert_eq!(g.get_cell_log_odds(&[usize::MAX, usize::MAX]), None);
}

#[test]
fn occupied_update_adds_and_clamps() {
    let mut g = grid();
    let cell = [1, 2];
    g.update_taken(&cell, 1);
    assert_eq!(g.get_cell_log_odds(&cell), Some(5));
    g.update_taken(&cell, 2);
    assert_eq!(g.get_cell_log_odds(&cell), Some(10));
    // Below the maximum: one more increment, overshooting it.
    g.update_taken(&cell, 3);
    assert_eq!(g.get_cell_log_odds(&cell), Some(15));
    // At or above the maximum: no change any more.
    for frame in 4..40 {
        g.update_taken(&cell, frame);
        assert_eq!(g.get_cell_log_odds(&cell), Some(15));
    }
}

#[test]
fn occupied_twice_in_a_frame_adds_both_factors() {
    let mut g = grid();
    let cell = [2, 1];
    g.update_taken(&cell, 7);
    g.update_taken(&cell, 7);
    assert_eq!(g.get_cell_log_odds(&cell), Some(5 + 5 + 2));
}

#[test]
fn free_update_once_per_frame() {
    let mut g = grid();
    let cell = [3, 0];
    g.update_free(&cell, 1);
    g.update_free(&cell, 1);
    assert_eq!(g.get_cell_log_odds(&cell), Some(-2));
    g.update_free(&cell, 2);
    assert_eq!(g.get_cell_log_odds(&cell), Some(-4));
}

#[test]
fn free_updates_drift_without_floor() {
    let mut g = GridMap::create(&[2, 2], 5, 1_000_000_000_000, 12);
    let cell = [1, 1];
    for frame in 1..=200u32 {
        g.update_free(&cell, (frame % 255 + 1) as u8);
    }
    assert_eq!(g.get_cell_log_odds(&cell), Some(-200_000_000_000_000));
    // Far enough, the sum saturates at the bound of the representation.
    let mut g = GridMap::create(&[1], 0, i64::MAX, 0);
    g.update_free(&[0], 1);
    g.update_free(&[0], 2);
    g.update_free(&[0], 3);
    assert_eq!(g.get_cell_log_odds(&[0]), Some(i64::MIN));
}

#[test]
fn updates_outside_the_grid_change_nothing() {
    let mut g = grid();
    g.update_taken(&[9, 9], 1);
    g.update_free(&[0, 7], 1);
    for x in 0..4 {
        for y in 0..3 {
            assert_eq!(g.get_cell_log_odds(&[x, y]), Some(0));
        }
    }
}

#[test]
fn ray_frees_the_path_and_marks_the_hit() {
    let mut g = GridMap::create(&[8, 8], 5, 2, 100);
    let line = g.integrate_ray(&[0, 0], &[3, 4], 1);
    assert_eq!(line, vec![[0, 0], [1, 1], [1, 2], [2, 3], [3, 4]]);
    for cell in &line[..line.len() - 1] {
        assert_eq!(g.get_cell_log_odds(cell), Some(-2));
    }
    assert_eq!(g.get_cell_log_odds(&[3, 4]), Some(5));
    assert_eq!(g.get_cell_log_odds(&[4, 4]), Some(0));
}

#[test]
fn second_ray_in_a_frame_reinforces_a_freed_hit() {
    let mut g = GridMap::create(&[8, 8], 5, 2, 100);
    g.integrate_ray(&[0, 0], &[4, 0], 1);
    // The first ray freed [2, 0]; a second one ending there cancels that.
    g.integrate_ray(&[0, 0], &[2, 0], 1);
    assert_eq!(g.get_cell_log_odds(&[2, 0]), Some(-2 + 5 + 2));
    assert_eq!(g.get_cell_log_odds(&[1, 0]), Some(-2));
}

#[test]
fn scan_casts_every_ray_in_order() {
    let mut g = GridMap::create(&[6, 6], 5, 2, 100);
    g.integrate_scan(&[0, 0], &[[3, 0], [1, 0], [0, 3]], 4);
    // [1, 0] was freed by the first ray, then hit by the second in the same frame.
    assert_eq!(g.get_cell_log_odds(&[1, 0]), Some(-2 + 5 + 2));
    assert_eq!(g.get_cell_log_odds(&[2, 0]), Some(-2));
    assert_eq!(g.get_cell_log_odds(&[3, 0]), Some(5));
    assert_eq!(g.get_cell_log_odds(&[0, 3]), Some(5));
    assert_eq!(g.get_cell_log_odds(&[0, 1]), Some(-2));
    // The origin is freed once per frame only.
    assert_eq!(g.get_cell_log_odds(&[0, 0]), Some(-2));
    // An empty scan changes nothing.
    g.integrate_scan(&[0, 0], &[], 5);
    assert_eq!(g.get_cell_log_odds(&[0, 0]), Some(-2));
}
