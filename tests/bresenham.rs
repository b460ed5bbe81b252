use mapping_algorithms::bresenham::plot_bresenham_line;

fn expected_len<const N: usize>(start: [i64; N], end: [i64; N]) -> usize {
    (0..N).map(|i| (end[i] - start[i]).unsigned_abs() as usize).max().unwrap() + 1
}

#[test]
fn bresenham_test_plot_bresenham_line_2d_nonsteep_pos() {
    let res = plot_bresenham_line([0, 0], [10, 3]);
    assert_eq!(
        res,
        vec![[0, 0], [1, 0], [2, 0], [3, 1], [4, 1], [5, 1], [6, 2], [7, 2], [8, 2], [9, 3], [10, 3]]
    );
}

#[test]
fn bresenham_test_plot_bresenham_line_2d_steep_pos() {
    let (start, end) = ([0, 0], [3, 10]);
    let res = plot_bresenham_line(start, end);
    assert_eq!(res.len(), expected_len(start, end));
    assert_eq!(
        res,
        vec![[0, 0], [0, 1], [0, 2], [1, 3], [1, 4], [1, 5], [2, 6], [2, 7], [2, 8], [3, 9], [3, 10]]
    );
}

#[test]
fn bresenham_test_plot_bresenham_line_2d_nonsteep_neg() {
    let (start, end) = ([0, 0], [-10, -3]);
    let res = plot_bresenham_line(start, end);
    assert_eq!(res.len(), expected_len(start, end));
    assert_eq!(
        res,
        vec![
            [0, 0],
            [-1, 0],
            [-2, 0],
            [-3, -1],
            [-4, -1],
            [-5, -1],
            [-6, -2],
            [-7, -2],
            [-8, -2],
            [-9, -3],
            [-10, -3]
        ]
    );
}

#[test]
fn bresenham_test_plot_bresenham_line_2d_steep_neg() {
    let (start, end) = ([0, 0], [-3, -10]);
    let res = plot_bresenham_line(start, end);
    assert_eq!(res.len(), expected_len(start, end));
    assert_eq!(
        res,
        vec![
            [0, 0],
            [0, -1],
            [0, -2],
            [-1, -3],
            [-1, -4],
            [-1, -5],
            [-2, -6],
            [-2, -7],
            [-2, -8],
            [-3, -9],
            [-3, -10]
        ]
    );
}

#[test]
fn bresenham_test_plot_bresenham_line_3d_x() {
    let (start, end) = ([0, 0, 0], [-3, -10, 7]);
    let res = plot_bresenham_line(start, end);
    assert_eq!(res.len(), expected_len(start, end));
    assert_eq!(
        res,
        vec![
            [0, 0, 0],
            [0, -1, 0],
            [0, -2, 1],
            [-1, -3, 2],
            [-1, -4, 3],
            [-1, -5, 3],
            [-2, -6, 4],
            [-2, -7, 5],
            [-2, -8, 5],
            [-2, -9, 6],
            [-3, -10, 7]
        ]
    );
}

#[test]
fn right_angle_bend_endpoints_and_length() {
    let res = plot_bresenham_line([0, 0], [3, 4]);
    assert_eq!(res.first(), Some(&[0, 0]));
    assert_eq!(res.last(), Some(&[3, 4]));
    assert_eq!(res.len(), 5);
    for (k, cell) in res.iter().enumerate() {
        assert_eq!(cell[1], k as i64);
    }
}

#[test]
fn single_cell_line() {
    assert_eq!(plot_bresenham_line([7, -2, 5], [7, -2, 5]), vec![[7, -2, 5]]);
}

#[test]
fn equal_deltas_walk_the_last_axis() {
    let res = plot_bresenham_line([0, 0], [4, -4]);
    assert_eq!(res, vec![[0, 0], [1, -1], [2, -2], [3, -3], [4, -4]]);
}

#[test]
fn one_dimensional_line() {
    assert_eq!(plot_bresenham_line([2], [-1]), vec![[2], [1], [0], [-1]]);
}

#[test]
fn mod_test_plot_bresenham_line_2d_nonsteep_pos() {
    assert_eq!(
        plot_bresenham_line([0, 0], [10, 3]),
        vec![[0, 0], [1, 0], [2, 0], [3, 1], [4, 1], [5, 1], [6, 2], [7, 2], [8, 2], [9, 3], [10, 3]]
    );
}

#[test]
fn mod_test_plot_bresenham_line_2d_steep_pos() {
    assert_eq!(
        plot_bresenham_line([0, 0], [3, 10]),
        vec![[0, 0], [0, 1], [0, 2], [1, 3], [1, 4], [1, 5], [2, 6], [2, 7], [2, 8], [3, 9], [3, 10]]
    );
}

#[test]
fn mod_test_plot_bresenham_line_2d_nonsteep_neg() {
    assert_eq!(
        plot_bresenham_line([0, 0], [-10, -3]),
        vec![
            [0, 0],
            [-1, 0],
            [-2, 0],
            [-3, -1],
            [-4, -1],
            [-5, -1],
            [-6, -2],
            [-7, -2],
            [-8, -2],
            [-9, -3],
            [-10, -3]
        ]
    );
}

#[test]
fn mod_test_plot_bresenham_line_2d_steep_neg() {
    assert_eq!(
        plot_bresenham_line([0, 0], [-3, -10]),
        vec![
            [0, 0],
            [0, -1],
            [0, -2],
            [-1, -3],
            [-1, -4],
            [-1, -5],
            [-2, -6],
            [-2, -7],
            [-2, -8],
            [-3, -9],
            [-3, -10]
        ]
    );
}

#[test]
fn mod_test_plot_bresenham_line_3d_x() {
    assert_eq!(
        plot_bresenham_line([0, 0, 0], [-3, -10, 7]),
        vec![
            [0, 0, 0],
            [0, -1, 0],
            [0, -2, 1],
            [-1, -3, 2],
            [-1, -4, 3],
            [-1, -5, 3],
            [-2, -6, 4],
            [-2, -7, 5],
            [-2, -8, 5],
            [-2, -9, 6],
            [-3, -10, 7]
        ]
    );
}
