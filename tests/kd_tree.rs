use mapping_algorithms::kd_tree::KDTree;
use mapping_algorithms::nearest_neighbour::find_nearest_neighbour_naive;
use mapping_algorithms::point::{distance_squared, points_equal};

// Coordinates are fixed-point: hundredths of a unit.
fn generate_tree() -> KDTree<3> {
    let points = vec![[0, 200, 100], [-100, 400, 250], [130, 250, 50], [-210, 20, -20]];
    KDTree::from(points.as_slice())
}

fn dist2<const N: usize>(a: &[i32; N], b: &[i32; N]) -> i64 {
    (0..N).map(|i| (a[i] as i64 - b[i] as i64).pow(2)).sum()
}

#[test]
fn mod_test_insert() {
    let mut tree = KDTree::new();
    tree.insert([0, 0]);
    assert_eq!(tree.traverse_tree(), vec![[0, 0]]);

    // Smaller on the first axis: goes left of the root.
    tree.insert([-10, 4]);
    assert_eq!(tree.traverse_tree(), vec![[-10, 4], [0, 0]]);

    // Smaller on the first axis again, then smaller on the second: left of the left branch.
    tree.insert([-20, -30]);
    assert_eq!(tree.traverse_tree(), vec![[-20, -30], [-10, 4], [0, 0]]);

    // Larger on the first axis: right of the root.
    tree.insert([14, 50]);
    assert_eq!(tree.traverse_tree(), vec![[-20, -30], [-10, 4], [0, 0], [14, 50]]);
}

#[test]
fn test_insert_duplicate() {
    let mut tree = KDTree::new();
    assert!(tree.is_empty());

    tree.insert([0, 0]);
    assert_eq!(tree.len(), 1);
    assert!(!tree.is_empty());

    // An exact duplicate is rejected.
    tree.insert([0, 0]);
    assert_eq!(tree.len(), 1);
}

#[test]
fn duplicate_below_the_root_is_rejected() {
    let mut tree = KDTree::new();
    for p in [[5, 5], [7, 1], [7, 9], [7, 1], [7, 9], [5, 5]] {
        tree.insert(p);
    }
    assert_eq!(tree.len(), 3);
    assert_eq!(tree.traverse_tree().len(), 3);
}

#[test]
fn mod_test_nearest() {
    let tree = KDTree::<2>::new();
    assert!(tree.nearest(&[0, 0]).is_none());

    let tree = generate_tree();
    let nearest = tree.nearest(&[132, 270, 20]);
    assert!(nearest.is_some());
    assert_eq!(nearest.unwrap(), [130, 250, 50]);
}

#[test]
fn mod_compare_nearest_with_naive_version() {
    // Coordinates in millionths of a unit.
    let points_a: Vec<[i32; 3]> = vec![
        [8037338, -10512266, 5303827],
        [-13573973, 5295778, -5775824],
        [5399618, 14216839, 13042112],
        [10134924, -3949844, 12201418],
        [-3796554, -4144737, 3746875],
        [2494978, -5231186, 10918207],
        [10469978, 2231762, 12076345],
        [-11764912, 14629526, -14802310],
        [-8693936, 5038475, -325586],
        [7616955, -3727732, 2344328],
        [-11924471, -11668331, -1229876],
        [-14369208, -7159147, -9843174],
    ];
    let points_b: Vec<[i32; 3]> = vec![
        [6196747, -11118110, 470586],
        [-13926949, 9677899, 1975427],
        [13070560, 12289567, 9591913],
        [12668911, -6104495, 5763672],
        [-3238677, -2618250, 5132739],
        [5240914, -5826359, 8294433],
        [14281796, -126304, 5762767],
        [-2713560, 15505872, 16110285],
        [5980031, -4006213, -1612494],
        [-14199040, -7792320, 4401306],
        [-19287233, -1714680, -1736359],
    ];

    let kd_tree = KDTree::from(points_b.as_slice());
    let closest_points_naive: Vec<_> =
        points_a.iter().map(|a| find_nearest_neighbour_naive(a, points_b.as_slice())).collect();
    let closest_point_kd: Vec<_> = points_a.iter().map(|a| kd_tree.nearest(a)).collect();
    assert_eq!(closest_points_naive, closest_point_kd);
}

#[test]
fn nearest_matches_scan_on_a_grid_of_queries() {
    let cloud: Vec<[i32; 2]> = (0..60)
        .map(|i: i32| [(i * 37) % 101 - 50, (i * 53) % 89 - 44])
        .collect();
    let tree = KDTree::from(cloud.as_slice());
    for x in -60..60 {
        for y in (-50..50).step_by(7) {
            let q = [x, y];
            let from_tree = tree.nearest(&q).unwrap();
            let from_scan = find_nearest_neighbour_naive(&q, cloud.as_slice()).unwrap();
            assert_eq!(dist2(&from_tree, &q), dist2(&from_scan, &q));
        }
    }
}

#[test]
fn nearest_across_the_splitting_plane() {
    // The root splits on x at 10; the query sits left of it, but the nearest
    // point lies just across the plane.
    let tree = KDTree::from([[10, 10], [0, 100], [11, 1]].as_slice());
    assert_eq!(tree.nearest(&[9, 1]), Some([11, 1]));
}

#[test]
fn mod_test_traverse_tree() {
    let tree = generate_tree();
    let mut sum = 0;
    for point in tree.traverse_tree() {
        sum += point[0] + point[1];
    }
    assert_eq!(sum, 690);
}

#[test]
fn test_multiple_elements_structure() {
    let mut tree = KDTree::new();
    let points = [[3, 6], [17, 15], [13, 15], [6, 12], [9, 1], [2, 7], [10, 19]];
    for point in points.iter() {
        tree.insert(*point);
    }
    assert_eq!(tree.len(), 7);
}

#[test]
fn extreme_coordinates_do_not_overflow() {
    let tree = KDTree::from([[i32::MIN, i32::MIN, i32::MIN], [i32::MAX, i32::MAX, i32::MAX]].as_slice());
    assert_eq!(tree.nearest(&[i32::MAX, i32::MAX, 0]), Some([i32::MAX, i32::MAX, i32::MAX]));
}

#[test]
fn nearest_neighbour_test_find_closest_point() {
    let target_points = vec![[1, 1], [2, 2], [5, 5], [8, 8]];
    let closest_point = find_nearest_neighbour_naive(&[4, 4], &target_points);
    assert_eq!(closest_point, Some([5, 5]));
}

#[test]
fn nearest_neighbour_test_find_closest_point_with_empty_target() {
    let target_points: Vec<[i32; 2]> = Vec::new();
    assert_eq!(find_nearest_neighbour_naive(&[4, 4], &target_points), None);
}

#[test]
fn naive_scan_keeps_the_first_of_equal_distances() {
    let target_points = vec![[1, 0], [0, 1], [-1, 0]];
    assert_eq!(find_nearest_neighbour_naive(&[0, 0], &target_points), Some([1, 0]));
}

#[test]
fn mod_test_traverse_tree_mut() {
    let mut tree = generate_tree();
    tree.traverse_tree_mut(|_point| [100, 100, 100]);
    let mut visited = 0;
    for point in tree.traverse_tree() {
        assert_eq!(point[0], 100);
        assert_eq!(point[1], 100);
        assert_eq!(point[2], 100);
        visited += 1;
    }
    // Every stored point was rewritten; none was lost.
    assert_eq!(visited, 4);
    assert_eq!(tree.len(), 4);
}

#[test]
fn traverse_tree_mut_keeps_queries_correct() {
    let mut tree = KDTree::from([[0, 0], [10, 0], [0, 10], [10, 10]].as_slice());
    // Mirror every point through the origin.
    tree.traverse_tree_mut(|p| [-p[0], -p[1]]);
    assert_eq!(tree.len(), 4);
    assert_eq!(tree.nearest(&[-9, -1]), Some([-10, 0]));
    assert_eq!(tree.nearest(&[-1, -9]), Some([0, -10]));
    assert_eq!(tree.nearest(&[-8, -8]), Some([-10, -10]));
}

struct Lcg(u64);

impl Lcg {
    fn next(&mut self, range: i32) -> i32 {
        self.0 = self.0.wrapping_mul(6364136223846793005).wrapping_add(1442695040888963407);
        ((self.0 >> 33) % (2 * range as u64 + 1)) as i32 - range
    }
}

#[test]
fn nearest_matches_scan_in_randomized_trials() {
    let mut rng = Lcg(17);
    for _ in 0..100 {
        let cloud2: Vec<[i32; 2]> = (0..40).map(|_| [rng.next(1000), rng.next(1000)]).collect();
        let cloud3: Vec<[i32; 3]> = (0..40).map(|_| [rng.next(1000), rng.next(1000), rng.next(1000)]).collect();
        let tree2 = KDTree::from(cloud2.as_slice());
        let tree3 = KDTree::from(cloud3.as_slice());
        let q2 = [rng.next(1200), rng.next(1200)];
        let q3 = [rng.next(1200), rng.next(1200), rng.next(1200)];
        let scan2 = find_nearest_neighbour_naive(&q2, &cloud2).unwrap();
        let scan3 = find_nearest_neighbour_naive(&q3, &cloud3).unwrap();
        assert_eq!(dist2(&tree2.nearest(&q2).unwrap(), &q2), dist2(&scan2, &q2));
        assert_eq!(dist2(&tree3.nearest(&q3).unwrap(), &q3), dist2(&scan3, &q3));
    }
}

#[test]
fn test_distance_squared() {
    assert_eq!(distance_squared(&[1, 2, 3], &[4, 5, 6]), 27);
    assert_eq!(distance_squared(&[i32::MIN, i32::MIN], &[i32::MAX, i32::MAX]), 2 * (u32::MAX as u128).pow(2));
    assert!(points_equal(&[1, 2, 3], &[1, 2, 3]));
    assert!(!points_equal(&[1, 2, 3], &[1, 2, 4]));
}

#[test]
fn insert_adds_a_leaf_and_keeps_existing_nodes() {
    let mut tree = KDTree::new();
    for p in [[5, 5], [2, 8], [8, 2], [1, 1]] {
        tree.insert(p);
    }
    let before = tree.traverse_tree();
    tree.insert([9, 9]);
    let after = tree.traverse_tree();
    assert_eq!(before, vec![[1, 1], [2, 8], [5, 5], [8, 2]]);
    assert_eq!(after, vec![[1, 1], [2, 8], [5, 5], [8, 2], [9, 9]]);
}
