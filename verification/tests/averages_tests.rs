use num_ru::arrays::{from_shape_vec, from_vec, to_vec};
use num_ru::math::sumproddif::sum;
use num_ru::stats::averages::{mean, mean_rayon, median, sort_to_vec, std_dev, var};

#[test]
fn mean_test_int_1d() {
    let arr = from_shape_vec(vec![3], vec![2, 3, 4]).unwrap();
    assert_eq!(mean(&arr), 3);
    let arr2 = from_shape_vec(vec![5], vec![8, 8, 8, 8, 8]).unwrap();
    assert_eq!(mean(&arr2), 8);
}

#[test]
fn mean_test_int_3d() {
    let arr = from_shape_vec(vec![2, 2, 2], vec![5, 6, 7, 0, 1, 2, 3, 4]).unwrap();
    assert_eq!(mean(&arr), 3);
    let arr2 = from_shape_vec(vec![2, 2, 2], vec![-5, -6, -7, 0, -1, -2, -3, -4]).unwrap();
    assert_eq!(mean(&arr2), -3);
}

#[test]
fn mean_is_sum_over_count() {
    let arr = from_shape_vec(vec![5], vec![1, 3, 5, 2, 1]).unwrap();
    assert_eq!(mean(&arr), sum(&arr) / 5);
    assert_eq!(mean(&arr), 2);
}

#[test]
fn mean_rayon_agrees_with_mean() {
    let mut data: Vec<i64> = Vec::new();
    for i in 0..240 {
        data.push(((i * 67) % 55) - 27);
    }
    let arr = from_shape_vec(vec![240], data).unwrap();
    assert_eq!(mean_rayon(&arr), mean(&arr));
}

#[test]
fn var_test_int_1d() {
    let arr = from_shape_vec(vec![3], vec![2, 3, 4]).unwrap();
    assert_eq!(var(&arr), 1);
    let arr2 = from_shape_vec(vec![5], vec![8, 8, 8, 8, 8]).unwrap();
    assert_eq!(var(&arr2), 0);
}

#[test]
fn std_test_int_1d() {
    let arr = from_shape_vec(vec![3], vec![2, 3, 4]).unwrap();
    assert_eq!(std_dev(&arr), 1);
    let arr2 = from_shape_vec(vec![5], vec![8, 8, 8, 8, 8]).unwrap();
    assert_eq!(std_dev(&arr2), 0);
}

#[test]
fn std_dev_truncates_root() {
    let arr = from_shape_vec(vec![4], vec![0, 0, 6, 6]).unwrap();
    assert_eq!(var(&arr), 12);
    assert_eq!(std_dev(&arr), 3);
}

#[test]
fn sort_to_vec_sorts_all_elements() {
    let arr = from_shape_vec(vec![2, 3], vec![9, -1, 4, 4, 0, -7]).unwrap();
    assert_eq!(sort_to_vec(&arr), vec![-7, -1, 0, 4, 4, 9]);
}

#[test]
fn median_test_int_odd() {
    let arr = from_shape_vec(vec![3], vec![2, 3, 4]).unwrap();
    assert_eq!(median(&arr), 3);
    let arr2 = from_shape_vec(vec![5], vec![8, 8, 8, 8, 8]).unwrap();
    assert_eq!(median(&arr2), 8);
}

#[test]
fn median_test_int_even() {
    let arr = from_vec(vec![2, 4, 1, 3]);
    assert_eq!(median(&arr), 2);
    let arr2 = from_vec(vec![1, 2, 4, 4]);
    assert_eq!(median(&arr2), 3);
}

#[test]
fn median_test_int_3d() {
    let arr = from_shape_vec(vec![2, 2, 2], vec![5, 6, 7, 0, 1, 2, 3, 4]).unwrap();
    assert_eq!(median(&arr), 3);
}

#[test]
fn from_vec_round_trips() {
    let arr = from_vec(vec![4, -2, 0]);
    assert_eq!(to_vec(&arr), vec![4, -2, 0]);
}
