use num_ru::arrays::from_shape_vec;
use num_ru::stats::basic_stats::{amax, amin};
use num_ru::stats::order_stats::{amax_rayon, amin_rayon, percentile, ptp};

#[test]
fn order_stats_amin_test_1d() {
    let arr = from_shape_vec(vec![5], vec![5, 3, 5, 2, 1]).unwrap();
    assert_eq!(amin(&arr), 1);
    let arr2 = from_shape_vec(vec![5], vec![8, 8, 8, 8, 8]).unwrap();
    assert_eq!(amin(&arr2), 8);
    let arr3 = from_shape_vec(vec![5], vec![1, 3, 5, 2, 1]).unwrap();
    assert_eq!(amin(&arr3), 1);
    let arr5 = from_shape_vec(vec![5], vec![4, 3, -1, 2, 1]).unwrap();
    assert_eq!(amin(&arr5), -1);
}

#[test]
fn amin_test_1d_rayon() {
    let arr = from_shape_vec(vec![5], vec![5, 3, 5, 2, 1]).unwrap();
    assert_eq!(amin_rayon(&arr), 1);
    let arr2 = from_shape_vec(vec![5], vec![8, 8, 8, 8, 8]).unwrap();
    assert_eq!(amin_rayon(&arr2), 8);
    let arr3 = from_shape_vec(vec![5], vec![1, 3, 5, 2, 1]).unwrap();
    assert_eq!(amin_rayon(&arr3), 1);
    let arr5 = from_shape_vec(vec![5], vec![4, 3, -1, 2, 1]).unwrap();
    assert_eq!(amin_rayon(&arr5), -1);
}

#[test]
fn order_stats_amin_test_2d() {
    let arr = from_shape_vec(vec![2, 2], vec![5, 3, 1, 2]).unwrap();
    assert_eq!(amin(&arr), 1);
    let arr2 = from_shape_vec(vec![2, 2], vec![8, 8, 8, 8]).unwrap();
    assert_eq!(amin(&arr2), 8);
}

#[test]
fn order_stats_amin_test_3d() {
    let arr = from_shape_vec(vec![2, 2, 2], vec![5, 6, 7, 0, 1, 2, 3, 4]).unwrap();
    assert_eq!(amin(&arr), 0);
    let arr2 = from_shape_vec(vec![2, 2, 2], vec![-5, -6, -7, 0, -1, -2, -3, -4]).unwrap();
    assert_eq!(amin(&arr2), -7);
}

#[test]
fn amax_rayon_test_1d() {
    let arr2 = from_shape_vec(vec![5], vec![5, 3, 5, 2, 1]).unwrap();
    assert_eq!(amax_rayon(&arr2), 5);
}

#[test]
fn order_stats_amax_test_1d() {
    let arr = from_shape_vec(vec![5], vec![5, 3, 5, 2, 1]).unwrap();
    assert_eq!(amax(&arr), 5);
    let arr2 = from_shape_vec(vec![5], vec![8, 8, 8, 8, 8]).unwrap();
    assert_eq!(amax(&arr2), 8);
    let arr3 = from_shape_vec(vec![5], vec![1, 3, 5, 2, 1]).unwrap();
    assert_eq!(amax(&arr3), 5);
    let arr5 = from_shape_vec(vec![5], vec![4, 3, -1, 2, 1]).unwrap();
    assert_eq!(amax(&arr5), 4);
}

#[test]
fn order_stats_amax_test_3d() {
    let arr = from_shape_vec(vec![2, 2, 2], vec![5, 6, 7, 0, 1, 2, 3, 4]).unwrap();
    assert_eq!(amax(&arr), 7);
    let arr2 = from_shape_vec(vec![2, 2, 2], vec![-5, -6, -7, 0, -1, -2, -3, -4]).unwrap();
    assert_eq!(amax(&arr2), 0);
}

#[test]
fn ptp_test_int_1d() {
    let arr = from_shape_vec(vec![3], vec![2, 3, 4]).unwrap();
    assert_eq!(ptp(&arr), 2);
    let arr2 = from_shape_vec(vec![5], vec![8, 8, 8, 8, 8]).unwrap();
    assert_eq!(ptp(&arr2), 0);
}

#[test]
fn ptp_test_int_3d() {
    let arr = from_shape_vec(vec![2, 2, 2], vec![5, 6, 7, 0, 1, 2, 3, 4]).unwrap();
    assert_eq!(ptp(&arr), 7);
    let arr2 = from_shape_vec(vec![2, 2, 2], vec![-5, -6, -7, 0, -1, -2, -3, -4]).unwrap();
    assert_eq!(ptp(&arr2), 7);
}

#[test]
fn perc_test_int_1d() {
    let arr = from_shape_vec(vec![4], vec![1, 3, 6, 10]).unwrap();
    let (below, total) = percentile(&arr, 0, None);
    assert_eq!((below, total), (0, 4));
    assert_eq!(below as f64 / total as f64, 0.0);
    let (below, total) = percentile(&arr, 10, None);
    assert_eq!((below, total), (4, 4));
    assert_eq!(below as f64 / total as f64, 1.0);
    let (below, total) = percentile(&arr, 6, None);
    assert_eq!((below, total), (3, 4));
    assert_eq!(below as f64 / total as f64, 0.75);
}

#[test]
fn perc_test_int_3d() {
    let arr = from_shape_vec(vec![2, 2, 2], vec![5, 6, 7, 0, 1, 2, 3, 4]).unwrap();
    let (below, total) = percentile(&arr, 2, None);
    assert_eq!((below, total), (3, 8));
    assert_eq!(below as f64 / total as f64, 0.375);
}

#[test]
fn amax_is_an_element_and_an_upper_bound() {
    let data = vec![12, -7, 40, 3, 40, -2];
    let arr = from_shape_vec(vec![6], data.clone()).unwrap();
    let max = amax(&arr);
    assert!(data.contains(&max));
    assert!(data.iter().all(|&x| x <= max));
    let min = amin(&arr);
    assert!(data.contains(&min));
    assert!(data.iter().all(|&x| min <= x));
}

#[test]
fn ptp_equals_amax_minus_amin() {
    let arr = from_shape_vec(vec![5], vec![9, -4, 17, 0, 3]).unwrap();
    assert_eq!(ptp(&arr), amax(&arr) - amin(&arr));
    assert_eq!(ptp(&arr), 21);
}

#[test]
fn parallel_and_sequential_extrema_agree() {
    let mut data: Vec<i64> = Vec::new();
    for i in 0..257 {
        data.push(((i * 131) % 997) - 450);
    }
    let arr = from_shape_vec(vec![257], data).unwrap();
    assert_eq!(amax_rayon(&arr), amax(&arr));
    assert_eq!(amin_rayon(&arr), amin(&arr));
}
