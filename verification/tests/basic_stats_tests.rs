use chrono::NaiveDate;
use num_ru::arrays::from_shape_vec;
use num_ru::stats::basic_stats::{amax, amax_parallelized, amax_simple, amin};

#[test]
fn basic_stats_amin_test_1d() {
    let arr = from_shape_vec(vec![5], vec![5, 3, 5, 2, 1]).unwrap();
    assert_eq!(amin(&arr), 1);
    let arr2 = from_shape_vec(vec![5], vec![8, 8, 8, 8, 8]).unwrap();
    assert_eq!(amin(&arr2), 8);
    let arr3 = from_shape_vec(vec![5], vec![1, 3, 5, 2, 1]).unwrap();
    assert_eq!(amin(&arr3), 1);
    let arr5 = from_shape_vec(vec![5], vec![4, 3, -1, 2, 1]).unwrap();
    assert_eq!(amin(&arr5), -1);
}

#[test]
fn basic_stats_amin_test_2d() {
    let arr = from_shape_vec(vec![2, 2], vec![5, 3, 1, 2]).unwrap();
    assert_eq!(amin(&arr), 1);
    let arr2 = from_shape_vec(vec![2, 2], vec![8, 8, 8, 8]).unwrap();
    assert_eq!(amin(&arr2), 8);
}

#[test]
fn basic_stats_amin_test_3d() {
    let arr = from_shape_vec(vec![2, 2, 2], vec![5, 6, 7, 0, 1, 2, 3, 4]).unwrap();
    assert_eq!(amin(&arr), 0);
    let arr2 = from_shape_vec(vec![2, 2, 2], vec![-5, -6, -7, 0, -1, -2, -3, -4]).unwrap();
    assert_eq!(amin(&arr2), -7);
}

#[test]
fn amin_not_int() {
    let dt1 = NaiveDate::from_ymd_opt(2016, 7, 8)
        .unwrap()
        .and_hms_opt(9, 10, 11)
        .unwrap()
        .and_utc()
        .timestamp();
    let dt2 = NaiveDate::from_ymd_opt(2018, 7, 8)
        .unwrap()
        .and_hms_opt(9, 10, 11)
        .unwrap()
        .and_utc()
        .timestamp();
    let dt3 = NaiveDate::from_ymd_opt(2016, 7, 8)
        .unwrap()
        .and_hms_opt(13, 10, 11)
        .unwrap()
        .and_utc()
        .timestamp();
    let arr = from_shape_vec(vec![3], vec![dt3, dt1, dt2]).unwrap();
    assert_eq!(amin(&arr), dt1);
}

#[test]
fn basic_stats_amax_test_1d() {
    let arr = from_shape_vec(vec![5], vec![5, 3, 5, 2, 1]).unwrap();
    assert_eq!(amax(&arr), 5);
    let arr2 = from_shape_vec(vec![5], vec![8, 8, 8, 8, 8]).unwrap();
    assert_eq!(amax(&arr2), 8);
    let arr3 = from_shape_vec(vec![5], vec![1, 3, 5, 2, 1]).unwrap();
    assert_eq!(amax(&arr3), 5);
    let arr5 = from_shape_vec(vec![5], vec![4, 3, -1, 2, 1]).unwrap();
    assert_eq!(amax(&arr5), 4);
}

#[test]
fn basic_stats_amax_test_3d() {
    let arr = from_shape_vec(vec![2, 2, 2], vec![5, 6, 7, 0, 1, 2, 3, 4]).unwrap();
    assert_eq!(amax(&arr), 7);
    let arr2 = from_shape_vec(vec![2, 2, 2], vec![-5, -6, -7, 0, -1, -2, -3, -4]).unwrap();
    assert_eq!(amax(&arr2), 0);
}

#[test]
fn amax_large_dispatches_to_parallel() {
    let mut data: Vec<i64> = Vec::new();
    for i in 0..150 {
        data.push((i * 37) % 101 - 50);
    }
    data[73] = 999;
    let arr = from_shape_vec(vec![150], data).unwrap();
    assert_eq!(amax(&arr), 999);
    assert_eq!(amax_simple(&arr), 999);
    assert_eq!(amax_parallelized(&arr), 999);
}

#[test]
fn amax_parallelized_small_input() {
    let arr = from_shape_vec(vec![4], vec![-3, 9, 0, 2]).unwrap();
    assert_eq!(amax_parallelized(&arr), 9);
}
