use num_ru::arrays::from_shape_vec;
use num_ru::stats::basic_stats::{amax, amin};

#[test]
fn lib_amin_test_1d() {
    let arr = from_shape_vec(vec![5], vec![5, 3, 5, 2, 1]).unwrap();
    assert_eq!(amin(&arr), 1);
    let arr2 = from_shape_vec(vec![5], vec![8, 8, 8, 8, 8]).unwrap();
    assert_eq!(amin(&arr2), 8);
    let arr3 = from_shape_vec(vec![5], vec![1, 3, 5, 2, 1]).unwrap();
    assert_eq!(amin(&arr3), 1);
    let arr5 = from_shape_vec(vec![5], vec![4, 3, -1, 2, 1]).unwrap();
    assert_eq!(amin(&arr5), -1);
}

#[test]
fn lib_amin_test_2d() {
    let arr = from_shape_vec(vec![2, 2], vec![5, 3, 1, 2]).unwrap();
    assert_eq!(amin(&arr), 1);
    let arr2 = from_shape_vec(vec![2, 2], vec![8, 8, 8, 8]).unwrap();
    assert_eq!(amin(&arr2), 8);
}

#[test]
fn lib_amin_test_3d() {
    let arr = from_shape_vec(vec![2, 2, 2], vec![5, 6, 7, 0, 1, 2, 3, 4]).unwrap();
    assert_eq!(amin(&arr), 0);
    let arr2 = from_shape_vec(vec![2, 2, 2], vec![-5, -6, -7, 0, -1, -2, -3, -4]).unwrap();
    assert_eq!(amin(&arr2), -7);
}

#[test]
fn lib_amax_test_1d() {
    let arr = from_shape_vec(vec![5], vec![5, 3, 5, 2, 1]).unwrap();
    assert_eq!(amax(&arr), 5);
    let arr2 = from_shape_vec(vec![5], vec![8, 8, 8, 8, 8]).unwrap();
    assert_eq!(amax(&arr2), 8);
    let arr3 = from_shape_vec(vec![5], vec![1, 3, 5, 2, 1]).unwrap();
    assert_eq!(amax(&arr3), 5);
    let arr5 = from_shape_vec(vec![5], vec![4, 3, -1, 2, 1]).unwrap();
    assert_eq!(amax(&arr5), 4);
}

#[test]
fn lib_amax_test_3d() {
    let arr = from_shape_vec(vec![2, 2, 2], vec![5, 6, 7, 0, 1, 2, 3, 4]).unwrap();
    assert_eq!(amax(&arr), 7);
    let arr2 = from_shape_vec(vec![2, 2, 2], vec![-5, -6, -7, 0, -1, -2, -3, -4]).unwrap();
    assert_eq!(amax(&arr2), 0);
}
