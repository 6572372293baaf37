use num_ru::arrays::{from_shape_vec, from_vec, shape, to_vec};

#[test]
fn from_shape_vec_keeps_shape_and_elements() {
    let arr = from_shape_vec(vec![2, 3], vec![1, 2, 3, 4, 5, 6]).unwrap();
    assert_eq!(shape(&arr), vec![2, 3]);
    assert_eq!(to_vec(&arr), vec![1, 2, 3, 4, 5, 6]);
}

#[test]
fn from_shape_vec_rejects_wrong_count() {
    assert!(from_shape_vec(vec![2, 3], vec![1, 2, 3, 4]).is_err());
    assert!(from_shape_vec(vec![0], vec![7]).is_err());
}

#[test]
fn from_shape_vec_scalar_shape() {
    let arr = from_shape_vec(vec![], vec![42]).unwrap();
    assert_eq!(shape(&arr), vec![]);
    assert_eq!(to_vec(&arr), vec![42]);
}

#[test]
fn from_vec_is_one_dimensional() {
    let arr = from_vec(vec![5, 6, 7]);
    assert_eq!(shape(&arr), vec![3]);
    assert_eq!(to_vec(&arr), vec![5, 6, 7]);
}
