use num_ru::arrays::{from_shape_vec, shape, to_vec};
use num_ru::math::miscellaneous::{clip, convolve, sign, square, ConvolutionMode};

#[test]
fn convolve_test() {
    let arr1 = from_shape_vec(vec![3], vec![1, 2, 3]).unwrap();
    let arr2 = from_shape_vec(vec![3], vec![0, 2, 1]).unwrap();
    let full = convolve(&arr1, &arr2, ConvolutionMode::Full);
    assert_eq!(to_vec(&full), vec![0, 2, 5, 8, 3]);
    let same = convolve(&arr1, &arr2, ConvolutionMode::Same);
    assert_eq!(to_vec(&same), vec![2, 5, 8]);
    let valid = convolve(&arr1, &arr2, ConvolutionMode::Valid);
    assert_eq!(to_vec(&valid), vec![5]);
}

#[test]
fn convolve_different_lengths() {
    let arr1 = from_shape_vec(vec![4], vec![1, 1, 1, 1]).unwrap();
    let arr2 = from_shape_vec(vec![2], vec![1, 2]).unwrap();
    let full = convolve(&arr1, &arr2, ConvolutionMode::Full);
    assert_eq!(to_vec(&full), vec![1, 3, 3, 3, 2]);
    let same = convolve(&arr1, &arr2, ConvolutionMode::Same);
    assert_eq!(to_vec(&same), vec![1, 3, 3, 3]);
    let valid = convolve(&arr1, &arr2, ConvolutionMode::Valid);
    assert_eq!(to_vec(&valid), vec![3, 3, 3]);
}

#[test]
fn clip_test() {
    let arr1 = from_shape_vec(vec![2, 5], vec![1, 2, 3, 4, 5, 6, 7, 8, 9, 10]).unwrap();
    let res = clip(&arr1, 3, 8);
    assert_eq!(to_vec(&res), vec![3, 3, 3, 4, 5, 6, 7, 8, 8, 8]);
    assert_eq!(shape(&res), vec![2, 5]);
    let arr3 = from_shape_vec(vec![2, 5], vec![-1, -2, 3, 4, 5, 6, 7, 8, 9, 10]).unwrap();
    let res2 = clip(&arr3, 3, 8);
    assert_eq!(to_vec(&res2), vec![3, 3, 3, 4, 5, 6, 7, 8, 8, 8]);
}

#[test]
fn square_test() {
    let arr1 = from_shape_vec(vec![4], vec![2, 4, 6, 8]).unwrap();
    let res = square(&arr1);
    assert_eq!(to_vec(&res), vec![4, 16, 36, 64]);
    let arr3 = from_shape_vec(vec![4], vec![2, 4, 6, 8]).unwrap();
    let res2 = square(&arr3);
    assert_eq!(to_vec(&res2), vec![4, 16, 36, 64]);
}

#[test]
fn sign_test() {
    let arr1 = from_shape_vec(vec![4], vec![0, 4, -6, 8]).unwrap();
    let res = sign(&arr1);
    assert_eq!(to_vec(&res), vec![0, 1, -1, 1]);
    let arr3 = from_shape_vec(vec![4], vec![-0, 4, -6, 8]).unwrap();
    let res2 = sign(&arr3);
    assert_eq!(to_vec(&res2), vec![0, 1, -1, 1]);
}

#[test]
fn clip_keeps_values_already_in_range() {
    let arr = from_shape_vec(vec![3], vec![4, 5, 6]).unwrap();
    let res = clip(&arr, 3, 8);
    assert_eq!(to_vec(&res), vec![4, 5, 6]);
}
