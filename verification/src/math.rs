//! Element-wise and pairwise math routines: arithmetic maps, miscellaneous
//! routines (convolution, clipping, squares, signs) and the
//! sum/product/difference family.

pub mod arithmetic;
pub mod miscellaneous;
pub mod sumproddif;
