//! Dense integer matrices multiplied cell by cell: a product is planned as one
//! dot-product task per output cell, tasks are spread over a fixed set of workers
//! by round robin, and the results are collected back into place.

pub mod matrix;
pub mod render;
pub mod vector;

pub use matrix::{
    compute, multiply, plan, product_fits, task, worker_for, DimensionMismatch, Matrix, MsgInput,
    MsgOutput, NUM_THREADS,
};
pub use vector::{dot_fits_exec, dot_product, Vector};
