use rust_concurrency::{
    compute, dot_fits_exec, dot_product, multiply, plan, product_fits, task, worker_for,
    DimensionMismatch, Matrix, MsgOutput, Vector, NUM_THREADS,
};

fn entries(m: &Matrix) -> Vec<i64> {
    let mut out = Vec::new();
    for i in 0..m.rows() {
        for j in 0..m.cols() {
            out.push(m.get(i, j));
        }
    }
    out
}

#[test]
fn test_matrix() {
    let a = Matrix::new(2, 3, vec![1, 2, 3, 4, 5, 6]);
    let b = Matrix::new(3, 2, vec![1, 2, 3, 4, 5, 6]);
    assert_eq!(a.describe(), "Matrix(row=2,col=3,{1 2 3,4 5 6})");
    assert_eq!(b.describe(), "Matrix(row=3,col=2,{1 2,3 4,5 6})");

    let c = a.mul(b);
    assert_eq!(c.describe(), "Matrix(row=2,col=2,{22 28,49 64})");
}

#[test]
fn test_matrix_mul_error() {
    let a = Matrix::new(2, 3, vec![1, 2, 3, 4, 5, 6]);
    let b = Matrix::new(2, 3, vec![1, 2, 3, 4, 5, 6]);
    let c = multiply(&a, &b);
    assert!(c.is_err());
}

#[test]
fn mismatch_is_dimension_mismatch() {
    let a = Matrix::new(2, 3, vec![1, 2, 3, 4, 5, 6]);
    let b = Matrix::new(2, 3, vec![1, 2, 3, 4, 5, 6]);
    assert_eq!(multiply(&a, &b).err(), Some(DimensionMismatch));
    assert_eq!(plan(&a, &b).err(), Some(DimensionMismatch));
}

#[test]
fn product_of_two_by_three_and_three_by_two() {
    let a = Matrix::new(2, 3, vec![1, 2, 3, 4, 5, 6]);
    let b = Matrix::new(3, 2, vec![1, 2, 3, 4, 5, 6]);
    let c = multiply(&a, &b).unwrap();
    assert_eq!((c.rows(), c.cols()), (2, 2));
    assert_eq!(entries(&c), vec![22, 28, 49, 64]);
    assert_eq!(c.render(), "{22 28,49 64}");
}

#[test]
fn product_shape_and_cells() {
    // 1x3 times 3x4
    let a = Matrix::new(1, 3, vec![2, -1, 3]);
    let b = Matrix::new(3, 4, vec![1, 0, 2, -2, 4, 1, 0, 5, -3, 2, 1, 1]);
    let c = multiply(&a, &b).unwrap();
    assert_eq!((c.rows(), c.cols()), (1, 4));
    assert_eq!(entries(&c), vec![2 - 4 - 9, -1 + 6, 4 + 3, -4 - 5 + 3]);
}

#[test]
fn product_with_empty_inner_dimension_is_zero() {
    let a = Matrix::new(2, 0, vec![]);
    let b = Matrix::new(0, 3, vec![]);
    let c = multiply(&a, &b).unwrap();
    assert_eq!((c.rows(), c.cols()), (2, 3));
    assert_eq!(entries(&c), vec![0; 6]);
}

#[test]
fn identity_on_both_sides() {
    let a = Matrix::new(3, 3, vec![5, -2, 7, 0, 9, 1, -4, 3, 8]);
    let right = multiply(&a, &Matrix::identity(3)).unwrap();
    assert_eq!(entries(&right), entries(&a));
    let left = multiply(&Matrix::identity(3), &a).unwrap();
    assert_eq!(entries(&left), entries(&a));
}

#[test]
fn identity_entries() {
    let e = Matrix::identity(3);
    assert_eq!(entries(&e), vec![1, 0, 0, 0, 1, 0, 0, 0, 1]);
    assert_eq!(e.render(), "{1 0 0,0 1 0,0 0 1}");
}

#[test]
fn multiplication_does_not_commute() {
    let a = Matrix::new(2, 3, vec![1, 2, 3, 4, 5, 6]);
    let b = Matrix::new(3, 2, vec![1, 2, 3, 4, 5, 6]);
    let ab = multiply(&a, &b).unwrap();
    let ba = multiply(&b, &a).unwrap();
    assert_eq!((ab.rows(), ab.cols()), (2, 2));
    assert_eq!((ba.rows(), ba.cols()), (3, 3));

    let p = Matrix::new(2, 2, vec![1, 1, 0, 1]);
    let q = Matrix::new(2, 2, vec![1, 0, 1, 1]);
    let pq = multiply(&p, &q).unwrap();
    let qp = multiply(&q, &p).unwrap();
    assert_eq!(entries(&pq), vec![2, 1, 1, 1]);
    assert_eq!(entries(&qp), vec![1, 1, 1, 2]);
}

#[test]
fn repeated_products_agree() {
    let a = Matrix::new(2, 2, vec![3, 1, 4, 1]);
    let b = Matrix::new(2, 2, vec![5, 9, 2, 6]);
    let c = Matrix::new(2, 2, vec![-1, 0, 2, 7]);
    let d = Matrix::new(2, 2, vec![8, -3, 1, 1]);
    let first = multiply(&a, &b).unwrap();
    let other = multiply(&c, &d).unwrap();
    let again = multiply(&a, &b).unwrap();
    assert_eq!(entries(&first), entries(&again));
    assert_eq!(entries(&first), vec![17, 33, 22, 42]);
    assert_eq!(entries(&other), vec![-8, 3, 23, 1]);
}

#[test]
fn round_robin_assignment() {
    assert_eq!(NUM_THREADS, 4);
    let workers: Vec<usize> = (0..10).map(worker_for).collect();
    assert_eq!(workers, vec![0, 1, 2, 3, 0, 1, 2, 3, 0, 1]);
    let mut counts = [0usize; 4];
    for idx in 0..10 {
        counts[worker_for(idx)] += 1;
    }
    assert_eq!(counts, [3, 3, 2, 2]);
}

#[test]
fn plan_builds_tasks_in_row_major_order() {
    let a = Matrix::new(2, 3, vec![1, 2, 3, 4, 5, 6]);
    let b = Matrix::new(3, 2, vec![1, 2, 3, 4, 5, 6]);
    let tasks = plan(&a, &b).unwrap();
    assert_eq!(tasks.len(), 4);
    let mut values = Vec::new();
    for (t, input) in tasks.into_iter().enumerate() {
        assert_eq!(input.idx(), t);
        let out = compute(input);
        assert_eq!(out.idx(), t);
        values.push(out.value());
    }
    assert_eq!(values, vec![22, 28, 49, 64]);
}

#[test]
fn task_carries_row_and_column() {
    let a = Matrix::new(2, 3, vec![1, 2, 3, 4, 5, 6]);
    let b = Matrix::new(3, 2, vec![1, 2, 3, 4, 5, 6]);
    let input = task(&a, &b, 1, 0);
    assert_eq!(input.idx(), 2);
    let out = compute(input);
    assert_eq!(out.value(), 4 * 1 + 5 * 3 + 6 * 5);
}

#[test]
fn row_and_column_extraction() {
    let b = Matrix::new(3, 2, vec![1, 2, 3, 4, 5, 6]);
    let row = b.row(1);
    assert_eq!((row.len(), row.get(0), row.get(1)), (2, 3, 4));
    let col = b.col(1);
    assert_eq!((col.len(), col.get(0), col.get(1), col.get(2)), (3, 2, 4, 6));
}

#[test]
fn place_writes_one_cell() {
    let mut m = Matrix::zeros(2, 2);
    m.place(MsgOutput::new(3, 7));
    m.place(MsgOutput::new(0, -1));
    assert_eq!(entries(&m), vec![-1, 0, 0, 7]);
}

#[test]
fn dot_product_values() {
    let r = dot_product(Vector::new(vec![1, 2, 3]), Vector::new(vec![4, -5, 6]));
    assert_eq!(r, Ok(4 - 10 + 18));
    let empty = dot_product(Vector::new(vec![]), Vector::new(vec![]));
    assert_eq!(empty, Ok(0));
}

#[test]
fn dot_product_length_mismatch() {
    let r = dot_product(Vector::new(vec![1, 2, 3]), Vector::new(vec![4, 5]));
    assert_eq!(r, Err(DimensionMismatch));
}

#[test]
fn overflow_checks() {
    let big = Vector::new(vec![i64::MAX, 1]);
    let two = Vector::new(vec![2, 0]);
    assert!(!dot_fits_exec(&big, &two));
    let ones = Vector::new(vec![1, 1]);
    assert!(!dot_fits_exec(&big, &ones));
    let sum_over = Vector::new(vec![i64::MAX, i64::MAX]);
    assert!(!dot_fits_exec(&sum_over, &ones));
    assert!(dot_fits_exec(&Vector::new(vec![3, -4]), &Vector::new(vec![5, 6])));

    let a = Matrix::new(1, 2, vec![i64::MAX, 1]);
    let b = Matrix::new(2, 1, vec![1, 1]);
    assert!(!product_fits(&a, &b));
    let c = Matrix::new(2, 1, vec![1, 0]);
    assert!(product_fits(&a, &c));
}

#[test]
fn rendering_edge_cases() {
    assert_eq!(Matrix::new(0, 0, vec![]).render(), "{}");
    assert_eq!(Matrix::new(1, 1, vec![-12]).describe(), "Matrix(row=1,col=1,{-12})");
    assert_eq!(
        Matrix::new(2, 1, vec![i64::MIN, 1000]).render(),
        "{-9223372036854775808,1000}"
    );
}
