//! The solver in double precision, on data built with `sprs` and `ndarray`.
use ndarray::Array2;
use sparse_olps::backend::cpu::CpuBackend;
use sparse_olps::backend::OplsBackend;
use sparse_olps::matrix::{dot_mtv, dot_mv, Matrix};
use sparse_olps::model::{Opls, OplsModel, MAX_ITER, TOLERANCE_SCALE};
use sparse_olps::nipals::{pls_weight_multi, pls_weight_single};
use sparse_olps::preprocess::{center_columns, preprocess_x};
use sparse_olps::scalar::{reciprocal, Scalar};
use sparse_olps::solve::{
    invert, solve_coefficients, try_solve_coefficients, PIVOT_SCALE,
};
use sparse_olps::sparse::CsrMatrix;
use sparse_olps::vector::{dot, norm, normalize};
use sprs::CsMat;

/// A double.
#[derive(Clone, Copy, Debug, PartialEq)]
struct Double(f64);

/// Every operation is specified to be that of the processor, and is just that.
impl Scalar for Double {
    fn spec_zero() -> Self {
        Double(0.0)
    }

    fn spec_one() -> Self {
        Double(1.0)
    }

    fn spec_from_u64(n: u64) -> Self {
        Double(n as f64)
    }

    fn spec_add(self, other: Self) -> Self {
        Double(self.0 + other.0)
    }

    fn spec_sub(self, other: Self) -> Self {
        Double(self.0 - other.0)
    }

    fn spec_mul(self, other: Self) -> Self {
        Double(self.0 * other.0)
    }

    fn spec_div(self, other: Self) -> Self {
        Double(self.0 / other.0)
    }

    fn spec_neg(self) -> Self {
        Double(-self.0)
    }

    fn spec_abs(self) -> Self {
        Double(self.0.abs())
    }

    fn spec_sqrt(self) -> Self {
        Double(self.0.sqrt())
    }

    fn spec_ln(self) -> Self {
        Double(self.0.ln())
    }

    fn spec_exceeds(self, other: Self) -> bool {
        self.0 > other.0
    }

    fn zero() -> Self {
        Self::spec_zero()
    }

    fn one() -> Self {
        Self::spec_one()
    }

    fn from_u64(n: u64) -> Self {
        Self::spec_from_u64(n)
    }

    fn add(self, other: Self) -> Self {
        self.spec_add(other)
    }

    fn sub(self, other: Self) -> Self {
        self.spec_sub(other)
    }

    fn mul(self, other: Self) -> Self {
        self.spec_mul(other)
    }

    fn div(self, other: Self) -> Self {
        self.spec_div(other)
    }

    fn neg(self) -> Self {
        self.spec_neg()
    }

    fn abs(self) -> Self {
        self.spec_abs()
    }

    fn sqrt(self) -> Self {
        self.spec_sqrt()
    }

    fn ln(self) -> Self {
        self.spec_ln()
    }

    fn exceeds(self, other: Self) -> bool {
        self.spec_exceeds(other)
    }
}

fn sparse_from_dense(data: &[&[f64]], rows: usize, cols: usize) -> CsMat<f64> {
    let mut tri = sprs::TriMat::new((rows, cols));
    for (i, row) in data.iter().enumerate() {
        for (j, &val) in row.iter().enumerate() {
            if val != 0.0 {
                tri.add_triplet(i, j, val);
            }
        }
    }
    tri.to_csr()
}

fn csr(x: &CsMat<f64>) -> CsrMatrix<Double> {
    CsrMatrix::new(
        x.cols(),
        x.indptr().as_slice().unwrap().to_vec(),
        x.indices().to_vec(),
        x.data().iter().map(|&v| Double(v)).collect(),
    )
    .unwrap()
}

fn dense(y: &Array2<f64>) -> Matrix<Double> {
    let rows = y.rows().into_iter().map(|r| r.iter().map(|&v| Double(v)).collect()).collect();
    Matrix::from_rows(y.ncols(), rows).unwrap()
}

#[test]
fn test_preprocess_row_normalization() {
    let x = sparse_from_dense(&[&[2.0, 0.0, 8.0]], 1, 3);
    let dense = preprocess_x(&csr(&x), 1, 3);
    let expected = [(0.2_f64 + 1.0).ln(), 0.0, (0.8_f64 + 1.0).ln()];
    for j in 0..3 {
        assert!(
            (dense.get(0, j).0 - expected[j]).abs() < 1e-12,
            "column {j}: got {} expected {}",
            dense.get(0, j).0,
            expected[j]
        );
    }
}

#[test]
fn test_fit_and_predict_single_y() {
    let x = sparse_from_dense(
        &[
            &[10.0, 0.0, 5.0, 1.0],
            &[8.0, 2.0, 3.0, 1.0],
            &[0.0, 12.0, 1.0, 3.0],
            &[1.0, 10.0, 0.0, 5.0],
            &[5.0, 5.0, 4.0, 2.0],
            &[3.0, 7.0, 2.0, 4.0],
        ],
        6,
        4,
    );
    let y = Array2::from_shape_vec((6, 1), vec![1.0, 1.2, 3.0, 3.5, 2.0, 2.5]).unwrap();

    let model = OplsModel::fit(&csr(&x), &dense(&y), 1, 1);
    let y_hat = model.predict(&csr(&x));
    assert_eq!(y_hat.nrows(), 6);
    assert_eq!(y_hat.ncols(), 1);

    for i in 0..6 {
        assert!(
            y_hat.get(i, 0).0 > 0.0 && y_hat.get(i, 0).0 < 5.0,
            "prediction {} out of range: {}",
            i,
            y_hat.get(i, 0).0
        );
    }
}

#[test]
fn test_fit_and_predict_multi_y() {
    let x = sparse_from_dense(
        &[
            &[10.0, 0.0, 5.0, 1.0],
            &[8.0, 2.0, 3.0, 1.0],
            &[0.0, 12.0, 1.0, 3.0],
            &[1.0, 10.0, 0.0, 5.0],
            &[5.0, 5.0, 4.0, 2.0],
            &[3.0, 7.0, 2.0, 4.0],
        ],
        6,
        4,
    );
    let y = Array2::from_shape_vec(
        (6, 2),
        vec![1.0, 5.0, 1.2, 4.8, 3.0, 2.0, 3.5, 1.5, 2.0, 3.0, 2.5, 2.5],
    )
    .unwrap();

    let model = OplsModel::fit(&csr(&x), &dense(&y), 2, 1);
    let y_hat = model.predict(&csr(&x));
    assert_eq!(y_hat.nrows(), 6);
    assert_eq!(y_hat.ncols(), 2);
}

#[test]
fn test_zero_orthogonal_components() {
    let x = sparse_from_dense(
        &[&[10.0, 0.0, 5.0], &[0.0, 10.0, 1.0], &[5.0, 5.0, 3.0], &[8.0, 1.0, 4.0]],
        4,
        3,
    );
    let y = Array2::from_shape_vec((4, 1), vec![1.0, 3.0, 2.0, 1.5]).unwrap();

    let model = OplsModel::fit(&csr(&x), &dense(&y), 1, 0);
    let y_hat = model.predict(&csr(&x));
    assert_eq!(y_hat.nrows(), 4);
}

fn doubles(v: &[f64]) -> Vec<Double> {
    v.iter().map(|&x| Double(x)).collect()
}

fn matrix(cols: usize, rows: &[&[f64]]) -> Matrix<Double> {
    Matrix::from_rows(cols, rows.iter().map(|r| doubles(r)).collect()).unwrap()
}

fn rows_of(m: &Matrix<Double>) -> Vec<Vec<f64>> {
    (0..m.nrows()).map(|i| m.row(i).iter().map(|v| v.0).collect()).collect()
}

fn counts() -> CsrMatrix<Double> {
    csr(&sparse_from_dense(
        &[
            &[10.0, 0.0, 5.0, 1.0],
            &[8.0, 2.0, 3.0, 1.0],
            &[0.0, 12.0, 1.0, 3.0],
            &[1.0, 10.0, 0.0, 5.0],
            &[5.0, 5.0, 4.0, 2.0],
            &[3.0, 7.0, 2.0, 4.0],
        ],
        6,
        4,
    ))
}

fn response() -> Matrix<Double> {
    matrix(1, &[&[1.0], &[1.2], &[3.0], &[3.5], &[2.0], &[2.5]])
}

#[test]
fn preprocessing_skips_rows_without_positive_sum() {
    let x = csr(&sparse_from_dense(&[&[1.0, -1.0], &[-2.0, 1.0], &[0.0, 0.0], &[0.0, 4.0]], 4, 2));
    let dense = preprocess_x(&x, 5, 2);
    assert_eq!(
        rows_of(&dense),
        vec![
            vec![0.0, 0.0],
            vec![0.0, 0.0],
            vec![0.0, 0.0],
            vec![0.0, 2.0_f64.ln()],
            vec![0.0, 0.0],
        ]
    );
}

#[test]
fn centering_returns_the_means() {
    let mut m = matrix(2, &[&[1.0, 2.0], &[3.0, 6.0]]);
    let means = center_columns(&mut m);
    assert_eq!(means, doubles(&[2.0, 4.0]));
    assert_eq!(rows_of(&m), vec![vec![-1.0, -2.0], vec![1.0, 2.0]]);
}

#[test]
fn products_norms_and_normalization() {
    let m = matrix(2, &[&[1.0, 2.0], &[3.0, 4.0], &[5.0, 6.0]]);
    assert_eq!(dot_mv(&m, &doubles(&[1.0, 10.0])), doubles(&[21.0, 43.0, 65.0]));
    assert_eq!(dot_mtv(&m, &doubles(&[1.0, 0.0, 2.0])), doubles(&[11.0, 14.0]));
    assert_eq!(norm(&doubles(&[3.0, 4.0])), Double(5.0));
    let mut v = doubles(&[3.0, 4.0]);
    normalize(&mut v);
    assert_eq!(v, doubles(&[0.6, 0.8]));
    let mut zero = doubles(&[0.0, 0.0]);
    normalize(&mut zero);
    assert_eq!(zero, doubles(&[0.0, 0.0]));
}

#[test]
fn inversion_pivots_and_rejects() {
    let inverse = invert(&matrix(2, &[&[2.0, 1.0], &[1.0, 1.0]])).unwrap();
    assert_eq!(rows_of(&inverse), vec![vec![1.0, -1.0], vec![-1.0, 2.0]]);
    let exchange = matrix(2, &[&[0.0, 1.0], &[1.0, 0.0]]);
    assert_eq!(rows_of(&invert(&exchange).unwrap()), vec![vec![0.0, 1.0], vec![1.0, 0.0]]);
    assert!(invert(&matrix(2, &[&[1.0, 2.0], &[2.0, 4.0]])).is_none());
    assert!(invert(&matrix(1, &[&[1e-15]])).is_none());
    assert!(invert(&matrix(1, &[&[-2e-15]])).is_some());
    assert!(invert(&matrix(1, &[&[f64::NAN]])).is_none());
}

#[test]
fn coefficients_of_one_component() {
    let w = matrix(1, &[&[1.0], &[0.5]]);
    let p = matrix(1, &[&[2.0], &[0.0]]);
    let c = matrix(1, &[&[3.0], &[-4.0]]);
    let b = solve_coefficients(&w, &p, &c);
    assert_eq!(rows_of(&b), vec![vec![1.5, -2.0], vec![0.75, -1.0]]);
    let none = matrix(1, &[&[0.0], &[1.0]]);
    assert!(try_solve_coefficients(&w, &matrix(1, &[&[0.0], &[0.0]]), &c).is_none());
    assert!(try_solve_coefficients(&none, &p, &c).is_none());
}

#[test]
fn weights_of_one_and_of_several_responses() {
    let x = matrix(2, &[&[1.0, 0.0], &[0.0, 1.0]]);
    assert_eq!(pls_weight_single(&x, &doubles(&[3.0, 4.0])), doubles(&[0.6, 0.8]));
    let y = matrix(2, &[&[2.0, 0.0], &[0.0, 1.0]]);
    for max_iter in [0, 1, 500] {
        let (w, c) = pls_weight_multi(&x, &y, max_iter, Double(1e-10));
        assert_eq!(w, doubles(&[1.0, 0.0]));
        assert_eq!(c, doubles(&[2.0, 0.0]));
    }
}

#[test]
fn the_iteration_reduces_to_a_single_response() {
    let mut z = preprocess_x(&counts(), 6, 4);
    center_columns(&mut z);
    let mut y = response();
    center_columns(&mut y);
    let single = pls_weight_single(&z, &y.column(0));
    let t = dot_mv(&z, &single);
    for max_iter in [0, 1, 2, 500] {
        let (w, c) = pls_weight_multi(&z, &y, max_iter, Double(1e-10));
        for j in 0..4 {
            assert!((w[j].0 - single[j].0).abs() < 1e-12);
        }
        assert_eq!(c.len(), 1);
        assert!((c[0].0 - dot(&y.column(0), &t).0 / dot(&t, &t).0).abs() < 1e-9);
    }
}

#[test]
fn a_further_component_never_worsens_the_fit() {
    for n_orth in 0..2 {
        let mut last = f64::INFINITY;
        for n_pred in 0..4 - n_orth {
            let y_hat = OplsModel::fit(&counts(), &response(), n_pred, n_orth).predict(&counts());
            let rest: Vec<f64> =
                (0..6).map(|i| response().get(i, 0).0 - y_hat.get(i, 0).0).collect();
            let squares: f64 = rest.iter().map(|v| v * v).sum();
            assert!(squares <= last + 1e-9);
            assert!(rest.iter().sum::<f64>().abs() < 1e-9);
            last = squares;
        }
    }
}

#[test]
fn the_tolerances_are_the_decimal_ones() {
    assert_eq!(reciprocal::<Double>(TOLERANCE_SCALE), Double(1e-10));
    assert_eq!(reciprocal::<Double>(PIVOT_SCALE), Double(1e-15));
    assert_eq!(MAX_ITER, 500);
}

#[test]
fn a_constant_response_has_no_model() {
    let y = matrix(1, &[&[2.0], &[2.0], &[2.0], &[2.0], &[2.0], &[2.0]]);
    assert!(OplsModel::try_fit(&counts(), &y, 1, 0).is_none());
    let model = OplsModel::try_fit(&counts(), &y, 0, 0).unwrap();
    let y_hat = model.predict(&counts());
    assert!(rows_of(&y_hat).iter().all(|r| r == &[2.0]));
}

#[test]
fn a_model_by_its_short_name() {
    let model = Opls::fit(&counts(), &response(), 1, 1);
    assert_eq!(model.x_mean.len(), 4);
    assert_eq!(model.y_mean.len(), 1);
    assert_eq!((model.weights.nrows(), model.weights.ncols()), (4, 1));
    assert_eq!((model.loadings_x.nrows(), model.loadings_x.ncols()), (4, 1));
    assert_eq!((model.loadings_y.nrows(), model.loadings_y.ncols()), (1, 1));
    assert_eq!((model.weights_orth.nrows(), model.weights_orth.ncols()), (4, 1));
    assert_eq!((model.loadings_orth.nrows(), model.loadings_orth.ncols()), (4, 1));
    assert_eq!((model.scores_orth.nrows(), model.scores_orth.ncols()), (6, 1));
    assert_eq!((model.coefficients.nrows(), model.coefficients.ncols()), (4, 1));
}

#[test]
fn orthogonal_scores_do_not_correlate_with_the_response() {
    let model = OplsModel::fit(&counts(), &response(), 1, 2);
    let mut y = response();
    center_columns(&mut y);
    let y = y.column(0);
    for a in 0..2 {
        let t = model.scores_orth.column(a);
        let size = norm(&t).0 * norm(&y).0;
        assert!(size > 0.0);
        assert!(dot(&t, &y).0.abs() < 1e-9 * size);
    }
    // The weight vectors are orthogonal, too.
    let w = model.weights.column(0);
    assert!(dot(&w, &model.weights_orth.column(0)).0.abs() < 1e-9);
}

#[test]
fn orthogonal_components_do_not_change_predictions() {
    for (n, k) in [(1, 1), (1, 2), (2, 1)] {
        let orthogonal = OplsModel::fit(&counts(), &response(), n, k);
        let standard = OplsModel::fit(&counts(), &response(), n + k, 0);
        let new = csr(&sparse_from_dense(&[&[1.0, 2.0, 3.0, 4.0], &[9.0, 0.0, 0.0, 1.0]], 2, 4));
        let (a, b) = (orthogonal.predict(&new), standard.predict(&new));
        for i in 0..2 {
            assert!((a.get(i, 0).0 - b.get(i, 0).0).abs() < 1e-8);
        }
    }
}

#[test]
fn predictions_ignore_the_scale_of_a_row_and_the_other_rows() {
    let model = OplsModel::fit(&counts(), &response(), 1, 1);
    let one = csr(&sparse_from_dense(&[&[1.0, 2.0, 3.0, 4.0]], 1, 4));
    let two = csr(&sparse_from_dense(&[&[5.0, 0.0, 0.0, 5.0], &[8.0, 16.0, 24.0, 32.0]], 2, 4));
    assert_eq!(model.predict(&one).get(0, 0), model.predict(&two).get(1, 0));
}

#[test]
fn as_many_components_as_the_data_have_reproduce_the_response() {
    let x = csr(&sparse_from_dense(
        &[&[10.0, 0.0, 5.0], &[0.0, 10.0, 1.0], &[5.0, 5.0, 3.0], &[8.0, 1.0, 4.0]],
        4,
        3,
    ));
    let y = matrix(1, &[&[1.0], &[3.0], &[2.5], &[1.5]]);
    let model = OplsModel::fit(&x, &y, 3, 0);
    let y_hat = model.predict(&x);
    for i in 0..4 {
        assert!((y_hat.get(i, 0).0 - y.get(i, 0).0).abs() < 1e-6);
    }
}

#[test]
fn the_host_backend_in_double_precision() {
    let x = csr(&sparse_from_dense(&[&[1.0, 0.0, 2.0], &[0.0, 3.0, 0.0]], 2, 3));
    let mut backend = CpuBackend::new(&x);
    let v = doubles(&[1.0, 2.0, 3.0]);
    assert_eq!(backend.xeff_forward(&v, 2), doubles(&[7.0, 6.0]));
    assert_eq!(backend.xeff_transpose(&doubles(&[1.0, 2.0]), 3), doubles(&[1.0, 6.0, 2.0]));
    backend.set_mean(doubles(&[0.5, 1.5, 1.0]));
    assert_eq!(backend.xeff_forward(&v, 2), doubles(&[0.5, -0.5]));
    assert_eq!(
        backend.xeff_transpose(&doubles(&[1.0, 2.0]), 3),
        doubles(&[-0.5, 1.5, -1.0])
    );
    backend.push_deflation(doubles(&[1.0, -1.0]), doubles(&[0.0, 1.0, 0.0]));
    assert_eq!(backend.xeff_forward(&v, 2), doubles(&[-1.5, 1.5]));
    assert_eq!(
        backend.xeff_transpose(&doubles(&[1.0, 2.0]), 3),
        doubles(&[-0.5, 2.5, -1.0])
    );
    backend.truncate_deflation(0);
    let (w, t, tt) = backend.nipals_wt(&doubles(&[2.0, 0.0]), 2, 3);
    // X_eff^T u = (1, -3, 2)
    let length = 14.0_f64.sqrt();
    assert_eq!(w, doubles(&[1.0 / length, -3.0 / length, 2.0 / length]));
    assert_eq!(t, backend.xeff_forward(&w, 2));
    assert_eq!(tt, dot(&t, &t));
    assert!((t[0].0 - 7.0 / length).abs() < 1e-12 && (t[1].0 + 7.0 / length).abs() < 1e-12);
}
