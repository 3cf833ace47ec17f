//! The solver in exact arithmetic: identities hold on the nose.
use sparse_olps::backend::cpu::CpuBackend;
use sparse_olps::backend::OplsBackend;
use sparse_olps::matrix::{dot_mtv, dot_mv, product, Matrix};
use sparse_olps::model::OplsModel;
use sparse_olps::nipals::{pls_weight_multi, pls_weight_single, score_loading};
use sparse_olps::preprocess::{center_columns, preprocess_x};
use sparse_olps::residue::{Residue, GENERATOR, MODULUS};
use sparse_olps::scalar::Scalar;
use sparse_olps::solve::invert;
use sparse_olps::sparse::CsrMatrix;
use sparse_olps::vector::{dot, norm, total};

fn r(v: u64) -> Residue {
    Residue::new(v)
}

fn residues(v: &[u64]) -> Vec<Residue> {
    v.iter().map(|&x| r(x)).collect()
}

/// A generator of test data.
struct Noise(u64);

impl Noise {
    fn next(&mut self) -> u64 {
        self.0 = self.0.wrapping_mul(6364136223846793005).wrapping_add(1442695040888963407);
        (self.0 >> 33) % MODULUS
    }

    fn vector(&mut self, len: usize) -> Vec<Residue> {
        (0..len).map(|_| r(self.next())).collect()
    }

    fn matrix(&mut self, rows: usize, cols: usize) -> Matrix<Residue> {
        Matrix::from_rows(cols, (0..rows).map(|_| self.vector(cols)).collect()).unwrap()
    }

    /// A sparse matrix in which about every third element is missing.
    fn sparse(&mut self, rows: usize, cols: usize) -> CsrMatrix<Residue> {
        let mut indptr = vec![0];
        let mut indices = Vec::new();
        let mut data = Vec::new();
        for _ in 0..rows {
            for c in 0..cols {
                if self.next() % 3 != 0 {
                    indices.push(c);
                    data.push(r(self.next()));
                }
            }
            indptr.push(indices.len());
        }
        CsrMatrix::new(cols, indptr, indices, data).unwrap()
    }
}

fn same(a: &Matrix<Residue>, b: &Matrix<Residue>) -> bool {
    a.nrows() == b.nrows()
        && a.ncols() == b.ncols()
        && (0..a.nrows()).all(|i| a.row(i) == b.row(i))
}

fn identity(n: usize) -> Matrix<Residue> {
    let mut m = Matrix::zeros(n, n);
    for i in 0..n {
        m.set(i, i, r(1));
    }
    m
}

/// What is left of `x` after the component of `w`, and its score.
fn without(x: &Matrix<Residue>, w: &Vec<Residue>) -> (Matrix<Residue>, Vec<Residue>) {
    let t = dot_mv(x, w);
    let l = score_loading(x, &t);
    let mut left = x.copy();
    left.deflate(&t, &l);
    (left, t)
}

#[test]
fn residues_compute_modulo_the_prime() {
    assert_eq!(r(256).add(r(2)), r(1));
    assert_eq!(r(3).sub(r(5)), r(255));
    assert_eq!(r(100).mul(r(100)), r(10000 % 257));
    assert_eq!(r(1).div(r(2)), r(129));
    assert_eq!(r(7).div(r(0)), r(0));
    assert_eq!(r(256).neg(), r(1));
    assert_eq!(r(0).neg(), r(0));
    assert_eq!(r(0).abs(), r(0));
    assert_eq!(r(5).abs(), r(256));
    assert_eq!(r(4).sqrt(), r(2));
    assert_eq!(r(3).sqrt(), r(0));
    assert_eq!(r(GENERATOR * GENERATOR).ln(), r(2));
    assert_eq!(r(0).ln(), r(0));
    assert_eq!(Residue::from_u64(MODULUS + 3), r(3));
    assert_eq!(r(256).value(), 256);
    assert!(r(1).exceeds(Residue::zero()) && !Residue::zero().exceeds(Residue::zero()));
    for v in 1..MODULUS {
        assert_eq!(r(v).mul(Residue::one().div(r(v))), Residue::one());
    }
}

#[test]
fn sparse_matrices_reject_malformed_storage() {
    let new = |cols: usize, indptr: &[usize], indices: &[usize], len: usize| {
        CsrMatrix::new(cols, indptr.to_vec(), indices.to_vec(), vec![r(1); len])
    };
    assert!(new(2, &[0, 1, 2], &[1, 0], 2).is_some());
    assert!(new(2, &[0], &[], 0).is_some());
    assert!(new(2, &[], &[], 0).is_none());
    assert!(new(2, &[1, 2], &[0, 1], 2).is_none());
    assert!(new(2, &[0, 2, 1], &[0, 1], 2).is_none());
    assert!(new(2, &[0, 1], &[0, 1], 2).is_none());
    assert!(new(2, &[0, 1], &[2], 1).is_none());
    assert!(new(2, &[0, 2], &[1, 0], 2).is_none());
    assert!(new(2, &[0, 2], &[1, 1], 2).is_none());
    assert!(new(2, &[0, 1], &[1], 2).is_none());
    let x = new(3, &[0, 2, 2], &[0, 2], 2).unwrap();
    assert_eq!((x.rows(), x.cols(), x.nnz()), (2, 3, 2));
    assert_eq!(x.indptr(), &vec![0, 2, 2]);
    assert_eq!(x.indices(), &vec![0, 2]);
    assert_eq!(x.data(), &residues(&[1, 1]));
}

#[test]
fn dense_matrices_reject_ragged_rows() {
    assert!(Matrix::from_rows(2, vec![residues(&[1, 2]), residues(&[3])]).is_none());
    let m = Matrix::from_rows(2, vec![residues(&[1, 2]), residues(&[3, 4])]).unwrap();
    assert_eq!(m.column(1), residues(&[2, 4]));
    assert_eq!(m.transpose().row(0), &residues(&[1, 3]));
    assert!(same(&m.transpose().transpose(), &m));
    let empty: Matrix<Residue> = Matrix::from_rows(3, Vec::new()).unwrap();
    assert_eq!((empty.nrows(), empty.ncols()), (0, 3));
}

#[test]
fn centered_columns_sum_to_zero() {
    let mut noise = Noise(1);
    let mut m = noise.matrix(7, 3);
    center_columns(&mut m);
    for j in 0..3 {
        assert_eq!(total(&m.column(j)), r(0));
    }
}

#[test]
fn shares_of_a_row_sum_to_one() {
    let values = residues(&[3, 90, 200]);
    let sum = total(&values);
    let shares: Vec<Residue> = values.iter().map(|v| v.div(sum)).collect();
    assert_eq!(total(&shares), r(1));
}

#[test]
fn preprocessing_ignores_the_scale_of_a_row() {
    let build = |s: u64| {
        let data = residues(&[3 * s, 5 * s]);
        CsrMatrix::new(3, vec![0, 2], vec![0, 2], data).unwrap()
    };
    let (a, b) = (preprocess_x(&build(1), 1, 3), preprocess_x(&build(7), 1, 3));
    assert!(same(&a, &b));
    assert_eq!(a.get(0, 1), r(0));
    assert_eq!(a.get(0, 0), r(3).div(r(8)).add(r(1)).ln());
}

#[test]
fn a_product_of_a_matrix_and_its_inverse_is_the_identity() {
    let mut noise = Noise(2);
    let mut regular = 0;
    for _ in 0..20 {
        let m = noise.matrix(4, 4);
        if let Some(inverse) = invert(&m) {
            regular += 1;
            assert!(same(&product(&m, &inverse), &identity(4)));
            assert!(same(&product(&inverse, &m), &identity(4)));
        }
    }
    assert!(regular > 0);
    assert!(invert(&Matrix::<Residue>::zeros(2, 2)).is_none());
}

#[test]
fn a_matrix_moves_to_the_other_side_of_an_inner_product() {
    let mut noise = Noise(3);
    let m = noise.matrix(5, 3);
    let (u, v) = (noise.vector(5), noise.vector(3));
    assert_eq!(dot(&u, &dot_mv(&m, &v)), dot(&dot_mtv(&m, &u), &v));
}

/// Is no score of the two extractions orthogonal to itself?
fn nondegenerate(z: &Matrix<Residue>, y: &Vec<Residue>, k: usize, all: usize) -> bool {
    let w = pls_weight_single(z, y);
    let mut fine = dot(&w, &w) != r(0);
    let (mut x, mut rest) = (z.copy(), y.clone());
    for _ in 0..all {
        let (left, t) = without(&x, &pls_weight_single(&x, &rest));
        let tt = dot(&t, &t);
        fine = fine && tt != r(0);
        let c = dot(&rest, &t).div(tt);
        rest = rest.iter().zip(t.iter()).map(|(a, b)| a.sub(b.mul(c))).collect();
        x = left;
    }
    let mut x = z.copy();
    for a in 0..k + 1 {
        let t = dot_mv(&x, &w);
        fine = fine && dot(&t, &t) != r(0);
        if a < k {
            let l = score_loading(&x, &t);
            let s = dot(&w, &l).div(dot(&w, &w));
            let w_orth: Vec<Residue> =
                l.iter().zip(w.iter()).map(|(a, b)| a.sub(b.mul(s))).collect();
            let (left, t) = without(&x, &w_orth);
            fine = fine && dot(&t, &t) != r(0);
            x = left;
        }
    }
    fine
}

#[test]
fn orthogonal_components_keep_exact_predictions() {
    let mut noise = Noise(4);
    let mut compared = 0;
    for _ in 0..30 {
        let x = noise.sparse(7, 5);
        let y = noise.matrix(7, 1);
        let new = noise.sparse(3, 5);
        for (k, n) in [(1, 1), (2, 1), (3, 1), (1, 2), (2, 2), (1, 3)] {
            let (mut z, mut yc) = (preprocess_x(&x, 7, 5), y.copy());
            center_columns(&mut z);
            center_columns(&mut yc);
            let orthogonal = OplsModel::try_fit(&x, &y, n, k);
            let standard = OplsModel::try_fit(&x, &y, k + n, 0);
            if let (Some(a), Some(b)) = (orthogonal, standard) {
                if nondegenerate(&z, &yc.column(0), k, k + n) {
                    compared += 1;
                    assert!(same(&a.predict(&new), &b.predict(&new)));
                }
            }
        }
    }
    assert!(compared > 10);
}

#[test]
fn scores_of_a_fit_are_orthogonal() {
    let mut noise = Noise(5);
    let mut compared = 0;
    for _ in 0..20 {
        let x = noise.sparse(7, 5);
        let y = noise.matrix(7, 1);
        if let Some(model) = OplsModel::try_fit(&x, &y, 2, 2) {
            let mut yc = y.copy();
            center_columns(&mut yc);
            let t: Vec<Vec<Residue>> = (0..2).map(|a| model.scores_orth.column(a)).collect();
            if dot(&t[0], &t[0]) != r(0) && dot(&t[1], &t[1]) != r(0) {
                compared += 1;
                assert_eq!(dot(&t[0], &t[1]), r(0));
                assert_eq!(dot(&t[0], &yc.column(0)), r(0));
                assert_eq!(dot(&t[1], &yc.column(0)), r(0));
                let mut z = preprocess_x(&x, 7, 5);
                center_columns(&mut z);
                for a in 0..2 {
                    let p = model.loadings_orth.column(a);
                    z.deflate(&t[a], &p);
                }
                let pred = dot_mv(&z, &model.weights.column(0));
                assert_eq!(dot(&t[0], &pred), r(0));
                assert_eq!(dot(&t[1], &pred), r(0));
            }
        }
    }
    assert!(compared > 5);
}

#[test]
fn predictions_and_residuals_add_up_to_the_response() {
    let mut noise = Noise(6);
    let mut compared = 0;
    for _ in 0..20 {
        let x = noise.sparse(6, 4);
        let y = noise.matrix(6, 1);
        let model = match OplsModel::try_fit(&x, &y, 2, 0) {
            Some(model) => model,
            None => continue,
        };
        let (mut z, mut yc) = (preprocess_x(&x, 6, 4), y.copy());
        center_columns(&mut z);
        center_columns(&mut yc);
        let mut rest = yc.column(0);
        let mut fine = true;
        for _ in 0..2 {
            let (left, t) = without(&z, &pls_weight_single(&z, &rest));
            let tt = dot(&t, &t);
            fine = fine && tt != r(0);
            let c = dot(&rest, &t).div(tt);
            rest = rest.iter().zip(t.iter()).map(|(a, b)| a.sub(b.mul(c))).collect();
            z = left;
        }
        if fine {
            compared += 1;
            let y_hat = model.predict(&x);
            for i in 0..6 {
                assert_eq!(y_hat.get(i, 0).add(rest[i]), y.get(i, 0));
            }
        }
    }
    assert!(compared > 5);
}

#[test]
fn rows_are_predicted_one_by_one() {
    let mut noise = Noise(7);
    let (x, y) = (noise.sparse(6, 4), noise.matrix(6, 2));
    let model = OplsModel::try_fit(&x, &y, 0, 2).unwrap();
    let y_hat = model.predict(&x);
    for i in 0..6 {
        let (start, end) = (x.indptr()[i], x.indptr()[i + 1]);
        let row = CsrMatrix::new(
            4,
            vec![0, end - start],
            x.indices()[start..end].to_vec(),
            x.data()[start..end].to_vec(),
        )
        .unwrap();
        assert_eq!(model.predict(&row).row(0), y_hat.row(i));
    }
}

#[test]
fn a_backend_multiplies_by_the_explicit_matrix() {
    let mut noise = Noise(8);
    let x = noise.sparse(5, 4);
    let mut m: Matrix<Residue> = Matrix::zeros(5, 4);
    for i in 0..5 {
        for k in x.indptr()[i]..x.indptr()[i + 1] {
            m.set(i, x.indices()[k], x.data()[k]);
        }
    }
    let mut backend = CpuBackend::new(&x);
    let (u, v, mu) = (noise.vector(5), noise.vector(4), noise.vector(4));
    assert_eq!(backend.xeff_forward(&v, 5), dot_mv(&m, &v));
    assert_eq!(backend.xeff_transpose(&u, 4), dot_mtv(&m, &u));
    backend.set_mean(mu.clone());
    m.subtract_from_rows(&mu);
    for count in 0..3 {
        assert_eq!(backend.num_deflation(), count);
        assert_eq!(backend.xeff_forward(&v, 5), dot_mv(&m, &v));
        assert_eq!(backend.xeff_transpose(&u, 4), dot_mtv(&m, &u));
        let (w, t, tt) = backend.nipals_wt(&u, 5, 4);
        assert_eq!(w, pls_weight_single(&m, &u));
        assert_eq!(t, dot_mv(&m, &w));
        assert_eq!(tt, dot(&t, &t));
        assert_eq!(dot(&u, &backend.xeff_forward(&v, 5)), dot(&backend.xeff_transpose(&u, 4), &v));
        let (score, loading) = (noise.vector(5), noise.vector(4));
        m.deflate(&score, &loading);
        backend.push_deflation(score, loading);
    }
    let before = backend.xeff_forward(&v, 5);
    backend.push_deflation(noise.vector(5), noise.vector(4));
    backend.truncate_deflation(3);
    assert_eq!(backend.xeff_forward(&v, 5), before);
    backend.truncate_deflation(10);
    assert_eq!(backend.num_deflation(), 3);
}

fn multiple(u: &Vec<Residue>, v: &Vec<Residue>) -> bool {
    (0..MODULUS).any(|s| u.iter().zip(v.iter()).all(|(a, b)| *a == r(s).mul(*b)))
}

#[test]
fn a_single_response_needs_no_iteration() {
    let mut noise = Noise(9);
    let mut compared = 0;
    for _ in 0..20 {
        let (x, y) = (noise.matrix(6, 4), noise.matrix(6, 1));
        let w = pls_weight_single(&x, &y.column(0));
        let t = dot_mv(&x, &w);
        if dot(&w, &w) != r(0) && dot(&t, &t) != r(0) {
            compared += 1;
            let (v, _) = pls_weight_multi(&x, &y, 3, r(0));
            assert!(multiple(&v, &w) && multiple(&w, &v));
        }
    }
    assert!(compared > 5);
}

/// The vector of a multiple.
fn scaled(s: Residue, v: &Vec<Residue>) -> Vec<Residue> {
    v.iter().map(|x| s.mul(*x)).collect()
}

#[test]
fn the_iteration_gives_the_weight_vector_of_a_single_response() {
    let mut noise = Noise(11);
    let mut compared = 0;
    for _ in 0..60 {
        let (x, y) = (noise.matrix(6, 4), noise.matrix(6, 1));
        let response = y.column(0);
        let g = dot_mtv(&x, &response);
        let w = pls_weight_single(&x, &response);
        let t = dot_mv(&x, &w);
        let c = dot(&response, &t).div(dot(&t, &t));
        let s = r(1).div(c);
        let fine = dot(&t, &t) != r(0)
            && c != r(0)
            && norm(&g) != r(0)
            && norm(&scaled(s, &g)) == s.mul(norm(&g));
        if fine {
            compared += 1;
            for rounds in 0..4 {
                let (v, loading) = pls_weight_multi(&x, &y, rounds, r(0));
                assert_eq!(v, w);
                assert_eq!(loading, vec![c]);
            }
        }
    }
    assert!(compared > 5);
}

/// The scores and weight vectors of the predictive components of `z` and a response.
fn predictive(
    z: &Matrix<Residue>,
    y: &Vec<Residue>,
    k: usize,
) -> Vec<(Vec<Residue>, Vec<Residue>, Residue)> {
    let (mut x, mut rest) = (z.copy(), y.clone());
    let mut components = Vec::new();
    for _ in 0..k {
        let w = pls_weight_single(&x, &rest);
        let (left, t) = without(&x, &w);
        let c = dot(&rest, &t).div(dot(&t, &t));
        rest = rest.iter().zip(t.iter()).map(|(a, b)| a.sub(b.mul(c))).collect();
        x = left;
        components.push((w, t, c));
    }
    components
}

#[test]
fn a_further_component_explains_its_share() {
    let mut noise = Noise(12);
    let mut compared = 0;
    for _ in 0..20 {
        let (x, y) = (noise.sparse(7, 5), noise.matrix(7, 1));
        let (mut z, mut yc) = (preprocess_x(&x, 7, 5), y.copy());
        center_columns(&mut z);
        let means = center_columns(&mut yc);
        let components = predictive(&z, &yc.column(0), 3);
        if components.iter().any(|(_, t, _)| dot(t, t) == r(0)) {
            continue;
        }
        compared += 1;
        let squares: Vec<Residue> = (0..4)
            .map(|k| {
                // A fit without degenerate scores has a solution.
                let y_hat = OplsModel::try_fit(&x, &y, k, 0).unwrap().predict(&x);
                let mut copy = y_hat.copy();
                assert_eq!(center_columns(&mut copy), means);
                let rest: Vec<Residue> =
                    (0..7).map(|i| y.get(i, 0).sub(y_hat.get(i, 0))).collect();
                dot(&rest, &rest)
            })
            .collect();
        for k in 0..3 {
            let (_, t, c) = &components[k];
            assert_eq!(squares[k], squares[k + 1].add(dot(t, t).mul(c.mul(*c))));
        }
    }
    assert!(compared > 5);
}

#[test]
fn weights_of_a_fit_are_orthogonal_and_meet_their_loadings() {
    let mut noise = Noise(13);
    let mut compared = 0;
    for _ in 0..30 {
        let (x, y) = (noise.sparse(8, 6), noise.matrix(8, 1));
        let (mut z, mut yc) = (preprocess_x(&x, 8, 6), y.copy());
        center_columns(&mut z);
        center_columns(&mut yc);
        if !nondegenerate(&z, &yc.column(0), 2, 4) {
            continue;
        }
        let model = OplsModel::try_fit(&x, &y, 2, 2).unwrap();
        compared += 1;
        let w: Vec<Vec<Residue>> = (0..2)
            .map(|a| model.weights.column(a))
            .chain((0..2).map(|a| model.weights_orth.column(a)))
            .collect();
        for a in 0..4 {
            for b in 0..a {
                assert_eq!(dot(&w[a], &w[b]), r(0));
            }
        }
        for (p, w) in [
            (&model.loadings_x, &model.weights),
            (&model.loadings_orth, &model.weights_orth),
        ] {
            let m = product(&p.transpose(), w);
            assert_eq!((m.get(0, 0), m.get(1, 0), m.get(1, 1)), (r(1), r(0), r(1)));
        }
    }
    assert!(compared > 5);
}

#[test]
fn the_iteration_rests_at_a_singular_vector() {
    // Both responses are multiples of one vector, so one round suffices.
    let mut noise = Noise(14);
    let x = noise.matrix(5, 4);
    let base = noise.vector(5);
    let rows = base.iter().map(|v| vec![*v, r(7).mul(*v)]).collect();
    let y = Matrix::from_rows(2, rows).unwrap();
    let (w, _) = pls_weight_multi(&x, &y, 5, r(0));
    let t = dot_mv(&x, &w);
    let image = dot_mtv(&x, &dot_mv(&y, &dot_mtv(&y, &t)));
    assert!(multiple(&image, &w));
}

#[test]
fn fits_and_predictions_are_refused_where_shapes_differ() {
    let mut noise = Noise(10);
    let (x, y) = (noise.sparse(4, 3), noise.matrix(4, 1));
    assert!(OplsModel::can_fit(&x, &y, 1, 1));
    assert!(OplsModel::can_fit(&x, &noise.matrix(5, 1), 1, 1));
    assert!(!OplsModel::can_fit(&x, &noise.matrix(3, 1), 1, 1));
    assert!(!OplsModel::can_fit(&x, &Matrix::zeros(0, 1), 1, 1));
    assert!(!OplsModel::can_fit(&x, &Matrix::zeros(4, 0), 1, 0));
    assert!(!OplsModel::can_fit(&x, &Matrix::zeros(4, 0), 0, 1));
    assert!(OplsModel::can_fit(&x, &Matrix::zeros(4, 0), 0, 0));
    assert!(!OplsModel::can_fit(&x, &y, usize::MAX, 0));
    let empty = CsrMatrix::new(3, vec![0, 0, 0, 0, 0, 0], Vec::new(), Vec::new()).unwrap();
    assert!(OplsModel::can_fit(&empty, &noise.matrix(2, 1), 1, 1));
    let model = OplsModel::try_fit(&x, &y, 0, 1).unwrap();
    assert!(model.can_predict(4, 3) && !model.can_predict(4, 4) && !model.can_predict(4, 2));
}

#[test]
fn prediction_reads_no_more_of_the_loadings_than_it_needs() {
    let mut noise = Noise(15);
    let (x, y) = (noise.sparse(6, 4), noise.matrix(6, 1));
    let model = OplsModel::try_fit(&x, &y, 0, 2).unwrap();
    let expected = model.predict(&x);
    let mut columns: Vec<Vec<Residue>> = (0..2)
        .map(|a| {
            let mut column = model.loadings_orth.column(a);
            column.push(r(99));
            column
        })
        .collect();
    columns.push(noise.vector(5));
    let mut larger = model;
    larger.loadings_orth = Matrix::from_columns(5, &columns);
    assert!(larger.can_predict(6, 4));
    assert!(same(&larger.predict(&x), &expected));
    larger.loadings_orth = Matrix::from_columns(4, &vec![noise.vector(4)]);
    assert!(!larger.can_predict(6, 4));
    larger.loadings_orth = Matrix::from_columns(3, &(0..2).map(|_| noise.vector(3)).collect());
    assert!(!larger.can_predict(6, 4) && larger.can_predict(0, 4));
    let nothing = CsrMatrix::new(4, vec![0], Vec::new(), Vec::new()).unwrap();
    let none = larger.predict(&nothing);
    assert_eq!((none.nrows(), none.ncols()), (0, 1));
    larger.weights_orth = Matrix::zeros(7, 0);
    assert!(larger.can_predict(6, 4));
}

#[test]
fn a_backend_knows_which_products_it_can_give() {
    let x = CsrMatrix::new(4, vec![0, 1, 2], vec![0, 2], residues(&[5, 7])).unwrap();
    let mut backend = CpuBackend::new(&x);
    assert!(backend.is_forward_ready(4, 2) && backend.is_forward_ready(3, 2));
    assert!(!backend.is_forward_ready(2, 2) && backend.is_forward_ready(2, 1));
    assert!(!backend.is_forward_ready(4, 3));
    assert!(backend.is_transpose_ready(2, 3) && backend.is_transpose_ready(5, 3));
    assert!(!backend.is_transpose_ready(1, 3) && !backend.is_transpose_ready(2, 2));
    assert_eq!(backend.xeff_forward(&residues(&[2, 3]), 1), residues(&[10]));
    backend.set_mean(residues(&[1, 1, 1]));
    assert!(backend.is_forward_ready(3, 2) && !backend.is_forward_ready(4, 2));
    assert!(backend.is_transpose_ready(2, 3) && !backend.is_transpose_ready(2, 4));
    backend.push_deflation(residues(&[1, 2]), residues(&[1, 2, 3]));
    assert!(backend.is_forward_ready(3, 2) && !backend.is_forward_ready(3, 1));
    assert!(backend.is_transpose_ready(2, 3) && !backend.is_transpose_ready(3, 3));
}
