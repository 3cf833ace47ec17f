//! Fitting and prediction by orthogonal projections to latent structures.
use crate::matrix::{
    deflated, dot_mv, product, rows_minus, rows_plus, spec_column, spec_dot_mv, spec_product,
    transposed, vectors, Matrix,
};
use crate::nipals::{
    loading, nipals, pls_weight_multi, pls_weight_single, score_loading, x_weight,
};
use crate::preprocess::{center_columns, column_means, fits, preprocess_x, preprocessed};
use crate::scalar::{reciprocal, spec_reciprocal, Scalar};
use crate::solve::{
    loadings_by_weights, nonsingular, spec_coefficients, try_solve_coefficients,
};
use crate::sparse::{columns_below, lemma_rows_wf, row_wf, CsrMatrix};
use crate::vector::{dot, minus_multiple, normalize, normalized, spec_dot, subtract_multiple};
use vstd::prelude::*;

verus! {

/// The greatest number of rounds of the NIPALS iteration.
pub const MAX_ITER: usize = 500;

/// The NIPALS iteration ends where a score moves by less than the reciprocal of this number.
pub const TOLERANCE_SCALE: u64 = 10_000_000_000;

/// Weight vector and Y-loading of one component, for `x` with `p` and `y` with `m` columns.
pub open spec fn spec_component<S: Scalar>(
    x: Seq<Seq<S>>,
    y: Seq<Seq<S>>,
    p: nat,
    m: nat,
) -> (Seq<S>, Seq<S>) {
    if m == 1 {
        let response = spec_column(y, 0);
        let w = x_weight(x, response, p);
        let t = spec_dot_mv(x, w);
        (w, seq![spec_dot(response, t).spec_div(spec_dot(t, t))])
    } else {
        nipals(x, y, p, m, MAX_ITER as nat, spec_reciprocal::<S>(TOLERANCE_SCALE))
    }
}

/// The part of the loading `l` that is orthogonal to the weight vector `w`.
pub open spec fn orthogonal_part<S: Scalar>(l: Seq<S>, w: Seq<S>) -> Seq<S> {
    minus_multiple(l, w, spec_dot(w, l).spec_div(spec_dot(w, w)))
}

/// What the extraction of orthogonal components has reached: `x` is what is left of the
/// data, and weights, loadings and scores hold one vector per component.
#[verifier::ext_equal]
pub struct OrthState<S> {
    pub x: Seq<Seq<S>>,
    pub weights: Seq<Seq<S>>,
    pub loadings: Seq<Seq<S>>,
    pub scores: Seq<Seq<S>>,
}

/// Removes one orthogonal component.
pub open spec fn orth_step<S: Scalar>(s: OrthState<S>, w: Seq<S>, p: nat) -> OrthState<S> {
    let w_orth = normalized(orthogonal_part(loading(s.x, spec_dot_mv(s.x, w), p), w));
    let t_orth = spec_dot_mv(s.x, w_orth);
    let p_orth = loading(s.x, t_orth, p);
    OrthState {
        x: deflated(s.x, t_orth, p_orth),
        weights: s.weights.push(w_orth),
        loadings: s.loadings.push(p_orth),
        scores: s.scores.push(t_orth),
    }
}

/// Removes `k` orthogonal components from `x`, for the predictive weight vector `w`.
pub open spec fn orth_state<S: Scalar>(x: Seq<Seq<S>>, w: Seq<S>, p: nat, k: nat) -> OrthState<S>
    decreases k,
{
    if k == 0 {
        OrthState { x, weights: Seq::empty(), loadings: Seq::empty(), scores: Seq::empty() }
    } else {
        orth_step(orth_state(x, w, p, (k - 1) as nat), w, p)
    }
}

/// What the extraction of predictive components has reached: `x` and `y` are what is left
/// of the data, and weights, loadings and scores hold one vector per component.
#[verifier::ext_equal]
pub struct PredState<S> {
    pub x: Seq<Seq<S>>,
    pub y: Seq<Seq<S>>,
    pub weights: Seq<Seq<S>>,
    pub loadings_x: Seq<Seq<S>>,
    pub loadings_y: Seq<Seq<S>>,
    pub scores: Seq<Seq<S>>,
}

/// Extracts one predictive component.
pub open spec fn pred_step<S: Scalar>(s: PredState<S>, p: nat, m: nat) -> PredState<S> {
    let (w, c) = spec_component(s.x, s.y, p, m);
    let t = spec_dot_mv(s.x, w);
    let l = loading(s.x, t, p);
    PredState {
        x: deflated(s.x, t, l),
        y: deflated(s.y, t, c),
        weights: s.weights.push(w),
        loadings_x: s.loadings_x.push(l),
        loadings_y: s.loadings_y.push(c),
        scores: s.scores.push(t),
    }
}

/// Extracts `k` predictive components from `x` and `y`.
pub open spec fn pred_state<S: Scalar>(
    x: Seq<Seq<S>>,
    y: Seq<Seq<S>>,
    p: nat,
    m: nat,
    k: nat,
) -> PredState<S>
    decreases k,
{
    if k == 0 {
        PredState {
            x,
            y,
            weights: Seq::empty(),
            loadings_x: Seq::empty(),
            loadings_y: Seq::empty(),
            scores: Seq::empty(),
        }
    } else {
        pred_step(pred_state(x, y, p, m, (k - 1) as nat), p, m)
    }
}

/// The columns of `m` shifted to mean zero.
pub open spec fn centered<S: Scalar>(m: Seq<Seq<S>>, cols: nat) -> Seq<Seq<S>> {
    rows_minus(m, column_means(m, cols))
}

/// The extraction of `n_orth` orthogonal components from the centered data.
pub open spec fn orth_fit<S: Scalar>(
    z: Seq<Seq<S>>,
    y: Seq<Seq<S>>,
    p: nat,
    m: nat,
    n_orth: nat,
) -> OrthState<S> {
    let xc = centered(z, p);
    orth_state(xc, spec_component(xc, centered(y, m), p, m).0, p, n_orth)
}

/// The extraction of `n_pred` predictive components from the filtered data.
pub open spec fn pred_fit<S: Scalar>(
    z: Seq<Seq<S>>,
    y: Seq<Seq<S>>,
    p: nat,
    m: nat,
    n_pred: nat,
    n_orth: nat,
) -> PredState<S> {
    pred_state(orth_fit(z, y, p, m, n_orth).x, centered(y, m), p, m, n_pred)
}

/// The parts of a model.
#[verifier::ext_equal]
pub struct ModelView<S> {
    pub x_mean: Seq<S>,
    pub y_mean: Seq<S>,
    pub weights: Seq<Seq<S>>,
    pub loadings_x: Seq<Seq<S>>,
    pub loadings_y: Seq<Seq<S>>,
    pub weights_orth: Seq<Seq<S>>,
    pub loadings_orth: Seq<Seq<S>>,
    pub scores_orth: Seq<Seq<S>>,
    pub coefficients: Seq<Seq<S>>,
}

/// The model of the preprocessed data `z` (with `p` columns) and the responses `y` (with
/// `m` columns).
pub open spec fn fitted<S: Scalar>(
    z: Seq<Seq<S>>,
    y: Seq<Seq<S>>,
    p: nat,
    m: nat,
    n_pred: nat,
    n_orth: nat,
) -> ModelView<S> {
    let orth = orth_fit(z, y, p, m, n_orth);
    let pred = pred_fit(z, y, p, m, n_pred, n_orth);
    let weights = transposed(pred.weights, p);
    let loadings_x = transposed(pred.loadings_x, p);
    let loadings_y = transposed(pred.loadings_y, m);
    ModelView {
        x_mean: column_means(z, p),
        y_mean: column_means(y, m),
        weights,
        loadings_x,
        loadings_y,
        weights_orth: transposed(orth.weights, p),
        loadings_orth: transposed(orth.loadings, p),
        scores_orth: transposed(orth.scores, z.len()),
        coefficients: spec_coefficients(weights, loadings_x, loadings_y, n_pred),
    }
}

/// The regression of the model has a solution.
pub open spec fn solvable<S: Scalar>(
    z: Seq<Seq<S>>,
    y: Seq<Seq<S>>,
    p: nat,
    m: nat,
    n_pred: nat,
    n_orth: nat,
) -> bool {
    let pred = pred_fit(z, y, p, m, n_pred, n_orth);
    nonsingular(
        loadings_by_weights(
            transposed(pred.loadings_x, p),
            transposed(pred.weights, p),
            n_pred,
        ),
    )
}

/// `z` with the first `k` orthogonal components of a model removed.
pub open spec fn filtered<S: Scalar>(
    z: Seq<Seq<S>>,
    weights_orth: Seq<Seq<S>>,
    loadings_orth: Seq<Seq<S>>,
    k: nat,
) -> Seq<Seq<S>>
    decreases k,
{
    if k == 0 {
        z
    } else {
        let before = filtered(z, weights_orth, loadings_orth, (k - 1) as nat);
        deflated(
            before,
            spec_dot_mv(before, spec_column(weights_orth, k - 1)),
            spec_column(loadings_orth, k - 1),
        )
    }
}

/// The prediction of a model with `m` responses and `n_orth` orthogonal components, for
/// preprocessed data `z`.
pub open spec fn predicted<S: Scalar>(
    model: ModelView<S>,
    n_orth: nat,
    m: nat,
    z: Seq<Seq<S>>,
) -> Seq<Seq<S>> {
    rows_plus(
        spec_product(
            filtered(
                rows_minus(z, model.x_mean),
                model.weights_orth,
                model.loadings_orth,
                n_orth,
            ),
            model.coefficients,
            m,
        ),
        model.y_mean,
    )
}

/// A fitted model: all that prediction needs.
pub struct OplsModel<S> {
    /// Column means of X after row normalization and pseudolog (p)
    pub x_mean: Vec<S>,
    /// Column means of Y (m)
    pub y_mean: Vec<S>,
    /// Predictive weight vectors (p x A_pred)
    pub weights: Matrix<S>,
    /// Predictive X-loadings (p x A_pred)
    pub loadings_x: Matrix<S>,
    /// Y-loadings (m x A_pred)
    pub loadings_y: Matrix<S>,
    /// Orthogonal weight vectors (p x A_orth)
    pub weights_orth: Matrix<S>,
    /// Orthogonal X-loadings (p x A_orth)
    pub loadings_orth: Matrix<S>,
    /// Orthogonal scores of the training data (n x A_orth)
    pub scores_orth: Matrix<S>,
    /// Regression coefficients (p x m)
    pub coefficients: Matrix<S>,
}

/// A fitted model, by its short name.
pub type Opls<S> = OplsModel<S>;

impl<S> View for OplsModel<S> {
    type V = ModelView<S>;

    open spec fn view(&self) -> ModelView<S> {
        ModelView {
            x_mean: self.x_mean@,
            y_mean: self.y_mean@,
            weights: self.weights@,
            loadings_x: self.loadings_x@,
            loadings_y: self.loadings_y@,
            weights_orth: self.weights_orth@,
            loadings_orth: self.loadings_orth@,
            scores_orth: self.scores_orth@,
            coefficients: self.coefficients@,
        }
    }
}

impl<S> OplsModel<S> {
    /// The parts that prediction reads fit together, for data with `n` rows and `p` columns.
    /// Orthogonal loadings may have more rows and columns than are read; nothing is read of
    /// them, nor of the means, where there is nothing to predict.
    pub open spec fn predicts(&self, n: nat, p: nat) -> bool {
        &&& self.weights_orth.wf()
        &&& self.loadings_orth.wf()
        &&& self.coefficients.wf()
        &&& self.coefficients@.len() == p
        &&& self.weights_orth.width() > 0 ==> self.weights_orth@.len() == p
            && self.weights_orth.width() <= self.loadings_orth.width()
        &&& n > 0 ==> self.x_mean@.len() == p && self.y_mean@.len() == self.coefficients.width()
        &&& n > 0 && self.weights_orth.width() > 0 ==> p <= self.loadings_orth@.len()
    }

    /// All parts fit together, for data with `p` columns.
    pub open spec fn wf(&self, p: nat) -> bool {
        &&& self.x_mean@.len() == p
        &&& self.weights_orth.wf()
        &&& self.weights_orth@.len() == p
        &&& self.loadings_orth.wf()
        &&& self.loadings_orth@.len() == p
        &&& self.loadings_orth.width() == self.weights_orth.width()
        &&& self.coefficients.wf()
        &&& self.coefficients@.len() == p
        &&& self.coefficients.width() == self.y_mean@.len()
        &&& self.weights.wf()
        &&& self.weights@.len() == p
        &&& self.loadings_x.wf()
        &&& self.loadings_x@.len() == p
        &&& self.loadings_x.width() == self.weights.width()
        &&& self.loadings_y.wf()
        &&& self.loadings_y@.len() == self.y_mean@.len()
        &&& self.loadings_y.width() == self.weights.width()
        &&& self.scores_orth.wf()
        &&& self.scores_orth.width() == self.weights_orth.width()
    }
}

/// What a fit asks of the data and of the numbers of components.
pub open spec fn fit_inputs<S>(
    x: &CsrMatrix<S>,
    y: &Matrix<S>,
    n_predictive: usize,
    n_orthogonal: usize,
) -> bool {
    &&& x.wf()
    &&& y.wf()
    &&& y@.len() > 0
    &&& fits(x@, y@.len(), x.width())
    &&& n_predictive > 0 || n_orthogonal > 0 ==> y.width() > 0
    &&& 2 * n_predictive <= usize::MAX
}

/// Weight vector and Y-loading of one component.
fn component<S: Scalar>(x: &Matrix<S>, y: &Matrix<S>) -> (r: (Vec<S>, Vec<S>))
    requires
        x.wf(),
        y.wf(),
        x@.len() == y@.len(),
        y.width() > 0,
    ensures
        (r.0@, r.1@) == spec_component(x@, y@, x.width(), y.width()),
        r.0@.len() == x.width(),
        r.1@.len() == y.width(),
{
    if y.ncols() == 1 {
        let response: Vec<S> = y.column(0);
        let w: Vec<S> = pls_weight_single(x, &response);
        let t: Vec<S> = dot_mv(x, &w);
        let mut c: Vec<S> = Vec::new();
        c.push(dot(&response, &t).div(dot(&t, &t)));
        assert(c@ =~= spec_component(x@, y@, x.width(), y.width()).1);
        (w, c)
    } else {
        pls_weight_multi(x, y, MAX_ITER, reciprocal(TOLERANCE_SCALE))
    }
}

/// The vectors all have `len` elements.
spec fn all_of_length<S>(v: Seq<Vec<S>>, len: nat) -> bool {
    forall|a: int| 0 <= a < v.len() ==> (#[trigger] v[a])@.len() == len
}

/// Weights, loadings and scores of the orthogonal components.
struct OrthComponents<S> {
    weights: Vec<Vec<S>>,
    loadings: Vec<Vec<S>>,
    scores: Vec<Vec<S>>,
}

/// Removes `count` orthogonal components from `xd`, for the predictive weight vector `w`.
fn extract_orthogonal<S: Scalar>(xd: &mut Matrix<S>, w: &Vec<S>, count: usize) -> (r:
    OrthComponents<S>)
    requires
        old(xd).wf(),
        w@.len() == old(xd).width(),
    ensures
        final(xd).wf(),
        final(xd).width() == old(xd).width(),
        final(xd)@.len() == old(xd)@.len(),
        orth_state(old(xd)@, w@, old(xd).width(), count as nat) == (OrthState {
            x: final(xd)@,
            weights: vectors(r.weights@),
            loadings: vectors(r.loadings@),
            scores: vectors(r.scores@),
        }),
        all_of_length(r.weights@, old(xd).width()),
        all_of_length(r.loadings@, old(xd).width()),
        all_of_length(r.scores@, old(xd)@.len()),
        r.weights@.len() == count,
        r.loadings@.len() == count,
        r.scores@.len() == count,
{
    let ghost start = xd@;
    let ghost p = xd.width();
    let mut weights: Vec<Vec<S>> = Vec::new();
    let mut loadings: Vec<Vec<S>> = Vec::new();
    let mut scores: Vec<Vec<S>> = Vec::new();
    assert(vectors(weights@) =~= Seq::empty());
    let mut a: usize = 0;
    while a < count
        invariant
            a <= count,
            xd.wf(),
            xd.width() == p,
            xd@.len() == start.len(),
            w@.len() == p,
            orth_state(start, w@, p, a as nat) == (OrthState {
                x: xd@,
                weights: vectors(weights@),
                loadings: vectors(loadings@),
                scores: vectors(scores@),
            }),
            all_of_length(weights@, p),
            all_of_length(loadings@, p),
            all_of_length(scores@, start.len()),
            weights@.len() == a,
            loadings@.len() == a,
            scores@.len() == a,
        decreases count - a,
    {
        let ghost before = OrthState {
            x: xd@,
            weights: vectors(weights@),
            loadings: vectors(loadings@),
            scores: vectors(scores@),
        };
        let t: Vec<S> = dot_mv(xd, w);
        let p_loading: Vec<S> = score_loading(xd, &t);
        let mut w_orth: Vec<S> = subtract_multiple(
            &p_loading,
            w,
            dot(w, &p_loading).div(dot(w, w)),
        );
        normalize(&mut w_orth);
        let t_orth: Vec<S> = dot_mv(xd, &w_orth);
        let p_orth: Vec<S> = score_loading(xd, &t_orth);
        xd.deflate(&t_orth, &p_orth);
        let ghost after = orth_step(before, w@, p);
        assert(after.x == xd@);
        assert(vectors(weights@.push(w_orth)) =~= after.weights);
        assert(vectors(loadings@.push(p_orth)) =~= after.loadings);
        assert(vectors(scores@.push(t_orth)) =~= after.scores);
        weights.push(w_orth);
        loadings.push(p_orth);
        scores.push(t_orth);
        a += 1;
    }
    OrthComponents { weights, loadings, scores }
}

/// Weights and loadings of the predictive components.
struct PredComponents<S> {
    weights: Vec<Vec<S>>,
    loadings_x: Vec<Vec<S>>,
    loadings_y: Vec<Vec<S>>,
}

/// Extracts `count` predictive components from `xd` and `yd`.
fn extract_predictive<S: Scalar>(xd: &mut Matrix<S>, yd: &mut Matrix<S>, count: usize) -> (r:
    PredComponents<S>)
    requires
        old(xd).wf(),
        old(yd).wf(),
        old(xd)@.len() == old(yd)@.len(),
        count > 0 ==> old(yd).width() > 0,
    ensures
        ({
            let s = pred_state(
                old(xd)@,
                old(yd)@,
                old(xd).width(),
                old(yd).width(),
                count as nat,
            );
            &&& final(xd)@ == s.x
            &&& final(yd)@ == s.y
            &&& vectors(r.weights@) == s.weights
            &&& vectors(r.loadings_x@) == s.loadings_x
            &&& vectors(r.loadings_y@) == s.loadings_y
        }),
        all_of_length(r.weights@, old(xd).width()),
        all_of_length(r.loadings_x@, old(xd).width()),
        all_of_length(r.loadings_y@, old(yd).width()),
        r.weights@.len() == count,
        r.loadings_x@.len() == count,
        r.loadings_y@.len() == count,
{
    let ghost x0 = xd@;
    let ghost y0 = yd@;
    let ghost p = xd.width();
    let ghost m = yd.width();
    let mut weights: Vec<Vec<S>> = Vec::new();
    let mut loadings_x: Vec<Vec<S>> = Vec::new();
    let mut loadings_y: Vec<Vec<S>> = Vec::new();
    assert(vectors(weights@) =~= Seq::empty());
    let mut a: usize = 0;
    while a < count
        invariant
            a <= count,
            xd.wf(),
            yd.wf(),
            xd.width() == p,
            yd.width() == m,
            count > 0 ==> m > 0,
            xd@.len() == x0.len(),
            yd@.len() == x0.len(),
            ({
                let s = pred_state(x0, y0, p, m, a as nat);
                &&& xd@ == s.x
                &&& yd@ == s.y
                &&& vectors(weights@) == s.weights
                &&& vectors(loadings_x@) == s.loadings_x
                &&& vectors(loadings_y@) == s.loadings_y
            }),
            all_of_length(weights@, p),
            all_of_length(loadings_x@, p),
            all_of_length(loadings_y@, m),
            weights@.len() == a,
            loadings_x@.len() == a,
            loadings_y@.len() == a,
        decreases count - a,
    {
        let ghost before = pred_state(x0, y0, p, m, a as nat);
        let (w, c) = component(xd, yd);
        let t: Vec<S> = dot_mv(xd, &w);
        let p_loading: Vec<S> = score_loading(xd, &t);
        xd.deflate(&t, &p_loading);
        yd.deflate(&t, &c);
        let ghost after = pred_step(before, p, m);
        assert(after.x == xd@ && after.y == yd@);
        assert(vectors(weights@.push(w)) =~= after.weights);
        assert(vectors(loadings_x@.push(p_loading)) =~= after.loadings_x);
        assert(vectors(loadings_y@.push(c)) =~= after.loadings_y);
        weights.push(w);
        loadings_x.push(p_loading);
        loadings_y.push(c);
        a += 1;
    }
    PredComponents { weights, loadings_x, loadings_y }
}

impl<S: Scalar> OplsModel<S> {
    /// Can a model be asked for?  Every response needs a row, every stored count a response,
    /// and components need a response variable.
    pub fn can_fit(
        x: &CsrMatrix<S>,
        y: &Matrix<S>,
        n_predictive: usize,
        n_orthogonal: usize,
    ) -> (r: bool)
        requires
            x.wf(),
            y.wf(),
        ensures
            r == fit_inputs(x, y, n_predictive, n_orthogonal),
    {
        let n: usize = y.nrows();
        let rows: usize = x.rows();
        let split: usize = if n < rows {
            n
        } else {
            rows
        };
        let below: bool = x.has_columns_below(split, rows, 0);
        proof {
            lemma_rows_wf(x);
            assert(columns_below(x@, 0, rows as int, x.width())) by {
                assert forall|r: int, k: int|
                    0 <= r < rows && 0 <= k < x@[r].len() implies (#[trigger] x@[r][k]).0
                    < x.width() by {
                    assert(row_wf(x@[r], x.width()));
                }
            }
            if below {
                assert forall|r: int| n <= r < rows implies (#[trigger] x@[r]).len() == 0 by {
                    if x@[r].len() > 0 {
                        assert(x@[r][0].0 < 0);
                    }
                }
            }
        }
        n > 0 && below && (n_predictive == 0 && n_orthogonal == 0 || y.ncols() > 0)
            && n_predictive <= usize::MAX / 2
    }

    /// Do the parts that prediction reads fit together, for data with `n` rows and `p`
    /// columns?
    pub fn can_predict(&self, n: usize, p: usize) -> (r: bool)
        requires
            self.weights_orth.wf(),
            self.loadings_orth.wf(),
            self.coefficients.wf(),
        ensures
            r == self.predicts(n as nat, p as nat),
    {
        let n_orth: usize = self.weights_orth.ncols();
        let orth: bool = n_orth == 0 || (self.weights_orth.nrows() == p && n_orth
            <= self.loadings_orth.ncols() && (n == 0 || p <= self.loadings_orth.nrows()));
        let means: bool = n == 0 || (self.x_mean.len() == p && self.y_mean.len()
            == self.coefficients.ncols());
        self.coefficients.nrows() == p && orth && means
    }

    /// Fits a model; `None` where the regression has no solution.
    ///
    /// - `x`: sparse matrix (n x p) of raw counts
    /// - `y`: dense matrix (n x m) of responses
    /// - `n_predictive`: number of predictive components
    /// - `n_orthogonal`: number of orthogonal components to remove
    pub fn try_fit(
        x: &CsrMatrix<S>,
        y: &Matrix<S>,
        n_predictive: usize,
        n_orthogonal: usize,
    ) -> (r: Option<Self>)
        requires
            fit_inputs(x, y, n_predictive, n_orthogonal),
        ensures
            r is Some <==> solvable(
                preprocessed(x@, y@.len(), x.width()),
                y@,
                x.width(),
                y.width(),
                n_predictive as nat,
                n_orthogonal as nat,
            ),
            r matches Some(model) ==> {
                &&& model.wf(x.width())
                &&& model.y_mean@.len() == y.width()
                &&& model.weights.width() == n_predictive
                &&& model.weights_orth.width() == n_orthogonal
                &&& model.scores_orth@.len() == y@.len()
                &&& model@ == fitted(
                    preprocessed(x@, y@.len(), x.width()),
                    y@,
                    x.width(),
                    y.width(),
                    n_predictive as nat,
                    n_orthogonal as nat,
                )
            },
    {
        let n: usize = y.nrows();
        let p: usize = x.cols();
        let m: usize = y.ncols();
        let ghost z = preprocessed(x@, n as nat, p as nat);

        // Row normalize, pseudolog, center
        let mut xd: Matrix<S> = preprocess_x(x, n, p);
        let x_mean: Vec<S> = center_columns(&mut xd);
        let mut yd: Matrix<S> = y.copy();
        let y_mean: Vec<S> = center_columns(&mut yd);
        assert(xd@ == centered(z, p as nat) && yd@ == centered(y@, m as nat));

        // Orthogonal components
        let orth: OrthComponents<S> = if n_orthogonal > 0 {
            let (w, _c) = component(&xd, &yd);
            extract_orthogonal(&mut xd, &w, n_orthogonal)
        } else {
            let none = OrthComponents {
                weights: Vec::new(),
                loadings: Vec::new(),
                scores: Vec::new(),
            };
            assert(vectors(none.weights@) =~= Seq::empty());
            none
        };
        assert(orth_fit(z, y@, p as nat, m as nat, n_orthogonal as nat) == (OrthState {
            x: xd@,
            weights: vectors(orth.weights@),
            loadings: vectors(orth.loadings@),
            scores: vectors(orth.scores@),
        }));
        let weights_orth: Matrix<S> = Matrix::from_columns(p, &orth.weights);
        let loadings_orth: Matrix<S> = Matrix::from_columns(p, &orth.loadings);
        let scores_orth: Matrix<S> = Matrix::from_columns(n, &orth.scores);

        // Predictive components on the filtered data
        let pred: PredComponents<S> = extract_predictive(&mut xd, &mut yd, n_predictive);
        let weights: Matrix<S> = Matrix::from_columns(p, &pred.weights);
        let loadings_x: Matrix<S> = Matrix::from_columns(p, &pred.loadings_x);
        let loadings_y: Matrix<S> = Matrix::from_columns(m, &pred.loadings_y);

        // Regression coefficients: B = W (P^T W)^{-1} C^T
        match try_solve_coefficients(&weights, &loadings_x, &loadings_y) {
            Some(coefficients) => Some(
                OplsModel {
                    x_mean,
                    y_mean,
                    weights,
                    loadings_x,
                    loadings_y,
                    weights_orth,
                    loadings_orth,
                    scores_orth,
                    coefficients,
                },
            ),
            None => None,
        }
    }

    /// Fits a model, for data on which the regression has a solution.
    ///
    /// - `x`: sparse matrix (n x p) of raw counts
    /// - `y`: dense matrix (n x m) of responses
    /// - `n_predictive`: number of predictive components
    /// - `n_orthogonal`: number of orthogonal components to remove
    pub fn fit(x: &CsrMatrix<S>, y: &Matrix<S>, n_predictive: usize, n_orthogonal: usize) -> (model:
        Self)
        requires
            fit_inputs(x, y, n_predictive, n_orthogonal),
            solvable(
                preprocessed(x@, y@.len(), x.width()),
                y@,
                x.width(),
                y.width(),
                n_predictive as nat,
                n_orthogonal as nat,
            ),
        ensures
            model.wf(x.width()),
            model.y_mean@.len() == y.width(),
            model.weights.width() == n_predictive,
            model.weights_orth.width() == n_orthogonal,
            model.scores_orth@.len() == y@.len(),
            model@ == fitted(
                preprocessed(x@, y@.len(), x.width()),
                y@,
                x.width(),
                y.width(),
                n_predictive as nat,
                n_orthogonal as nat,
            ),
    {
        let fit: Option<Self> = Self::try_fit(x, y, n_predictive, n_orthogonal);
        fit.unwrap()
    }

    /// Predicts the responses of new data.
    pub fn predict(&self, x: &CsrMatrix<S>) -> (y_hat: Matrix<S>)
        requires
            x.wf(),
            self.predicts(x@.len(), x.width()),
        ensures
            y_hat.wf(),
            y_hat.width() == self.coefficients.width(),
            y_hat@.len() == x@.len(),
            y_hat@ == predicted(
                self@,
                self.weights_orth.width(),
                self.coefficients.width(),
                preprocessed(x@, x@.len(), x.width()),
            ),
    {
        let n: usize = x.rows();
        let p: usize = x.cols();
        proof {
            lemma_rows_wf(x);
        }

        // Row normalize, pseudolog, center by the training means
        let mut xd: Matrix<S> = preprocess_x(x, n, p);
        let ghost z = xd@;
        if n > 0 {
            xd.subtract_from_rows(&self.x_mean);
        }
        let ghost start = xd@;
        assert(start =~= rows_minus(z, self.x_mean@));

        // Remove the orthogonal components
        let n_orth: usize = self.weights_orth.ncols();
        let mut a: usize = 0;
        while a < n_orth
            invariant
                a <= n_orth,
                n_orth == self.weights_orth.width(),
                self.predicts(n as nat, p as nat),
                start.len() == n,
                xd.wf(),
                xd.width() == p,
                xd@.len() == n,
                xd@ == filtered(
                    start,
                    self.weights_orth@,
                    self.loadings_orth@,
                    a as nat,
                ),
            decreases n_orth - a,
        {
            let w_orth: Vec<S> = self.weights_orth.column(a);
            let p_orth: Vec<S> = self.loadings_orth.column(a);
            let t_orth: Vec<S> = dot_mv(&xd, &w_orth);
            let ghost before = xd@;
            if n > 0 {
                xd.deflate(&t_orth, &p_orth);
            }
            assert(xd@ =~= deflated(before, t_orth@, p_orth@));
            a += 1;
        }

        // Y_hat = X_filtered B + y_mean
        let mut y_hat: Matrix<S> = product(&xd, &self.coefficients);
        let ghost scaled = y_hat@;
        if n > 0 {
            y_hat.add_to_rows(&self.y_mean);
        }
        assert(y_hat@ =~= rows_plus(scaled, self.y_mean@));
        y_hat
    }
}

} // verus!
