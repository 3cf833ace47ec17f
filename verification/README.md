# sparse_olps

Orthogonal projections to latent structures (OPLS; Trygg and Wold, 2002) for sparse data
and dense responses, verified with Verus.

A model separates the variation of the data X into

- predictive components, which correlate with the responses Y, and
- orthogonal components: structured variation of X that does not correlate with Y.

## What is computed

1. Every row of X is divided by its sum; every stored share `v` becomes `ln(v + 1)`.
2. The columns of X and Y are centered.
3. From the weight vector `w` of X and Y (for several responses: of the NIPALS iteration),
   orthogonal components are split off: the part of the loading that is orthogonal to `w`
   gives a weight vector, its score and loading are removed from X.
4. On what is left, predictive components are extracted, each by weight vector, score and
   loadings, and removed from X and Y.
5. `B = W (P^T W)^-1 C^T` are the regression coefficients. A prediction removes the
   orthogonal components from new data, multiplies by `B` and adds the means of Y.

## Layout

- `src/`, the verified library
  - `scalar`: number types; `residue`: exact arithmetic modulo a prime
  - `vector`, `matrix`, `sparse`: dense vectors and matrices, compressed sparse rows
  - `preprocess`, `nipals`, `solve`, `model`: the solver
  - `backend`: products with a sparse matrix that is centered and deflated on the fly, on
    the host (`cpu`) and as plans of elementary actions for a device (`device`)
  - `laws`: theorems about the above
- `app/`: the solver in double precision for matrices of `sprs` and `ndarray`, and the
  backend on a CUDA device
- `tests/`: the solver in double precision (`opls`), in exact arithmetic (`exact`), and
  plans for a device performed on the host (`device`)

## Numbers

Every algorithm is written once, over the trait `Scalar`. A contract says which elementary
operations are applied to which operands, in which order, so it holds of arithmetic that
rounds. Where a formula leaves the order of a sum open, it runs from left to right, starting
from zero. Identities that rounding breaks are stated for `ExactScalar`, number types whose
operations are those of a field.

## Theorems

They hold where no score is degenerate: where none of the scores by whose square length a
fit divides is orthogonal to itself, and where that is so of the weight vector `w`, too.
Where norms are lengths, as in the arithmetic of real numbers, that excludes vectors of zeros
only. Among others:

- orthogonal components do not correlate with a single response, nor, for several
  responses, with the Y-score from which the weight vector comes;
- for a single response, a model with predictive and `k` orthogonal components predicts what
  a model with `k` more predictive and no orthogonal components predicts, for all new data;
- for a single response, the NIPALS iteration gives what `X^T y`, normalized, gives directly,
  if the norm scales with the one factor that occurs; where norms are lengths (positive on
  vectors other than zero, with the inner product as square, scaling with positive factors),
  it is enough that `X^T y` is not zero;
- all scores of a fit are orthogonal to one another, and so are all weight vectors;
- `P^T W` is upper triangular with ones on the diagonal, so a fit has a solution;
- on the training data, predictions and what is left of the responses add up to the
  responses, and the means of the predictions are those of the responses;
- a further predictive component with score `t` and Y-loading `c` lowers the residual sum of
  squares of a response by `(t . t) c^2`; where numbers are ordered such that adding a square
  makes none smaller, the residual sum of squares never grows;
- elimination with pivots gives a left and right inverse;
- a backend multiplies by the matrix that explicit centering and deflation would give, and
  the plans for a device compute the same and stay within its buffers.
