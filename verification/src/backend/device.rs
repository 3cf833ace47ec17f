//! Plans for a backend on a device.
//!
//! A device keeps the sparse matrix, the column means and the deflation pairs in its own
//! memory, and knows a handful of elementary actions on its buffers.  This module decides
//! which actions give the products of a backend.  Whoever drives the device uploads the
//! operand, performs a plan action by action, and downloads the result; the plan for a
//! score depends on one number that is read back in between.
//!
//! [`Memory`] says what the actions mean, in the arithmetic of the scalar type.  A device
//! that rounds may add up in an order of its own.
use super::{spec_spmv_forward, spec_spmv_transpose, BackendState};
use crate::scalar::Scalar;
use crate::sparse::Entry;
use crate::vector::{plus_scaled, spec_dot, spec_norm, spec_zeros};
use vstd::prelude::*;

verus! {

/// The buffers on a device.
#[derive(Clone, Copy, Debug, PartialEq, Eq, Structural)]
pub enum Buffer {
    /// The operand that the host uploads.
    Input,
    /// The result of a product.
    Output,
    /// The weight vector.
    Weight,
    /// A one per row of the matrix.
    Ones,
    /// The column means.
    Mean,
    /// The score of a deflation pair.
    Score(usize),
    /// The loading of a deflation pair.
    Loading(usize),
}

/// What a device can do.  The device has one scalar register.
#[derive(Debug, PartialEq)]
pub enum Action<S> {
    /// Sets a buffer to zero.
    Clear { target: Buffer },
    /// `output = X_sp input`.
    Multiply { input: Buffer, output: Buffer, input_len: usize, output_len: usize },
    /// `output = X_sp^T input`.
    MultiplyTransposed { input: Buffer, output: Buffer, input_len: usize, output_len: usize },
    /// `scalar = left . right`.
    Dot { left: Buffer, right: Buffer, len: usize },
    /// `scalar = -1 * scalar`.
    Negate,
    /// `target = target + scalar * source`.
    AddScaled { source: Buffer, target: Buffer, len: usize },
    /// `scalar = |of|`.
    Norm { of: Buffer, len: usize },
    /// `target = factor * target`.
    Scale { factor: S, target: Buffer, len: usize },
}

/// `old` with its first elements replaced by `new`.
pub open spec fn overlaid<S>(old: Seq<S>, new: Seq<S>) -> Seq<S> {
    new + old.skip(new.len() as int)
}

/// `factor * v`, element by element.
pub open spec fn scaled<S: Scalar>(factor: S, v: Seq<S>) -> Seq<S> {
    Seq::new(v.len(), |i: int| factor.spec_mul(v[i]))
}

/// What the memory of a device holds.
#[verifier::ext_equal]
pub struct Memory<S> {
    pub rows: Seq<Seq<Entry<S>>>,
    pub input: Seq<S>,
    pub output: Seq<S>,
    pub weight: Seq<S>,
    pub scalar: S,
    pub ones: Seq<S>,
    pub mean: Seq<S>,
    pub scores: Seq<Seq<S>>,
    pub loadings: Seq<Seq<S>>,
}

impl<S: Scalar> Memory<S> {
    /// What a buffer holds.
    pub open spec fn buffer(self, b: Buffer) -> Seq<S> {
        match b {
            Buffer::Input => self.input,
            Buffer::Output => self.output,
            Buffer::Weight => self.weight,
            Buffer::Ones => self.ones,
            Buffer::Mean => self.mean,
            Buffer::Score(k) => self.scores[k as int],
            Buffer::Loading(k) => self.loadings[k as int],
        }
    }

    /// The memory with a result in `b`.  Only the output and the weight vector are results.
    pub open spec fn with(self, b: Buffer, v: Seq<S>) -> Self {
        match b {
            Buffer::Output => Memory { output: v, ..self },
            Buffer::Weight => Memory { weight: v, ..self },
            _ => self,
        }
    }

    /// The memory after an action.
    pub open spec fn performed(self, action: Action<S>) -> Self {
        match action {
            Action::Clear { target } => self.with(
                target,
                spec_zeros::<S>(self.buffer(target).len()),
            ),
            Action::Multiply { input, output, input_len, output_len } => self.with(
                output,
                overlaid(
                    self.buffer(output),
                    spec_spmv_forward(
                        self.rows,
                        self.buffer(input).take(input_len as int),
                        output_len as nat,
                    ),
                ),
            ),
            Action::MultiplyTransposed { input, output, input_len, output_len } => self.with(
                output,
                overlaid(
                    self.buffer(output),
                    spec_spmv_transpose(
                        self.rows,
                        self.buffer(input).take(input_len as int),
                        output_len as nat,
                    ),
                ),
            ),
            Action::Dot { left, right, len } => Memory {
                scalar: spec_dot(
                    self.buffer(left).take(len as int),
                    self.buffer(right).take(len as int),
                ),
                ..self
            },
            Action::Negate => Memory {
                scalar: S::spec_one().spec_neg().spec_mul(self.scalar),
                ..self
            },
            Action::AddScaled { source, target, len } => self.with(
                target,
                overlaid(
                    self.buffer(target),
                    plus_scaled(
                        self.buffer(target).take(len as int),
                        self.scalar,
                        self.buffer(source),
                    ),
                ),
            ),
            Action::Norm { of, len } => Memory {
                scalar: spec_norm(self.buffer(of).take(len as int)),
                ..self
            },
            Action::Scale { factor, target, len } => self.with(
                target,
                overlaid(
                    self.buffer(target),
                    scaled(factor, self.buffer(target).take(len as int)),
                ),
            ),
        }
    }

    /// The memory after the actions of a plan.
    pub open spec fn after(self, plan: Seq<Action<S>>) -> Self
        decreases plan.len(),
    {
        if plan.len() == 0 {
            self
        } else {
            self.after(plan.drop_last()).performed(plan.last())
        }
    }

    /// The buffer exists.
    pub open spec fn has(self, b: Buffer) -> bool {
        match b {
            Buffer::Score(k) => k < self.scores.len(),
            Buffer::Loading(k) => k < self.loadings.len(),
            _ => true,
        }
    }

    /// The buffer exists and holds at least `len` elements.
    pub open spec fn holds(self, b: Buffer, len: usize) -> bool {
        self.has(b) && len <= self.buffer(b).len()
    }

    /// The action stays within the buffers.
    pub open spec fn permits(self, action: Action<S>) -> bool {
        match action {
            Action::Clear { target } => self.has(target),
            Action::Multiply { input, output, input_len, output_len } => self.holds(
                input,
                input_len,
            ) && self.holds(output, output_len),
            Action::MultiplyTransposed { input, output, input_len, output_len } => self.holds(
                input,
                input_len,
            ) && self.holds(output, output_len),
            Action::Dot { left, right, len } => self.holds(left, len) && self.holds(right, len),
            Action::Negate => true,
            Action::AddScaled { source, target, len } => self.holds(source, len) && self.holds(
                target,
                len,
            ),
            Action::Norm { of, len } => self.holds(of, len),
            Action::Scale { factor, target, len } => self.holds(target, len),
        }
    }

    /// Every action of a plan stays within the buffers, when its turn comes.
    pub open spec fn permits_all(self, plan: Seq<Action<S>>) -> bool {
        forall|k: int|
            0 <= k < plan.len() ==> #[trigger] self.after(plan.take(k)).permits(plan[k])
    }
}

/// One dense correction: subtract, from the target, `by . v` times `along`.
pub struct Correction {
    pub by: Buffer,
    pub along: Buffer,
}

/// What the host knows of the memory of a device.
pub struct DeviceShape {
    /// The number of rows of the matrix.
    pub n: usize,
    /// The number of columns of the matrix.
    pub p: usize,
    /// Are the means set?
    pub centered: bool,
    /// The number of deflation pairs.
    pub deflations: usize,
}

/// The greater of two lengths: a scratch buffer has this many elements.
pub open spec fn spec_scratch_len(n: usize, p: usize) -> usize {
    if n >= p {
        n
    } else {
        p
    }
}

/// The number of elements of a scratch buffer for a matrix of `n` rows and `p` columns.
pub fn scratch_len(n: usize, p: usize) -> (r: usize)
    ensures
        r == spec_scratch_len(n, p),
{
    if n >= p {
        n
    } else {
        p
    }
}

/// Offsets or column indices as a device stores them, in 32 bits.  What does not fit loses
/// its upper bits.
pub fn device_indices(indices: &Vec<usize>) -> (r: Vec<i32>)
    ensures
        r@.len() == indices@.len(),
        forall|i: int| 0 <= i < r@.len() ==> #[trigger] r@[i] == indices@[i] as i32,
        forall|i: int|
            0 <= i < r@.len() && indices@[i] <= i32::MAX ==> #[trigger] r@[i] as int == indices@[i],
{
    let mut r: Vec<i32> = Vec::new();
    let mut i: usize = 0;
    while i < indices.len()
        invariant
            i <= indices@.len(),
            r@.len() == i,
            forall|j: int| 0 <= j < i ==> #[trigger] r@[j] == indices@[j] as i32,
        decreases indices.len() - i,
    {
        r.push(
            #[verifier::truncate]
            (indices[i] as i32),
        );
        i += 1;
    }
    r
}

/// The actions of one correction of `target`, for a product by `v`.
pub open spec fn correction_actions<S>(
    c: Correction,
    v: Buffer,
    v_len: usize,
    target: Buffer,
    target_len: usize,
) -> Seq<Action<S>> {
    seq![
        Action::Dot { left: c.by, right: v, len: v_len },
        Action::Negate,
        Action::AddScaled { source: c.along, target, len: target_len },
    ]
}

/// The actions of the first `k` corrections.
pub open spec fn corrections_actions<S>(
    corrections: Seq<Correction>,
    v: Buffer,
    v_len: usize,
    target: Buffer,
    target_len: usize,
    k: int,
) -> Seq<Action<S>>
    decreases k,
{
    if k <= 0 {
        Seq::empty()
    } else {
        corrections_actions::<S>(corrections, v, v_len, target, target_len, k - 1)
            + correction_actions(corrections[k - 1], v, v_len, target, target_len)
    }
}

/// Inner product, negation and scaled addition: appends the actions of one correction.
fn dot_negate_axpy<S: Scalar>(
    plan: &mut Vec<Action<S>>,
    c: Correction,
    v: Buffer,
    v_len: usize,
    target: Buffer,
    target_len: usize,
)
    ensures
        final(plan)@ == old(plan)@ + correction_actions(c, v, v_len, target, target_len),
{
    plan.push(Action::Dot { left: c.by, right: v, len: v_len });
    plan.push(Action::Negate);
    plan.push(Action::AddScaled { source: c.along, target, len: target_len });
    assert(plan@ =~= old(plan)@ + correction_actions(c, v, v_len, target, target_len));
}

impl DeviceShape {
    /// The shape describes the memory.
    pub open spec fn describes<S: Scalar>(self, memory: Memory<S>) -> bool {
        &&& memory.rows.len() == self.n
        &&& memory.input.len() == spec_scratch_len(self.n, self.p)
        &&& memory.output.len() == spec_scratch_len(self.n, self.p)
        &&& memory.weight.len() == self.p
        &&& memory.ones == Seq::new(self.n as nat, |i: int| S::spec_one())
        &&& self.centered ==> memory.mean.len() == self.p
        &&& memory.scores.len() == self.deflations
        &&& memory.loadings.len() == self.deflations
        &&& forall|k: int|
            0 <= k < self.deflations ==> (#[trigger] memory.scores[k]).len() == self.n
        &&& forall|k: int|
            0 <= k < self.deflations ==> (#[trigger] memory.loadings[k]).len() == self.p
    }

    /// What the backend holds whose parts are in the memory.
    pub open spec fn state<S: Scalar>(self, memory: Memory<S>) -> BackendState<S> {
        BackendState {
            rows: memory.rows,
            mean: if self.centered {
                Some(memory.mean)
            } else {
                None
            },
            deflations: Seq::new(
                self.deflations as nat,
                |k: int| (memory.scores[k], memory.loadings[k]),
            ),
        }
    }

    /// The corrections of a forward product: `(mu . v) 1`, then `(p_k . v) t_k`.
    pub open spec fn forward_corrections(self) -> Seq<Correction> {
        let mean = if self.centered {
            seq![Correction { by: Buffer::Mean, along: Buffer::Ones }]
        } else {
            Seq::empty()
        };
        mean + Seq::new(
            self.deflations as nat,
            |k: int|
                Correction { by: Buffer::Loading(k as usize), along: Buffer::Score(k as usize) },
        )
    }

    /// The corrections of a transposed product: `(1 . v) mu`, then `(t_k . v) p_k`.
    pub open spec fn transpose_corrections(self) -> Seq<Correction> {
        let mean = if self.centered {
            seq![Correction { by: Buffer::Ones, along: Buffer::Mean }]
        } else {
            Seq::empty()
        };
        mean + Seq::new(
            self.deflations as nat,
            |k: int|
                Correction { by: Buffer::Score(k as usize), along: Buffer::Loading(k as usize) },
        )
    }

    /// `output = X_eff v`, for a buffer `v`.
    pub open spec fn forward_actions<S>(self, v: Buffer) -> Seq<Action<S>> {
        let c = self.forward_corrections();
        seq![
            Action::Clear { target: Buffer::Output },
            Action::Multiply {
                input: v,
                output: Buffer::Output,
                input_len: self.p,
                output_len: self.n,
            },
        ] + corrections_actions(c, v, self.p, Buffer::Output, self.n, c.len() as int)
    }

    /// `target = X_eff^T input`.
    pub open spec fn transpose_actions<S>(self, target: Buffer) -> Seq<Action<S>> {
        let c = self.transpose_corrections();
        seq![
            Action::Clear { target },
            Action::MultiplyTransposed {
                input: Buffer::Input,
                output: target,
                input_len: self.n,
                output_len: self.p,
            },
        ] + corrections_actions(c, Buffer::Input, self.n, target, self.p, c.len() as int)
    }

    /// `weight = X_eff^T input`, and its length in the scalar.
    pub open spec fn weight_actions<S>(self) -> Seq<Action<S>> {
        self.transpose_actions(Buffer::Weight) + seq![
            Action::Norm { of: Buffer::Weight, len: self.p },
        ]
    }

    /// The weight vector normalized by its length `norm`, `output = X_eff weight`, and
    /// `output . output` in the scalar.
    pub open spec fn score_actions<S: Scalar>(self, norm: S) -> Seq<Action<S>> {
        let normalize = if norm.spec_exceeds(S::spec_zero()) {
            seq![
                Action::Scale {
                    factor: S::spec_one().spec_div(norm),
                    target: Buffer::Weight,
                    len: self.p,
                },
            ]
        } else {
            Seq::empty()
        };
        normalize + self.forward_actions(Buffer::Weight) + seq![
            Action::Dot { left: Buffer::Output, right: Buffer::Output, len: self.n },
        ]
    }

    /// Appends the corrections of a forward product by `v`.
    fn apply_forward_corrections<S: Scalar>(&self, plan: &mut Vec<Action<S>>, v: Buffer)
        ensures
            final(plan)@ == old(plan)@ + corrections_actions(
                self.forward_corrections(),
                v,
                self.p,
                Buffer::Output,
                self.n,
                self.forward_corrections().len() as int,
            ),
    {
        let ghost c = self.forward_corrections();
        let ghost start = plan@;
        let ghost mut done: int = 0;
        if self.centered {
            let mean = Correction { by: Buffer::Mean, along: Buffer::Ones };
            assert(mean == c[0]);
            dot_negate_axpy(plan, mean, v, self.p, Buffer::Output, self.n);
            proof {
                done = 1;
                reveal_with_fuel(corrections_actions, 2);
            }
        }
        assert(plan@ =~= start + corrections_actions(c, v, self.p, Buffer::Output, self.n, done));
        let mut k: usize = 0;
        while k < self.deflations
            invariant
                k <= self.deflations,
                c == self.forward_corrections(),
                done == (if self.centered {
                    1int
                } else {
                    0int
                }),
                plan@ == start + corrections_actions(
                    c,
                    v,
                    self.p,
                    Buffer::Output,
                    self.n,
                    done + k,
                ),
            decreases self.deflations - k,
        {
            let pair = Correction { by: Buffer::Loading(k), along: Buffer::Score(k) };
            assert(pair == c[done + k]);
            dot_negate_axpy(plan, pair, v, self.p, Buffer::Output, self.n);
            k += 1;
            assert(plan@ =~= start + corrections_actions(
                c,
                v,
                self.p,
                Buffer::Output,
                self.n,
                done + k,
            ));
        }
    }

    /// Appends the corrections of a transposed product in `target`.
    fn apply_transpose_corrections<S: Scalar>(&self, plan: &mut Vec<Action<S>>, target: Buffer)
        ensures
            final(plan)@ == old(plan)@ + corrections_actions(
                self.transpose_corrections(),
                Buffer::Input,
                self.n,
                target,
                self.p,
                self.transpose_corrections().len() as int,
            ),
    {
        let ghost c = self.transpose_corrections();
        let ghost start = plan@;
        let ghost mut done: int = 0;
        if self.centered {
            let mean = Correction { by: Buffer::Ones, along: Buffer::Mean };
            assert(mean == c[0]);
            dot_negate_axpy(plan, mean, Buffer::Input, self.n, target, self.p);
            proof {
                done = 1;
                reveal_with_fuel(corrections_actions, 2);
            }
        }
        assert(plan@ =~= start + corrections_actions(
            c,
            Buffer::Input,
            self.n,
            target,
            self.p,
            done,
        ));
        let mut k: usize = 0;
        while k < self.deflations
            invariant
                k <= self.deflations,
                c == self.transpose_corrections(),
                done == (if self.centered {
                    1int
                } else {
                    0int
                }),
                plan@ == start + corrections_actions(
                    c,
                    Buffer::Input,
                    self.n,
                    target,
                    self.p,
                    done + k,
                ),
            decreases self.deflations - k,
        {
            let pair = Correction { by: Buffer::Score(k), along: Buffer::Loading(k) };
            assert(pair == c[done + k]);
            dot_negate_axpy(plan, pair, Buffer::Input, self.n, target, self.p);
            k += 1;
            assert(plan@ =~= start + corrections_actions(
                c,
                Buffer::Input,
                self.n,
                target,
                self.p,
                done + k,
            ));
        }
    }

    /// The plan for `X_eff v`, with `v` in the input and the product in the output.
    pub fn forward_plan<S: Scalar>(&self) -> (plan: Vec<Action<S>>)
        ensures
            plan@ == self.forward_actions::<S>(Buffer::Input),
    {
        let mut plan: Vec<Action<S>> = Vec::new();
        self.append_forward(&mut plan, Buffer::Input);
        assert(plan@ =~= self.forward_actions::<S>(Buffer::Input));
        plan
    }

    /// The plan for `X_eff^T v`, with `v` in the input and the product in the output.
    pub fn transpose_plan<S: Scalar>(&self) -> (plan: Vec<Action<S>>)
        ensures
            plan@ == self.transpose_actions::<S>(Buffer::Output),
    {
        let mut plan: Vec<Action<S>> = Vec::new();
        self.append_transpose(&mut plan, Buffer::Output);
        assert(plan@ =~= self.transpose_actions::<S>(Buffer::Output));
        plan
    }

    /// The first plan of the fused step: `w = X_eff^T u`, with `u` in the input and `w` in
    /// the weight vector.  It leaves the length of `w` in the scalar.
    pub fn nipals_weight_plan<S: Scalar>(&self) -> (plan: Vec<Action<S>>)
        ensures
            plan@ == self.weight_actions::<S>(),
    {
        let mut plan: Vec<Action<S>> = Vec::new();
        self.append_transpose(&mut plan, Buffer::Weight);
        plan.push(Action::Norm { of: Buffer::Weight, len: self.p });
        assert(plan@ =~= self.weight_actions::<S>());
        plan
    }

    /// The second plan of the fused step, for the length `norm` that the first one left:
    /// normalizes `w`, then `t = X_eff w` in the output.  It leaves `t . t` in the scalar.
    pub fn nipals_score_plan<S: Scalar>(&self, norm: S) -> (plan: Vec<Action<S>>)
        ensures
            plan@ == self.score_actions(norm),
    {
        let mut plan: Vec<Action<S>> = Vec::new();
        if norm.exceeds(S::zero()) {
            plan.push(
                Action::Scale {
                    factor: S::one().div(norm),
                    target: Buffer::Weight,
                    len: self.p,
                },
            );
        }
        self.append_forward(&mut plan, Buffer::Weight);
        plan.push(Action::Dot { left: Buffer::Output, right: Buffer::Output, len: self.n });
        assert(plan@ =~= self.score_actions(norm));
        plan
    }

    fn append_forward<S: Scalar>(&self, plan: &mut Vec<Action<S>>, v: Buffer)
        ensures
            final(plan)@ == old(plan)@ + self.forward_actions::<S>(v),
    {
        plan.push(Action::Clear { target: Buffer::Output });
        plan.push(
            Action::Multiply {
                input: v,
                output: Buffer::Output,
                input_len: self.p,
                output_len: self.n,
            },
        );
        self.apply_forward_corrections(plan, v);
        assert(plan@ =~= old(plan)@ + self.forward_actions::<S>(v));
    }

    fn append_transpose<S: Scalar>(&self, plan: &mut Vec<Action<S>>, target: Buffer)
        ensures
            final(plan)@ == old(plan)@ + self.transpose_actions::<S>(target),
    {
        plan.push(Action::Clear { target });
        plan.push(
            Action::MultiplyTransposed {
                input: Buffer::Input,
                output: target,
                input_len: self.n,
                output_len: self.p,
            },
        );
        self.apply_transpose_corrections(plan, target);
        assert(plan@ =~= old(plan)@ + self.transpose_actions::<S>(target));
    }
}

} // verus!
