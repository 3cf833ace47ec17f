//! The plans for a device compute the products of a backend.
use crate::backend::device::{
    correction_actions, corrections_actions, overlaid, spec_scratch_len, Action, Buffer,
    Correction, DeviceShape, Memory,
};
use crate::backend::{
    forward_centered, forward_deflated, sparse_dot, spec_spmv_forward, spec_spmv_transpose,
    transpose_centered, transpose_deflated, BackendState,
};
use crate::laws::algebra::{neg_mul, one_mul};
use crate::laws::implicit::dot_ones;
use crate::laws::orthogonality::divided_is_multiple;
use crate::scalar::{ExactScalar, Scalar};
use crate::vector::{
    divided, normalized, plus_scaled, shifted_down, spec_dot, spec_norm, spec_total,
};
use vstd::prelude::*;

verus! {

/// A plan may be performed in two parts.
pub proof fn plans_compose<S: Scalar>(memory: Memory<S>, a: Seq<Action<S>>, b: Seq<Action<S>>)
    ensures
        memory.after(a + b) == memory.after(a).after(b),
    decreases b.len(),
{
    if b.len() == 0 {
        assert(a + b =~= a);
    } else {
        plans_compose(memory, a, b.drop_last());
        assert((a + b).drop_last() =~= a + b.drop_last());
        assert((a + b).last() == b.last());
    }
}

/// The buffer is never written by a plan.
pub open spec fn is_constant(b: Buffer) -> bool {
    match b {
        Buffer::Input => false,
        Buffer::Output => false,
        Buffer::Weight => false,
        _ => true,
    }
}

/// `r` after the first `k` corrections of a product by `v`.
pub open spec fn corrected<S: Scalar>(
    memory: Memory<S>,
    corrections: Seq<Correction>,
    v: Seq<S>,
    r: Seq<S>,
    k: int,
) -> Seq<S>
    decreases k,
{
    if k <= 0 {
        r
    } else {
        let c = corrections[k - 1];
        plus_scaled(
            corrected(memory, corrections, v, r, k - 1),
            S::spec_one().spec_neg().spec_mul(
                spec_dot(memory.buffer(c.by).take(v.len() as int), v),
            ),
            memory.buffer(c.along),
        )
    }
}

proof fn corrected_len<S: Scalar>(
    memory: Memory<S>,
    corrections: Seq<Correction>,
    v: Seq<S>,
    r: Seq<S>,
    k: int,
)
    ensures
        corrected(memory, corrections, v, r, k).len() == r.len(),
    decreases k,
{
    if k > 0 {
        corrected_len(memory, corrections, v, r, k - 1);
    }
}

/// Performing corrections changes the target and the scalar only.
proof fn corrections_run<S: Scalar>(
    memory: Memory<S>,
    corrections: Seq<Correction>,
    v: Buffer,
    v_len: usize,
    target: Buffer,
    target_len: usize,
    k: int,
)
    requires
        0 <= k <= corrections.len(),
        target == Buffer::Output || target == Buffer::Weight,
        v != target,
        v_len <= memory.buffer(v).len(),
        target_len <= memory.buffer(target).len(),
        forall|i: int|
            0 <= i < corrections.len() ==> is_constant((#[trigger] corrections[i]).by)
                && is_constant(corrections[i].along),
    ensures
        ({
            let plan = corrections_actions::<S>(corrections, v, v_len, target, target_len, k);
            let r = memory.buffer(target).take(target_len as int);
            memory.after(plan) == (Memory { scalar: memory.after(plan).scalar, ..memory }).with(
                target,
                overlaid(
                    memory.buffer(target),
                    corrected(
                        memory,
                        corrections,
                        memory.buffer(v).take(v_len as int),
                        r,
                        k,
                    ),
                ),
            )
        }),
    decreases k,
{
    let old_target = memory.buffer(target);
    let r = old_target.take(target_len as int);
    let vv = memory.buffer(v).take(v_len as int);
    let plan = corrections_actions::<S>(corrections, v, v_len, target, target_len, k);
    corrected_len(memory, corrections, vv, r, k);
    if k == 0 {
        assert(overlaid(old_target, r) =~= old_target);
    } else {
        let before = corrections_actions::<S>(corrections, v, v_len, target, target_len, k - 1);
        let c = corrections[k - 1];
        let step = correction_actions::<S>(c, v, v_len, target, target_len);
        corrections_run(memory, corrections, v, v_len, target, target_len, k - 1);
        corrected_len(memory, corrections, vv, r, k - 1);
        plans_compose(memory, before, step);
        let m0 = memory.after(before);
        let partial = corrected(memory, corrections, vv, r, k - 1);
        let (dot, negate, add) = (step[0], step[1], step[2]);
        assert(step.drop_last().drop_last().drop_last() =~= Seq::empty());
        assert(step.drop_last().drop_last().last() == dot);
        assert(step.drop_last().last() == negate);
        assert(step.last() == add);
        reveal_with_fuel(Memory::after, 4);
        assert(m0.after(step) == m0.performed(dot).performed(negate).performed(add));
        assert(is_constant(c.by) && is_constant(c.along));
        assert(m0.buffer(target) == overlaid(old_target, partial));
        assert(m0.buffer(target).take(target_len as int) =~= partial);
        assert(overlaid(
            overlaid(old_target, partial),
            corrected(memory, corrections, vv, r, k),
        ) =~= overlaid(old_target, corrected(memory, corrections, vv, r, k)));
    }
}

/// The corrections of both products read constant buffers.
proof fn corrections_are_constant(shape: DeviceShape)
    ensures
        forall|i: int|
            0 <= i < shape.forward_corrections().len() ==> is_constant(
                (#[trigger] shape.forward_corrections()[i]).by,
            ) && is_constant(shape.forward_corrections()[i].along),
        forall|i: int|
            0 <= i < shape.transpose_corrections().len() ==> is_constant(
                (#[trigger] shape.transpose_corrections()[i]).by,
            ) && is_constant(shape.transpose_corrections()[i].along),
{
}

/// The two actions that begin a product.
proof fn product_starts<S: Scalar>(memory: Memory<S>, clear: Action<S>, multiply: Action<S>)
    ensures
        memory.after(seq![clear, multiply]) == memory.performed(clear).performed(multiply),
{
    let plan = seq![clear, multiply];
    reveal_with_fuel(Memory::after, 3);
    assert(plan.drop_last().drop_last() =~= Seq::empty());
    assert(plan.drop_last().last() == clear);
    assert(plan.last() == multiply);
}

/// `(-1) * d == -d`.
proof fn minus_one_times<S: ExactScalar>(d: S)
    ensures
        S::spec_one().spec_neg().spec_mul(d) == d.spec_neg(),
{
    neg_mul(S::spec_one(), d);
    one_mul(d);
}

/// The corrections of a forward product on a device are those of the backend.
proof fn forward_corrections_agree<S: ExactScalar>(
    shape: DeviceShape,
    memory: Memory<S>,
    v: Seq<S>,
    r: Seq<S>,
    k: int,
)
    requires
        shape.describes(memory),
        v.len() == shape.p,
        r.len() == shape.n,
        0 <= k <= shape.deflations,
    ensures
        ({
            let s = shape.state(memory);
            let done = if shape.centered {
                1int
            } else {
                0int
            };
            corrected(memory, shape.forward_corrections(), v, r, done + k) == forward_deflated(
                s.deflations,
                forward_centered(s.mean, r, v),
                v,
                k,
            )
        }),
    decreases k,
{
    let s = shape.state(memory);
    let c = shape.forward_corrections();
    let done = if shape.centered {
        1int
    } else {
        0int
    };
    if k == 0 {
        if shape.centered {
            let d = spec_dot(memory.mean, v);
            reveal_with_fuel(corrected, 2);
            assert(c[0] == (Correction { by: Buffer::Mean, along: Buffer::Ones }));
            assert(memory.mean.take(shape.p as int) =~= memory.mean);
            minus_one_times(d);
            let (left, right) = (
                plus_scaled(r, S::spec_one().spec_neg().spec_mul(d), memory.ones),
                shifted_down(r, d),
            );
            assert forall|i: int| 0 <= i < r.len() implies left[i] == right[i] by {
                S::mul_one(d.spec_neg());
                S::sub_is_add_neg(r[i], d);
            }
            assert(left =~= right);
        }
    } else {
        forward_corrections_agree(shape, memory, v, r, k - 1);
        let l = memory.loadings[k - 1];
        assert(c[done + k - 1] == (Correction {
            by: Buffer::Loading((k - 1) as usize),
            along: Buffer::Score((k - 1) as usize),
        }));
        assert(l.len() == shape.p);
        assert(l.take(shape.p as int) =~= l);
        minus_one_times(spec_dot(l, v));
        assert(s.deflations[k - 1] == (memory.scores[k - 1], l));
    }
}

/// The corrections of a transposed product on a device are those of the backend.
proof fn transpose_corrections_agree<S: ExactScalar>(
    shape: DeviceShape,
    memory: Memory<S>,
    v: Seq<S>,
    r: Seq<S>,
    k: int,
)
    requires
        shape.describes(memory),
        v.len() == shape.n,
        r.len() == shape.p,
        0 <= k <= shape.deflations,
    ensures
        ({
            let s = shape.state(memory);
            let done = if shape.centered {
                1int
            } else {
                0int
            };
            corrected(memory, shape.transpose_corrections(), v, r, done + k)
                == transpose_deflated(
                s.deflations,
                transpose_centered(s.mean, r, v),
                v,
                k,
            )
        }),
    decreases k,
{
    let s = shape.state(memory);
    let c = shape.transpose_corrections();
    let done = if shape.centered {
        1int
    } else {
        0int
    };
    if k == 0 {
        if shape.centered {
            reveal_with_fuel(corrected, 2);
            assert(c[0] == (Correction { by: Buffer::Ones, along: Buffer::Mean }));
            assert(memory.ones.take(shape.n as int) =~= memory.ones);
            dot_ones(memory.ones, v, v.len() as int);
            minus_one_times(spec_total(v));
        }
    } else {
        transpose_corrections_agree(shape, memory, v, r, k - 1);
        let t = memory.scores[k - 1];
        assert(c[done + k - 1] == (Correction {
            by: Buffer::Score((k - 1) as usize),
            along: Buffer::Loading((k - 1) as usize),
        }));
        assert(t.len() == shape.n);
        assert(t.take(shape.n as int) =~= t);
        minus_one_times(spec_dot(t, v));
        assert(s.deflations[k - 1] == (t, memory.loadings[k - 1]));
    }
}

/// What a forward plan does to the memory.
proof fn forward_runs<S: ExactScalar>(shape: DeviceShape, memory: Memory<S>, v: Buffer)
    requires
        shape.describes(memory),
        v == Buffer::Input || v == Buffer::Weight,
    ensures
        ({
            let end = memory.after(shape.forward_actions(v));
            &&& end == (Memory { scalar: end.scalar, output: end.output, ..memory })
            &&& end.output.len() == memory.output.len()
            &&& end.output.take(shape.n as int) == shape.state(memory).forward(
                memory.buffer(v).take(shape.p as int),
                shape.n as nat,
            )
        }),
{
    let (n, p) = (shape.n, shape.p);
    let c = shape.forward_corrections();
    let vv = memory.buffer(v).take(p as int);
    let clear = Action::<S>::Clear { target: Buffer::Output };
    let multiply = Action::<S>::Multiply {
        input: v,
        output: Buffer::Output,
        input_len: p,
        output_len: n,
    };
    let rest = corrections_actions::<S>(c, v, p, Buffer::Output, n, c.len() as int);
    plans_compose(memory, seq![clear, multiply], rest);
    product_starts(memory, clear, multiply);
    let start = memory.after(seq![clear, multiply]);
    let r = spec_spmv_forward(memory.rows, vv, n as nat);
    assert(start.output.take(n as int) =~= r);
    corrections_are_constant(shape);
    corrections_run(start, c, v, p, Buffer::Output, n, c.len() as int);
    corrected_reads_constants(memory, start, c, vv, r, c.len() as int);
    forward_corrections_agree(shape, memory, vv, r, shape.deflations as int);
    corrected_len(memory, c, vv, r, c.len() as int);
    let end = memory.after(shape.forward_actions(v));
    assert(end.output.take(n as int) =~= corrected(memory, c, vv, r, c.len() as int));
}

/// Corrections read the constant buffers only.
proof fn corrected_reads_constants<S: Scalar>(
    a: Memory<S>,
    b: Memory<S>,
    corrections: Seq<Correction>,
    v: Seq<S>,
    r: Seq<S>,
    k: int,
)
    requires
        0 <= k <= corrections.len(),
        forall|x: Buffer| is_constant(x) ==> #[trigger] a.buffer(x) == b.buffer(x),
        forall|i: int|
            0 <= i < corrections.len() ==> is_constant((#[trigger] corrections[i]).by)
                && is_constant(corrections[i].along),
    ensures
        corrected(a, corrections, v, r, k) == corrected(b, corrections, v, r, k),
    decreases k,
{
    if k > 0 {
        corrected_reads_constants(a, b, corrections, v, r, k - 1);
        let c = corrections[k - 1];
        assert(a.buffer(c.by) == b.buffer(c.by));
        assert(a.buffer(c.along) == b.buffer(c.along));
    }
}

/// What a transposed plan does to the memory.
proof fn transpose_runs<S: ExactScalar>(shape: DeviceShape, memory: Memory<S>, target: Buffer)
    requires
        shape.describes(memory),
        target == Buffer::Output || target == Buffer::Weight,
    ensures
        ({
            let end = memory.after(shape.transpose_actions(target));
            let product = end.buffer(target);
            &&& end == (Memory { scalar: end.scalar, ..memory }).with(target, product)
            &&& product.len() == memory.buffer(target).len()
            &&& product.take(shape.p as int) == shape.state(memory).transpose(
                memory.input.take(shape.n as int),
                shape.p as nat,
            )
        }),
{
    let (n, p) = (shape.n, shape.p);
    let c = shape.transpose_corrections();
    let vv = memory.input.take(n as int);
    let clear = Action::<S>::Clear { target };
    let multiply = Action::<S>::MultiplyTransposed {
        input: Buffer::Input,
        output: target,
        input_len: n,
        output_len: p,
    };
    let rest = corrections_actions::<S>(c, Buffer::Input, n, target, p, c.len() as int);
    plans_compose(memory, seq![clear, multiply], rest);
    product_starts(memory, clear, multiply);
    let start = memory.after(seq![clear, multiply]);
    let r = spec_spmv_transpose(memory.rows, vv, p as nat);
    assert(start.buffer(target).take(p as int) =~= r);
    corrections_are_constant(shape);
    corrections_run(start, c, Buffer::Input, n, target, p, c.len() as int);
    corrected_reads_constants(memory, start, c, vv, r, c.len() as int);
    transpose_corrections_agree(shape, memory, vv, r, shape.deflations as int);
    corrected_len(memory, c, vv, r, c.len() as int);
    let end = memory.after(shape.transpose_actions(target));
    assert(end.buffer(target).take(p as int) =~= corrected(memory, c, vv, r, c.len() as int));
}

/// Performing the forward plan leaves `X_eff v` in the output.
pub proof fn forward_plan_computes<S: ExactScalar>(shape: DeviceShape, memory: Memory<S>)
    requires
        shape.describes(memory),
    ensures
        memory.after(shape.forward_actions(Buffer::Input)).output.take(shape.n as int)
            == shape.state(memory).forward(memory.input.take(shape.p as int), shape.n as nat),
{
    forward_runs(shape, memory, Buffer::Input);
}

/// Performing the transposed plan leaves `X_eff^T v` in the output.
pub proof fn transpose_plan_computes<S: ExactScalar>(shape: DeviceShape, memory: Memory<S>)
    requires
        shape.describes(memory),
    ensures
        memory.after(shape.transpose_actions(Buffer::Output)).output.take(shape.p as int)
            == shape.state(memory).transpose(memory.input.take(shape.n as int), shape.p as nat),
{
    transpose_runs(shape, memory, Buffer::Output);
}

/// Performing the two plans of the fused step, the second one for the length that the first
/// one leaves, gives what the fused step of a backend returns: `w = normalize(X_eff^T u)`,
/// `t = X_eff w` and `t . t`.
pub proof fn nipals_plans_compute<S: ExactScalar>(shape: DeviceShape, memory: Memory<S>)
    requires
        shape.describes(memory),
    ensures
        ({
            let s = shape.state(memory);
            let middle = memory.after(shape.weight_actions());
            let end = middle.after(shape.score_actions(middle.scalar));
            let t = end.output.take(shape.n as int);
            &&& end.weight == normalized(
                s.transpose(memory.input.take(shape.n as int), shape.p as nat),
            )
            &&& t == s.forward(end.weight, shape.n as nat)
            &&& end.scalar == spec_dot(t, t)
        }),
{
    let (n, p) = (shape.n, shape.p);
    let s = shape.state(memory);
    let w = s.transpose(memory.input.take(n as int), p as nat);

    let norm_action = Action::<S>::Norm { of: Buffer::Weight, len: p };
    let product = memory.after(shape.transpose_actions(Buffer::Weight));
    transpose_runs(shape, memory, Buffer::Weight);
    assert(shape.weight_actions::<S>().drop_last() =~= shape.transpose_actions(Buffer::Weight));
    assert(shape.weight_actions::<S>().last() == norm_action);
    let middle = memory.after(shape.weight_actions());
    assert(middle == product.performed(norm_action));
    assert(product.weight.take(p as int) =~= product.weight);
    assert(middle.weight == w);
    let norm = middle.scalar;
    assert(norm == spec_norm(w));

    let dot_action = Action::<S>::Dot { left: Buffer::Output, right: Buffer::Output, len: n };
    let forward = shape.forward_actions::<S>(Buffer::Weight);
    let score = shape.score_actions(norm);
    let normalize = score.take(score.len() - forward.len() - 1);
    let unit = middle.after(normalize);
    let scale = Action::Scale {
        factor: S::spec_one().spec_div(norm),
        target: Buffer::Weight,
        len: p,
    };
    if norm.spec_exceeds(S::spec_zero()) {
        assert(normalize =~= seq![scale]);
        reveal_with_fuel(Memory::after, 2);
        assert(normalize.drop_last() =~= Seq::empty());
        assert(unit == middle.performed(scale));
        S::exceeds_is_irreflexive(norm);
        divided_is_multiple(w, norm);
        assert(w.take(p as int) =~= w);
        assert(unit.weight =~= divided(w, norm));
    } else {
        assert(normalize =~= Seq::empty());
    }
    assert(unit.weight == normalized(w));
    assert(score.drop_last() =~= normalize + forward);
    assert(score.last() == dot_action);
    plans_compose(middle, normalize, forward);
    forward_runs(shape, unit, Buffer::Weight);
    assert(unit.weight.take(p as int) =~= unit.weight);
    assert(shape.state(unit) == s);
}

/// The buffers of an action suffice for it, in every memory of the shape.
spec fn within<S>(shape: DeviceShape, action: Action<S>) -> bool {
    match action {
        Action::Clear { target } => exists_in(shape, target),
        Action::Multiply { input, output, input_len, output_len } => suffices(
            shape,
            input,
            input_len,
        ) && suffices(shape, output, output_len),
        Action::MultiplyTransposed { input, output, input_len, output_len } => suffices(
            shape,
            input,
            input_len,
        ) && suffices(shape, output, output_len),
        Action::Dot { left, right, len } => suffices(shape, left, len) && suffices(
            shape,
            right,
            len,
        ),
        Action::Negate => true,
        Action::AddScaled { source, target, len } => suffices(shape, source, len) && suffices(
            shape,
            target,
            len,
        ),
        Action::Norm { of, len } => suffices(shape, of, len),
        Action::Scale { factor, target, len } => suffices(shape, target, len),
    }
}

spec fn exists_in(shape: DeviceShape, b: Buffer) -> bool {
    match b {
        Buffer::Mean => shape.centered,
        Buffer::Score(k) => k < shape.deflations,
        Buffer::Loading(k) => k < shape.deflations,
        _ => true,
    }
}

spec fn suffices(shape: DeviceShape, b: Buffer, len: usize) -> bool {
    exists_in(shape, b) && match b {
        Buffer::Input => len <= spec_scratch_len(shape.n, shape.p),
        Buffer::Output => len <= spec_scratch_len(shape.n, shape.p),
        Buffer::Weight => len <= shape.p,
        Buffer::Ones => len <= shape.n,
        Buffer::Mean => len <= shape.p,
        Buffer::Score(_) => len <= shape.n,
        Buffer::Loading(_) => len <= shape.p,
    }
}

spec fn all_within<S>(shape: DeviceShape, plan: Seq<Action<S>>) -> bool {
    forall|k: int| 0 <= k < plan.len() ==> within(shape, #[trigger] plan[k])
}

/// An action within the shape is permitted, and the shape describes the memory after it.
proof fn action_keeps_shape<S: Scalar>(
    shape: DeviceShape,
    memory: Memory<S>,
    action: Action<S>,
)
    requires
        shape.describes(memory),
        within(shape, action),
    ensures
        memory.permits(action),
        shape.describes(memory.performed(action)),
{
    match action {
        Action::Dot { left, right, len } => {
            buffer_suffices(shape, memory, left, len);
            buffer_suffices(shape, memory, right, len);
        },
        Action::AddScaled { source, target, len } => {
            buffer_suffices(shape, memory, source, len);
            buffer_suffices(shape, memory, target, len);
        },
        Action::Multiply { input, output, input_len, output_len } => {
            buffer_suffices(shape, memory, input, input_len);
            buffer_suffices(shape, memory, output, output_len);
        },
        Action::MultiplyTransposed { input, output, input_len, output_len } => {
            buffer_suffices(shape, memory, input, input_len);
            buffer_suffices(shape, memory, output, output_len);
        },
        Action::Norm { of, len } => {
            buffer_suffices(shape, memory, of, len);
        },
        Action::Scale { factor, target, len } => {
            buffer_suffices(shape, memory, target, len);
        },
        _ => {},
    }
}

proof fn buffer_suffices<S: Scalar>(
    shape: DeviceShape,
    memory: Memory<S>,
    b: Buffer,
    len: usize,
)
    requires
        shape.describes(memory),
        suffices(shape, b, len),
    ensures
        memory.holds(b, len),
{
    match b {
        Buffer::Score(k) => {
            assert(memory.scores[k as int].len() == shape.n);
        },
        Buffer::Loading(k) => {
            assert(memory.loadings[k as int].len() == shape.p);
        },
        _ => {},
    }
}

proof fn plan_keeps_shape<S: Scalar>(
    shape: DeviceShape,
    memory: Memory<S>,
    plan: Seq<Action<S>>,
    k: int,
)
    requires
        shape.describes(memory),
        all_within(shape, plan),
        0 <= k <= plan.len(),
    ensures
        shape.describes(memory.after(plan.take(k))),
        k < plan.len() ==> memory.after(plan.take(k)).permits(plan[k]),
    decreases k,
{
    if k > 0 {
        plan_keeps_shape(shape, memory, plan, k - 1);
        assert(plan.take(k).drop_last() =~= plan.take(k - 1));
        assert(plan.take(k).last() == plan[k - 1]);
        action_keeps_shape(shape, memory.after(plan.take(k - 1)), plan[k - 1]);
    }
    if k < plan.len() {
        assert(within(shape, plan[k]));
        action_keeps_shape(shape, memory.after(plan.take(k)), plan[k]);
    }
}

proof fn plan_is_permitted<S: Scalar>(
    shape: DeviceShape,
    memory: Memory<S>,
    plan: Seq<Action<S>>,
)
    requires
        shape.describes(memory),
        all_within(shape, plan),
    ensures
        memory.permits_all(plan),
        shape.describes(memory.after(plan)),
{
    assert forall|k: int| 0 <= k < plan.len() implies #[trigger] memory.after(
        plan.take(k),
    ).permits(plan[k]) by {
        plan_keeps_shape(shape, memory, plan, k);
    }
    plan_keeps_shape(shape, memory, plan, plan.len() as int);
    assert(plan.take(plan.len() as int) =~= plan);
}

proof fn corrections_within<S>(
    shape: DeviceShape,
    corrections: Seq<Correction>,
    v: Buffer,
    v_len: usize,
    target: Buffer,
    target_len: usize,
    k: int,
)
    requires
        0 <= k <= corrections.len(),
        suffices(shape, v, v_len),
        suffices(shape, target, target_len),
        forall|i: int|
            0 <= i < corrections.len() ==> suffices(
                shape,
                (#[trigger] corrections[i]).by,
                v_len,
            ) && suffices(shape, corrections[i].along, target_len),
    ensures
        all_within(
            shape,
            corrections_actions::<S>(corrections, v, v_len, target, target_len, k),
        ),
    decreases k,
{
    if k > 0 {
        corrections_within::<S>(shape, corrections, v, v_len, target, target_len, k - 1);
        let c = corrections[k - 1];
        assert(suffices(shape, c.by, v_len) && suffices(shape, c.along, target_len));
    }
}

proof fn products_within<S>(shape: DeviceShape)
    ensures
        all_within(shape, shape.forward_actions::<S>(Buffer::Input)),
        all_within(shape, shape.forward_actions::<S>(Buffer::Weight)),
        all_within(shape, shape.transpose_actions::<S>(Buffer::Output)),
        all_within(shape, shape.transpose_actions::<S>(Buffer::Weight)),
{
    let (n, p) = (shape.n, shape.p);
    let f = shape.forward_corrections();
    let t = shape.transpose_corrections();
    corrections_within::<S>(shape, f, Buffer::Input, p, Buffer::Output, n, f.len() as int);
    corrections_within::<S>(shape, f, Buffer::Weight, p, Buffer::Output, n, f.len() as int);
    corrections_within::<S>(shape, t, Buffer::Input, n, Buffer::Output, p, t.len() as int);
    corrections_within::<S>(shape, t, Buffer::Input, n, Buffer::Weight, p, t.len() as int);
}

/// Every action of every plan stays within the buffers of the device.
pub proof fn plans_stay_within_buffers<S: Scalar>(
    shape: DeviceShape,
    memory: Memory<S>,
    norm: S,
)
    requires
        shape.describes(memory),
    ensures
        memory.permits_all(shape.forward_actions(Buffer::Input)),
        memory.permits_all(shape.transpose_actions(Buffer::Output)),
        memory.permits_all(shape.weight_actions()),
        shape.describes(memory.after(shape.weight_actions())),
        memory.permits_all(shape.score_actions(norm)),
{
    products_within::<S>(shape);
    plan_is_permitted(shape, memory, shape.forward_actions(Buffer::Input));
    plan_is_permitted(shape, memory, shape.transpose_actions(Buffer::Output));
    plan_is_permitted(shape, memory, shape.weight_actions());
    plan_is_permitted(shape, memory, shape.score_actions(norm));
}

/// What the actions on a result do to its elements: one operation or two for each of the
/// first `len`, and nothing to the others.
pub proof fn actions_change_elements<S: Scalar>(
    memory: Memory<S>,
    source: Buffer,
    target: Buffer,
    len: usize,
    factor: S,
    i: int,
)
    requires
        target == Buffer::Output || target == Buffer::Weight,
        memory.holds(source, len),
        memory.holds(target, len),
        0 <= i < memory.buffer(target).len(),
    ensures
        ({
            let old = memory.buffer(target);
            let cleared = memory.performed(Action::Clear { target }).buffer(target);
            let added = memory.performed(Action::AddScaled { source, target, len }).buffer(target);
            let scaled = memory.performed(Action::Scale { factor, target, len }).buffer(target);
            &&& cleared.len() == old.len()
            &&& cleared[i] == S::spec_zero()
            &&& added.len() == old.len()
            &&& i < len ==> added[i] == old[i].spec_add(
                memory.scalar.spec_mul(memory.buffer(source)[i]),
            )
            &&& scaled.len() == old.len()
            &&& i < len ==> scaled[i] == factor.spec_mul(old[i])
            &&& i >= len ==> added[i] == old[i] && scaled[i] == old[i]
        }),
{
}

/// What the actions on the scalar leave in it.
pub proof fn actions_set_the_scalar<S: Scalar>(
    memory: Memory<S>,
    left: Buffer,
    right: Buffer,
    len: usize,
)
    ensures
        memory.performed(Action::Dot { left, right, len }).scalar == spec_dot(
            memory.buffer(left).take(len as int),
            memory.buffer(right).take(len as int),
        ),
        memory.performed(Action::Norm { of: left, len }).scalar == spec_dot(
            memory.buffer(left).take(len as int),
            memory.buffer(left).take(len as int),
        ).spec_sqrt(),
        memory.performed(Action::Negate).scalar == S::spec_one().spec_neg().spec_mul(
            memory.scalar,
        ),
{
}

/// What the two products with the sparse matrix leave in their result.
pub proof fn actions_multiply<S: Scalar>(
    memory: Memory<S>,
    input: Buffer,
    output: Buffer,
    input_len: usize,
    output_len: usize,
    i: int,
)
    requires
        output == Buffer::Output || output == Buffer::Weight,
        memory.holds(input, input_len),
        memory.holds(output, output_len),
        0 <= i < memory.buffer(output).len(),
    ensures
        ({
            let old = memory.buffer(output);
            let v = memory.buffer(input).take(input_len as int);
            let plain = BackendState {
                rows: memory.rows,
                mean: None,
                deflations: Seq::empty(),
            };
            let forward = memory.performed(
                Action::Multiply { input, output, input_len, output_len },
            ).buffer(output);
            let back = memory.performed(
                Action::MultiplyTransposed { input, output, input_len, output_len },
            ).buffer(output);
            &&& forward.len() == old.len()
            &&& back.len() == old.len()
            &&& i < output_len ==> forward[i] == sparse_dot(memory.rows[i], v)
            &&& i < output_len ==> back[i] == plain.transpose(v, output_len as nat)[i]
            &&& i >= output_len ==> forward[i] == old[i] && back[i] == old[i]
        }),
{
}

/// The number of corrections for the means.
pub open spec fn mean_corrections(shape: DeviceShape) -> int {
    if shape.centered {
        1
    } else {
        0
    }
}

/// The forward plan, for every number type: the product with the sparse matrix, then, by one
/// inner product, one negation and one scaled addition each, the correction for the means
/// and one for each deflation pair.  The result after each is returned; the last is what the
/// plan leaves in the output.
pub proof fn forward_plan_corrects_step_by_step<S: Scalar>(
    shape: DeviceShape,
    memory: Memory<S>,
    v: Buffer,
) -> (steps: Seq<Seq<S>>)
    requires
        shape.describes(memory),
        v == Buffer::Input || v == Buffer::Weight,
    ensures
        ({
            let operand = memory.buffer(v).take(shape.p as int);
            let first = mean_corrections(shape);
            let minus_one = S::spec_one().spec_neg();
            let end = memory.after(shape.forward_actions(v));
            &&& steps.len() == first + shape.deflations + 1
            &&& forall|k: int| 0 <= k < steps.len() ==> (#[trigger] steps[k]).len() == shape.n
            &&& forall|i: int|
                0 <= i < shape.n ==> #[trigger] steps[0][i] == sparse_dot(memory.rows[i], operand)
            &&& shape.centered ==> forall|i: int|
                0 <= i < shape.n ==> #[trigger] steps[1][i] == steps[0][i].spec_add(
                    minus_one.spec_mul(spec_dot(memory.mean, operand)).spec_mul(S::spec_one()),
                )
            &&& forall|k: int, i: int|
                0 <= k < shape.deflations && 0 <= i < shape.n ==> #[trigger] steps[first + k
                    + 1][i] == steps[first + k][i].spec_add(
                    minus_one.spec_mul(spec_dot(memory.loadings[k], operand)).spec_mul(
                        memory.scores[k][i],
                    ),
                )
            &&& end.output.take(shape.n as int) == steps.last()
            &&& end == (Memory { scalar: end.scalar, output: end.output, ..memory })
            &&& end.output.len() == memory.output.len()
        }),
{
    let (n, p) = (shape.n, shape.p);
    let c = shape.forward_corrections();
    let vv = memory.buffer(v).take(p as int);
    let clear = Action::<S>::Clear { target: Buffer::Output };
    let multiply = Action::<S>::Multiply {
        input: v,
        output: Buffer::Output,
        input_len: p,
        output_len: n,
    };
    let rest = corrections_actions::<S>(c, v, p, Buffer::Output, n, c.len() as int);
    plans_compose(memory, seq![clear, multiply], rest);
    product_starts(memory, clear, multiply);
    let start = memory.after(seq![clear, multiply]);
    let r = spec_spmv_forward(memory.rows, vv, n as nat);
    assert(start.output.take(n as int) =~= r);
    corrections_are_constant(shape);
    corrections_run(start, c, v, p, Buffer::Output, n, c.len() as int);
    corrected_reads_constants(memory, start, c, vv, r, c.len() as int);
    corrected_len(memory, c, vv, r, c.len() as int);
    let end = memory.after(shape.forward_actions(v));
    assert(end.output.take(n as int) =~= corrected(memory, c, vv, r, c.len() as int));
    let steps = Seq::new(c.len() + 1, |k: int| corrected(memory, c, vv, r, k));
    let first = mean_corrections(shape);
    assert forall|k: int| 0 <= k < steps.len() implies (#[trigger] steps[k]).len() == n by {
        corrected_len(memory, c, vv, r, k);
    }
    if shape.centered {
        assert(c[0] == (Correction { by: Buffer::Mean, along: Buffer::Ones }));
        assert(memory.mean.take(p as int) =~= memory.mean);
        assert(steps[0].len() == n);
        reveal_with_fuel(corrected, 2);
    }
    assert forall|k: int, i: int| 0 <= k < shape.deflations && 0 <= i < n implies
        #[trigger] steps[first + k + 1][i] == steps[first + k][i].spec_add(
        S::spec_one().spec_neg().spec_mul(spec_dot(memory.loadings[k], vv)).spec_mul(
            memory.scores[k][i],
        ),
    ) by {
        assert(c[first + k] == (Correction {
            by: Buffer::Loading(k as usize),
            along: Buffer::Score(k as usize),
        }));
        assert(memory.loadings[k].len() == p);
        assert(memory.loadings[k].take(p as int) =~= memory.loadings[k]);
        assert(steps[first + k].len() == n);
    }
    steps
}

/// The transposed plan, for every number type: the transposed product with the sparse
/// matrix, then the correction for the means and one for each deflation pair.  The result
/// after each is returned; the last is what the plan leaves in its target.
pub proof fn transposed_plan_corrects_step_by_step<S: Scalar>(
    shape: DeviceShape,
    memory: Memory<S>,
    target: Buffer,
) -> (steps: Seq<Seq<S>>)
    requires
        shape.describes(memory),
        target == Buffer::Output || target == Buffer::Weight,
    ensures
        ({
            let operand = memory.input.take(shape.n as int);
            let first = mean_corrections(shape);
            let minus_one = S::spec_one().spec_neg();
            let plain = BackendState {
                rows: memory.rows,
                mean: None,
                deflations: Seq::empty(),
            };
            let end = memory.after(shape.transpose_actions(target));
            &&& steps.len() == first + shape.deflations + 1
            &&& forall|k: int| 0 <= k < steps.len() ==> (#[trigger] steps[k]).len() == shape.p
            &&& steps[0] == plain.transpose(operand, shape.p as nat)
            &&& shape.centered ==> forall|j: int|
                0 <= j < shape.p ==> #[trigger] steps[1][j] == steps[0][j].spec_add(
                    minus_one.spec_mul(spec_dot(memory.ones, operand)).spec_mul(memory.mean[j]),
                )
            &&& forall|k: int, j: int|
                0 <= k < shape.deflations && 0 <= j < shape.p ==> #[trigger] steps[first + k
                    + 1][j] == steps[first + k][j].spec_add(
                    minus_one.spec_mul(spec_dot(memory.scores[k], operand)).spec_mul(
                        memory.loadings[k][j],
                    ),
                )
            &&& end.buffer(target).take(shape.p as int) == steps.last()
            &&& end.buffer(target).len() == memory.buffer(target).len()
            &&& end == (Memory { scalar: end.scalar, ..memory }).with(target, end.buffer(target))
        }),
{
    let (n, p) = (shape.n, shape.p);
    let c = shape.transpose_corrections();
    let vv = memory.input.take(n as int);
    let clear = Action::<S>::Clear { target };
    let multiply = Action::<S>::MultiplyTransposed {
        input: Buffer::Input,
        output: target,
        input_len: n,
        output_len: p,
    };
    let rest = corrections_actions::<S>(c, Buffer::Input, n, target, p, c.len() as int);
    plans_compose(memory, seq![clear, multiply], rest);
    product_starts(memory, clear, multiply);
    let start = memory.after(seq![clear, multiply]);
    let r = spec_spmv_transpose(memory.rows, vv, p as nat);
    assert(start.buffer(target).take(p as int) =~= r);
    corrections_are_constant(shape);
    corrections_run(start, c, Buffer::Input, n, target, p, c.len() as int);
    corrected_reads_constants(memory, start, c, vv, r, c.len() as int);
    corrected_len(memory, c, vv, r, c.len() as int);
    let end = memory.after(shape.transpose_actions(target));
    assert(end.buffer(target).take(p as int) =~= corrected(memory, c, vv, r, c.len() as int));
    let steps = Seq::new(c.len() + 1, |k: int| corrected(memory, c, vv, r, k));
    let first = mean_corrections(shape);
    assert forall|k: int| 0 <= k < steps.len() implies (#[trigger] steps[k]).len() == p by {
        corrected_len(memory, c, vv, r, k);
    }
    if shape.centered {
        assert(c[0] == (Correction { by: Buffer::Ones, along: Buffer::Mean }));
        assert(memory.ones.take(n as int) =~= memory.ones);
        assert(steps[0].len() == p);
        reveal_with_fuel(corrected, 2);
    }
    assert forall|k: int, j: int| 0 <= k < shape.deflations && 0 <= j < p implies
        #[trigger] steps[first + k + 1][j] == steps[first + k][j].spec_add(
        S::spec_one().spec_neg().spec_mul(spec_dot(memory.scores[k], vv)).spec_mul(
            memory.loadings[k][j],
        ),
    ) by {
        assert(c[first + k] == (Correction {
            by: Buffer::Score(k as usize),
            along: Buffer::Loading(k as usize),
        }));
        assert(memory.scores[k].len() == n);
        assert(memory.scores[k].take(n as int) =~= memory.scores[k]);
        assert(steps[first + k].len() == p);
    }
    steps
}

/// The plans of the fused step, for every number type.  The first is the transposed plan on
/// the weight vector, and leaves its norm.  The second multiplies the weight vector by one
/// over a positive norm, performs the forward plan on the result, and leaves the inner
/// product of the output with itself.
pub proof fn fused_plans_use_the_others<S: Scalar>(
    shape: DeviceShape,
    memory: Memory<S>,
    norm: S,
)
    requires
        shape.describes(memory),
    ensures
        ({
            let product = memory.after(shape.transpose_actions(Buffer::Weight));
            let middle = memory.after(shape.weight_actions());
            &&& middle == (Memory { scalar: spec_norm(product.weight), ..product })
        }),
        ({
            let factor = S::spec_one().spec_div(norm);
            let unit = if norm.spec_exceeds(S::spec_zero()) {
                Seq::new(shape.p as nat, |j: int| factor.spec_mul(memory.weight[j]))
            } else {
                memory.weight
            };
            let score = (Memory { weight: unit, ..memory }).after(
                shape.forward_actions(Buffer::Weight),
            );
            let t = score.output.take(shape.n as int);
            memory.after(shape.score_actions(norm)) == (Memory {
                scalar: spec_dot(t, t),
                ..score
            })
        }),
{
    let (n, p) = (shape.n, shape.p);
    let norm_action = Action::<S>::Norm { of: Buffer::Weight, len: p };
    let product = memory.after(shape.transpose_actions(Buffer::Weight));
    let _steps = transposed_plan_corrects_step_by_step(shape, memory, Buffer::Weight);
    assert(shape.weight_actions::<S>().drop_last() =~= shape.transpose_actions(Buffer::Weight));
    assert(shape.weight_actions::<S>().last() == norm_action);
    assert(product.weight.take(p as int) =~= product.weight);

    let dot_action = Action::<S>::Dot { left: Buffer::Output, right: Buffer::Output, len: n };
    let forward = shape.forward_actions::<S>(Buffer::Weight);
    let plan = shape.score_actions(norm);
    let normalize = plan.take(plan.len() - forward.len() - 1);
    let scale = Action::Scale {
        factor: S::spec_one().spec_div(norm),
        target: Buffer::Weight,
        len: p,
    };
    let ready = memory.after(normalize);
    if norm.spec_exceeds(S::spec_zero()) {
        let unit = Seq::new(
            p as nat,
            |j: int| S::spec_one().spec_div(norm).spec_mul(memory.weight[j]),
        );
        assert(normalize =~= seq![scale]);
        reveal_with_fuel(Memory::after, 2);
        assert(normalize.drop_last() =~= Seq::empty());
        assert(ready == memory.performed(scale));
        assert(memory.weight.take(p as int) =~= memory.weight);
        assert(ready.weight =~= unit);
        assert(ready == (Memory { weight: unit, ..memory }));
    } else {
        assert(normalize =~= Seq::empty());
        assert(ready == memory);
    }
    assert(plan.drop_last() =~= normalize + forward);
    assert(plan.last() == dot_action);
    plans_compose(memory, normalize, forward);
}

/// A scratch buffer holds the rows and the columns, and no more than the greater of both.
pub proof fn scratch_holds_both(n: usize, p: usize)
    ensures
        n <= spec_scratch_len(n, p),
        p <= spec_scratch_len(n, p),
        spec_scratch_len(n, p) == n || spec_scratch_len(n, p) == p,
{
}

} // verus!
