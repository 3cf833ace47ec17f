//! The choice of a backend.
use super::cpu::CpuBackend;
use super::{BackendState, OplsBackend};
use crate::scalar::Scalar;
use crate::sparse::CsrMatrix;
use vstd::prelude::*;

verus! {

/// Backend selection for fit and predict.
#[derive(Clone, Copy, Debug, PartialEq, Eq, Structural)]
pub enum Backend {
    /// Automatically select the GPU if available, otherwise the CPU.
    Auto,
    /// Force the CPU backend.
    Cpu,
}

impl Backend {
    /// Is the GPU to be tried?
    pub fn tries_gpu(self) -> (r: bool)
        ensures
            r == (self != Backend::Cpu),
    {
        self != Backend::Cpu
    }
}

/// A selected backend.  `G` is whatever stands for the GPU.
pub enum Selected<S, G> {
    Gpu(G),
    Cpu(CpuBackend<S>),
}

/// What a backend holds at first: the matrix, and neither means nor deflation pairs.
pub open spec fn initial_state<S>(x_sp: &CsrMatrix<S>) -> BackendState<S> {
    BackendState { rows: x_sp@, mean: None, deflations: Seq::empty() }
}

/// Creates the best available backend for a sparse matrix.  `gpu` is the backend on the
/// GPU, where one could be set up.
pub fn create_backend<S: Scalar, G>(x_sp: &CsrMatrix<S>, gpu: Option<G>) -> (r: Selected<S, G>)
    requires
        x_sp.wf(),
    ensures
        match gpu {
            Some(g) => r == Selected::<S, G>::Gpu(g),
            None => r matches Selected::Cpu(c) && c.wf() && c.state() == initial_state(x_sp),
        },
{
    create_backend_with(x_sp, Backend::Auto, gpu)
}

/// Creates a backend with explicit selection.  `gpu` is the backend on the GPU, where one
/// could be set up.
pub fn create_backend_with<S: Scalar, G>(
    x_sp: &CsrMatrix<S>,
    choice: Backend,
    gpu: Option<G>,
) -> (r: Selected<S, G>)
    requires
        x_sp.wf(),
    ensures
        choice != Backend::Cpu && gpu is Some ==> r == Selected::<S, G>::Gpu(gpu->0),
        choice == Backend::Cpu || gpu is None ==> (r matches Selected::Cpu(c) && c.wf()
            && c.state() == initial_state(x_sp)),
{
    if choice.tries_gpu() {
        if let Some(g) = gpu {
            return Selected::Gpu(g);
        }
    }
    Selected::Cpu(CpuBackend::new(x_sp))
}

} // verus!
