//! Plans for a device, performed on the host in exact arithmetic.
use sparse_olps::backend::cpu::CpuBackend;
use sparse_olps::backend::device::{device_indices, scratch_len, Action, Buffer, DeviceShape};
use sparse_olps::backend::select::{create_backend, create_backend_with, Backend, Selected};
use sparse_olps::backend::OplsBackend;
use sparse_olps::residue::Residue;
use sparse_olps::scalar::Scalar;
use sparse_olps::sparse::CsrMatrix;

fn r(v: u64) -> Residue {
    Residue::new(v)
}

fn residues(v: &[u64]) -> Vec<Residue> {
    v.iter().map(|&x| r(x)).collect()
}

/// A device whose memory is that of the host.
struct Device {
    x: CsrMatrix<Residue>,
    input: Vec<Residue>,
    output: Vec<Residue>,
    weight: Vec<Residue>,
    scalar: Residue,
    ones: Vec<Residue>,
    mean: Vec<Residue>,
    scores: Vec<Vec<Residue>>,
    loadings: Vec<Vec<Residue>>,
}

impl Device {
    fn buffer(&self, b: Buffer) -> &Vec<Residue> {
        match b {
            Buffer::Input => &self.input,
            Buffer::Output => &self.output,
            Buffer::Weight => &self.weight,
            Buffer::Ones => &self.ones,
            Buffer::Mean => &self.mean,
            Buffer::Score(k) => &self.scores[k],
            Buffer::Loading(k) => &self.loadings[k],
        }
    }

    fn result(&mut self, b: Buffer) -> &mut Vec<Residue> {
        match b {
            Buffer::Output => &mut self.output,
            Buffer::Weight => &mut self.weight,
            _ => panic!("{b:?} is not a result"),
        }
    }

    fn perform(&mut self, plan: &Vec<Action<Residue>>) {
        for action in plan {
            match action {
                Action::Clear { target } => {
                    self.result(*target).iter_mut().for_each(|v| *v = r(0));
                }
                Action::Multiply { input, output, input_len, output_len } => {
                    let v = self.buffer(*input)[..*input_len].to_vec();
                    let y = CpuBackend::new(&self.x).xeff_forward(&v, *output_len);
                    self.result(*output)[..*output_len].copy_from_slice(&y);
                }
                Action::MultiplyTransposed { input, output, input_len, output_len } => {
                    let v = self.buffer(*input)[..*input_len].to_vec();
                    let y = CpuBackend::new(&self.x).xeff_transpose(&v, *output_len);
                    self.result(*output)[..*output_len].copy_from_slice(&y);
                }
                Action::Dot { left, right, len } => {
                    let (a, b) = (&self.buffer(*left)[..*len], &self.buffer(*right)[..*len]);
                    self.scalar = a.iter().zip(b).fold(r(0), |s, (p, q)| s.add(p.mul(*q)));
                }
                Action::Negate => self.scalar = r(256).mul(self.scalar),
                Action::AddScaled { source, target, len } => {
                    let (s, v) = (self.scalar, self.buffer(*source)[..*len].to_vec());
                    for (t, q) in self.result(*target)[..*len].iter_mut().zip(v) {
                        *t = t.add(s.mul(q));
                    }
                }
                Action::Norm { of, len } => {
                    let v = &self.buffer(*of)[..*len];
                    self.scalar = v.iter().fold(r(0), |s, q| s.add(q.mul(*q))).sqrt();
                }
                Action::Scale { factor, target, len } => {
                    for t in self.result(*target)[..*len].iter_mut() {
                        *t = factor.mul(*t);
                    }
                }
            }
        }
    }
}

fn sample() -> CsrMatrix<Residue> {
    CsrMatrix::new(
        4,
        vec![0, 2, 2, 5],
        vec![0, 3, 1, 2, 3],
        residues(&[5, 7, 11, 13, 17]),
    )
    .unwrap()
}

#[test]
fn plans_compute_the_products_of_a_backend() {
    let (n, p) = (3, 4);
    for centered in [false, true] {
        for pairs in 0..3 {
            let mut cpu = CpuBackend::new(&sample());
            let mean = residues(&[1, 20, 3, 40]);
            let mut device = Device {
                x: sample(),
                input: vec![r(0); scratch_len(n, p)],
                output: vec![r(99); scratch_len(n, p)],
                weight: vec![r(99); p],
                scalar: r(0),
                ones: vec![r(1); n],
                mean: mean.clone(),
                scores: Vec::new(),
                loadings: Vec::new(),
            };
            if centered {
                cpu.set_mean(mean);
            }
            for k in 0..pairs {
                let (t, l) = (residues(&[k + 2, 9, 200]), residues(&[8, k, 30, 77]));
                cpu.push_deflation(t.clone(), l.clone());
                device.scores.push(t);
                device.loadings.push(l);
            }
            let shape = DeviceShape { n, p, centered, deflations: pairs as usize };

            let v = residues(&[3, 1, 4, 15]);
            device.input[..p].copy_from_slice(&v);
            device.perform(&shape.forward_plan());
            assert_eq!(device.output[..n].to_vec(), cpu.xeff_forward(&v, n));

            let u = residues(&[9, 2, 6]);
            device.input[..n].copy_from_slice(&u);
            device.perform(&shape.transpose_plan());
            assert_eq!(device.output[..p].to_vec(), cpu.xeff_transpose(&u, p));

            device.perform(&shape.nipals_weight_plan());
            let norm = device.scalar;
            device.perform(&shape.nipals_score_plan(norm));
            let (w, t, tt) = cpu.nipals_wt(&u, n, p);
            assert_eq!(device.weight, w);
            assert_eq!(device.output[..n].to_vec(), t);
            assert_eq!(device.scalar, tt);
        }
    }
}

#[test]
fn plans_list_their_actions() {
    let shape = DeviceShape { n: 3, p: 4, centered: true, deflations: 1 };
    let plan: Vec<Action<Residue>> = shape.forward_plan();
    let (input, output) = (Buffer::Input, Buffer::Output);
    assert_eq!(
        plan,
        vec![
            Action::Clear { target: output },
            Action::Multiply { input, output, input_len: 4, output_len: 3 },
            Action::Dot { left: Buffer::Mean, right: input, len: 4 },
            Action::Negate,
            Action::AddScaled { source: Buffer::Ones, target: output, len: 3 },
            Action::Dot { left: Buffer::Loading(0), right: input, len: 4 },
            Action::Negate,
            Action::AddScaled { source: Buffer::Score(0), target: output, len: 3 },
        ]
    );
    let plain = DeviceShape { n: 3, p: 4, centered: false, deflations: 0 };
    let weight: Vec<Action<Residue>> = plain.nipals_weight_plan();
    assert_eq!(
        weight,
        vec![
            Action::Clear { target: Buffer::Weight },
            Action::MultiplyTransposed {
                input,
                output: Buffer::Weight,
                input_len: 3,
                output_len: 4,
            },
            Action::Norm { of: Buffer::Weight, len: 4 },
        ]
    );
    // A weight vector without length is not scaled.
    assert_eq!(plain.nipals_score_plan(r(0)).len(), 3);
    assert_eq!(
        plain.nipals_score_plan(r(2))[0],
        Action::Scale { factor: r(129), target: Buffer::Weight, len: 4 }
    );
}

#[test]
fn device_indices_keep_the_lower_bits() {
    assert_eq!(device_indices(&vec![0, 7, i32::MAX as usize]), vec![0, 7, i32::MAX]);
    assert_eq!(device_indices(&vec![1 << 31, (1 << 32) + 5]), vec![i32::MIN, 5]);
}

#[test]
fn scratch_buffers_hold_both_operands() {
    assert_eq!(scratch_len(3, 4), 4);
    assert_eq!(scratch_len(5, 4), 5);
}

#[test]
fn the_gpu_is_selected_where_it_is_there_and_wanted() {
    let x = sample();
    assert!(matches!(create_backend(&x, Some("gpu")), Selected::Gpu("gpu")));
    assert!(matches!(create_backend(&x, None::<&str>), Selected::Cpu(_)));
    assert!(matches!(create_backend_with(&x, Backend::Auto, Some(1)), Selected::Gpu(1)));
    match create_backend_with(&x, Backend::Cpu, Some(1)) {
        Selected::Cpu(backend) => {
            assert_eq!(backend.num_deflation(), 0);
            assert_eq!(backend.xeff_forward(&residues(&[1, 1, 1, 1]), 3), residues(&[12, 0, 41]));
        }
        Selected::Gpu(_) => panic!("the host was asked for"),
    }
    assert!(Backend::Auto.tries_gpu() && !Backend::Cpu.tries_gpu());
}
