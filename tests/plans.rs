// Runs plans on a host-side model of the device kernels.

use std::collections::HashMap;

use llama_gpu::config::Config;
use llama_gpu::dispatch::{BufRef, Dispatch};
use llama_gpu::layout::Buffer;

pub const ALL_BUFFERS: [Buffer; 24] = [
    Buffer::X,
    Buffer::Xb,
    Buffer::Xb2,
    Buffer::Hb,
    Buffer::Hb2,
    Buffer::Q,
    Buffer::Att,
    Buffer::Logits,
    Buffer::KeyCache,
    Buffer::ValueCache,
    Buffer::TokenEmbedding,
    Buffer::RmsAtt,
    Buffer::Wq,
    Buffer::Wk,
    Buffer::Wv,
    Buffer::Wo,
    Buffer::RmsFfn,
    Buffer::W1,
    Buffer::W2,
    Buffer::W3,
    Buffer::RmsFinal,
    Buffer::FreqReal,
    Buffer::FreqImag,
    Buffer::Wcls,
];

pub struct Memory {
    pub bufs: HashMap<Buffer, Vec<f32>>,
}

impl Memory {
    pub fn new(cfg: &Config) -> Memory {
        let mut bufs = HashMap::new();
        for b in ALL_BUFFERS {
            bufs.insert(b, vec![0.0f32; cfg.buffer_len(b)]);
        }
        Memory { bufs }
    }

    pub fn get(&self, r: BufRef, i: usize) -> f32 {
        self.bufs[&r.buf][r.offset + i]
    }

    pub fn set(&mut self, r: BufRef, i: usize, v: f32) {
        self.bufs.get_mut(&r.buf).unwrap()[r.offset + i] = v;
    }

    pub fn buf(&self, b: Buffer) -> &Vec<f32> {
        &self.bufs[&b]
    }

    pub fn fill(&mut self, b: Buffer, values: &[f32]) {
        let v = self.bufs.get_mut(&b).unwrap();
        v.copy_from_slice(values);
    }
}

fn softmax_in_place(m: &mut Memory, arr: BufRef, n: usize) {
    let mut max = m.get(arr, 0);
    for i in 1..n {
        max = max.max(m.get(arr, i));
    }
    let mut sum = 0.0f32;
    for i in 0..n {
        let e = (m.get(arr, i) - max).exp();
        m.set(arr, i, e);
        sum += e;
    }
    for i in 0..n {
        let v = m.get(arr, i) / sum;
        m.set(arr, i, v);
    }
}

pub fn run(m: &mut Memory, d: &Dispatch) {
    match *d {
        Dispatch::MatMul { out, a, b, width, rows, cols } => {
            for r in 0..rows as usize {
                for c in 0..cols as usize {
                    let mut sum = 0.0f32;
                    for i in 0..width as usize {
                        sum += m.get(a, r * width as usize + i) * m.get(b, i * cols as usize + c);
                    }
                    m.set(out, r * cols as usize + c, sum);
                }
            }
        }
        Dispatch::CopyFromSlice { src, dest, n } => {
            for i in 0..n as usize {
                let v = m.get(src, i);
                m.set(dest, i, v);
            }
        }
        Dispatch::RmsNorm { out, x, weight, start, n } => {
            let n = n as usize;
            let xs: Vec<f32> = (0..n).map(|i| m.get(x, i)).collect();
            let sum: f32 = xs.iter().map(|v| v * v).sum();
            let scale = 1.0 / ((sum / n as f32) + 0.00001).sqrt();
            for k in 0..n {
                let v = m.get(weight, start as usize + k) * scale * xs[k];
                m.set(out, k, v);
            }
        }
        Dispatch::ApplyPosition { q, k, pos_real, pos_img, n_heads, head_size } => {
            let hs = head_size as usize;
            for i in 0..hs / 2 {
                let cr = m.get(pos_real, i);
                let ci = m.get(pos_img, i);
                for h in 0..n_heads as usize {
                    for v in [q, k] {
                        let a = m.get(v, h * hs + 2 * i);
                        let b = m.get(v, h * hs + 2 * i + 1);
                        m.set(v, h * hs + 2 * i, a * cr - b * ci);
                        m.set(v, h * hs + 2 * i + 1, a * ci + b * cr);
                    }
                }
            }
        }
        Dispatch::Softmax { arr, n } => softmax_in_place(m, arr, n as usize),
        Dispatch::MultiHeadAttention {
            xb,
            att,
            q,
            key_cache,
            value_cache,
            layer,
            dim,
            pos,
            head_size,
            seq_len,
            n_heads,
        } => {
            let (dim, hs, sl) = (dim as usize, head_size as usize, seq_len as usize);
            let loff = layer as usize * sl * dim;
            for h in 0..n_heads as usize {
                let att_h = BufRef { buf: att.buf, offset: att.offset + h * sl };
                for t in 0..=pos as usize {
                    let koff = loff + t * dim + h * hs;
                    let mut sum = 0.0f32;
                    for i in 0..hs {
                        sum += m.get(q, h * hs + i) * m.get(key_cache, koff + i);
                    }
                    m.set(att_h, t, sum / (hs as f32).sqrt());
                }
                softmax_in_place(m, att_h, pos as usize + 1);
                for i in 0..hs {
                    m.set(xb, h * hs + i, 0.0);
                }
                for t in 0..=pos as usize {
                    let koff = loff + t * dim + h * hs;
                    let a = m.get(att_h, t);
                    for i in 0..hs {
                        let v = m.get(xb, h * hs + i) + a * m.get(value_cache, koff + i);
                        m.set(xb, h * hs + i, v);
                    }
                }
            }
        }
        Dispatch::ArrayAdd { x, y, n } => {
            for i in 0..n as usize {
                let v = m.get(x, i) + m.get(y, i);
                m.set(x, i, v);
            }
        }
        Dispatch::ArrayMult { x, y, n } => {
            for i in 0..n as usize {
                let v = m.get(x, i) * m.get(y, i);
                m.set(x, i, v);
            }
        }
        Dispatch::Sinu { x, n } => {
            for i in 0..n as usize {
                let v = m.get(x, i);
                m.set(x, i, v * (1.0 / (1.0 + (-v).exp())));
            }
        }
    }
}

fn matvec(w: &[f32], x: &[f32], rows: usize, width: usize) -> Vec<f32> {
    (0..rows).map(|r| (0..width).map(|i| w[r * width + i] * x[i]).sum()).collect()
}

fn rms(x: &[f32], w: &[f32]) -> Vec<f32> {
    let ss: f32 = x.iter().map(|v| v * v).sum();
    let scale = 1.0 / ((ss / x.len() as f32) + 0.00001).sqrt();
    x.iter().zip(w).map(|(a, b)| b * scale * a).collect()
}

fn tiny_model() -> (Config, Memory) {
    let cfg = Config::new(2, 2, 1, 1, 2, 3).unwrap();
    let mut m = Memory::new(&cfg);
    m.fill(Buffer::TokenEmbedding, &[0.5, -1.0, 2.0, 0.25]);
    m.fill(Buffer::RmsAtt, &[1.0, 0.5]);
    m.fill(Buffer::RmsFfn, &[0.75, 1.25]);
    m.fill(Buffer::Wq, &[1.0, 0.5, -0.5, 1.0]);
    m.fill(Buffer::Wk, &[0.25, 1.0, 1.0, -0.25]);
    m.fill(Buffer::Wv, &[2.0, 0.0, 0.5, 1.5]);
    m.fill(Buffer::Wo, &[1.0, -1.0, 0.5, 0.5]);
    m.fill(Buffer::W1, &[0.3, 0.7, -0.2, 0.9]);
    m.fill(Buffer::W3, &[1.1, -0.4, 0.6, 0.2]);
    m.fill(Buffer::W2, &[0.8, 0.1, -0.3, 0.5]);
    m.fill(Buffer::FreqReal, &[1.0, 0.6, 0.0]);
    m.fill(Buffer::FreqImag, &[0.0, 0.8, 1.0]);
    (cfg, m)
}

fn run_all(m: &mut Memory, plan: &[Dispatch]) {
    for d in plan {
        run(m, d);
    }
}

#[test]
fn layer_at_position_zero_matches_reference() {
    let (cfg, mut m) = tiny_model();
    run(&mut m, &llama_gpu::sequencer::embed_token(&cfg, 1).unwrap());
    let plan = llama_gpu::sequencer::layer_plan(&cfg, 0, 0).unwrap();
    run_all(&mut m, &plan);

    let w = |b: Buffer| m.buf(b).clone();
    let x0 = vec![2.0f32, 0.25];
    let xb = rms(&x0, &w(Buffer::RmsAtt));
    let v = matvec(&w(Buffer::Wv), &xb, 2, 2);
    // one cached position: the attention weights are [1], so the output is v
    let xb2 = matvec(&w(Buffer::Wo), &v, 2, 2);
    let x1: Vec<f32> = x0.iter().zip(&xb2).map(|(a, b)| a + b).collect();
    let xb = rms(&x1, &w(Buffer::RmsFfn));
    let hb = matvec(&w(Buffer::W1), &xb, 2, 2);
    let hb2 = matvec(&w(Buffer::W3), &xb, 2, 2);
    let act: Vec<f32> =
        hb.iter().zip(&hb2).map(|(a, b)| a * (1.0 / (1.0 + (-a).exp())) * b).collect();
    let out = matvec(&w(Buffer::W2), &act, 2, 2);
    let x2: Vec<f32> = x1.iter().zip(&out).map(|(a, b)| a + b).collect();

    for i in 0..2 {
        assert!((m.buf(Buffer::X)[i] - x2[i]).abs() < 1e-5);
    }
    // the value of position 0 sits in the slot of layer 0, position 0
    for i in 0..2 {
        assert!((m.buf(Buffer::ValueCache)[i] - v[i]).abs() < 1e-6);
    }
}

#[test]
fn attention_ignores_cache_beyond_position() {
    let (cfg, mut clean) = tiny_model();
    let (_, mut dirty) = tiny_model();
    // sentinels in position 2, which is not written before the step at position 1
    let slot = cfg.cache_slot(0, 2);
    for i in 0..2 {
        dirty.set(BufRef { buf: Buffer::KeyCache, offset: slot }, i, 1.0e6);
        dirty.set(BufRef { buf: Buffer::ValueCache, offset: slot }, i, -1.0e6);
    }
    for p in 0..2usize {
        let plan = llama_gpu::sequencer::layer_plan(&cfg, 0, p).unwrap();
        let embed = llama_gpu::sequencer::embed_token(&cfg, p).unwrap();
        for m in [&mut clean, &mut dirty] {
            run(m, &embed);
            run_all(m, &plan);
        }
    }
    assert_eq!(clean.buf(Buffer::X).clone(), dirty.buf(Buffer::X).clone());
    assert_eq!(clean.buf(Buffer::Xb).clone(), dirty.buf(Buffer::Xb).clone());
}

#[test]
fn attention_reads_written_positions() {
    let (cfg, mut m) = tiny_model();
    run(&mut m, &llama_gpu::sequencer::embed_token(&cfg, 0).unwrap());
    run_all(&mut m, &llama_gpu::sequencer::layer_plan(&cfg, 0, 0).unwrap());
    let first = m.buf(Buffer::ValueCache)[0..2].to_vec();
    run(&mut m, &llama_gpu::sequencer::embed_token(&cfg, 1).unwrap());
    run_all(&mut m, &llama_gpu::sequencer::layer_plan(&cfg, 0, 1).unwrap());
    // position 0 is never written again
    assert_eq!(m.buf(Buffer::ValueCache)[0..2].to_vec(), first);
    // position 1 has its own slot
    assert_ne!(m.buf(Buffer::ValueCache)[2..4].to_vec(), vec![0.0f32, 0.0]);
    // two scores were written for the single head
    let att = m.buf(Buffer::Att);
    assert!((att[0] + att[1] - 1.0).abs() < 1e-6);
}

#[test]
fn matmul_fixture() {
    let cfg = Config::new(6, 6, 1, 1, 6, 1).unwrap();
    let mut m = Memory::new(&cfg);
    m.fill(Buffer::X, &[1.0, 2.0, 3.0, 4.0, 5.0, 6.0]);
    m.fill(Buffer::Xb, &[1.0, 2.0, 3.0, 4.0, 5.0, 6.0]);
    let d = Dispatch::matmul2(
        BufRef { buf: Buffer::Xb2, offset: 0 },
        BufRef { buf: Buffer::X, offset: 0 },
        BufRef { buf: Buffer::Xb, offset: 0 },
        3,
        2,
        2,
    );
    assert!(d.fits(&cfg));
    run(&mut m, &d);
    assert_eq!(m.buf(Buffer::Xb2)[0..4].to_vec(), vec![22.0f32, 28.0, 49.0, 64.0]);
    let shape = d.shape();
    assert_eq!(shape.grid_dim, (1, 1, 1));
    assert_eq!(shape.block_dim, (32, 32, 1));
    assert_eq!(d.kernel_name(), "matmul");
}

#[test]
fn softmax_fixture() {
    let cfg = Config::new(6, 6, 1, 1, 6, 1).unwrap();
    let mut m = Memory::new(&cfg);
    m.fill(Buffer::X, &[1.0, 2.0, 3.0, 4.0, 5.0, 6.0]);
    let d = Dispatch::softmax(BufRef { buf: Buffer::X, offset: 0 }, 6);
    assert!(d.fits(&cfg));
    run(&mut m, &d);
    let expected = [0.0042697787f32, 0.011606461, 0.031549633, 0.085760795, 0.23312204, 0.6336913];
    let out = m.buf(Buffer::X);
    for i in 0..6 {
        assert!(out[i] >= 0.0);
        assert!((out[i] - expected[i]).abs() < f32::EPSILON);
    }
    assert!((out.iter().sum::<f32>() - 1.0).abs() < 1e-6);
    assert_eq!(d.kernel_name(), "softmax");
    assert!(d.counts_fit());
    let empty = Dispatch::softmax(BufRef { buf: Buffer::X, offset: 0 }, 0);
    assert!(!empty.counts_fit());
    assert_eq!(d.shape().grid_dim, (1, 1, 1));
}

#[test]
fn elementwise_matches_scalar() {
    let cfg = Config::new(4, 4, 1, 1, 4, 1).unwrap();
    let mut m = Memory::new(&cfg);
    let a = [1.5f32, -2.0, 0.25, 3.0];
    let b = [0.5f32, 4.0, -1.0, 2.5];
    let x = BufRef { buf: Buffer::X, offset: 0 };
    let y = BufRef { buf: Buffer::Xb, offset: 0 };
    m.fill(Buffer::X, &a);
    m.fill(Buffer::Xb, &b);
    run(&mut m, &Dispatch::array_add(x, y, 4));
    let sum: Vec<f32> = a.iter().zip(&b).map(|(p, q)| p + q).collect();
    assert_eq!(m.buf(Buffer::X).clone(), sum);
    run(&mut m, &Dispatch::array_mult(x, y, 4));
    let prod: Vec<f32> = sum.iter().zip(&b).map(|(p, q)| p * q).collect();
    assert_eq!(m.buf(Buffer::X).clone(), prod);
    run(&mut m, &Dispatch::sinu(x, 4));
    let act: Vec<f32> = prod.iter().map(|v| v * (1.0 / (1.0 + (-v).exp()))).collect();
    assert_eq!(m.buf(Buffer::X).clone(), act);
}

#[test]
fn rmsnorm_scales_by_weight_and_guards_zero() {
    let cfg = Config::new(4, 4, 1, 1, 4, 1).unwrap();
    let mut m = Memory::new(&cfg);
    let x = [1.0f32, -2.0, 3.0, 0.5];
    let w = [0.5f32, 1.0, 2.0, -1.0];
    m.fill(Buffer::X, &x);
    m.fill(Buffer::RmsFinal, &w);
    let out = BufRef { buf: Buffer::Xb, offset: 0 };
    let d = Dispatch::rmsnorm(out, BufRef { buf: Buffer::X, offset: 0 }, BufRef { buf: Buffer::RmsFinal, offset: 0 }, 0, 4);
    assert!(d.fits(&cfg));
    run(&mut m, &d);
    let rms = ((1.0f32 + 4.0 + 9.0 + 0.25) / 4.0 + 0.00001).sqrt();
    for k in 0..4 {
        assert!((m.buf(Buffer::Xb)[k] - w[k] * x[k] / rms).abs() < 1e-6);
    }
    m.fill(Buffer::X, &[0.0; 4]);
    run(&mut m, &d);
    assert!(m.buf(Buffer::Xb).iter().all(|v| *v == 0.0));
}
