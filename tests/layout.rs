use llama_gpu::config::{Config, ConfigError, MAX_ELEMS};
use llama_gpu::dispatch::{BufRef, Dispatch};
use llama_gpu::launch::{linear_shape, tiled_shape};
use llama_gpu::layout::Buffer;
use llama_gpu::sequencer::{embed_token, layer_plan, logits_plan, PlanError};

fn cfg() -> Config {
    Config::new(288, 768, 6, 6, 32000, 256).unwrap()
}

#[test]
fn config_accepts_valid_sizes() {
    let c = cfg();
    assert_eq!(c.dim, 288);
    assert_eq!(c.head_size(), 48);
}

#[test]
fn config_rejects_zero() {
    assert_eq!(Config::new(0, 8, 1, 1, 4, 4).unwrap_err(), ConfigError::ZeroSize);
    assert_eq!(Config::new(8, 8, 1, 1, 4, 0).unwrap_err(), ConfigError::ZeroSize);
}

#[test]
fn config_rejects_heads_not_dividing_dim() {
    assert_eq!(Config::new(10, 8, 1, 3, 4, 4).unwrap_err(), ConfigError::HeadsDoNotDivideDim);
}

#[test]
fn config_rejects_oversized_buffers() {
    assert_eq!(Config::new(65536, 8, 1, 1, 4, 4).unwrap_err(), ConfigError::TooLarge);
    assert_eq!(Config::new(8, 8, 1, 1, MAX_ELEMS, 4).unwrap_err(), ConfigError::TooLarge);
    assert!(Config::new(1, 1, 1, 1, MAX_ELEMS, 1).is_ok());
}

#[test]
fn buffer_lengths() {
    let c = cfg();
    assert_eq!(c.buffer_len(Buffer::X), 288);
    assert_eq!(c.buffer_len(Buffer::Hb), 768);
    assert_eq!(c.buffer_len(Buffer::Att), 6 * 256);
    assert_eq!(c.buffer_len(Buffer::KeyCache), 6 * 256 * 288);
    assert_eq!(c.buffer_len(Buffer::Wq), 6 * 288 * 288);
    assert_eq!(c.buffer_len(Buffer::W2), 6 * 288 * 768);
    assert_eq!(c.buffer_len(Buffer::FreqReal), 256 * 24);
    assert_eq!(c.buffer_len(Buffer::Wcls), 32000 * 288);
}

#[test]
fn cache_slot_formula() {
    let c = cfg();
    assert_eq!(c.cache_slot(0, 0), 0);
    assert_eq!(c.cache_slot(2, 5), 2 * 256 * 288 + 5 * 288);
}

#[test]
fn linear_shape_rounds_up() {
    assert_eq!(linear_shape(0).grid_dim, (0, 1, 1));
    assert_eq!(linear_shape(1).grid_dim, (1, 1, 1));
    assert_eq!(linear_shape(1024).grid_dim, (1, 1, 1));
    assert_eq!(linear_shape(1025).grid_dim, (2, 1, 1));
    assert_eq!(linear_shape(5).block_dim, (1024, 1, 1));
}

#[test]
fn tiled_shape_beyond_one_tile() {
    let s = tiled_shape(288, 288);
    assert_eq!(s.grid_dim, (9, 9, 1));
    assert_eq!(s.block_dim, (32, 32, 1));
    assert_eq!(tiled_shape(33, 1).grid_dim, (1, 2, 1));
    assert_eq!(tiled_shape(2, 2).grid_dim, (1, 1, 1));
}

#[test]
fn fits_detects_out_of_range() {
    let c = cfg();
    let x = BufRef { buf: Buffer::X, offset: 0 };
    let late = BufRef { buf: Buffer::X, offset: 1 };
    assert!(Dispatch::array_add(x, x, 288).fits(&c));
    assert!(!Dispatch::array_add(late, x, 288).fits(&c));
    assert!(!Dispatch::rmsnorm(x, x, BufRef { buf: Buffer::RmsAtt, offset: 0 }, 6 * 288, 288)
        .fits(&c));
}

#[test]
fn layer_plan_errors() {
    let c = cfg();
    assert_eq!(layer_plan(&c, 6, 0).unwrap_err(), PlanError::LayerOutOfRange);
    assert_eq!(layer_plan(&c, 0, 256).unwrap_err(), PlanError::PositionOutOfRange);
    assert_eq!(embed_token(&c, 32000).unwrap_err(), PlanError::TokenOutOfRange);
}

#[test]
fn layer_plan_order_and_cache_slot() {
    let c = cfg();
    let plan = layer_plan(&c, 2, 7).unwrap();
    assert_eq!(plan.len(), 15);
    for d in &plan {
        assert!(d.fits(&c));
    }
    let slot = c.cache_slot(2, 7);
    match plan[2] {
        Dispatch::MatMul { out, a, .. } => {
            assert_eq!(out, BufRef { buf: Buffer::KeyCache, offset: slot });
            assert_eq!(a, BufRef { buf: Buffer::Wk, offset: 2 * 288 * 288 });
        }
        _ => panic!("key projection expected"),
    }
    assert_eq!(plan[5], Dispatch::multi_head_attention(&c, 2, 7));
    match plan[5] {
        Dispatch::MultiHeadAttention { layer, pos, head_size, .. } => {
            assert_eq!((layer, pos, head_size), (2, 7, 48));
        }
        _ => panic!("attention expected"),
    }
    let names: Vec<&str> = plan.iter().map(|d| d.kernel_name()).collect();
    assert_eq!(
        names,
        vec![
            "rmsnorm",
            "matmul",
            "matmul",
            "matmul",
            "apply_position",
            "multi_head_attention",
            "matmul",
            "array_add",
            "rmsnorm",
            "matmul",
            "matmul",
            "sinu",
            "array_mult",
            "matmul",
            "array_add",
        ]
    );
    assert_eq!(plan[1].shape().grid_dim, (1, 9, 1));
    assert_eq!(plan[9].shape().grid_dim, (1, 24, 1));
}

#[test]
fn embed_and_logits() {
    let c = cfg();
    assert_eq!(
        embed_token(&c, 3).unwrap(),
        Dispatch::copy_from_slice(
            BufRef { buf: Buffer::TokenEmbedding, offset: 3 * 288 },
            BufRef { buf: Buffer::X, offset: 0 },
            288
        )
    );
    let lp = logits_plan(&c);
    assert_eq!(lp.len(), 2);
    assert_eq!(lp[1].kernel_name(), "matmul");
    assert_eq!(lp[1].shape().grid_dim, (1, 1000, 1));
}
