use vstd::prelude::*;
use crate::config::{lemma_head_size, Config};
use crate::dispatch::{
    attention_at, counts_ok, in_bounds, lemma_attention_in_bounds, reads, touches, writes, BufRef,
    Dispatch, Region,
};
use crate::layout::{
    cache_index, cache_layer_of, cache_pos_of, cache_slot, lemma_cache_index_in_bounds,
    buffer_len, lemma_sizes, lemma_window_cells, valid_cell, Buffer,
};

verus! {

/// Why a layer could not be sequenced.
#[derive(Clone, Copy, Debug, PartialEq, Eq, Structural)]
pub enum PlanError {
    /// The layer index is not below `n_layers`.
    LayerOutOfRange,
    /// The cache position is not below `seq_len`.
    PositionOutOfRange,
    /// The token is not below `vocab_size`.
    TokenOutOfRange,
}

pub open spec fn at(b: Buffer, offset: int) -> BufRef {
    BufRef { buf: b, offset: offset as usize }
}

/// `out = w * v` for a `rows` by `width` weight matrix `w` and a vector `v`.
pub open spec fn project(out: BufRef, w: BufRef, v: BufRef, rows: int, width: int) -> Dispatch {
    Dispatch::MatMul { out, a: w, b: v, width: width as u32, rows: rows as u32, cols: 1 }
}

/// The dispatches that run one transformer block, `layer`, at cache position
/// `pos`, in the order the device must run them.
pub open spec fn layer_plan_spec(cfg: Config, layer: int, pos: int) -> Seq<Dispatch> {
    let dim = cfg.dim as int;
    let hidden = cfg.hidden_dim as int;
    let hs = cfg.spec_head_size();
    let slot = cache_slot(cfg, layer, pos);
    let wl = layer * (dim * dim);
    let hl = layer * (hidden * dim);
    let x = at(Buffer::X, 0);
    let xb = at(Buffer::Xb, 0);
    seq![
        Dispatch::RmsNorm {
            out: xb,
            x,
            weight: at(Buffer::RmsAtt, 0),
            start: (layer * dim) as u32,
            n: dim as u32,
        },
        project(at(Buffer::Q, 0), at(Buffer::Wq, wl), xb, dim, dim),
        project(at(Buffer::KeyCache, slot), at(Buffer::Wk, wl), xb, dim, dim),
        project(at(Buffer::ValueCache, slot), at(Buffer::Wv, wl), xb, dim, dim),
        Dispatch::ApplyPosition {
            q: at(Buffer::Q, 0),
            k: at(Buffer::KeyCache, slot),
            pos_real: at(Buffer::FreqReal, pos * (hs / 2)),
            pos_img: at(Buffer::FreqImag, pos * (hs / 2)),
            n_heads: cfg.n_heads as u32,
            head_size: hs as u32,
        },
        attention_at(cfg, layer, pos),
        project(at(Buffer::Xb2, 0), at(Buffer::Wo, wl), xb, dim, dim),
        Dispatch::ArrayAdd { x, y: at(Buffer::Xb2, 0), n: dim as u32 },
        Dispatch::RmsNorm {
            out: xb,
            x,
            weight: at(Buffer::RmsFfn, 0),
            start: (layer * dim) as u32,
            n: dim as u32,
        },
        project(at(Buffer::Hb, 0), at(Buffer::W1, hl), xb, hidden, dim),
        project(at(Buffer::Hb2, 0), at(Buffer::W3, hl), xb, hidden, dim),
        Dispatch::Sinu { x: at(Buffer::Hb, 0), n: hidden as u32 },
        Dispatch::ArrayMult { x: at(Buffer::Hb, 0), y: at(Buffer::Hb2, 0), n: hidden as u32 },
        project(xb, at(Buffer::W2, layer * (dim * hidden)), at(Buffer::Hb, 0), dim, hidden),
        Dispatch::ArrayAdd { x, y: xb, n: dim as u32 },
    ]
}

/// Copies the embedding of `token` into the residual stream.
pub open spec fn embed_spec(cfg: Config, token: int) -> Dispatch {
    Dispatch::CopyFromSlice {
        src: at(Buffer::TokenEmbedding, token * cfg.dim),
        dest: at(Buffer::X, 0),
        n: cfg.dim as u32,
    }
}

/// The final normalisation of the residual stream, in place, and the
/// classifier projection into the logits.
pub open spec fn logits_plan_spec(cfg: Config) -> Seq<Dispatch> {
    seq![
        Dispatch::RmsNorm {
            out: at(Buffer::X, 0),
            x: at(Buffer::X, 0),
            weight: at(Buffer::RmsFinal, 0),
            start: 0,
            n: cfg.dim as u32,
        },
        project(
            at(Buffer::Logits, 0),
            at(Buffer::Wcls, 0),
            at(Buffer::X, 0),
            cfg.vocab_size as int,
            cfg.dim as int,
        ),
    ]
}

/// Either of the two caches.
pub open spec fn is_cache(b: Buffer) -> bool {
    b == Buffer::KeyCache || b == Buffer::ValueCache
}

/// Index of the attention dispatch within a layer's plan.
pub open spec fn attention_step() -> int {
    5
}

/// Block `l` of `n` blocks of `k` elements lies inside the whole.
proof fn lemma_row_block(l: int, n: int, k: int)
    by (nonlinear_arith)
    requires
        0 <= l < n,
        0 <= k,
    ensures
        0 <= l * k,
        l * k + k <= n * k,
{
}

/// Causal masking: the plan of `layer` at `pos` reads the key and value
/// caches only in cells of that layer at positions `0..=pos`.
pub proof fn lemma_attention_causal(cfg: Config, layer: int, pos: int)
    requires
        cfg.wf(),
        0 <= layer < cfg.n_layers,
        0 <= pos < cfg.seq_len,
    ensures
        forall|i: int, j: int|
            0 <= i < 15 && (#[trigger] touches(
                reads(layer_plan_spec(cfg, layer, pos)[i]),
                Buffer::KeyCache,
                j,
            ) || touches(reads(layer_plan_spec(cfg, layer, pos)[i]), Buffer::ValueCache, j))
                ==> cache_layer_of(cfg, j) == layer && cache_pos_of(cfg, j) <= pos,
{
    let plan = layer_plan_spec(cfg, layer, pos);
    lemma_layer_plan_in_bounds(cfg, layer, pos);
    assert forall|i: int, j: int|
        0 <= i < 15 && (#[trigger] touches(reads(plan[i]), Buffer::KeyCache, j) || touches(
            reads(plan[i]),
            Buffer::ValueCache,
            j,
        )) implies cache_layer_of(cfg, j) == layer && cache_pos_of(cfg, j) <= pos by {
        let rs = reads(plan[i]);
        let k = if touches(rs, Buffer::KeyCache, j) {
            choose|k: int|
                0 <= k < rs.len() && #[trigger] rs[k].0 == Buffer::KeyCache && rs[k].1 <= j < rs[k].1
                    + rs[k].2
        } else {
            choose|k: int|
                0 <= k < rs.len() && #[trigger] rs[k].0 == Buffer::ValueCache && rs[k].1 <= j
                    < rs[k].1 + rs[k].2
        };
        assert(is_cache(rs[k].0));
        lemma_window_cells(cfg, layer, pos, j);
    }
}


/// The attention step of the plan of `layer` at `pos` reads every key and
/// value cell of that layer at positions `0..=pos`.
pub proof fn lemma_attention_window_complete(cfg: Config, layer: int, pos: int)
    requires
        cfg.wf(),
        0 <= layer < cfg.n_layers,
        0 <= pos < cfg.seq_len,
    ensures
        forall|t: int, h: int, o: int|
            valid_cell(cfg, layer, t, h, o) && t <= pos ==> #[trigger] touches(
                reads(layer_plan_spec(cfg, layer, pos)[attention_step()]),
                Buffer::KeyCache,
                cache_index(cfg, layer, t, h, o),
            ) && touches(
                reads(layer_plan_spec(cfg, layer, pos)[attention_step()]),
                Buffer::ValueCache,
                cache_index(cfg, layer, t, h, o),
            ),
{
    let plan = layer_plan_spec(cfg, layer, pos);
    let dim = cfg.dim as int;
    lemma_layer_plan_in_bounds(cfg, layer, pos);
    lemma_head_size(cfg);
    lemma_sizes(cfg);
    let lo = cache_slot(cfg, layer, 0);
    assert(lo == layer * (cfg.seq_len * dim));
    lemma_cache_index_in_bounds(cfg, layer, pos, 0, 0);
    assert(cache_slot(cfg, layer, pos) + dim == lo + (pos + 1) * dim) by (nonlinear_arith)
        requires
            cache_slot(cfg, layer, pos) == lo + pos * dim,
    ;
    let att = reads(plan[5]);
    assert(att[1] == (Buffer::KeyCache, lo, (pos + 1) * dim));
    assert(att[2] == (Buffer::ValueCache, lo, (pos + 1) * dim));
    assert forall|t: int, h: int, o: int| valid_cell(cfg, layer, t, h, o) && t <= pos implies
        #[trigger] touches(
        reads(layer_plan_spec(cfg, layer, pos)[attention_step()]),
        Buffer::KeyCache,
        cache_index(cfg, layer, t, h, o),
    ) && touches(
        reads(layer_plan_spec(cfg, layer, pos)[attention_step()]),
        Buffer::ValueCache,
        cache_index(cfg, layer, t, h, o),
    ) by {
        let rs = reads(layer_plan_spec(cfg, layer, pos)[attention_step()]);
        lemma_cache_index_in_bounds(cfg, layer, t, h, o);
        assert(cache_slot(cfg, layer, t) == lo + t * dim);
        assert(cache_slot(cfg, layer, t) + dim <= lo + (pos + 1) * dim) by (nonlinear_arith)
            requires
                cache_slot(cfg, layer, t) == lo + t * dim,
                t <= pos,
                dim >= 1,
        ;
        let j = cache_index(cfg, layer, t, h, o);
        assert(rs[1].0 == Buffer::KeyCache && rs[1].1 <= j < rs[1].1 + rs[1].2);
        assert(rs[2].0 == Buffer::ValueCache && rs[2].1 <= j < rs[2].1 + rs[2].2);
        assert(touches(rs, Buffer::KeyCache, j));
        assert(touches(rs, Buffer::ValueCache, j));
    }
}

/// The plan of `layer` at `pos` writes the caches only in the slot of that
/// layer and position: the key cache by its projection and its rotation, the
/// value cache by its projection alone, all before the attention step.
pub proof fn lemma_cache_writes_confined(cfg: Config, layer: int, pos: int)
    requires
        cfg.wf(),
        0 <= layer < cfg.n_layers,
        0 <= pos < cfg.seq_len,
    ensures
        forall|i: int, j: int|
            0 <= i < 15 && #[trigger] touches(
                writes(layer_plan_spec(cfg, layer, pos)[i]),
                Buffer::KeyCache,
                j,
            ) ==> (i == 2 || i == 4) && i < attention_step() && cache_layer_of(cfg, j) == layer
                && cache_pos_of(cfg, j) == pos,
        forall|i: int, j: int|
            0 <= i < 15 && #[trigger] touches(
                writes(layer_plan_spec(cfg, layer, pos)[i]),
                Buffer::ValueCache,
                j,
            ) ==> i == 3 && i < attention_step() && cache_layer_of(cfg, j) == layer
                && cache_pos_of(cfg, j) == pos,
{
    let plan = layer_plan_spec(cfg, layer, pos);
    let dim = cfg.dim as int;
    lemma_layer_plan_in_bounds(cfg, layer, pos);
    lemma_head_size(cfg);
    lemma_cache_index_in_bounds(cfg, layer, pos, 0, 0);
    let lo = cache_slot(cfg, layer, 0);
    assert(cache_slot(cfg, layer, pos) + dim == lo + (pos + 1) * dim) by (nonlinear_arith)
        requires
            cache_slot(cfg, layer, pos) == lo + pos * dim,
    ;
    assert forall|i: int, j: int|
        0 <= i < 15 && #[trigger] touches(writes(plan[i]), Buffer::KeyCache, j) implies (i == 2
            || i == 4) && cache_layer_of(cfg, j) == layer && cache_pos_of(cfg, j) == pos by {
        let ws = writes(plan[i]);
        let k = choose|k: int|
            0 <= k < ws.len() && #[trigger] ws[k].0 == Buffer::KeyCache && ws[k].1 <= j < ws[k].1
                + ws[k].2;
        assert(is_cache(ws[k].0));
        lemma_window_cells(cfg, layer, pos, j);
    }
    assert forall|i: int, j: int|
        0 <= i < 15 && #[trigger] touches(writes(plan[i]), Buffer::ValueCache, j) implies i == 3
        && cache_layer_of(cfg, j) == layer && cache_pos_of(cfg, j) == pos by {
        let ws = writes(plan[i]);
        let k = choose|k: int|
            0 <= k < ws.len() && #[trigger] ws[k].0 == Buffer::ValueCache && ws[k].1 <= j < ws[k].1
                + ws[k].2;
        assert(is_cache(ws[k].0));
        lemma_window_cells(cfg, layer, pos, j);
    }
}


/// The projections of the plan of `layer` at `pos` write every cell of the
/// slot of that layer and position, in both caches.
pub proof fn lemma_cache_slot_written(cfg: Config, layer: int, pos: int)
    requires
        cfg.wf(),
        0 <= layer < cfg.n_layers,
        0 <= pos < cfg.seq_len,
    ensures
        forall|h: int, o: int|
            valid_cell(cfg, layer, pos, h, o) ==> #[trigger] touches(
                writes(layer_plan_spec(cfg, layer, pos)[2]),
                Buffer::KeyCache,
                cache_index(cfg, layer, pos, h, o),
            ) && touches(
                writes(layer_plan_spec(cfg, layer, pos)[3]),
                Buffer::ValueCache,
                cache_index(cfg, layer, pos, h, o),
            ),
{
    let plan = layer_plan_spec(cfg, layer, pos);
    lemma_layer_plan_in_bounds(cfg, layer, pos);
    lemma_head_size(cfg);
    lemma_sizes(cfg);
    assert(cfg.dim * 1 == cfg.dim);
    assert forall|h: int, o: int| valid_cell(cfg, layer, pos, h, o) implies #[trigger] touches(
        writes(layer_plan_spec(cfg, layer, pos)[2]),
        Buffer::KeyCache,
        cache_index(cfg, layer, pos, h, o),
    ) && touches(
        writes(layer_plan_spec(cfg, layer, pos)[3]),
        Buffer::ValueCache,
        cache_index(cfg, layer, pos, h, o),
    ) by {
        lemma_cache_index_in_bounds(cfg, layer, pos, h, o);
        let j = cache_index(cfg, layer, pos, h, o);
        let wk = writes(plan[2]);
        let wv = writes(plan[3]);
        assert(wk[0].0 == Buffer::KeyCache && wk[0].1 <= j < wk[0].1 + wk[0].2);
        assert(wv[0].0 == Buffer::ValueCache && wv[0].1 <= j < wv[0].1 + wv[0].2);
        assert(touches(wk, Buffer::KeyCache, j));
        assert(touches(wv, Buffer::ValueCache, j));
    }
}

/// Write-once-per-cell over a run: two plans for different layer/position
/// pairs never write the same cache cell.
pub proof fn lemma_plans_write_disjoint(
    cfg: Config,
    layer_a: int,
    pos_a: int,
    i1: int,
    layer_b: int,
    pos_b: int,
    i2: int,
    b: Buffer,
    j: int,
)
    requires
        cfg.wf(),
        0 <= layer_a < cfg.n_layers,
        0 <= pos_a < cfg.seq_len,
        0 <= layer_b < cfg.n_layers,
        0 <= pos_b < cfg.seq_len,
        0 <= i1 < 15,
        0 <= i2 < 15,
        b == Buffer::KeyCache || b == Buffer::ValueCache,
        touches(writes(layer_plan_spec(cfg, layer_a, pos_a)[i1]), b, j),
        touches(writes(layer_plan_spec(cfg, layer_b, pos_b)[i2]), b, j),
    ensures
        layer_a == layer_b && pos_a == pos_b,
{
    lemma_cache_writes_confined(cfg, layer_a, pos_a);
    lemma_cache_writes_confined(cfg, layer_b, pos_b);
}

/// Every dispatch of a layer's plan stays inside the run's buffers and has
/// counts that the kernels can index. Of the caches, its dispatches read only
/// the part of `layer` that holds positions `0..=pos`, and write only the slot
/// of `layer` and `pos`: the key cache at steps 2 and 4, the value cache at step 3.
pub proof fn lemma_layer_plan_in_bounds(cfg: Config, layer: int, pos: int)
    requires
        cfg.wf(),
        0 <= layer < cfg.n_layers,
        0 <= pos < cfg.seq_len,
    ensures
        layer_plan_spec(cfg, layer, pos).len() == 15,
        forall|i: int|
            0 <= i < 15 ==> in_bounds(cfg, #[trigger] layer_plan_spec(cfg, layer, pos)[i])
                && counts_ok(layer_plan_spec(cfg, layer, pos)[i]),
        forall|i: int, k: int|
            0 <= i < 15 && 0 <= k < reads(layer_plan_spec(cfg, layer, pos)[i]).len() && is_cache(
                #[trigger] reads(layer_plan_spec(cfg, layer, pos)[i])[k].0,
            ) ==> cache_slot(cfg, layer, 0) <= reads(layer_plan_spec(cfg, layer, pos)[i])[k].1
                && reads(layer_plan_spec(cfg, layer, pos)[i])[k].1 + reads(
                layer_plan_spec(cfg, layer, pos)[i],
            )[k].2 <= cache_slot(cfg, layer, 0) + (pos + 1) * cfg.dim,
        forall|i: int, k: int|
            0 <= i < 15 && 0 <= k < writes(layer_plan_spec(cfg, layer, pos)[i]).len() && is_cache(
                #[trigger] writes(layer_plan_spec(cfg, layer, pos)[i])[k].0,
            ) ==> writes(layer_plan_spec(cfg, layer, pos)[i])[k].1 == cache_slot(cfg, layer, pos)
                && writes(layer_plan_spec(cfg, layer, pos)[i])[k].2 == cfg.dim && (writes(
                layer_plan_spec(cfg, layer, pos)[i],
            )[k].0 == Buffer::KeyCache ==> i == 2 || i == 4) && (writes(
                layer_plan_spec(cfg, layer, pos)[i],
            )[k].0 == Buffer::ValueCache ==> i == 3),
{
    let plan = layer_plan_spec(cfg, layer, pos);
    let dim = cfg.dim as int;
    let hidden = cfg.hidden_dim as int;
    let hs = cfg.spec_head_size();
    lemma_head_size(cfg);
    lemma_sizes(cfg);
    lemma_cache_index_in_bounds(cfg, layer, pos, 0, 0);
    lemma_attention_in_bounds(cfg, layer, pos);
    lemma_row_block(layer, cfg.n_layers as int, dim * dim);
    lemma_row_block(layer, cfg.n_layers as int, hidden * dim);
    lemma_row_block(layer, cfg.n_layers as int, dim);
    lemma_row_block(pos, cfg.seq_len as int, hs / 2);
    vstd::arithmetic::mul::lemma_mul_is_commutative(hs, cfg.n_heads as int);
    assert(dim * 1 == dim && hidden * 1 == hidden);
    let lo = cache_slot(cfg, layer, 0);
    assert(lo == layer * (cfg.seq_len * dim));
    assert(cache_slot(cfg, layer, pos) + dim == lo + (pos + 1) * dim) by (nonlinear_arith)
        requires
            cache_slot(cfg, layer, pos) == lo + pos * dim,
    ;
    assert forall|i: int| 0 <= i < 15 implies in_bounds(cfg, #[trigger] plan[i]) && counts_ok(
        plan[i],
    ) by {
        crate::dispatch::lemma_regions_ok_split(cfg, reads(plan[i]));
        crate::dispatch::lemma_regions_ok_split(cfg, writes(plan[i]));
        if i == 0 {
        } else if i == 1 {
        } else if i == 2 {
        } else if i == 3 {
        } else if i == 4 {
        } else if i == 5 {
        } else if i == 6 {
        } else if i == 7 {
        } else if i == 8 {
        } else if i == 9 {
        } else if i == 10 {
        } else if i == 11 {
        } else if i == 12 {
        } else if i == 13 {
        } else if i == 14 {
        }
    }
    assert forall|i: int, k: int|
        0 <= i < 15 && 0 <= k < reads(plan[i]).len() && is_cache(
            #[trigger] reads(plan[i])[k].0,
        ) implies lo <= reads(plan[i])[k].1 && reads(plan[i])[k].1 + reads(plan[i])[k].2 <= lo + (
    pos + 1) * dim by {
        if i == 0 {
        } else if i == 1 {
        } else if i == 2 {
        } else if i == 3 {
        } else if i == 4 {
        } else if i == 5 {
        } else if i == 6 {
        } else if i == 7 {
        } else if i == 8 {
        } else if i == 9 {
        } else if i == 10 {
        } else if i == 11 {
        } else if i == 12 {
        } else if i == 13 {
        } else if i == 14 {
        }
        if k == 0 {
        } else if k == 1 {
        } else if k == 2 {
        } else if k == 3 {
        }
    }
    assert forall|i: int, k: int|
        0 <= i < 15 && 0 <= k < writes(plan[i]).len() && is_cache(
            #[trigger] writes(plan[i])[k].0,
        ) implies writes(plan[i])[k].1 == cache_slot(cfg, layer, pos) && writes(plan[i])[k].2 == dim
        && (writes(plan[i])[k].0 == Buffer::KeyCache ==> i == 2 || i == 4) && (writes(
        plan[i],
    )[k].0 == Buffer::ValueCache ==> i == 3) by {
        if i == 0 {
        } else if i == 1 {
        } else if i == 2 {
        } else if i == 3 {
        } else if i == 4 {
        } else if i == 5 {
        } else if i == 6 {
        } else if i == 7 {
        } else if i == 8 {
        } else if i == 9 {
        } else if i == 10 {
        } else if i == 11 {
        } else if i == 12 {
        } else if i == 13 {
        } else if i == 14 {
        }
        if k == 0 {
        } else if k == 1 {
        } else if k == 2 {
        } else if k == 3 {
        }
    }
}


/// The dispatches that run transformer block `layer` at cache position `pos`,
/// in order: attention-norm, query/key/value projections (the key and value
/// land in the cache slot of `layer` and `pos`), rotation, attention, output
/// projection and residual add, then the feed-forward block and its residual add.
pub fn layer_plan(cfg: &Config, layer: usize, pos: usize) -> (r: Result<Vec<Dispatch>, PlanError>)
    requires
        cfg.wf(),
    ensures
        layer >= cfg.n_layers ==> r == Err::<Vec<Dispatch>, PlanError>(PlanError::LayerOutOfRange),
        layer < cfg.n_layers && pos >= cfg.seq_len ==> r == Err::<Vec<Dispatch>, PlanError>(
            PlanError::PositionOutOfRange,
        ),
        layer < cfg.n_layers && pos < cfg.seq_len ==> r is Ok && r->Ok_0@ == layer_plan_spec(
            *cfg,
            layer as int,
            pos as int,
        ),
        r is Ok ==> forall|i: int|
            0 <= i < r->Ok_0@.len() ==> in_bounds(*cfg, #[trigger] r->Ok_0@[i]) && counts_ok(
                r->Ok_0@[i],
            ),
{
    if layer >= cfg.n_layers {
        return Err(PlanError::LayerOutOfRange);
    }
    if pos >= cfg.seq_len {
        return Err(PlanError::PositionOutOfRange);
    }
    proof {
        lemma_layer_plan_in_bounds(*cfg, layer as int, pos as int);
        lemma_head_size(*cfg);
        lemma_sizes(*cfg);
        lemma_row_block(layer as int, cfg.n_layers as int, cfg.dim as int);
        lemma_row_block(layer as int, cfg.n_layers as int, (cfg.dim * cfg.dim) as int);
        lemma_row_block(layer as int, cfg.n_layers as int, (cfg.hidden_dim * cfg.dim) as int);
        lemma_row_block(pos as int, cfg.seq_len as int, cfg.spec_head_size() / 2);
    }
    let dim = cfg.dim as u32;
    let hidden = cfg.hidden_dim as u32;
    let hs = cfg.head_size();
    let slot = cfg.cache_slot(layer, pos);
    let wl = layer * (cfg.dim * cfg.dim);
    let hl = layer * (cfg.hidden_dim * cfg.dim);
    let w2l = layer * (cfg.dim * cfg.hidden_dim);
    let norm_start = (layer * cfg.dim) as u32;
    let freq = pos * (hs / 2);
    let x = BufRef { buf: Buffer::X, offset: 0 };
    let xb = BufRef { buf: Buffer::Xb, offset: 0 };
    let q = BufRef { buf: Buffer::Q, offset: 0 };
    let k_slot = BufRef { buf: Buffer::KeyCache, offset: slot };
    let v_slot = BufRef { buf: Buffer::ValueCache, offset: slot };
    let xb2 = BufRef { buf: Buffer::Xb2, offset: 0 };
    let hb = BufRef { buf: Buffer::Hb, offset: 0 };
    let hb2 = BufRef { buf: Buffer::Hb2, offset: 0 };
    let mut plan: Vec<Dispatch> = Vec::new();
    plan.push(
        Dispatch::rmsnorm(xb, x, BufRef { buf: Buffer::RmsAtt, offset: 0 }, norm_start, dim),
    );
    plan.push(Dispatch::matmul2(q, BufRef { buf: Buffer::Wq, offset: wl }, xb, dim, dim, 1));
    plan.push(Dispatch::matmul2(k_slot, BufRef { buf: Buffer::Wk, offset: wl }, xb, dim, dim, 1));
    plan.push(Dispatch::matmul2(v_slot, BufRef { buf: Buffer::Wv, offset: wl }, xb, dim, dim, 1));
    plan.push(
        Dispatch::apply_position(
            q,
            k_slot,
            BufRef { buf: Buffer::FreqReal, offset: freq },
            BufRef { buf: Buffer::FreqImag, offset: freq },
            cfg.n_heads as u32,
            hs as u32,
        ),
    );
    plan.push(Dispatch::multi_head_attention(cfg, layer, pos));
    plan.push(Dispatch::matmul2(xb2, BufRef { buf: Buffer::Wo, offset: wl }, xb, dim, dim, 1));
    plan.push(Dispatch::array_add(x, xb2, dim));
    plan.push(
        Dispatch::rmsnorm(xb, x, BufRef { buf: Buffer::RmsFfn, offset: 0 }, norm_start, dim),
    );
    plan.push(Dispatch::matmul2(hb, BufRef { buf: Buffer::W1, offset: hl }, xb, dim, hidden, 1));
    plan.push(Dispatch::matmul2(hb2, BufRef { buf: Buffer::W3, offset: hl }, xb, dim, hidden, 1));
    plan.push(Dispatch::sinu(hb, hidden));
    plan.push(Dispatch::array_mult(hb, hb2, hidden));
    plan.push(Dispatch::matmul2(xb, BufRef { buf: Buffer::W2, offset: w2l }, hb, hidden, dim, 1));
    plan.push(Dispatch::array_add(x, xb, dim));
    assert(plan@ =~= layer_plan_spec(*cfg, layer as int, pos as int));
    Ok(plan)
}

/// Loads the embedding of `token` into the residual stream, the first step
/// of every position.
pub fn embed_token(cfg: &Config, token: usize) -> (r: Result<Dispatch, PlanError>)
    requires
        cfg.wf(),
    ensures
        token >= cfg.vocab_size ==> r == Err::<Dispatch, PlanError>(PlanError::TokenOutOfRange),
        token < cfg.vocab_size ==> r == Ok::<Dispatch, PlanError>(embed_spec(*cfg, token as int)),
        r is Ok ==> in_bounds(*cfg, r->Ok_0) && counts_ok(r->Ok_0),
{
    if token >= cfg.vocab_size {
        return Err(PlanError::TokenOutOfRange);
    }
    proof {
        lemma_sizes(*cfg);
        lemma_row_block(token as int, cfg.vocab_size as int, cfg.dim as int);
    }
    let d = Dispatch::copy_from_slice(
        BufRef { buf: Buffer::TokenEmbedding, offset: token * cfg.dim },
        BufRef { buf: Buffer::X, offset: 0 },
        cfg.dim as u32,
    );
    proof {
        crate::dispatch::lemma_regions_ok_split(*cfg, reads(d));
        crate::dispatch::lemma_regions_ok_split(*cfg, writes(d));
    }
    Ok(d)
}

/// The dispatches that turn the residual stream into logits once every layer
/// has run.
pub fn logits_plan(cfg: &Config) -> (r: Vec<Dispatch>)
    requires
        cfg.wf(),
    ensures
        r@ == logits_plan_spec(*cfg),
        forall|i: int| 0 <= i < r.len() ==> in_bounds(*cfg, #[trigger] r@[i]) && counts_ok(r@[i]),
{
    proof {
        lemma_sizes(*cfg);
    }
    let x = BufRef { buf: Buffer::X, offset: 0 };
    let dim = cfg.dim as u32;
    let mut plan: Vec<Dispatch> = Vec::new();
    plan.push(Dispatch::rmsnorm(x, x, BufRef { buf: Buffer::RmsFinal, offset: 0 }, 0, dim));
    plan.push(
        Dispatch::matmul2(
            BufRef { buf: Buffer::Logits, offset: 0 },
            BufRef { buf: Buffer::Wcls, offset: 0 },
            x,
            dim,
            cfg.vocab_size as u32,
            1,
        ),
    );
    proof {
        assert(plan@ =~= logits_plan_spec(*cfg));
        assert(cfg.dim * 1 == cfg.dim && cfg.vocab_size * 1 == cfg.vocab_size);
        assert(cfg.vocab_size * cfg.dim == buffer_len(*cfg, Buffer::Wcls));
        assert forall|i: int| 0 <= i < plan.len() implies in_bounds(*cfg, #[trigger] plan@[i])
            && counts_ok(plan@[i]) by {
            crate::dispatch::lemma_regions_ok_split(*cfg, reads(plan@[i]));
            crate::dispatch::lemma_regions_ok_split(*cfg, writes(plan@[i]));
        }
    }
    plan
}

} // verus!
