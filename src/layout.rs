use vstd::prelude::*;
use crate::config::{lemma_head_size, Config, MAX_ELEMS};

verus! {

/// The device buffers of one run: activations, the key/value cache and the
/// model's weights. Kernels name a buffer by this handle and an element offset,
/// never by a device address.
#[derive(Clone, Copy, Debug, PartialEq, Eq, Hash, Structural)]
pub enum Buffer {
    /// Residual stream.
    X,
    /// Scratch of width `dim`.
    Xb,
    /// Second scratch of width `dim`.
    Xb2,
    /// Feed-forward scratch of width `hidden_dim`.
    Hb,
    /// Second feed-forward scratch.
    Hb2,
    /// Query of the current position.
    Q,
    /// Attention scores, `seq_len` per head.
    Att,
    Logits,
    KeyCache,
    ValueCache,
    TokenEmbedding,
    RmsAtt,
    Wq,
    Wk,
    Wv,
    Wo,
    RmsFfn,
    W1,
    W2,
    W3,
    RmsFinal,
    /// Rotation cosines, `head_size / 2` per position.
    FreqReal,
    /// Rotation sines, `head_size / 2` per position.
    FreqImag,
    Wcls,
}

/// Number of elements of each buffer.
pub open spec fn buffer_len(cfg: Config, b: Buffer) -> int {
    let dim = cfg.dim as int;
    let hidden = cfg.hidden_dim as int;
    let layers = cfg.n_layers as int;
    match b {
        Buffer::X | Buffer::Xb | Buffer::Xb2 | Buffer::Q | Buffer::RmsFinal => dim,
        Buffer::Hb | Buffer::Hb2 => hidden,
        Buffer::Att => cfg.n_heads * cfg.seq_len,
        Buffer::Logits => cfg.vocab_size as int,
        Buffer::KeyCache | Buffer::ValueCache => cache_len(cfg),
        Buffer::TokenEmbedding | Buffer::Wcls => cfg.vocab_size * dim,
        Buffer::RmsAtt | Buffer::RmsFfn => layers * dim,
        Buffer::Wq | Buffer::Wk | Buffer::Wv | Buffer::Wo => layers * (dim * dim),
        Buffer::W1 | Buffer::W3 => layers * (hidden * dim),
        Buffer::W2 => layers * (dim * hidden),
        Buffer::FreqReal | Buffer::FreqImag => cfg.seq_len * (cfg.spec_head_size() / 2),
    }
}

/// Elements of one of the two caches: `n_layers * seq_len * dim`.
pub open spec fn cache_len(cfg: Config) -> int {
    cfg.n_layers * (cfg.seq_len * cfg.dim)
}

/// Where cell `[layer][pos][head][off]` lies in a cache.
pub open spec fn cache_index(cfg: Config, layer: int, pos: int, head: int, off: int) -> int {
    layer * (cfg.seq_len * cfg.dim) + pos * cfg.dim + head * cfg.spec_head_size() + off
}

/// First cell of the vector that position `pos` of `layer` stores.
pub open spec fn cache_slot(cfg: Config, layer: int, pos: int) -> int {
    cache_index(cfg, layer, pos, 0, 0)
}

/// The layer that cache cell `j` belongs to.
pub open spec fn cache_layer_of(cfg: Config, j: int) -> int {
    j / (cfg.seq_len * cfg.dim)
}

/// The position that cache cell `j` belongs to.
pub open spec fn cache_pos_of(cfg: Config, j: int) -> int {
    (j % (cfg.seq_len * cfg.dim)) / cfg.dim as int
}

/// The head that cache cell `j` belongs to.
pub open spec fn cache_head_of(cfg: Config, j: int) -> int {
    (j % cfg.dim as int) / cfg.spec_head_size()
}

/// The offset within its head of cache cell `j`.
pub open spec fn cache_off_of(cfg: Config, j: int) -> int {
    (j % cfg.dim as int) % cfg.spec_head_size()
}

pub open spec fn valid_cell(cfg: Config, layer: int, pos: int, head: int, off: int) -> bool {
    &&& 0 <= layer < cfg.n_layers
    &&& 0 <= pos < cfg.seq_len
    &&& 0 <= head < cfg.n_heads
    &&& 0 <= off < cfg.spec_head_size()
}

/// Bounds on the products that buffer lengths are made of.
pub proof fn lemma_sizes(cfg: Config)
    requires
        cfg.wf(),
    ensures
        cfg.dim * cfg.dim <= cfg.n_layers * (cfg.dim * cfg.dim) <= MAX_ELEMS,
        cfg.n_layers * cfg.dim <= cfg.n_layers * (cfg.dim * cfg.dim),
        cfg.n_layers <= cfg.n_layers * cfg.dim,
        cfg.seq_len <= cfg.seq_len * cfg.dim,
        cfg.hidden_dim * cfg.dim <= cfg.n_layers * (cfg.hidden_dim * cfg.dim) <= MAX_ELEMS,
        cfg.dim * cfg.hidden_dim == cfg.hidden_dim * cfg.dim,
        cfg.seq_len * cfg.dim <= cache_len(cfg) <= MAX_ELEMS,
        cfg.vocab_size * cfg.dim <= MAX_ELEMS,
        cfg.vocab_size <= cfg.vocab_size * cfg.dim,
        cfg.n_heads * cfg.seq_len <= cfg.seq_len * cfg.dim,
        0 <= cfg.seq_len * (cfg.spec_head_size() / 2) <= cfg.seq_len * cfg.dim,
        cfg.dim <= cfg.seq_len * cfg.dim,
        cfg.hidden_dim <= cfg.hidden_dim * cfg.dim,
{
    lemma_head_size(cfg);
    let d = cfg.dim as int;
    let h = cfg.hidden_dim as int;
    let l = cfg.n_layers as int;
    let s = cfg.seq_len as int;
    let v = cfg.vocab_size as int;
    let n = cfg.n_heads as int;
    let hs = cfg.spec_head_size();
    assert(l * d * d == l * (d * d) && l * h * d == l * (h * d) && l * s * d == l * (s * d))
        by (nonlinear_arith);
    assert(1 * v * d == v * d);
    assert(s <= s * d && l <= l * d && d * d <= l * (d * d) && l * d <= l * (d * d) && h * d <= l * (h * d) && d * h == h * d
        && s * d <= l * (s * d) && v <= v * d && n * s <= s * d && d <= s * d && h <= h * d)
        by (nonlinear_arith)
        requires
            d >= 1,
            h >= 1,
            l >= 1,
            s >= 1,
            v >= 1,
            n <= d,
    ;
    assert(0 <= s * (hs / 2) <= s * d) by (nonlinear_arith)
        requires
            1 <= hs <= d,
            s >= 1,
    ;
}

/// A cell of a valid position lies inside that position's slot, which lies
/// inside the cache.
pub proof fn lemma_cache_index_in_bounds(cfg: Config, layer: int, pos: int, head: int, off: int)
    requires
        cfg.wf(),
        valid_cell(cfg, layer, pos, head, off),
    ensures
        0 <= cache_slot(cfg, layer, pos) <= cache_index(cfg, layer, pos, head, off),
        cache_index(cfg, layer, pos, head, off) < cache_slot(cfg, layer, pos) + cfg.dim,
        cache_slot(cfg, layer, pos) + cfg.dim <= cache_slot(cfg, layer, cfg.seq_len as int),
        cache_slot(cfg, layer, cfg.seq_len as int) <= cache_len(cfg),
{
    lemma_head_size(cfg);
    let d = cfg.dim as int;
    let s = cfg.seq_len as int;
    let l = cfg.n_layers as int;
    let hs = cfg.spec_head_size();
    assert(0 <= head * hs + off < d) by (nonlinear_arith)
        requires
            0 <= head < cfg.n_heads,
            0 <= off < hs,
            hs * cfg.n_heads == d,
    ;
    assert(0 <= pos * d && (pos + 1) * d <= s * d && pos * d + d == (pos + 1) * d)
        by (nonlinear_arith)
        requires
            0 <= pos < s,
            d >= 1,
    ;
    assert(0 <= layer * (s * d) && layer * (s * d) + s * d <= l * (s * d)) by (nonlinear_arith)
        requires
            0 <= layer < l,
            s * d >= 0,
    ;
}

/// A cell's coordinates are recovered from its index, so two distinct cells
/// never share an index.
pub proof fn lemma_cache_index_decode(cfg: Config, layer: int, pos: int, head: int, off: int)
    requires
        cfg.wf(),
        valid_cell(cfg, layer, pos, head, off),
    ensures
        cache_layer_of(cfg, cache_index(cfg, layer, pos, head, off)) == layer,
        cache_pos_of(cfg, cache_index(cfg, layer, pos, head, off)) == pos,
        cache_head_of(cfg, cache_index(cfg, layer, pos, head, off)) == head,
        cache_off_of(cfg, cache_index(cfg, layer, pos, head, off)) == off,
{
    lemma_head_size(cfg);
    lemma_cache_index_in_bounds(cfg, layer, pos, head, off);
    let d = cfg.dim as int;
    let s = cfg.seq_len as int;
    let hs = cfg.spec_head_size();
    let j = cache_index(cfg, layer, pos, head, off);
    let within_pos = head * hs + off;
    let within_layer = pos * d + within_pos;
    assert(0 <= within_pos < d);
    assert(0 <= within_layer < s * d) by (nonlinear_arith)
        requires
            within_layer == pos * d + within_pos,
            0 <= pos < s,
            0 <= within_pos < d,
    ;
    vstd::arithmetic::div_mod::lemma_fundamental_div_mod_converse(j, s * d, layer, within_layer);
    vstd::arithmetic::div_mod::lemma_fundamental_div_mod_converse(within_layer, d, pos, within_pos);
    vstd::arithmetic::div_mod::lemma_fundamental_div_mod_converse(within_pos, hs, head, off);
    // j % d == within_pos
    assert(j == (layer * s + pos) * d + within_pos) by (nonlinear_arith)
        requires
            j == layer * (s * d) + pos * d + within_pos,
    ;
    vstd::arithmetic::div_mod::lemma_fundamental_div_mod_converse(
        j,
        d,
        layer * s + pos,
        within_pos,
    );
}

/// Every cell of the span that holds positions `0..=pos` of `layer` belongs to
/// that layer and to a position no later than `pos`; those from the slot of
/// `pos` on belong to `pos` itself.
pub proof fn lemma_window_cells(cfg: Config, layer: int, pos: int, j: int)
    requires
        cfg.wf(),
        0 <= layer < cfg.n_layers,
        0 <= pos < cfg.seq_len,
        cache_slot(cfg, layer, 0) <= j < cache_slot(cfg, layer, 0) + (pos + 1) * cfg.dim,
    ensures
        cache_layer_of(cfg, j) == layer,
        cache_pos_of(cfg, j) <= pos,
        j >= cache_slot(cfg, layer, pos) ==> cache_pos_of(cfg, j) == pos,
{
    lemma_head_size(cfg);
    let d = cfg.dim as int;
    let s = cfg.seq_len as int;
    let r1 = j - layer * (s * d);
    assert(cache_slot(cfg, layer, 0) == layer * (s * d));
    assert(cache_slot(cfg, layer, pos) == layer * (s * d) + pos * d);
    assert((pos + 1) * d <= s * d) by (nonlinear_arith)
        requires
            0 <= pos < s,
            d >= 1,
    ;
    vstd::arithmetic::div_mod::lemma_fundamental_div_mod_converse(j, s * d, layer, r1);
    let q = r1 / d;
    vstd::arithmetic::div_mod::lemma_fundamental_div_mod(r1, d);
    assert(q <= pos) by (nonlinear_arith)
        requires
            r1 == d * q + r1 % d,
            0 <= r1 % d,
            r1 < (pos + 1) * d,
            d >= 1,
    ;
    if j >= cache_slot(cfg, layer, pos) {
        assert(q >= pos) by (nonlinear_arith)
            requires
                r1 == d * q + r1 % d,
                r1 % d < d,
                r1 >= pos * d,
                d >= 1,
        ;
    }
}

/// Write-once-per-cell: distinct valid cells occupy distinct cache indices.
pub proof fn lemma_cache_cells_distinct(
    cfg: Config,
    layer_a: int,
    pos_a: int,
    h1: int,
    o1: int,
    layer_b: int,
    pos_b: int,
    h2: int,
    o2: int,
)
    requires
        cfg.wf(),
        valid_cell(cfg, layer_a, pos_a, h1, o1),
        valid_cell(cfg, layer_b, pos_b, h2, o2),
        (layer_a, pos_a, h1, o1) != (layer_b, pos_b, h2, o2),
    ensures
        cache_index(cfg, layer_a, pos_a, h1, o1) != cache_index(cfg, layer_b, pos_b, h2, o2),
{
    lemma_cache_index_decode(cfg, layer_a, pos_a, h1, o1);
    lemma_cache_index_decode(cfg, layer_b, pos_b, h2, o2);
}

impl Config {
    /// Number of elements of buffer `b`.
    pub fn buffer_len(&self, b: Buffer) -> (r: usize)
        requires
            self.wf(),
        ensures
            r == buffer_len(*self, b),
            r <= MAX_ELEMS,
    {
        proof {
            lemma_sizes(*self);
        }
        match b {
            Buffer::X | Buffer::Xb | Buffer::Xb2 | Buffer::Q | Buffer::RmsFinal => self.dim,
            Buffer::Hb | Buffer::Hb2 => self.hidden_dim,
            Buffer::Att => self.n_heads * self.seq_len,
            Buffer::Logits => self.vocab_size,
            Buffer::KeyCache | Buffer::ValueCache => self.n_layers * (self.seq_len * self.dim),
            Buffer::TokenEmbedding | Buffer::Wcls => self.vocab_size * self.dim,
            Buffer::RmsAtt | Buffer::RmsFfn => self.n_layers * self.dim,
            Buffer::Wq | Buffer::Wk | Buffer::Wv | Buffer::Wo => self.n_layers * (self.dim
                * self.dim),
            Buffer::W1 | Buffer::W3 => self.n_layers * (self.hidden_dim * self.dim),
            Buffer::W2 => self.n_layers * (self.dim * self.hidden_dim),
            Buffer::FreqReal | Buffer::FreqImag => self.seq_len * (self.head_size() / 2),
        }
    }

    /// First cache index of the vector stored for `pos` in `layer`.
    pub fn cache_slot(&self, layer: usize, pos: usize) -> (r: usize)
        requires
            self.wf(),
            layer < self.n_layers,
            pos < self.seq_len,
        ensures
            r == cache_slot(*self, layer as int, pos as int),
            r + self.dim <= cache_len(*self),
    {
        proof {
            lemma_head_size(*self);
            lemma_sizes(*self);
            lemma_cache_index_in_bounds(*self, layer as int, pos as int, 0, 0);
        }
        layer * (self.seq_len * self.dim) + pos * self.dim
    }
}

} // verus!
