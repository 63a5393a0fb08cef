use vstd::prelude::*;
use crate::config::{lemma_head_size, Config, MAX_ELEMS};
use crate::launch::{linear, linear_shape, tiled, tiled_shape, LaunchShape};
use crate::layout::{buffer_len, cache_slot, lemma_cache_index_in_bounds, lemma_sizes, Buffer};

verus! {

/// A place in device memory: a buffer of the run and an element offset into it.
#[derive(Clone, Copy, Debug, PartialEq, Eq, Structural)]
pub struct BufRef {
    pub buf: Buffer,
    pub offset: usize,
}

/// A span of `len` elements of buffer `.0` from element `.1` on.
pub type Region = (Buffer, int, int);

/// One kernel invocation: which kernel of the library runs, on which buffers
/// and with which scalars.
#[derive(Clone, Copy, Debug, PartialEq, Eq, Structural)]
pub enum Dispatch {
    /// `out[r * cols + c] = sum over i of a[r * width + i] * b[i * cols + c]`.
    MatMul { out: BufRef, a: BufRef, b: BufRef, width: u32, rows: u32, cols: u32 },
    /// `dest[i] = src[i]` for `i < n`.
    CopyFromSlice { src: BufRef, dest: BufRef, n: u32 },
    /// `out[k] = weight[start + k] * x[k] / sqrt(mean(x^2) + 1e-5)` for `k < n`.
    RmsNorm { out: BufRef, x: BufRef, weight: BufRef, start: u32, n: u32 },
    /// Rotates each head's coordinate pairs of `q` and `k` by the angles of one
    /// position: `(a, b)` at `(2i, 2i + 1)` becomes
    /// `(a * cos - b * sin, a * sin + b * cos)` with `cos = pos_real[i]`, `sin = pos_img[i]`.
    ApplyPosition {
        q: BufRef,
        k: BufRef,
        pos_real: BufRef,
        pos_img: BufRef,
        n_heads: u32,
        head_size: u32,
    },
    /// Softmax of `arr[0..n]` in place.
    Softmax { arr: BufRef, n: u32 },
    /// Causal attention of every head over cache positions `0..=pos` of `layer`.
    MultiHeadAttention {
        xb: BufRef,
        att: BufRef,
        q: BufRef,
        key_cache: BufRef,
        value_cache: BufRef,
        layer: u32,
        dim: u32,
        pos: u32,
        head_size: u32,
        seq_len: u32,
        n_heads: u32,
    },
    /// `x[i] += y[i]` for `i < n`.
    ArrayAdd { x: BufRef, y: BufRef, n: u32 },
    /// `x[i] *= y[i]` for `i < n`.
    ArrayMult { x: BufRef, y: BufRef, n: u32 },
    /// `x[i] = x[i] * sigmoid(x[i])` for `i < n`.
    Sinu { x: BufRef, n: u32 },
}

pub open spec fn region(r: BufRef, start: int, len: int) -> Region {
    (r.buf, r.offset + start, len)
}

/// The attention scores of each head at positions `0..=pos`: head `h` keeps
/// its scores at `att[h * seq_len ..]`.
pub open spec fn score_spans(att: BufRef, n_heads: u32, seq_len: u32, pos: u32) -> Seq<Region> {
    Seq::new(n_heads as nat, |h: int| region(att, h * seq_len, pos + 1))
}

/// The spans of memory that a dispatch may read.
pub open spec fn reads(d: Dispatch) -> Seq<Region> {
    match d {
        Dispatch::MatMul { out, a, b, width, rows, cols } => seq![
            region(a, 0, rows * width),
            region(b, 0, width * cols),
        ],
        Dispatch::CopyFromSlice { src, dest, n } => seq![region(src, 0, n as int)],
        Dispatch::RmsNorm { out, x, weight, start, n } => seq![
            region(x, 0, n as int),
            region(weight, start as int, n as int),
        ],
        Dispatch::ApplyPosition { q, k, pos_real, pos_img, n_heads, head_size } => seq![
            region(q, 0, n_heads * head_size),
            region(k, 0, n_heads * head_size),
            region(pos_real, 0, head_size as int / 2),
            region(pos_img, 0, head_size as int / 2),
        ],
        Dispatch::Softmax { arr, n } => seq![region(arr, 0, n as int)],
        Dispatch::MultiHeadAttention {
            xb,
            att,
            q,
            key_cache,
            value_cache,
            layer,
            dim,
            pos,
            head_size,
            seq_len,
            n_heads,
        } => seq![
            region(q, 0, n_heads * head_size),
            region(key_cache, layer * (seq_len * dim), (pos + 1) * dim),
            region(value_cache, layer * (seq_len * dim), (pos + 1) * dim),
        ] + score_spans(att, n_heads, seq_len, pos),
        Dispatch::ArrayAdd { x, y, n } => seq![region(x, 0, n as int), region(y, 0, n as int)],
        Dispatch::ArrayMult { x, y, n } => seq![region(x, 0, n as int), region(y, 0, n as int)],
        Dispatch::Sinu { x, n } => seq![region(x, 0, n as int)],
    }
}

/// The spans of memory that a dispatch may write.
pub open spec fn writes(d: Dispatch) -> Seq<Region> {
    match d {
        Dispatch::MatMul { out, a, b, width, rows, cols } => seq![region(out, 0, rows * cols)],
        Dispatch::CopyFromSlice { src, dest, n } => seq![region(dest, 0, n as int)],
        Dispatch::RmsNorm { out, x, weight, start, n } => seq![region(out, 0, n as int)],
        Dispatch::ApplyPosition { q, k, pos_real, pos_img, n_heads, head_size } => seq![
            region(q, 0, n_heads * head_size),
            region(k, 0, n_heads * head_size),
        ],
        Dispatch::Softmax { arr, n } => seq![region(arr, 0, n as int)],
        Dispatch::MultiHeadAttention {
            xb,
            att,
            q,
            key_cache,
            value_cache,
            layer,
            dim,
            pos,
            head_size,
            seq_len,
            n_heads,
        } => seq![region(xb, 0, n_heads * head_size)] + score_spans(att, n_heads, seq_len, pos),
        Dispatch::ArrayAdd { x, y, n } => seq![region(x, 0, n as int)],
        Dispatch::ArrayMult { x, y, n } => seq![region(x, 0, n as int)],
        Dispatch::Sinu { x, n } => seq![region(x, 0, n as int)],
    }
}

/// Element `j` of buffer `b` lies in one of the spans.
pub open spec fn touches(rs: Seq<Region>, b: Buffer, j: int) -> bool {
    exists|k: int| 0 <= k < rs.len() && #[trigger] rs[k].0 == b && rs[k].1 <= j < rs[k].1 + rs[k].2
}

/// The span lies inside its buffer.
pub open spec fn region_ok(cfg: Config, r: Region) -> bool {
    0 <= r.1 && 0 <= r.2 && r.1 + r.2 <= buffer_len(cfg, r.0)
}

pub open spec fn regions_ok(cfg: Config, rs: Seq<Region>) -> bool {
    forall|k: int| 0 <= k < rs.len() ==> #[trigger] region_ok(cfg, rs[k])
}

/// Everything the dispatch reads or writes lies inside the buffers of `cfg`.
pub open spec fn in_bounds(cfg: Config, d: Dispatch) -> bool {
    regions_ok(cfg, reads(d)) && regions_ok(cfg, writes(d))
}

/// The launch shape of a dispatch: a tiled grid for a matrix multiply, one
/// lane for the kernels that reduce serially, one lane per element otherwise.
pub open spec fn shape_of(d: Dispatch) -> LaunchShape {
    match d {
        Dispatch::MatMul { rows, cols, .. } => tiled(rows as int, cols as int),
        Dispatch::CopyFromSlice { n, .. } => linear(n as int),
        Dispatch::RmsNorm { .. } => linear(1),
        Dispatch::ApplyPosition { head_size, .. } => linear(head_size as int / 2),
        Dispatch::Softmax { .. } => linear(1),
        Dispatch::MultiHeadAttention { .. } => linear(1),
        Dispatch::ArrayAdd { n, .. } => linear(n as int),
        Dispatch::ArrayMult { n, .. } => linear(n as int),
        Dispatch::Sinu { n, .. } => linear(n as int),
    }
}

/// The name under which the kernel of a dispatch is registered on the device.
pub open spec fn kernel_name(d: Dispatch) -> Seq<char> {
    match d {
        Dispatch::MatMul { .. } => "matmul"@,
        Dispatch::CopyFromSlice { .. } => "copy_from_slice"@,
        Dispatch::RmsNorm { .. } => "rmsnorm"@,
        Dispatch::ApplyPosition { .. } => "apply_position"@,
        Dispatch::Softmax { .. } => "softmax"@,
        Dispatch::MultiHeadAttention { .. } => "multi_head_attention"@,
        Dispatch::ArrayAdd { .. } => "array_add"@,
        Dispatch::ArrayMult { .. } => "array_mult"@,
        Dispatch::Sinu { .. } => "sinu"@,
    }
}

/// Every count and index scalar of the dispatch is within `MAX_ELEMS`, so the
/// kernels' 32-bit indexing holds it; a softmax has at least one element.
pub open spec fn counts_ok(d: Dispatch) -> bool {
    match d {
        Dispatch::MatMul { width, rows, cols, .. } => width <= MAX_ELEMS && rows <= MAX_ELEMS
            && cols <= MAX_ELEMS,
        Dispatch::CopyFromSlice { n, .. } => n <= MAX_ELEMS,
        Dispatch::RmsNorm { start, n, .. } => start <= MAX_ELEMS && n <= MAX_ELEMS,
        Dispatch::ApplyPosition { n_heads, head_size, .. } => n_heads <= MAX_ELEMS && head_size
            <= MAX_ELEMS,
        Dispatch::Softmax { n, .. } => 1 <= n <= MAX_ELEMS,
        Dispatch::MultiHeadAttention { layer, dim, pos, head_size, seq_len, n_heads, .. } => layer
            <= MAX_ELEMS && dim <= MAX_ELEMS && pos <= MAX_ELEMS && head_size <= MAX_ELEMS
            && seq_len <= MAX_ELEMS && n_heads <= MAX_ELEMS,
        Dispatch::ArrayAdd { n, .. } => n <= MAX_ELEMS,
        Dispatch::ArrayMult { n, .. } => n <= MAX_ELEMS,
        Dispatch::Sinu { n, .. } => n <= MAX_ELEMS,
    }
}

/// The attention dispatch of `layer` at cache position `pos`.
pub open spec fn attention_at(cfg: Config, layer: int, pos: int) -> Dispatch {
    Dispatch::MultiHeadAttention {
        xb: BufRef { buf: Buffer::Xb, offset: 0 },
        att: BufRef { buf: Buffer::Att, offset: 0 },
        q: BufRef { buf: Buffer::Q, offset: 0 },
        key_cache: BufRef { buf: Buffer::KeyCache, offset: 0 },
        value_cache: BufRef { buf: Buffer::ValueCache, offset: 0 },
        layer: layer as u32,
        dim: cfg.dim as u32,
        pos: pos as u32,
        head_size: cfg.spec_head_size() as u32,
        seq_len: cfg.seq_len as u32,
        n_heads: cfg.n_heads as u32,
    }
}

/// Whether the span `start .. start + len` of `r` lies inside its buffer.
fn region_fits(cfg: &Config, r: BufRef, start: u128, len: u128) -> (ok: bool)
    requires
        cfg.wf(),
        start <= u64::MAX,
        len <= u64::MAX,
    ensures
        ok == region_ok(*cfg, region(r, start as int, len as int)),
{
    let end = r.offset as u128 + start + len;
    end <= cfg.buffer_len(r.buf) as u128
}

/// `a * b`, exactly.
fn mul_wide(a: u32, b: u32) -> (r: u128)
    ensures
        r == a * b,
        r <= 0xffff_ffff * 0xffff_ffff,
{
    assert(a as u128 * b as u128 <= 0xffff_ffff * 0xffff_ffff) by (nonlinear_arith)
        requires
            a <= 0xffff_ffff,
            b <= 0xffff_ffff,
    ;
    a as u128 * b as u128
}

/// A short list of spans is in bounds exactly when each of them is.
pub proof fn lemma_regions_ok_split(cfg: Config, rs: Seq<Region>)
    ensures
        rs.len() == 1 ==> (regions_ok(cfg, rs) <==> region_ok(cfg, rs[0])),
        rs.len() == 2 ==> (regions_ok(cfg, rs) <==> region_ok(cfg, rs[0]) && region_ok(
            cfg,
            rs[1],
        )),
        rs.len() == 3 ==> (regions_ok(cfg, rs) <==> region_ok(cfg, rs[0]) && region_ok(
            cfg,
            rs[1],
        ) && region_ok(cfg, rs[2])),
        rs.len() == 4 ==> (regions_ok(cfg, rs) <==> region_ok(cfg, rs[0]) && region_ok(
            cfg,
            rs[1],
        ) && region_ok(cfg, rs[2]) && region_ok(cfg, rs[3])),
{
    if rs.len() == 4 && region_ok(cfg, rs[0]) && region_ok(cfg, rs[1]) && region_ok(cfg, rs[2])
        && region_ok(cfg, rs[3]) {
        assert forall|k: int| 0 <= k < rs.len() implies #[trigger] region_ok(cfg, rs[k]) by {
            if k == 0 {
            } else if k == 1 {
            } else if k == 2 {
            } else {
            }
        }
    }
    if rs.len() == 3 && region_ok(cfg, rs[0]) && region_ok(cfg, rs[1]) && region_ok(cfg, rs[2]) {
        assert forall|k: int| 0 <= k < rs.len() implies #[trigger] region_ok(cfg, rs[k]) by {
            if k == 0 {
            } else if k == 1 {
            } else {
            }
        }
    }
    if rs.len() == 2 && region_ok(cfg, rs[0]) && region_ok(cfg, rs[1]) {
        assert forall|k: int| 0 <= k < rs.len() implies #[trigger] region_ok(cfg, rs[k]) by {
            if k == 0 {
            } else {
            }
        }
    }
}

/// Two lists of spans are in bounds together exactly when each is.
pub proof fn lemma_regions_ok_concat(cfg: Config, a: Seq<Region>, b: Seq<Region>)
    ensures
        regions_ok(cfg, a + b) <==> regions_ok(cfg, a) && regions_ok(cfg, b),
{
    if regions_ok(cfg, a + b) {
        assert forall|k: int| 0 <= k < a.len() implies #[trigger] region_ok(cfg, a[k]) by {
            assert((a + b)[k] == a[k]);
        }
        assert forall|k: int| 0 <= k < b.len() implies #[trigger] region_ok(cfg, b[k]) by {
            assert((a + b)[k + a.len()] == b[k]);
        }
    }
    if regions_ok(cfg, a) && regions_ok(cfg, b) {
        assert forall|k: int| 0 <= k < (a + b).len() implies #[trigger] region_ok(cfg, (a + b)[k])
            by {
            if k < a.len() {
                assert((a + b)[k] == a[k]);
            } else {
                assert((a + b)[k] == b[k - a.len()]);
            }
        }
    }
}

/// The score spans of all heads are in bounds exactly when the last head's is.
pub proof fn lemma_score_spans_ok(cfg: Config, att: BufRef, n_heads: u32, seq_len: u32, pos: u32)
    ensures
        regions_ok(cfg, score_spans(att, n_heads, seq_len, pos)) <==> (n_heads == 0 || region_ok(
            cfg,
            region(att, (n_heads - 1) * seq_len, pos + 1),
        )),
{
    let rs = score_spans(att, n_heads, seq_len, pos);
    if n_heads > 0 {
        if regions_ok(cfg, rs) {
            assert(region_ok(cfg, rs[n_heads - 1]));
        }
        if region_ok(cfg, region(att, (n_heads - 1) * seq_len, pos + 1)) {
            assert forall|k: int| 0 <= k < rs.len() implies #[trigger] region_ok(cfg, rs[k]) by {
                assert(0 <= k * seq_len <= (n_heads - 1) * seq_len) by (nonlinear_arith)
                    requires
                        0 <= k <= n_heads - 1,
                        seq_len >= 0,
                ;
            }
        }
    }
}

/// The attention window of position `pos` ends inside the layer's part of the cache.
pub proof fn lemma_attention_in_bounds(cfg: Config, layer: int, pos: int)
    requires
        cfg.wf(),
        0 <= layer < cfg.n_layers,
        0 <= pos < cfg.seq_len,
    ensures
        in_bounds(cfg, attention_at(cfg, layer, pos)),
        counts_ok(attention_at(cfg, layer, pos)),
{
    lemma_head_size(cfg);
    lemma_sizes(cfg);
    lemma_cache_index_in_bounds(cfg, layer, pos, 0, 0);
    let d = attention_at(cfg, layer, pos);
    let dim = cfg.dim as int;
    let s = cfg.seq_len as int;
    assert((pos + 1) * dim <= s * dim) by (nonlinear_arith)
        requires
            0 <= pos < s,
            dim >= 1,
    ;
    assert(layer * (s * dim) + s * dim == cache_slot(cfg, layer, s));
    assert(layer <= MAX_ELEMS && pos <= MAX_ELEMS && s <= MAX_ELEMS && dim <= MAX_ELEMS);
    assert(cfg.spec_head_size() <= dim);
    vstd::arithmetic::mul::lemma_mul_is_commutative(cfg.spec_head_size(), cfg.n_heads as int);
    match d {
        Dispatch::MultiHeadAttention { layer: l, pos: p, dim: dm, seq_len: sl, head_size: hs, n_heads: nh, .. } => {
            assert(l == layer && p == pos && dm == dim && sl == s && hs == cfg.spec_head_size() && nh == cfg.n_heads);
        },
        _ => {},
    }
    let n = cfg.n_heads as int;
    assert((n - 1) * s + pos + 1 <= n * s) by (nonlinear_arith)
        requires
            0 <= pos < s,
            n >= 1,
    ;
    match d {
        Dispatch::MultiHeadAttention { xb, att, q, key_cache, value_cache, n_heads, seq_len, head_size, .. } => {
            let spans = score_spans(att, n_heads, seq_len, pos as u32);
            let head3 = seq![
                region(q, 0, n_heads * head_size),
                region(key_cache, layer * (seq_len * dim), (pos + 1) * dim),
                region(value_cache, layer * (seq_len * dim), (pos + 1) * dim),
            ];
            let head1 = seq![region(xb, 0, n_heads * head_size)];
            assert(reads(d) == head3 + spans);
            assert(writes(d) == head1 + spans);
            lemma_regions_ok_concat(cfg, head3, spans);
            lemma_regions_ok_concat(cfg, head1, spans);
            lemma_regions_ok_split(cfg, head3);
            lemma_regions_ok_split(cfg, head1);
            lemma_score_spans_ok(cfg, att, n_heads, seq_len, pos as u32);
        },
        _ => {},
    }
}

/// Element `j` of the scores is head `h`'s score of a position in `0..=pos`.
pub open spec fn score_cell(cfg: Config, h: int, pos: int, j: int) -> bool {
    h * cfg.seq_len <= j <= h * cfg.seq_len + pos
}

/// The attention dispatch of `layer` at `pos` writes only the output `Xb`
/// and, for each head `h`, the scores `att[h * seq_len + t]` with `t <= pos`:
/// the query, both caches and the scores of later positions stay as they were.
pub proof fn lemma_attention_writes(cfg: Config, layer: int, pos: int, b: Buffer, j: int)
    requires
        cfg.wf(),
        0 <= layer < cfg.n_layers,
        0 <= pos < cfg.seq_len,
        touches(writes(attention_at(cfg, layer, pos)), b, j),
    ensures
        (b == Buffer::Xb && 0 <= j < cfg.dim) || (b == Buffer::Att && exists|h: int|
            0 <= h < cfg.n_heads && #[trigger] score_cell(cfg, h, pos, j)),
{
    lemma_attention_in_bounds(cfg, layer, pos);
    lemma_head_size(cfg);
    vstd::arithmetic::mul::lemma_mul_is_commutative(cfg.spec_head_size(), cfg.n_heads as int);
    lemma_sizes(cfg);
    let ws = writes(attention_at(cfg, layer, pos));
    let att = BufRef { buf: Buffer::Att, offset: 0 };
    let spans = score_spans(att, cfg.n_heads as u32, cfg.seq_len as u32, pos as u32);
    assert(cfg.n_heads <= MAX_ELEMS && cfg.seq_len <= MAX_ELEMS && pos <= MAX_ELEMS);
    assert(ws == seq![region(BufRef { buf: Buffer::Xb, offset: 0 }, 0, cfg.dim as int)] + spans);
    let k = choose|k: int| 0 <= k < ws.len() && #[trigger] ws[k].0 == b && ws[k].1 <= j < ws[k].1 + ws[k].2;
    if k >= 1 {
        let h = k - 1;
        assert(ws[k] == spans[h]);
        assert(0 <= h < cfg.n_heads && score_cell(cfg, h, pos, j));
    }
}

impl Dispatch {
    /// Whether every count and index scalar is within `MAX_ELEMS`, and a
    /// softmax has at least one element.
    pub fn counts_fit(&self) -> (r: bool)
        ensures
            r == counts_ok(*self),
    {
        let m = MAX_ELEMS as u32;
        match *self {
            Dispatch::MatMul { width, rows, cols, .. } => width <= m && rows <= m && cols <= m,
            Dispatch::CopyFromSlice { n, .. } => n <= m,
            Dispatch::RmsNorm { start, n, .. } => start <= m && n <= m,
            Dispatch::ApplyPosition { n_heads, head_size, .. } => n_heads <= m && head_size <= m,
            Dispatch::Softmax { n, .. } => 1 <= n && n <= m,
            Dispatch::MultiHeadAttention { layer, dim, pos, head_size, seq_len, n_heads, .. } => {
                layer <= m && dim <= m && pos <= m && head_size <= m && seq_len <= m && n_heads <= m
            },
            Dispatch::ArrayAdd { n, .. } => n <= m,
            Dispatch::ArrayMult { n, .. } => n <= m,
            Dispatch::Sinu { n, .. } => n <= m,
        }
    }

    /// Launch shape of the dispatch.
    pub fn shape(&self) -> (r: LaunchShape)
        requires
            counts_ok(*self),
        ensures
            r == shape_of(*self),
    {
        match *self {
            Dispatch::MatMul { rows, cols, .. } => tiled_shape(rows, cols),
            Dispatch::CopyFromSlice { n, .. } => linear_shape(n),
            Dispatch::RmsNorm { .. } => linear_shape(1),
            Dispatch::ApplyPosition { head_size, .. } => linear_shape(head_size / 2),
            Dispatch::Softmax { .. } => linear_shape(1),
            Dispatch::MultiHeadAttention { .. } => linear_shape(1),
            Dispatch::ArrayAdd { n, .. } => linear_shape(n),
            Dispatch::ArrayMult { n, .. } => linear_shape(n),
            Dispatch::Sinu { n, .. } => linear_shape(n),
        }
    }

    /// Name of the kernel that runs the dispatch.
    pub fn kernel_name(&self) -> (r: &'static str)
        ensures
            r@ == kernel_name(*self),
    {
        match *self {
            Dispatch::MatMul { .. } => "matmul",
            Dispatch::CopyFromSlice { .. } => "copy_from_slice",
            Dispatch::RmsNorm { .. } => "rmsnorm",
            Dispatch::ApplyPosition { .. } => "apply_position",
            Dispatch::Softmax { .. } => "softmax",
            Dispatch::MultiHeadAttention { .. } => "multi_head_attention",
            Dispatch::ArrayAdd { .. } => "array_add",
            Dispatch::ArrayMult { .. } => "array_mult",
            Dispatch::Sinu { .. } => "sinu",
        }
    }

    /// `output[i] += inp[i]` for `i < n`.
    pub fn array_add(output: BufRef, inp: BufRef, n: u32) -> (r: Dispatch)
        ensures
            r == (Dispatch::ArrayAdd { x: output, y: inp, n }),
    {
        Dispatch::ArrayAdd { x: output, y: inp, n }
    }

    /// `output[i] *= inp[i]` for `i < n`.
    pub fn array_mult(output: BufRef, inp: BufRef, n: u32) -> (r: Dispatch)
        ensures
            r == (Dispatch::ArrayMult { x: output, y: inp, n }),
    {
        Dispatch::ArrayMult { x: output, y: inp, n }
    }

    /// SiLU activation of `output[0..n]` in place.
    pub fn sinu(output: BufRef, n: u32) -> (r: Dispatch)
        ensures
            r == (Dispatch::Sinu { x: output, n }),
    {
        Dispatch::Sinu { x: output, n }
    }

    /// `dest[i] = src[i]` for `i < n`.
    pub fn copy_from_slice(src: BufRef, dest: BufRef, n: u32) -> (r: Dispatch)
        ensures
            r == (Dispatch::CopyFromSlice { src, dest, n }),
    {
        Dispatch::CopyFromSlice { src, dest, n }
    }

    /// Normalises `x[0..n]` into `o`, scaled by `w[start..start + n]`.
    pub fn rmsnorm(o: BufRef, x: BufRef, w: BufRef, start: u32, n: u32) -> (r: Dispatch)
        ensures
            r == (Dispatch::RmsNorm { out: o, x, weight: w, start, n }),
    {
        Dispatch::RmsNorm { out: o, x, weight: w, start, n }
    }

    /// `o = a * b` for `a` of `o_rows` by `width` and `b` of `width` by `o_cols`.
    pub fn matmul2(o: BufRef, a: BufRef, b: BufRef, width: u32, o_rows: u32, o_cols: u32) -> (r:
        Dispatch)
        ensures
            r == (Dispatch::MatMul { out: o, a, b, width, rows: o_rows, cols: o_cols }),
    {
        Dispatch::MatMul { out: o, a, b, width, rows: o_rows, cols: o_cols }
    }

    /// Rotates the heads of `q` and `k` by the angles at `pos_real` and `pos_img`.
    pub fn apply_position(
        q: BufRef,
        k: BufRef,
        pos_real: BufRef,
        pos_img: BufRef,
        n_heads: u32,
        head_size: u32,
    ) -> (r: Dispatch)
        ensures
            r == (Dispatch::ApplyPosition { q, k, pos_real, pos_img, n_heads, head_size }),
    {
        Dispatch::ApplyPosition { q, k, pos_real, pos_img, n_heads, head_size }
    }

    /// Softmax of `arr[0..size]` in place.
    pub fn softmax(arr: BufRef, size: u32) -> (r: Dispatch)
        ensures
            r == (Dispatch::Softmax { arr, n: size }),
    {
        Dispatch::Softmax { arr, n: size }
    }

    /// Attention of every head of `Q` over cache positions `0..=pos` of
    /// `layer`, into `Xb`, with `Att` as scratch.
    pub fn multi_head_attention(cfg: &Config, layer: usize, pos: usize) -> (r: Dispatch)
        requires
            cfg.wf(),
            layer < cfg.n_layers,
            pos < cfg.seq_len,
        ensures
            r == attention_at(*cfg, layer as int, pos as int),
            in_bounds(*cfg, r),
            counts_ok(r),
    {
        proof {
            lemma_attention_in_bounds(*cfg, layer as int, pos as int);
            lemma_sizes(*cfg);
            lemma_head_size(*cfg);
        }
        Dispatch::MultiHeadAttention {
            xb: BufRef { buf: Buffer::Xb, offset: 0 },
            att: BufRef { buf: Buffer::Att, offset: 0 },
            q: BufRef { buf: Buffer::Q, offset: 0 },
            key_cache: BufRef { buf: Buffer::KeyCache, offset: 0 },
            value_cache: BufRef { buf: Buffer::ValueCache, offset: 0 },
            layer: layer as u32,
            dim: cfg.dim as u32,
            pos: pos as u32,
            head_size: cfg.head_size() as u32,
            seq_len: cfg.seq_len as u32,
            n_heads: cfg.n_heads as u32,
        }
    }
    /// Whether everything the dispatch reads or writes lies inside the buffers of `cfg`.
    pub fn fits(&self, cfg: &Config) -> (r: bool)
        requires
            cfg.wf(),
        ensures
            r == in_bounds(*cfg, *self),
    {
        let d = *self;
        let ghost rs = reads(d);
        let ghost ws = writes(d);
        proof {
            lemma_regions_ok_split(*cfg, rs);
            lemma_regions_ok_split(*cfg, ws);
        }
        match d {
            Dispatch::MatMul { out, a, b, width, rows, cols } => {
                                let r0 = region_fits(cfg, a, 0, mul_wide(rows, width));
                let r1 = region_fits(cfg, b, 0, mul_wide(width, cols));
                let w0 = region_fits(cfg, out, 0, mul_wide(rows, cols));
                r0 && r1 && w0
            },
            Dispatch::CopyFromSlice { src, dest, n } => {
                let r0 = region_fits(cfg, src, 0, n as u128);
                let w0 = region_fits(cfg, dest, 0, n as u128);
                r0 && w0
            },
            Dispatch::RmsNorm { out, x, weight, start, n } => {
                let r0 = region_fits(cfg, x, 0, n as u128);
                let r1 = region_fits(cfg, weight, start as u128, n as u128);
                let w0 = region_fits(cfg, out, 0, n as u128);
                r0 && r1 && w0
            },
            Dispatch::ApplyPosition { q, k, pos_real, pos_img, n_heads, head_size } => {
                let span = mul_wide(n_heads, head_size);
                let half = head_size as u128 / 2;
                let r0 = region_fits(cfg, q, 0, span);
                let r1 = region_fits(cfg, k, 0, span);
                let r2 = region_fits(cfg, pos_real, 0, half);
                let r3 = region_fits(cfg, pos_img, 0, half);
                r0 && r1 && r2 && r3
            },
            Dispatch::Softmax { arr, n } => {
                let r0 = region_fits(cfg, arr, 0, n as u128);
                r0
            },
            Dispatch::MultiHeadAttention {
                xb,
                att,
                q,
                key_cache,
                value_cache,
                layer,
                dim,
                pos,
                head_size,
                seq_len,
                n_heads,
            } => {
                let span = mul_wide(n_heads, head_size);
                let sd = mul_wide(seq_len, dim);
                let l = layer as u128;
                assert(l * sd <= 0xffff_ffff * 0xffff_ffff_ffff_ffff) by (nonlinear_arith)
                    requires
                        l <= 0xffff_ffff,
                        sd <= 0xffff_ffff_ffff_ffff,
                ;
                let layer_start = l * sd;
                let window = mul_wide(pos, dim) + dim as u128;
                assert(window == (pos + 1) * dim) by (nonlinear_arith)
                    requires
                        window == pos * dim + dim,
                ;
                let r0 = region_fits(cfg, q, 0, span);
                let in_cache = layer_start <= u64::MAX as u128;
                let r1 = in_cache && region_fits(cfg, key_cache, layer_start, window);
                let r2 = in_cache && region_fits(cfg, value_cache, layer_start, window);
                let r3 = n_heads == 0 || region_fits(
                    cfg,
                    att,
                    mul_wide(n_heads - 1, seq_len),
                    pos as u128 + 1,
                );
                let w1 = region_fits(cfg, xb, 0, span);
                proof {
                    if !in_cache {
                        lemma_sizes(*cfg);
                    }
                    let spans = score_spans(att, n_heads, seq_len, pos);
                    let head3 = seq![
                        region(q, 0, n_heads * head_size),
                        region(key_cache, layer * (seq_len * dim), (pos + 1) * dim),
                        region(value_cache, layer * (seq_len * dim), (pos + 1) * dim),
                    ];
                    let head1 = seq![region(xb, 0, n_heads * head_size)];
                    assert(rs == head3 + spans);
                    assert(ws == head1 + spans);
                    lemma_regions_ok_concat(*cfg, head3, spans);
                    lemma_regions_ok_concat(*cfg, head1, spans);
                    lemma_regions_ok_split(*cfg, head3);
                    lemma_regions_ok_split(*cfg, head1);
                    lemma_score_spans_ok(*cfg, att, n_heads, seq_len, pos);
                }
                r0 && r1 && r2 && r3 && w1
            },
            Dispatch::ArrayAdd { x, y, n } | Dispatch::ArrayMult { x, y, n } => {
                let r0 = region_fits(cfg, x, 0, n as u128);
                let r1 = region_fits(cfg, y, 0, n as u128);
                r0 && r1
            },
            Dispatch::Sinu { x, n } => {
                let r0 = region_fits(cfg, x, 0, n as u128);
                r0
            },
        }
    }
}

} // verus!
