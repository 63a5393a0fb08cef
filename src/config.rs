use vstd::prelude::*;

verus! {

/// Largest element count of any device buffer: the kernels index with a
/// signed 32-bit integer.
pub const MAX_ELEMS: usize = 0x7fff_ffff;

/// The shape of the model, fixed for a whole run.
#[derive(Clone, Copy, Debug)]
pub struct Config {
    /// Hidden width of the residual stream.
    pub dim: usize,
    /// Width of the feed-forward block.
    pub hidden_dim: usize,
    pub n_layers: usize,
    pub n_heads: usize,
    pub vocab_size: usize,
    /// Longest sequence the key/value cache can hold.
    pub seq_len: usize,
}

/// Why a configuration was refused.
#[derive(Clone, Copy, Debug, PartialEq, Eq, Structural)]
pub enum ConfigError {
    /// One of the sizes is zero.
    ZeroSize,
    /// `dim` is not a multiple of `n_heads`.
    HeadsDoNotDivideDim,
    /// Some device buffer would hold more than `MAX_ELEMS` elements.
    TooLarge,
}

pub open spec fn fits3(a: int, b: int, c: int) -> bool {
    a * b * c <= MAX_ELEMS
}

/// The first rule that the given sizes break, if any.
pub open spec fn config_check(
    dim: int,
    hidden_dim: int,
    n_layers: int,
    n_heads: int,
    vocab_size: int,
    seq_len: int,
) -> Option<ConfigError> {
    if dim == 0 || hidden_dim == 0 || n_layers == 0 || n_heads == 0 || vocab_size == 0 || seq_len
        == 0 {
        Some(ConfigError::ZeroSize)
    } else if dim % n_heads != 0 {
        Some(ConfigError::HeadsDoNotDivideDim)
    } else if !(fits3(n_layers, dim, dim) && fits3(n_layers, hidden_dim, dim) && fits3(
        n_layers,
        seq_len,
        dim,
    ) && fits3(1, vocab_size, dim)) {
        Some(ConfigError::TooLarge)
    } else {
        None
    }
}

impl Config {
    /// The sizes are accepted: every buffer fits and heads split `dim` evenly.
    pub open spec fn wf(&self) -> bool {
        config_check(
            self.dim as int,
            self.hidden_dim as int,
            self.n_layers as int,
            self.n_heads as int,
            self.vocab_size as int,
            self.seq_len as int,
        ) is None
    }

    pub open spec fn spec_head_size(&self) -> int {
        self.dim as int / self.n_heads as int
    }

    /// Checks the sizes and builds the configuration.
    pub fn new(
        dim: usize,
        hidden_dim: usize,
        n_layers: usize,
        n_heads: usize,
        vocab_size: usize,
        seq_len: usize,
    ) -> (r: Result<Config, ConfigError>)
        ensures
            match r {
                Ok(c) => {
                    &&& config_check(
                        dim as int,
                        hidden_dim as int,
                        n_layers as int,
                        n_heads as int,
                        vocab_size as int,
                        seq_len as int,
                    ) is None
                    &&& c.wf()
                    &&& c.dim == dim && c.hidden_dim == hidden_dim && c.n_layers == n_layers
                    &&& c.n_heads == n_heads && c.vocab_size == vocab_size && c.seq_len == seq_len
                },
                Err(e) => config_check(
                    dim as int,
                    hidden_dim as int,
                    n_layers as int,
                    n_heads as int,
                    vocab_size as int,
                    seq_len as int,
                ) == Some(e),
            },
    {
        if dim == 0 || hidden_dim == 0 || n_layers == 0 || n_heads == 0 || vocab_size == 0
            || seq_len == 0 {
            return Err(ConfigError::ZeroSize);
        }
        if dim % n_heads != 0 {
            return Err(ConfigError::HeadsDoNotDivideDim);
        }
        if !(product_fits(n_layers, dim, dim) && product_fits(n_layers, hidden_dim, dim)
            && product_fits(n_layers, seq_len, dim) && product_fits(1, vocab_size, dim)) {
            return Err(ConfigError::TooLarge);
        }
        Ok(Config { dim, hidden_dim, n_layers, n_heads, vocab_size, seq_len })
    }

    /// Width of one attention head.
    pub fn head_size(&self) -> (r: usize)
        requires
            self.wf(),
        ensures
            r == self.spec_head_size(),
            r >= 1,
            r * self.n_heads == self.dim,
    {
        proof {
            lemma_head_size(*self);
        }
        self.dim / self.n_heads
    }
}

/// A valid configuration splits `dim` into `n_heads` heads of a positive width.
pub proof fn lemma_head_size(cfg: Config)
    requires
        cfg.wf(),
    ensures
        cfg.spec_head_size() >= 1,
        cfg.spec_head_size() * cfg.n_heads == cfg.dim,
        cfg.n_heads <= cfg.dim,
{
    let d = cfg.dim as int;
    let n = cfg.n_heads as int;
    let q = d / n;
    vstd::arithmetic::div_mod::lemma_fundamental_div_mod(d, n);
    assert(q * n == d && q >= 1 && n <= d) by (nonlinear_arith)
        requires
            d == n * q + d % n,
            d % n == 0,
            d >= 1,
            n >= 1,
    ;
}

proof fn lemma_factor_bound(a: int, b: int, c: int)
    by (nonlinear_arith)
    requires
        a >= 1,
        b >= 1,
        c >= 1,
    ensures
        a * b * c >= a,
        a * b * c >= b,
        a * b * c >= c,
        a * b * c >= a * b,
{
}

/// Whether `a * b * c` stays within `MAX_ELEMS`, without overflowing.
fn product_fits(a: usize, b: usize, c: usize) -> (r: bool)
    requires
        a >= 1,
        b >= 1,
        c >= 1,
    ensures
        r == fits3(a as int, b as int, c as int),
{
    proof {
        lemma_factor_bound(a as int, b as int, c as int);
    }
    if a > MAX_ELEMS || b > MAX_ELEMS || c > MAX_ELEMS {
        return false;
    }
    let a64 = a as u64;
    let b64 = b as u64;
    let c64 = c as u64;
    assert(a64 * b64 <= 0x7fff_ffff * 0x7fff_ffff) by (nonlinear_arith)
        requires
            a64 <= 0x7fff_ffff,
            b64 <= 0x7fff_ffff,
    ;
    let ab = a64 * b64;
    if ab > MAX_ELEMS as u64 {
        return false;
    }
    assert(ab * c64 <= 0x7fff_ffff * 0x7fff_ffff) by (nonlinear_arith)
        requires
            ab <= 0x7fff_ffff,
            c64 <= 0x7fff_ffff,
    ;
    ab * c64 <= MAX_ELEMS as u64
}

} // verus!
