//! The `.tlm` weight file: a header, a tokenizer table, and the tensors of a
//! small decoder-only language model, all little-endian.
//!
//! ```text
//!  0  magic "TLM1"        20  context length
//!  4  version, 1          24  vocabulary size
//!  8  layers              28  flags
//! 12  heads               32  tokenizer: 0 raw bytes, 1 byte pairs
//! 16  width               36  epsilon of the norms
//! 40  bytes of the tokenizer table, which follows at 44: how many merges,
//!     and two ids for each
//! ```
//!
//! The tensors follow back to back: the token and position embeddings, each
//! layer's tensors, and the last norm. A weight is kept as the 32 bits of its
//! `f32`.
use vstd::prelude::*;

use crate::bytes;
use crate::bytes::load32;
use crate::tokenizer;
use crate::tokenizer::Tokenizer;

verus! {

pub const VERSION: u32 = 1;

pub const HEADER_LEN: usize = 44;

#[derive(Clone, Copy, PartialEq, Eq, Structural, Debug)]
pub enum TlmError {
    TooShort,
    BadMagic,
    BadVersion,
    /// The tensors the header describes do not fit the file.
    SizeMismatch,
    /// A field is zero or otherwise impossible.
    BadConfig,
}

#[derive(Clone, Copy, PartialEq, Eq, Structural, Debug)]
pub struct Config {
    pub n_layer: usize,
    pub n_head: usize,
    pub n_embd: usize,
    pub block_size: usize,
    pub vocab_size: usize,
    /// The epsilon of the norms, as the bits of an `f32`.
    pub norm_eps: u32,
}

/// The number of weights in one layer of width `c`: two norms, the attention's
/// two projections, and the two of the feed-forward part.
pub open spec fn layer_weights(c: nat) -> nat {
    2 * c + (3 * c * c + 3 * c) + (c * c + c) + 2 * c + (4 * c * c + 4 * c) + (4 * c * c + c)
}

/// The number of weights in all.
pub open spec fn total_weights(cfg: Config) -> nat {
    let c = cfg.n_embd as nat;
    cfg.vocab_size as nat * c + cfg.block_size as nat * c + cfg.n_layer as nat * layer_weights(c)
        + 2 * c
}

proof fn lemma_layer_weights(c: nat)
    ensures
        layer_weights(c) == 12 * (c * c) + 13 * c,
{
    assert(3 * c * c == 3 * (c * c)) by (nonlinear_arith);
    assert(4 * c * c == 4 * (c * c)) by (nonlinear_arith);
}

/// Whether these bits are a positive and finite `f32`.
pub open spec fn positive_finite(bits: u32) -> bool {
    0 < bits < 0x7F80_0000
}

impl Config {
    /// The number of weights in one layer.
    pub fn layer_elems(&self) -> (r: usize)
        requires
            layer_weights(self.n_embd as nat) <= usize::MAX,
        ensures
            r == layer_weights(self.n_embd as nat),
    {
        let c: usize = self.n_embd;
        proof {
            lemma_layer_weights(c as nat);
            assert(c * c >= 0) by (nonlinear_arith);
        }
        let sq: usize = c * c;
        12 * sq + 13 * c
    }

    /// The number of weights in all.
    pub fn total_elems(&self) -> (r: usize)
        requires
            total_weights(*self) <= usize::MAX,
        ensures
            r == total_weights(*self),
    {
        proof {
            lemma_total_parts(*self);
        }
        let c: usize = self.n_embd;
        if self.n_layer == 0 {
            proof {
                assert(0 * layer_weights(c as nat) == 0);
            }
            return self.vocab_size * c + self.block_size * c + 2 * c;
        }
        let layer: usize = self.layer_elems();
        self.vocab_size * c + self.block_size * c + self.n_layer * layer + 2 * c
    }

    /// The width of one head.
    pub fn head_dim(&self) -> (r: usize)
        requires
            self.n_head > 0,
        ensures
            r == self.n_embd / self.n_head,
    {
        self.n_embd / self.n_head
    }
}

proof fn lemma_total_parts(cfg: Config)
    ensures
        cfg.vocab_size * cfg.n_embd <= total_weights(cfg),
        cfg.vocab_size * cfg.n_embd >= 0,
        cfg.block_size * cfg.n_embd >= 0,
        cfg.n_layer * layer_weights(cfg.n_embd as nat) >= 0,
        cfg.vocab_size * cfg.n_embd + cfg.block_size * cfg.n_embd <= total_weights(cfg),
        cfg.vocab_size * cfg.n_embd + cfg.block_size * cfg.n_embd + cfg.n_layer * layer_weights(
            cfg.n_embd as nat,
        ) + 2 * cfg.n_embd == total_weights(cfg),
        cfg.n_layer > 0 ==> layer_weights(cfg.n_embd as nat) <= total_weights(cfg),
{
    let c = cfg.n_embd as nat;
    let l = layer_weights(c);
    assert(cfg.vocab_size * c >= 0) by (nonlinear_arith);
    assert(cfg.block_size * c >= 0) by (nonlinear_arith);
    assert(cfg.n_layer * l >= 0) by (nonlinear_arith);
    if cfg.n_layer > 0 {
        assert(cfg.n_layer * l >= l) by (nonlinear_arith)
            requires
                cfg.n_layer > 0,
                l >= 0,
        ;
    }
}

/// What the file is read as.
#[verifier::ext_equal]
pub struct Wv {
    pub cfg: Config,
    pub data: Seq<u32>,
    pub tok_kind: u8,
    pub merges: Seq<(u32, u32)>,
}

pub struct Weights {
    pub cfg: Config,
    /// Every tensor, one after the other, each weight as the bits of an `f32`.
    pub data: Vec<u32>,
    /// 0 for raw bytes, 1 for byte pairs.
    pub tok_kind: u8,
    /// Merge `k` makes id `256 + k`.
    pub merges: Vec<(u32, u32)>,
}

impl View for Weights {
    type V = Wv;

    open spec fn view(&self) -> Wv {
        Wv { cfg: self.cfg, data: self.data@, tok_kind: self.tok_kind, merges: self.merges@ }
    }
}

/// The header's fields.
pub open spec fn config_of(b: Seq<u8>) -> Config {
    Config {
        n_layer: bytes::le32(b, 8) as usize,
        n_head: bytes::le32(b, 12) as usize,
        n_embd: bytes::le32(b, 16) as usize,
        block_size: bytes::le32(b, 20) as usize,
        vocab_size: bytes::le32(b, 24) as usize,
        norm_eps: bytes::le32(b, 36),
    }
}

/// Whether a model can have these fields.
pub open spec fn possible(c: Config) -> bool {
    &&& c.n_layer > 0
    &&& c.n_head > 0
    &&& c.n_embd > 0
    &&& c.block_size > 0
    &&& c.vocab_size > 0
    &&& c.n_embd % c.n_head == 0
    &&& positive_finite(c.norm_eps)
}

/// The first `n` merges of the table.
pub open spec fn merges_of(b: Seq<u8>, n: nat) -> Seq<(u32, u32)> {
    Seq::new(n, |k: int| (bytes::le32(b, 48 + 8 * k), bytes::le32(b, 52 + 8 * k)))
}

/// The `n` words from `at` on.
pub open spec fn words_of(b: Seq<u8>, at: int, n: nat) -> Seq<u32> {
    Seq::new(n, |i: int| bytes::le32(b, at + 4 * i))
}

/// What a `.tlm` file holds, or the first thing that is wrong with it.
pub open spec fn parsed(b: Seq<u8>) -> Result<Wv, TlmError> {
    let cfg = config_of(b);
    let table = bytes::le32(b, 40) as int;
    let n = bytes::le32(b, 44) as int;
    if b.len() < HEADER_LEN {
        Err(TlmError::TooShort)
    } else if b.take(4) != seq![0x54u8, 0x4C, 0x4D, 0x31] {
        Err(TlmError::BadMagic)
    } else if bytes::le32(b, 4) != VERSION {
        Err(TlmError::BadVersion)
    } else if !possible(cfg) {
        Err(TlmError::BadConfig)
    } else if b.len() < HEADER_LEN + table {
        Err(TlmError::SizeMismatch)
    } else if table >= 4 && 4 + n * 8 > table {
        Err(TlmError::SizeMismatch)
    } else if b.len() - HEADER_LEN - table < 4 * total_weights(cfg) {
        Err(TlmError::SizeMismatch)
    } else {
        Ok(
            Wv {
                cfg,
                data: words_of(b, HEADER_LEN + table, total_weights(cfg)),
                tok_kind: bytes::le32(b, 32) as u8,
                merges: if table >= 4 {
                    merges_of(b, n as nat)
                } else {
                    Seq::empty()
                },
            },
        )
    }
}

/// How many weights there are, whatever the fields say.
fn count_weights(cfg: &Config) -> (r: u128)
    requires
        cfg.n_layer <= u32::MAX,
        cfg.n_embd <= u32::MAX,
        cfg.block_size <= u32::MAX,
        cfg.vocab_size <= u32::MAX,
    ensures
        r == total_weights(*cfg),
        r <= 0x10_0000_0000_0000_0000_0000_0000,
{
    let c: u128 = cfg.n_embd as u128;
    let v: u128 = cfg.vocab_size as u128;
    let t: u128 = cfg.block_size as u128;
    let l: u128 = cfg.n_layer as u128;
    proof {
        lemma_layer_weights(c as nat);
        assert(c * c <= 0xFFFF_FFFF * 0xFFFF_FFFF) by (nonlinear_arith)
            requires
                c <= 0xFFFF_FFFF,
        ;
        assert(v * c <= 0xFFFF_FFFF * 0xFFFF_FFFF) by (nonlinear_arith)
            requires
                c <= 0xFFFF_FFFF,
                v <= 0xFFFF_FFFF,
        ;
        assert(t * c <= 0xFFFF_FFFF * 0xFFFF_FFFF) by (nonlinear_arith)
            requires
                c <= 0xFFFF_FFFF,
                t <= 0xFFFF_FFFF,
        ;
    }
    let sq: u128 = c * c;
    let layer: u128 = 12 * sq + 13 * c;
    proof {
        assert(layer <= 13 * 0x1_0000_0000 * 0x1_0000_0000);
        assert(l * layer <= 0xFFFF_FFFF * (13 * 0x1_0000_0000 * 0x1_0000_0000)) by (nonlinear_arith)
            requires
                l <= 0xFFFF_FFFF,
                layer <= 13 * 0x1_0000_0000 * 0x1_0000_0000,
        ;
    }
    v * c + t * c + l * layer + 2 * c
}

impl Weights {
    /// Read a `.tlm` file.
    pub fn parse(b: &[u8]) -> (r: Result<Weights, TlmError>)
        ensures
            match parsed(b@) {
                Ok(w) => r is Ok && r->Ok_0@ == w,
                Err(e) => r == Err::<Weights, TlmError>(e),
            },
    {
        let len: usize = b.len();
        if len < HEADER_LEN {
            return Err(TlmError::TooShort);
        }
        assert(b@.take(4) =~= seq![b@[0], b@[1], b@[2], b@[3]]);
        if !(b[0] == 0x54 && b[1] == 0x4C && b[2] == 0x4D && b[3] == 0x31) {
            proof {
                let m = seq![0x54u8, 0x4C, 0x4D, 0x31];
                assert(b@.take(4)[0] != m[0] || b@.take(4)[1] != m[1] || b@.take(4)[2] != m[2]
                    || b@.take(4)[3] != m[3]);
            }
            return Err(TlmError::BadMagic);
        }
        assert(b@.take(4) =~= seq![0x54u8, 0x4C, 0x4D, 0x31]);
        if load32(b, 4) != VERSION {
            return Err(TlmError::BadVersion);
        }
        let cfg = Config {
            n_layer: load32(b, 8) as usize,
            n_head: load32(b, 12) as usize,
            n_embd: load32(b, 16) as usize,
            block_size: load32(b, 20) as usize,
            vocab_size: load32(b, 24) as usize,
            norm_eps: load32(b, 36),
        };
        if cfg.n_layer == 0 || cfg.n_head == 0 || cfg.n_embd == 0 || cfg.block_size == 0
            || cfg.vocab_size == 0 || cfg.n_embd % cfg.n_head != 0 || cfg.norm_eps == 0
            || cfg.norm_eps >= 0x7F80_0000 {
            return Err(TlmError::BadConfig);
        }
        #[verifier::truncate]
        let tok_kind: u8 = load32(b, 32) as u8;
        let table: usize = load32(b, 40) as usize;
        if len - HEADER_LEN < table {
            return Err(TlmError::SizeMismatch);
        }
        let mut merges: Vec<(u32, u32)> = Vec::new();
        if table >= 4 {
            let n: u64 = load32(b, 44) as u64;
            if 4 + n * 8 > table as u64 {
                return Err(TlmError::SizeMismatch);
            }
            let m: usize = n as usize;
            let mut k: usize = 0;
            while k < m
                invariant
                    k <= m,
                    4 + 8 * m <= table,
                    HEADER_LEN + table <= b@.len(),
                    b@.len() == len,
                    merges@ == merges_of(b@, k as nat),
                decreases m - k,
            {
                let o: usize = HEADER_LEN + 4 + k * 8;
                merges.push((load32(b, o), load32(b, o + 4)));
                k = k + 1;
                assert(merges@ =~= merges_of(b@, k as nat));
            }
            assert(merges@ =~= merges_of(b@, n as nat));
        } else {
            assert(merges@ =~= Seq::<(u32, u32)>::empty());
        }
        let count: u128 = count_weights(&cfg);
        let start: usize = HEADER_LEN + table;
        if ((len - start) as u128) < 4 * count {
            return Err(TlmError::SizeMismatch);
        }
        let want: usize = count as usize;
        let mut data: Vec<u32> = Vec::new();
        let mut i: usize = 0;
        while i < want
            invariant
                i <= want,
                start + 4 * want <= len,
                b@.len() == len,
                data@ == words_of(b@, start as int, i as nat),
            decreases want - i,
        {
            data.push(load32(b, start + i * 4));
            i = i + 1;
            assert(data@ =~= words_of(b@, start as int, i as nat));
        }
        Ok(Weights { cfg, data, tok_kind, merges })
    }
}

/// Where the shared tensors begin, in weights; the token embedding is at 0.
#[derive(Clone, Copy, PartialEq, Eq, Structural)]
pub struct Layout {
    pub cfg: Config,
    pub wpe: usize,
    pub layer0: usize,
    pub lnf: usize,
}

impl Layout {
    pub fn new(cfg: Config) -> (r: Self)
        requires
            total_weights(cfg) <= usize::MAX,
        ensures
            r.cfg == cfg,
            r.wpe == cfg.vocab_size * cfg.n_embd,
            r.layer0 == r.wpe + cfg.block_size * cfg.n_embd,
            r.lnf == r.layer0 + cfg.n_layer * layer_weights(cfg.n_embd as nat),
            r.lnf + 2 * cfg.n_embd == total_weights(cfg),
    {
        proof {
            lemma_total_parts(cfg);
        }
        let c: usize = cfg.n_embd;
        let wpe: usize = cfg.vocab_size * c;
        let layer0: usize = wpe + cfg.block_size * c;
        if cfg.n_layer == 0 {
            assert(0 * layer_weights(c as nat) == 0);
            return Layout { cfg, wpe, layer0, lnf: layer0 };
        }
        let lnf: usize = layer0 + cfg.n_layer * cfg.layer_elems();
        Layout { cfg, wpe, layer0, lnf }
    }
}

/// Where the tensors of a layer begin, in weights from the layer's start.
#[derive(Clone, Copy, PartialEq, Eq, Structural)]
pub struct LayerRef {
    pub ln1_w: usize,
    pub ln1_b: usize,
    pub qkv_w: usize,
    pub qkv_b: usize,
    pub proj_w: usize,
    pub proj_b: usize,
    pub ln2_w: usize,
    pub ln2_b: usize,
    pub fc_w: usize,
    pub fc_b: usize,
    pub mlpproj_w: usize,
    pub mlpproj_b: usize,
}

/// Each tensor of a layer of width `c` begins where the one before it ends.
pub open spec fn back_to_back(r: LayerRef, c: nat) -> bool {
    &&& r.ln1_w == 0
    &&& r.ln1_b == r.ln1_w + c
    &&& r.qkv_w == r.ln1_b + c
    &&& r.qkv_b == r.qkv_w + 3 * (c * c)
    &&& r.proj_w == r.qkv_b + 3 * c
    &&& r.proj_b == r.proj_w + c * c
    &&& r.ln2_w == r.proj_b + c
    &&& r.ln2_b == r.ln2_w + c
    &&& r.fc_w == r.ln2_b + c
    &&& r.fc_b == r.fc_w + 4 * (c * c)
    &&& r.mlpproj_w == r.fc_b + 4 * c
    &&& r.mlpproj_b == r.mlpproj_w + 4 * (c * c)
}

impl LayerRef {
    pub fn new(c: usize) -> (r: Self)
        requires
            layer_weights(c as nat) <= usize::MAX,
        ensures
            back_to_back(r, c as nat),
            r.mlpproj_b + c == layer_weights(c as nat),
    {
        proof {
            lemma_layer_weights(c as nat);
            assert(c * c >= 0) by (nonlinear_arith);
        }
        let sq: usize = c * c;
        let ln1_w: usize = 0;
        let ln1_b: usize = c;
        let qkv_w: usize = ln1_b + c;
        let qkv_b: usize = qkv_w + 3 * sq;
        let proj_w: usize = qkv_b + 3 * c;
        let proj_b: usize = proj_w + sq;
        let ln2_w: usize = proj_b + c;
        let ln2_b: usize = ln2_w + c;
        let fc_w: usize = ln2_b + c;
        let fc_b: usize = fc_w + 4 * sq;
        let mlpproj_w: usize = fc_b + 4 * c;
        let mlpproj_b: usize = mlpproj_w + 4 * sq;
        LayerRef {
            ln1_w,
            ln1_b,
            qkv_w,
            qkv_b,
            proj_w,
            proj_b,
            ln2_w,
            ln2_b,
            fc_w,
            fc_b,
            mlpproj_w,
            mlpproj_b,
        }
    }
}

/// A file that parses holds every weight its header asks for.
pub proof fn law_parsed_weights_are_complete(b: Seq<u8>)
    requires
        parsed(b) is Ok,
    ensures
        parsed(b)->Ok_0.data.len() == total_weights(parsed(b)->Ok_0.cfg),
        possible(parsed(b)->Ok_0.cfg),
{
}

/// A model: its weights, where its tensors are, and its tokenizer.
pub struct Model {
    pub cfg: Config,
    pub w: Vec<u32>,
    pub lay: Layout,
    pub lref: LayerRef,
    pub tok: Tokenizer,
}

impl Model {
    pub open spec fn wf(self) -> bool {
        &&& possible(self.cfg)
        &&& self.w@.len() == total_weights(self.cfg)
        &&& self.lay.cfg == self.cfg
        &&& self.lay.wpe == self.cfg.vocab_size * self.cfg.n_embd
        &&& self.lay.layer0 == self.lay.wpe + self.cfg.block_size * self.cfg.n_embd
        &&& self.lay.lnf == self.lay.layer0 + self.cfg.n_layer * layer_weights(
            self.cfg.n_embd as nat,
        )
        &&& back_to_back(self.lref, self.cfg.n_embd as nat)
        &&& self.tok.wf()
    }

    /// Read a model. The merges have to be sound.
    pub fn load(b: &[u8]) -> (r: Result<Model, TlmError>)
        requires
            parsed(b@) matches Ok(w) ==> tokenizer::sound(w.merges),
        ensures
            match parsed(b@) {
                Ok(w) => {
                    &&& r matches Ok(m)
                    &&& m.wf()
                    &&& m.cfg == w.cfg
                    &&& m.w@ == w.data
                    &&& m.tok@ == w.merges
                },
                Err(e) => r == Err::<Model, TlmError>(e),
            },
    {
        match Weights::parse(b) {
            Err(e) => Err(e),
            Ok(w) => {
                let n: usize = w.data.len();
                proof {
                    lemma_total_parts(w.cfg);
                }
                let lay = Layout::new(w.cfg);
                let lref = LayerRef::new(w.cfg.n_embd);
                let tok = Tokenizer::new(w.merges);
                Ok(Model { cfg: w.cfg, w: w.data, lay, lref, tok })
            },
        }
    }

    /// The tokens of `data`.
    pub fn encode(&self, data: &[u8]) -> (r: Vec<u16>)
        requires
            self.wf(),
            self.tok@.len() + 256 <= u32::MAX,
        ensures
            r@ == tokenizer::encoded(self.tok@, data@),
    {
        self.tok.encode(data)
    }

    /// The bytes of `tokens`.
    pub fn decode(&self, tokens: &[u16]) -> (r: Vec<u8>)
        requires
            self.wf(),
        ensures
            r@ == tokenizer::decoded(self.tok@, tokens@),
    {
        self.tok.decode(tokens)
    }
}

/// Layer `l` of a model and all its tensors lie inside the weights, after the
/// embeddings and before the last norm, which ends them.
pub proof fn law_layers_lie_inside(m: Model, l: int)
    requires
        m.wf(),
        0 <= l < m.cfg.n_layer,
    ensures
        m.lay.wpe <= m.lay.layer0,
        m.lay.layer0 <= m.lay.layer0 + l * layer_weights(m.cfg.n_embd as nat),
        m.lay.layer0 + l * layer_weights(m.cfg.n_embd as nat) + layer_weights(m.cfg.n_embd as nat)
            <= m.lay.lnf,
        m.lay.lnf + 2 * m.cfg.n_embd == m.w@.len(),
        m.lref.mlpproj_b + m.cfg.n_embd == layer_weights(m.cfg.n_embd as nat),
{
    let c = m.cfg.n_embd as nat;
    let w = layer_weights(c);
    lemma_total_parts(m.cfg);
    lemma_layer_weights(c);
    assert(0 <= l * w && l * w + w <= m.cfg.n_layer * w) by (nonlinear_arith)
        requires
            0 <= l,
            l + 1 <= m.cfg.n_layer,
            w >= 0,
    ;
    assert(m.cfg.block_size * m.cfg.n_embd >= 0) by (nonlinear_arith);
}

} // verus!
