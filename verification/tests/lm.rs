use thos::sample::{argmax, top_k, window, Rng};
use thos::tlm::{Config, LayerRef, Layout, Model, TlmError, Weights};
use thos::tokenizer::{is_sound, Tokenizer};

/// A `.tlm` file with these header fields, tokenizer table and tensor words.
fn tlm(fields: [u32; 5], kind: u32, eps: u32, table: &[u8], words: &[u32]) -> Vec<u8> {
    let mut b = b"TLM1".to_vec();
    b.extend_from_slice(&1u32.to_le_bytes());
    for f in fields {
        b.extend_from_slice(&f.to_le_bytes());
    }
    b.extend_from_slice(&1u32.to_le_bytes());
    b.extend_from_slice(&kind.to_le_bytes());
    b.extend_from_slice(&eps.to_le_bytes());
    b.extend_from_slice(&(table.len() as u32).to_le_bytes());
    b.extend_from_slice(table);
    for w in words {
        b.extend_from_slice(&w.to_le_bytes());
    }
    b
}

/// One layer, one head, width 1, context 2, vocabulary 3: 3 + 2 + 25 + 2 weights.
const TINY: [u32; 5] = [1, 1, 1, 2, 3];

fn eps() -> u32 {
    1e-5f32.to_bits()
}

fn error(b: &[u8]) -> TlmError {
    match Weights::parse(b) {
        Ok(_) => panic!("parsed"),
        Err(e) => e,
    }
}

#[test]
fn weights_are_counted_and_read() {
    let words: Vec<u32> = (0..32u32).map(|i| (i as f32).to_bits()).collect();
    let w = match Weights::parse(&tlm(TINY, 0, eps(), &[], &words)) {
        Ok(w) => w,
        Err(e) => panic!("{:?}", e),
    };
    assert_eq!(w.cfg.total_elems(), 32);
    assert_eq!(w.cfg.layer_elems(), 25);
    assert_eq!(w.cfg.head_dim(), 1);
    assert_eq!(w.data, words);
    assert_eq!(w.tok_kind, 0);
    assert!(w.merges.is_empty());
    assert_eq!(f32::from_bits(w.cfg.norm_eps), 1e-5);
}

#[test]
fn each_defect_has_its_error() {
    let words = vec![0u32; 32];
    let good = tlm(TINY, 0, eps(), &[], &words);
    assert_eq!(error(&good[..43]), TlmError::TooShort);
    let mut b = good.clone();
    b[0] = b'X';
    assert_eq!(error(&b), TlmError::BadMagic);
    let mut b = good.clone();
    b[4] = 2;
    assert_eq!(error(&b), TlmError::BadVersion);
    for i in 0..5 {
        let mut f = TINY;
        f[i] = 0;
        assert_eq!(error(&tlm(f, 0, eps(), &[], &words)), TlmError::BadConfig);
    }
    assert_eq!(error(&tlm([1, 2, 3, 1, 1], 0, eps(), &[], &words)), TlmError::BadConfig);
    for e in [0.0f32, -0.0, -1.0, f32::INFINITY, f32::NAN] {
        assert_eq!(error(&tlm(TINY, 0, e.to_bits(), &[], &words)), TlmError::BadConfig);
    }
    assert_eq!(error(&good[..good.len() - 1]), TlmError::SizeMismatch);
    let mut b = good.clone();
    b[40] = 200;
    assert_eq!(error(&b), TlmError::SizeMismatch);
}

#[test]
fn absurd_sizes_do_not_wrap() {
    let huge = [u32::MAX, 1, u32::MAX, u32::MAX, u32::MAX];
    assert_eq!(error(&tlm(huge, 0, eps(), &[], &[0; 8])), TlmError::SizeMismatch);
}

#[test]
fn positive_subnormal_epsilon_is_possible() {
    let words = vec![0u32; 32];
    assert!(Weights::parse(&tlm(TINY, 0, 1, &[], &words)).is_ok());
}

fn table(merges: &[(u32, u32)]) -> Vec<u8> {
    let mut t = (merges.len() as u32).to_le_bytes().to_vec();
    for (a, b) in merges {
        t.extend_from_slice(&a.to_le_bytes());
        t.extend_from_slice(&b.to_le_bytes());
    }
    t
}

#[test]
fn merges_are_read_from_the_table() {
    let words = vec![0u32; 32];
    let m = [(104, 105), (256, 33)];
    let w = match Weights::parse(&tlm(TINY, 1, eps(), &table(&m), &words)) {
        Ok(w) => w,
        Err(e) => panic!("{:?}", e),
    };
    assert_eq!(w.merges, m.to_vec());
    assert_eq!(w.tok_kind, 1);
    let mut t = table(&m);
    t[0] = 3;
    assert_eq!(error(&tlm(TINY, 1, eps(), &t, &words)), TlmError::SizeMismatch);
}

#[test]
fn tensors_tile_the_weights() {
    let cfg = Config { n_layer: 3, n_head: 2, n_embd: 4, block_size: 5, vocab_size: 7, norm_eps: 1 };
    let lay = Layout::new(cfg);
    assert_eq!((lay.wpe, lay.layer0), (28, 48));
    assert_eq!(cfg.layer_elems(), 12 * 16 + 13 * 4);
    assert_eq!(lay.lnf, 48 + 3 * cfg.layer_elems());
    assert_eq!(lay.lnf + 8, cfg.total_elems());
    let r = LayerRef::new(4);
    assert_eq!(
        [r.ln1_w, r.ln1_b, r.qkv_w, r.qkv_b, r.proj_w, r.proj_b],
        [0, 4, 8, 56, 68, 84]
    );
    assert_eq!(
        [r.ln2_w, r.ln2_b, r.fc_w, r.fc_b, r.mlpproj_w, r.mlpproj_b],
        [88, 92, 96, 160, 176, 240]
    );
    assert_eq!(r.mlpproj_b + 4, cfg.layer_elems());
}

#[test]
fn model_encodes_and_decodes() {
    let words = vec![0u32; 32];
    let m = match Model::load(&tlm(TINY, 1, eps(), &table(&[(104, 105)]), &words)) {
        Ok(m) => m,
        Err(e) => panic!("{:?}", e),
    };
    assert_eq!((m.lay.wpe, m.lay.layer0, m.lay.lnf), (3, 5, 30));
    assert_eq!((m.lref.mlpproj_b, m.w.len()), (24, 32));
    let t = m.encode(b"hi hi!");
    assert_eq!(t, vec![256, 32, 256, 33]);
    assert_eq!(m.decode(&t), b"hi hi!");
    assert!(matches!(Model::load(b"TLM"), Err(TlmError::TooShort)));
}

#[test]
fn without_merges_every_byte_is_a_token() {
    let t = Tokenizer::new(vec![]);
    assert!(t.is_byte());
    assert_eq!(t.vocab_size(), 256);
    assert_eq!(t.encode(&[0, 200, 255]), vec![0, 200, 255]);
    assert_eq!(t.decode(&[0, 200, 255, 256]), vec![0, 200, 255]);
}

#[test]
fn lowest_rank_merges_first() {
    // "bc" comes before "ab", so "abc" is a + bc.
    let t = Tokenizer::new(vec![(98, 99), (97, 98)]);
    assert!(!t.is_byte());
    assert_eq!(t.encode(b"abc"), vec![97, 256]);
    assert_eq!(t.encode(b"abab"), vec![257, 257]);
    // The leftmost of two equal pairs goes first.
    let t = Tokenizer::new(vec![(97, 97)]);
    assert_eq!(t.encode(b"aaa"), vec![256, 97]);
}

#[test]
fn merges_do_not_cross_white_space() {
    let t = Tokenizer::new(vec![(97, 32), (32, 32)]);
    assert_eq!(t.encode(b"a  a"), vec![97, 257, 97]);
    assert_eq!(t.encode(b"a\x0B\x0C\r\n\tb"), vec![97, 11, 12, 13, 10, 9, 98]);
    assert_eq!(t.encode(b""), Vec::<u16>::new());
}

#[test]
fn runs_are_encoded_apart_and_to_the_end() {
    let merges = vec![(97, 97), (256, 256), (32, 32)];
    let t = Tokenizer::new(merges.clone());
    let mut both = t.encode(b"aaaaa");
    both.extend(t.encode(b"   a"));
    assert_eq!(t.encode(b"aaaaa   a"), both);
    let run = t.encode(b"aaaaaaa");
    assert!(run.windows(2).all(|p| !merges.contains(&(p[0] as u32, p[1] as u32))));
    assert_eq!(run, vec![257, 256, 97]);
}

#[test]
fn decoding_undoes_encoding() {
    let t = Tokenizer::new(vec![(116, 104), (256, 101), (32, 32), (257, 257)]);
    for s in ["the thethe  th e", "", " ", "x\u{e9}the\n\nthe"] {
        assert_eq!(t.decode(&t.encode(s.as_bytes())), s.as_bytes());
    }
}

#[test]
fn soundness_of_merges_is_tested() {
    assert!(is_sound(&[(255, 0), (256, 256)]));
    assert!(!is_sound(&[(256, 0)]));
    assert!(!is_sound(&[(0, 256)]));
    assert!(!is_sound(&[(0, 0), (0, 257)]));
    assert!(is_sound(&[]));
}

#[test]
fn random_numbers_follow_the_seed() {
    let mut a = Rng::new(12345);
    let mut b = Rng::new(12345);
    let xs: Vec<u64> = (0..5).map(|_| a.next_u64()).collect();
    let ys: Vec<u64> = (0..5).map(|_| b.next_u64()).collect();
    assert_eq!(xs, ys);
    // xorshift64* by hand for state 1: 1, then 1 ^ 1 << 25, then 0x2000001.
    let mut r = Rng::new(1);
    assert_eq!(r.next_u64(), 0x2000001u64.wrapping_mul(0x2545_F491_4F6C_DD1D));
    let mut z = Rng::new(0);
    let mut g = Rng::new(0x9E37_79B9_7F4A_7C15);
    assert_eq!(z.next_u64(), g.next_u64());
    for _ in 0..100 {
        assert!(z.next_24() < 1 << 24);
    }
    let (mut p, mut q) = (Rng::new(9), Rng::new(9));
    assert_eq!(p.next_24() as u64, q.next_u64() >> 40);
}

#[test]
fn window_keeps_the_last_tokens() {
    assert_eq!(window(10, 4), 6);
    assert_eq!(window(4, 4), 0);
    assert_eq!(window(0, 4), 0);
}

#[test]
fn best_scores_are_chosen_first() {
    assert_eq!(argmax(&[3, 9, 9, 1]), 1);
    assert_eq!(top_k(&[3, 9, 9, 1, 7], 3), vec![1, 2, 4]);
    assert_eq!(top_k(&[3, 9], 0), vec![1]);
    assert_eq!(top_k(&[3, 9], 5), vec![1, 0]);
}
