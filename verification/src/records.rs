//! Where the fields of the files and the events lie.
use vstd::prelude::*;

use crate::bits;
use crate::bytes;
use crate::guard;
use crate::tlm;

verus! {

/// A model file is taken where it has its magic, its version, fields that are
/// possible, and room for all it says it holds; and what was read is what lies
/// at the fields' places: the numbers of the header, the merges behind it, and
/// the weights behind those.
pub proof fn law_model_file_is_read(b: Seq<u8>)
    requires
        b.len() >= 44,
        b[0] == 'T' as u8 && b[1] == 'L' as u8 && b[2] == 'M' as u8 && b[3] == '1' as u8,
        bytes::le32(b, 4) == 1,
        tlm::possible(tlm::config_of(b)),
        bytes::le32(b, 40) >= 4,
        4 + 8 * bytes::le32(b, 44) <= bytes::le32(b, 40),
        44 + bytes::le32(b, 40) + 4 * tlm::total_weights(tlm::config_of(b)) <= b.len(),
    ensures
        ({
            let w = tlm::parsed(b)->Ok_0;
            let weights = 44 + bytes::le32(b, 40);
            &&& tlm::parsed(b) is Ok
            &&& w.cfg.n_layer == bytes::le32(b, 8)
            &&& w.cfg.n_head == bytes::le32(b, 12)
            &&& w.cfg.n_embd == bytes::le32(b, 16)
            &&& w.cfg.block_size == bytes::le32(b, 20)
            &&& w.cfg.vocab_size == bytes::le32(b, 24)
            &&& w.cfg.norm_eps == bytes::le32(b, 36)
            &&& bytes::le32(b, 32) < 256 ==> w.tok_kind == bytes::le32(b, 32)
            &&& w.merges.len() == bytes::le32(b, 44)
            &&& forall|k: int|
                0 <= k < w.merges.len() ==> #[trigger] w.merges[k] == (
                    bytes::le32(b, 48 + 8 * k),
                    bytes::le32(b, 52 + 8 * k),
                )
            &&& w.data.len() == tlm::total_weights(w.cfg)
            &&& forall|i: int|
                0 <= i < w.data.len() ==> #[trigger] w.data[i] == bytes::le32(b, weights + 4 * i)
        }),
{
    assert(b.take(4) =~= seq![0x54u8, 0x4C, 0x4D, 0x31]);
}

/// How many weights a model has: its two tables, the last norm, and in each
/// layer two norms, the attention's four square maps and the eight of the
/// feed-forward part, with their offsets.
pub proof fn law_model_has_so_many_weights(cfg: tlm::Config)
    ensures
        tlm::total_weights(cfg) == (cfg.vocab_size + cfg.block_size + 2) * cfg.n_embd + cfg.n_layer * (
        12 * (cfg.n_embd * cfg.n_embd) + 13 * cfg.n_embd),
{
    let c = cfg.n_embd as int;
    let v = cfg.vocab_size as int;
    let t = cfg.block_size as int;
    assert(3 * c * c == 3 * (c * c)) by (nonlinear_arith);
    assert(4 * c * c == 4 * (c * c)) by (nonlinear_arith);
    assert((v + t + 2) * c == v * c + t * c + 2 * c) by (nonlinear_arith);
    assert(tlm::layer_weights(c as nat) == 12 * (c * c) + 13 * c);
}

/// An event is read field by field: the process, the user, the name, the path
/// and its length, one behind the other.
pub proof fn law_event_is_read(
    pid: u32,
    uid: u32,
    comm: Seq<u8>,
    path: Seq<u8>,
    len: u16,
    rest: Seq<u8>,
)
    requires
        comm.len() == 16,
        path.len() == 128,
        rest.len() >= 2,
    ensures
        guard::item_event(
            bytes::bytes32(pid) + bytes::bytes32(uid) + comm + path + bytes::bytes16(len) + rest,
        ) == Some(guard::Exec { pid, uid, comm, filename: path, filename_len: len }),
{
    let b = bytes::bytes32(pid) + bytes::bytes32(uid) + comm + path + bytes::bytes16(len) + rest;
    assert(b.len() >= 156);
    assert(b[0] == bytes::bytes32(pid)[0] && b[1] == bytes::bytes32(pid)[1] && b[2]
        == bytes::bytes32(pid)[2] && b[3] == bytes::bytes32(pid)[3]);
    assert(b[4] == bytes::bytes32(uid)[0] && b[5] == bytes::bytes32(uid)[1] && b[6]
        == bytes::bytes32(uid)[2] && b[7] == bytes::bytes32(uid)[3]);
    assert(b[152] == bytes::bytes16(len)[0] && b[153] == bytes::bytes16(len)[1]);
    assert(bytes::le32(b, 0) == pid);
    assert(bytes::le32(b, 4) == uid);
    assert(bytes::le16(b, 152) == len);
    assert(b.subrange(8, 24) =~= comm);
    assert(b.subrange(24, 152) =~= path);
}

proof fn lemma_all_readable(record: Seq<u8>, at: int, n: int, i: int)
    requires
        0 <= at,
        0 <= i <= n,
        at + n <= record.len(),
    ensures
        guard::readable(record, at, n, i) == n,
    decreases n - i,
{
    if i < n {
        lemma_all_readable(record, at, n, i + 1);
    }
}

/// The event of a started program has the group's number out of the upper half
/// of the first word, the user out of the lower half of the second, and the
/// path that the descriptor at byte 8 places and counts, cut at 128 bytes.
pub proof fn law_started_program_is_told(
    pid_tgid: u64,
    uid_gid: u64,
    comm: [u8; 16],
    record: Seq<u8>,
    at: int,
    len: int,
)
    requires
        record.len() >= 12,
        0 <= at < 0x1_0000,
        0 <= len < 0x1_0000,
        bytes::le32(record, 8) == at + 0x1_0000 * len,
        at + len <= record.len(),
    ensures
        ({
            let e = guard::exec_of(pid_tgid, uid_gid, Some(comm), record);
            &&& e is Some
            &&& e->0.pid == pid_tgid / 0x1_0000_0000
            &&& e->0.uid == uid_gid % 0x1_0000_0000
            &&& e->0.comm == comm@
            &&& e->0.filename_len == if len < 128 {
                len
            } else {
                128
            }
            &&& e->0.filename.len() == 128
            &&& forall|i: int|
                0 <= i < 128 ==> #[trigger] e->0.filename[i] == if i < len {
                    record[at + i]
                } else {
                    0
                }
        }),
{
    let loc = bytes::le32(record, 8);
    bits::lemma_word(loc);
    bits::lemma_halves(pid_tgid, 0, 0, 0);
    bits::lemma_halves(uid_gid, 0, 0, 0);
    let n = if len < 128 {
        len
    } else {
        128
    };
    assert(loc % 0x1_0000 == at && loc / 0x1_0000 == len);
    lemma_all_readable(record, at, n, 0);
}

} // verus!
