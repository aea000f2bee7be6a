//! How a Windows program begins: which routines run before its entry point, in
//! which order, and where they are listed.
use vstd::prelude::*;

use crate::apc;
use crate::bytes;
use crate::pe_loader;
use crate::pe_pages;
use crate::pe_pages::FileMod;

verus! {

proof fn lemma_same_word(x: Seq<u8>, y: Seq<u8>, k: int)
    requires
        forall|j: int| k <= j < k + 8 ==> #[trigger] x[j] == y[j],
    ensures
        bytes::le64(x, k) == bytes::le64(y, k),
{
    assert(x[k] == y[k] && x[k + 1] == y[k + 1] && x[k + 2] == y[k + 2] && x[k + 3] == y[k + 3]);
    assert(x[k + 4] == y[k + 4] && x[k + 5] == y[k + 5] && x[k + 6] == y[k + 6] && x[k + 7] == y[k
        + 7]);
    assert(bytes::le32(x, k) == bytes::le32(y, k));
    assert(bytes::le32(x, k + 4) == bytes::le32(y, k + 4));
}

/// Row `j` of the list at `o` is the pair `p`.
#[verifier::opaque]
pub open spec fn lists(b: Seq<u8>, o: int, j: int, p: (u64, u64)) -> bool {
    bytes::le64(b, o + 16 * j) == p.0 && bytes::le64(b, o + 16 * j + 8) == p.1
}

#[verifier::spinoff_prover]
proof fn lemma_pairs(b: Seq<u8>, init: Seq<(u64, u64)>, i: int, k: int)
    requires
        b.len() == 4096,
        0 <= i <= init.len() <= 63,
        0 <= k,
        k + 8 <= 0x400 + 16 * i || 0x400 + 16 * init.len() <= k,
        k + 8 <= 4096,
    ensures
        pe_pages::with_pairs(b, init, i, 0x400 + 16 * i).len() == 4096,
        bytes::le64(pe_pages::with_pairs(b, init, i, 0x400 + 16 * i), k) == bytes::le64(b, k),
    decreases init.len() - i,
{
    if i < init.len() {
        let o = 0x400 + 16 * i;
        let x = apc::w64(b, o, init[i].0);
        let y = apc::w64(x, o + 8, init[i].1);
        bytes::lemma_store64(b, o, init[i].0);
        bytes::lemma_store64(x, o + 8, init[i].1);
        assert(bytes::le64(y, k) == bytes::le64(x, k));
        assert(bytes::le64(x, k) == bytes::le64(b, k));
        lemma_pairs(y, init, i + 1, k);
        assert(o + 16 == 0x400 + 16 * (i + 1));
    }
}

#[verifier::spinoff_prover]
proof fn lemma_row(b: Seq<u8>, init: Seq<(u64, u64)>, i: int, j: int)
    requires
        b.len() == 4096,
        0 <= i <= j < init.len() <= 63,
    ensures
        lists(pe_pages::with_pairs(b, init, i, 0x400 + 16 * i), 0x400, j, init[j]),
    decreases init.len() - i,
{
    let o = 0x400 + 16 * i;
    let x = apc::w64(b, o, init[i].0);
    let y = apc::w64(x, o + 8, init[i].1);
    assert(o + 16 == 0x400 + 16 * (i + 1));
    bytes::lemma_store64(b, o, init[i].0);
    bytes::lemma_store64(x, o + 8, init[i].1);
    if i == j {
        reveal(lists);
        assert(bytes::le64(y, o) == bytes::le64(x, o));
        lemma_pairs(y, init, i + 1, o);
        lemma_pairs(y, init, i + 1, o + 8);
    } else {
        lemma_row(y, init, i + 1, j);
    }
}

proof fn lemma_code_is_short(n_tls: u32)
    ensures
        pe_pages::bootstrap_code(n_tls).len() < 0x400,
{
}

/// The page that a program with initialisers starts in lists them in order,
/// each with the base of its module, from 0x400 on up to a null; the program's
/// own entry point is at 0x800.
#[verifier::spinoff_prover]
pub proof fn law_initialisers_are_listed(init: Seq<(u64, u64)>, n_tls: u32, entry: u64, j: int)
    requires
        init.len() <= 63,
        0 <= j < init.len(),
    ensures
        ({
            let b = pe_pages::bootstrap_page(init, n_tls, entry);
            &&& lists(b, 0x400, j, init[j])
            &&& bytes::le64(b, 0x400 + 16 * (init.len() as int)) == 0
            &&& bytes::le64(b, 0x800) == entry
        }),
{
    let z = bytes::zeros(4096);
    let end = 0x400 + 16 * init.len() as int;
    let x = pe_pages::with_pairs(z, init, 0, 0x400);
    lemma_row(z, init, 0, j);
    lemma_pairs(z, init, 0, end);
    let y = apc::w64(x, 0x800, entry);
    bytes::lemma_store64(x, 0x800, entry);
    let code = pe_pages::bootstrap_code(n_tls);
    lemma_code_is_short(n_tls);
    let b = bytes::splice(y, 0, code);
    assert forall|k: int| 0x400 <= k < 4096 implies #[trigger] b[k] == y[k] by {}
    reveal(lists);
    let o = 0x400 + 16 * j;
    lemma_same_word(b, y, o);
    lemma_same_word(b, y, o + 8);
    lemma_same_word(b, y, end);
    lemma_same_word(b, y, 0x800);
    assert(bytes::le64(y, o) == bytes::le64(x, o));
    assert(bytes::le64(y, o + 8) == bytes::le64(x, o + 8));
    assert(bytes::le64(y, end) == bytes::le64(x, end));
    assert(bytes::le64(z, end) == 0);
}

/// The libraries are attached from the last to the first, so that each comes
/// after those it imports, and behind what was to run before.
pub proof fn law_libraries_are_attached_in_order(
    acc: Seq<(u64, u64)>,
    mods: Seq<FileMod>,
    n: int,
)
    requires
        0 <= n <= mods.len(),
        forall|i: int| 0 <= i < n ==> (#[trigger] mods[i]).entry != 0,
    ensures
        ({
            let all = pe_loader::with_attach(acc, mods, n);
            &&& all.len() == acc.len() + n
            &&& forall|k: int| 0 <= k < acc.len() ==> #[trigger] all[k] == acc[k]
            &&& forall|i: int|
                0 <= i < n ==> all[acc.len() + n - 1 - i] == ((#[trigger] mods[i]).base, mods[i].entry)
        }),
    decreases n,
{
    if n > 0 {
        assert(mods[n - 1].entry != 0);
        let next = acc.push((mods[n - 1].base, mods[n - 1].entry));
        law_libraries_are_attached_in_order(next, mods, n - 1);
        let all = pe_loader::with_attach(acc, mods, n);
        assert forall|k: int| 0 <= k < acc.len() implies #[trigger] all[k] == acc[k] by {
            assert(all[k] == next[k]);
        }
        assert forall|i: int| 0 <= i < n implies all[acc.len() + n - 1 - i] == ((
        #[trigger] mods[i]).base, mods[i].entry) by {
            if i == n - 1 {
                assert(all[acc.len() as int] == next[acc.len() as int]);
            } else {
                assert(next.len() + (n - 1) - 1 - i == acc.len() + n - 1 - i);
            }
        }
    }
}

} // verus!
