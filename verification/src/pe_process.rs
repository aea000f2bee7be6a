//! What a Windows program finds in its address space when it starts: its thread
//! and process environment blocks, the loader's lists, and, on a worker thread,
//! a stack that begins with the routine to run.
use vstd::prelude::*;

use crate::apc;
use crate::bytes;
use crate::pe;
use crate::pe_loader;
use crate::pe_loader::Ld;
use crate::pe_pages;
use crate::process;
use crate::process::Space;

verus! {

/// The page at `va` holds the bytes `b`.
pub open spec fn page_holds(m: Map<int, u8>, va: int, b: Seq<u8>) -> bool {
    forall|i: int| 0 <= i < 4096 ==> #[trigger] m.contains_key(va + i) && m[va + i] == b[i]
}

/// A word of a page is the word of its bytes.
proof fn lemma_page_word(m: Map<int, u8>, va: int, b: Seq<u8>, off: int)
    requires
        page_holds(m, va, b),
        0 <= off,
        off + 8 <= 4096,
        b.len() == 4096,
    ensures
        process::word64(m, va + off) == Some(bytes::le64(b, off)),
{
    let a = va + off;
    assert forall|i: int| a <= i < a + 8 implies #[trigger] m.contains_key(i) by {
        assert(m.contains_key(va + (i - va)));
    }
    let p = process::peek(m, a, 8);
    assert forall|i: int| 0 <= i < 8 implies p[i] == b[off + i] by {
        assert(m.contains_key(va + (off + i)));
    }
    assert(p[0] == b[off + 0] && p[1] == b[off + 1] && p[2] == b[off + 2] && p[3] == b[off + 3]);
    assert(p[4] == b[off + 4] && p[5] == b[off + 5] && p[6] == b[off + 6] && p[7] == b[off + 7]);
}

/// A page stays when another one is mapped elsewhere.
proof fn lemma_other_page(m: Map<int, u8>, va: int, b: Seq<u8>, at: int, c: Seq<u8>)
    requires
        page_holds(m, va, b),
        at + 4096 <= va || va + 4096 <= at,
    ensures
        page_holds(process::with_page(m, at, c), va, b),
{
    let t = process::with_page(m, at, c);
    assert forall|i: int| 0 <= i < 4096 implies #[trigger] t.contains_key(va + i) && t[va + i]
        == b[i] by {
        assert(m.contains_key(va + i));
    }
}

proof fn lemma_new_page(m: Map<int, u8>, va: int, b: Seq<u8>)
    ensures
        page_holds(process::with_page(m, va, b), va, b),
{
}

/// The thread environment block gives the bounds of the stack, its own address,
/// the thread-local pointers and the process environment block.
proof fn lemma_teb(stack_top: u64, tls: u64)
    requires
        stack_top >= 0x10000,
    ensures
        ({
            let b = pe_pages::teb_page(stack_top, tls);
            &&& b.len() == 4096
            &&& bytes::le64(b, 0x08) == stack_top
            &&& bytes::le64(b, 0x10) == stack_top - 0x10000
            &&& bytes::le64(b, 0x30) == 0x7FF0_0000_1000
            &&& bytes::le64(b, 0x58) == tls
            &&& bytes::le64(b, 0x60) == 0x7FF0_0000_2000
        }),
{
    let b0 = bytes::zeros(4096);
    let b1 = apc::w64(b0, 0x08, stack_top);
    bytes::lemma_store64(b0, 0x08, stack_top);
    let b2 = apc::w64(b1, 0x10, (stack_top - 0x10000) as u64);
    bytes::lemma_store64(b1, 0x10, (stack_top - 0x10000) as u64);
    let b3 = apc::w64(b2, 0x30, pe_pages::PE_TEB_ADDR);
    bytes::lemma_store64(b2, 0x30, pe_pages::PE_TEB_ADDR);
    let b4 = apc::w64(b3, 0x58, tls);
    bytes::lemma_store64(b3, 0x58, tls);
    bytes::lemma_store64(b4, 0x60, pe_pages::PE_PEB_ADDR);
    assert(bytes::le64(b2, 0x08) == stack_top);
    assert(bytes::le64(b3, 0x08) == stack_top && bytes::le64(b3, 0x10) == stack_top - 0x10000);
    assert(bytes::le64(b4, 0x08) == stack_top && bytes::le64(b4, 0x10) == stack_top - 0x10000
        && bytes::le64(b4, 0x30) == pe_pages::PE_TEB_ADDR);
}

/// The process environment block gives the program's base, the loader's data
/// and the parameters.
proof fn lemma_peb(base: u64)
    ensures
        ({
            let b = pe_pages::peb_page(base);
            &&& b.len() == 4096
            &&& bytes::le64(b, 0x10) == base
            &&& bytes::le64(b, 0x18) == 0x7FF0_0000_3100
            &&& bytes::le64(b, 0x20) == 0x7FF0_0000_3000
        }),
{
    let b0 = bytes::zeros(4096);
    let b1 = apc::w64(b0, 0x10, base);
    bytes::lemma_store64(b0, 0x10, base);
    let b2 = apc::w64(b1, 0x18, (pe_pages::PE_PARAMS_ADDR + pe_pages::LDR_OFF) as u64);
    bytes::lemma_store64(b1, 0x18, (pe_pages::PE_PARAMS_ADDR + pe_pages::LDR_OFF) as u64);
    let b3 = apc::w64(b2, 0x20, pe_pages::PE_PARAMS_ADDR);
    bytes::lemma_store64(b2, 0x20, pe_pages::PE_PARAMS_ADDR);
    bytes::lemma_store64(b3, 0x30, pe_pages::PE_PROCESS_HEAP);
    assert(bytes::le64(b2, 0x10) == base);
    assert(bytes::le64(b3, 0x10) == base && bytes::le64(b3, 0x18) == 0x7FF0_0000_3100);
}

proof fn lemma_blocks_mapped(
    s: Space,
    free: Seq<u64>,
    base: u64,
    entry: u64,
    size: u64,
    stack_top: u64,
    mods: Seq<pe_pages::FileMod>,
    tls: u64,
)
    requires
        pe_loader::process_pages(s, free, base, entry, size, stack_top, mods, tls) is Ok,
    ensures
        ({
            let m = (pe_loader::process_pages(
                s,
                free,
                base,
                entry,
                size,
                stack_top,
                mods,
                tls,
            )->Ok_0).0.mem;
            &&& page_holds(m, 0x7FF0_0000_1000, pe_pages::teb_page(stack_top, tls))
            &&& page_holds(m, 0x7FF0_0000_2000, pe_pages::peb_page(base))
        }),
{
    reveal(pe_loader::process_pages);
    let teb = pe_pages::teb_page(stack_top, tls);
    let peb = pe_pages::peb_page(base);
    let m1 = process::with_page(s.mem, 0x7FF0_0000_1000, teb);
    lemma_new_page(s.mem, 0x7FF0_0000_1000, teb);
    let m2 = process::with_page(m1, 0x7FF0_0000_2000, peb);
    lemma_other_page(m1, 0x7FF0_0000_1000, teb, 0x7FF0_0000_2000, peb);
    lemma_new_page(m1, 0x7FF0_0000_2000, peb);
    let params = pe_pages::params_page(base, entry, size, pe_pages::listed(mods.len()));
    let m3 = process::with_page(m2, 0x7FF0_0000_3000, params);
    lemma_other_page(m2, 0x7FF0_0000_1000, teb, 0x7FF0_0000_3000, params);
    lemma_other_page(m2, 0x7FF0_0000_2000, peb, 0x7FF0_0000_3000, params);
    if mods.len() > 0 {
        match pe_pages::ldr_page(mods) {
            Some(b) => {
                lemma_other_page(m3, 0x7FF0_0000_1000, teb, 0x7FF0_0000_6000, b);
                lemma_other_page(m3, 0x7FF0_0000_2000, peb, 0x7FF0_0000_6000, b);
            },
            None => {},
        }
    }
}

/// A loaded program's first thread finds its environment: the block at its
/// `teb` names itself, the stack and the process block, which names the base
/// that the program was loaded at, the loader's data and the parameters.
pub proof fn law_program_finds_its_environment_blocks(
    st: Ld,
    sg: pe::Staged,
    stack_top: u64,
    exports: Seq<&str>,
    flag: u16,
    data: Seq<u16>,
    term: u16,
)
    requires
        stack_top >= 0x10000,
        pe_loader::laid_out(st, sg, stack_top, exports, flag, data, term) is Ok,
    ensures
        ({
            let (im, sp, left) = pe_loader::laid_out(
                st,
                sg,
                stack_top,
                exports,
                flag,
                data,
                term,
            )->Ok_0;
            let teb = im.teb;
            let peb = process::word64(sp.mem, teb + 0x60);
            &&& process::word64(sp.mem, teb + 0x30) == Some(teb)
            &&& process::word64(sp.mem, teb + 0x08) == Some(stack_top)
            &&& process::word64(sp.mem, teb + 0x10) == Some((stack_top - 0x10000) as u64)
            &&& peb is Some
            &&& process::word64(sp.mem, peb->0 + 0x10) == Some(sg.load_base)
            &&& process::word64(sp.mem, peb->0 + 0x18) == Some(0x7FF0_0000_3100u64)
            &&& process::word64(sp.mem, peb->0 + 0x20) == Some(0x7FF0_0000_3000u64)
            &&& im.base == sg.load_base && im.size == sg.size_of_image
            &&& st.tls.frame == 0 ==> process::word64(sp.mem, teb + 0x58) == Some(0u64)
            &&& st.tls.frame != 0 ==> process::word64(sp.mem, teb + 0x58) == Some(
                0x7FF0_0000_8000u64,
            )
        }),
{
    let (s1, f1) = pe_loader::system_pages(st.space, st.free, exports, flag, data, term)->Ok_0;
    let s2 = pe_loader::with_tls(s1, st.tls);
    let mods = pe_loader::from_files(st.mods, st.mods.len() as int);
    let tls: u64 = if st.tls.frame != 0 {
        pe_pages::PE_TLS_ADDR
    } else {
        0
    };
    lemma_blocks_mapped(
        s2,
        f1,
        sg.load_base,
        sg.entry,
        sg.size_of_image,
        stack_top,
        mods,
        tls,
    );
    let (s3, f3) = pe_loader::process_pages(
        s2,
        f1,
        sg.load_base,
        sg.entry,
        sg.size_of_image,
        stack_top,
        mods,
        tls,
    )->Ok_0;
    let init = pe_loader::with_attach(st.cbs, mods, mods.len() as int);
    let boot = pe_pages::bootstrap_page(init, st.cbs.len() as u32, sg.entry);
    let teb = pe_pages::teb_page(stack_top, tls);
    let peb = pe_pages::peb_page(sg.load_base);
    lemma_other_page(s3.mem, 0x7FF0_0000_1000, teb, 0x7FF0_0000_7000, boot);
    lemma_other_page(s3.mem, 0x7FF0_0000_2000, peb, 0x7FF0_0000_7000, boot);
    let sp = (pe_loader::laid_out(st, sg, stack_top, exports, flag, data, term)->Ok_0).1;
    assert(page_holds(sp.mem, 0x7FF0_0000_1000, teb));
    assert(page_holds(sp.mem, 0x7FF0_0000_2000, peb));
    lemma_teb(stack_top, tls);
    lemma_peb(sg.load_base);
    lemma_page_word(sp.mem, 0x7FF0_0000_1000, teb, 0x08);
    lemma_page_word(sp.mem, 0x7FF0_0000_1000, teb, 0x10);
    lemma_page_word(sp.mem, 0x7FF0_0000_1000, teb, 0x30);
    lemma_page_word(sp.mem, 0x7FF0_0000_1000, teb, 0x58);
    lemma_page_word(sp.mem, 0x7FF0_0000_1000, teb, 0x60);
    lemma_page_word(sp.mem, 0x7FF0_0000_2000, peb, 0x10);
    lemma_page_word(sp.mem, 0x7FF0_0000_2000, peb, 0x18);
    lemma_page_word(sp.mem, 0x7FF0_0000_2000, peb, 0x20);
}

// --- the loader's lists ---

/// The nodes of a list lie apart, and those in the page lie in it whole.
pub open spec fn nodes_apart(page: int, nodes: Seq<u64>) -> bool {
    &&& forall|p: int, q: int|
        #![trigger nodes[p], nodes[q]]
        0 <= p < q < nodes.len() ==> nodes[p] + 16 <= nodes[q] || nodes[q] + 16 <= nodes[p]
    &&& forall|p: int|
        0 <= p < nodes.len() && page <= #[trigger] nodes[p] < page + 4096 ==> nodes[p] + 16 <= page
            + 4096
}

/// The links of node `p` are in place: to the next node, the first behind the
/// last, and to the one before.
#[verifier::opaque]
pub open spec fn linked(b: Seq<u8>, page: int, nodes: Seq<u64>, p: int) -> bool {
    let n = nodes.len() as int;
    &&& bytes::le64(b, nodes[p] - page) == nodes[(p + 1) % n]
    &&& bytes::le64(b, nodes[p] - page + 8) == nodes[(p + n - 1) % n]
}

/// `x` lies in a node from `p` on.
pub open spec fn in_node(page: int, nodes: Seq<u64>, p: int, x: int) -> bool {
    exists|q: int| p <= q < nodes.len() && #[trigger] nodes[q] <= page + x < nodes[q] + 16
}

proof fn lemma_around(n: int, p: int)
    requires
        0 <= p < n,
    ensures
        (p + 1) % n == (if p + 1 == n {
            0
        } else {
            p + 1
        }),
        (p + n - 1) % n == (if p == 0 {
            n - 1
        } else {
            p - 1
        }),
{
    if p + 1 == n {
        assert((p + 1) % n == 0) by (nonlinear_arith)
            requires
                p + 1 == n,
                n > 0,
        ;
    } else {
        assert((p + 1) % n == p + 1) by (nonlinear_arith)
            requires
                0 <= p + 1 < n,
        ;
    }
    if p == 0 {
        assert((p + n - 1) % n == n - 1) by (nonlinear_arith)
            requires
                p == 0,
                n > 0,
        ;
    } else {
        assert((p + n - 1) % n == p - 1) by (nonlinear_arith)
            requires
                0 < p < n,
        ;
    }
}

/// Storing the links of one node puts them in place and touches nothing else.
proof fn lemma_link(b: Seq<u8>, page: int, nodes: Seq<u64>, p: int)
    requires
        b.len() == 4096,
        0 <= p < nodes.len(),
        page <= nodes[p],
        nodes[p] + 16 <= page + 4096,
    ensures
        ({
            let n = nodes.len() as int;
            let off = nodes[p] - page;
            let d = apc::w64(
                apc::w64(b, off, nodes[(p + 1) % n]),
                off + 8,
                nodes[(p + n - 1) % n],
            );
            &&& d.len() == 4096
            &&& linked(d, page, nodes, p)
            &&& forall|x: int|
                0 <= x < 4096 && !(off <= x < off + 16) ==> #[trigger] d[x] == b[x]
        }),
{
    reveal(linked);
    let n = nodes.len() as int;
    let off = nodes[p] - page;
    let c = apc::w64(b, off, nodes[(p + 1) % n]);
    bytes::lemma_store64(b, off, nodes[(p + 1) % n]);
    bytes::lemma_store64(c, off + 8, nodes[(p + n - 1) % n]);
    assert(bytes::le64(apc::w64(c, off + 8, nodes[(p + n - 1) % n]), off) == bytes::le64(c, off));
}

/// Links stay in place where no byte of them changes.
proof fn lemma_links_stay(r: Seq<u8>, d: Seq<u8>, page: int, nodes: Seq<u64>, p: int)
    requires
        linked(d, page, nodes, p),
        forall|x: int| nodes[p] - page <= x < nodes[p] - page + 16 ==> r[x] == d[x],
    ensures
        linked(r, page, nodes, p),
{
    reveal(linked);
    let off = nodes[p] - page;
    lemma_same_word(r, d, off);
    lemma_same_word(r, d, off + 8);
}

/// Linking a list makes a circle of the nodes in the page, in both directions,
/// and touches nothing else.
pub proof fn law_loader_list_is_a_circle(b: Seq<u8>, page: int, nodes: Seq<u64>, p: int)
    requires
        b.len() == 4096,
        0 <= page,
        0 <= p <= nodes.len(),
        nodes_apart(page, nodes),
    ensures
        ({
            let r = pe_pages::ring(b, page, nodes, p);
            &&& r.len() == 4096
            &&& forall|q: int|
                p <= q < nodes.len() && page <= #[trigger] nodes[q] < page + 4096 ==> linked(
                    r,
                    page,
                    nodes,
                    q,
                )
            &&& forall|x: int|
                0 <= x < 4096 && !in_node(page, nodes, p, x) ==> #[trigger] r[x] == b[x]
        }),
    decreases nodes.len() - p,
{
    if p < nodes.len() {
        let n = nodes.len() as int;
        let off = nodes[p] - page;
        lemma_around(n, p);
        let next = nodes[(p + 1) % n];
        let prev = nodes[(p + n - 1) % n];
        let r = pe_pages::ring(b, page, nodes, p);
        if 0 <= off < 4096 {
            assert(page <= nodes[p] < page + 4096);
            let d = apc::w64(apc::w64(b, off, next), off + 8, prev);
            lemma_link(b, page, nodes, p);
            law_loader_list_is_a_circle(d, page, nodes, p + 1);
            assert forall|x: int| off <= x < off + 16 implies r[x] == d[x] by {
                if in_node(page, nodes, p + 1, x) {
                    let q = choose|q: int|
                        p + 1 <= q < nodes.len() && #[trigger] nodes[q] <= page + x < nodes[q] + 16;
                    assert(nodes[p] + 16 <= nodes[q] || nodes[q] + 16 <= nodes[p]);
                }
            }
            lemma_links_stay(r, d, page, nodes, p);
            assert forall|x: int| 0 <= x < 4096 && !in_node(page, nodes, p, x) implies #[trigger] r[x]
                == b[x] by {
                assert(!(nodes[p] <= page + x < nodes[p] + 16));
                assert(!in_node(page, nodes, p + 1, x));
                assert(r[x] == d[x]);
            }
        } else {
            law_loader_list_is_a_circle(b, page, nodes, p + 1);
            assert forall|x: int| 0 <= x < 4096 && !in_node(page, nodes, p, x) implies #[trigger] r[x]
                == b[x] by {
                assert(!in_node(page, nodes, p + 1, x));
            }
        }
    }
}

proof fn lemma_same_word(a: Seq<u8>, b: Seq<u8>, t: int)
    requires
        forall|x: int| t <= x < t + 8 ==> a[x] == b[x],
    ensures
        bytes::le64(a, t) == bytes::le64(b, t),
{
    assert(a[t + 0] == b[t + 0] && a[t + 1] == b[t + 1] && a[t + 2] == b[t + 2] && a[t + 3] == b[t
        + 3]);
    assert(a[t + 4] == b[t + 4] && a[t + 5] == b[t + 5] && a[t + 6] == b[t + 6] && a[t + 7] == b[t
        + 7]);
}

// --- worker threads ---

proof fn lemma_stack_pages(s: Space, free: Seq<u64>, start: u64, arg: u64, i: int)
    requires
        0 <= i <= 8,
        pe_loader::thread_stack(s, free, start, arg, i).2,
    ensures
        i < 8 ==> page_holds(
            pe_loader::thread_stack(s, free, start, arg, i).0.mem,
            0x7FF0_0010_7000,
            pe_loader::thread_stack_page(start, arg, true),
        ),
    decreases 8 - i,
{
    if i < 8 {
        let va = (pe_pages::PE_THREAD_STACK_ADDR + i * 4096) as u64;
        let b = pe_loader::thread_stack_page(start, arg, i == 7);
        let (s2, f2) = pe_loader::with_fresh(s, free, va, b);
        lemma_stack_pages(s2, f2, start, arg, i + 1);
        if i == 7 {
            assert(pe_loader::thread_stack(s2, f2, start, arg, 8) == (s2, f2, true));
            assert(process::page_of(va as int) == 0x7FF0_0010_7000);
            lemma_new_page(s.mem, 0x7FF0_0010_7000, b);
        }
    }
}

proof fn lemma_start_page(start: u64, arg: u64)
    ensures
        ({
            let b = pe_loader::thread_stack_page(start, arg, true);
            b.len() == 4096 && bytes::le64(b, 4080) == start && bytes::le64(b, 4088) == arg
        }),
{
    let b0 = bytes::zeros(4096);
    bytes::lemma_store64(b0, 4080, start);
    let b1 = apc::w64(b0, 4080, start);
    bytes::lemma_store64(b1, 4088, arg);
}

proof fn lemma_worker_teb()
    ensures
        ({
            let b = pe_loader::worker_teb();
            &&& b.len() == 4096
            &&& bytes::le64(b, 0x08) == 0x7FF0_0010_8000
            &&& bytes::le64(b, 0x10) == 0x7FF0_0010_0000
            &&& bytes::le64(b, 0x30) == 0x7FF0_0000_C000
            &&& bytes::le64(b, 0x60) == 0x7FF0_0000_2000
        }),
{
    let top = (pe_pages::PE_THREAD_STACK_ADDR + pe_pages::PE_THREAD_STACK_BYTES) as u64;
    let b0 = bytes::zeros(4096);
    let b1 = apc::w64(b0, 0x08, top);
    bytes::lemma_store64(b0, 0x08, top);
    let b2 = apc::w64(b1, 0x10, pe_pages::PE_THREAD_STACK_ADDR);
    bytes::lemma_store64(b1, 0x10, pe_pages::PE_THREAD_STACK_ADDR);
    let b3 = apc::w64(b2, 0x30, pe_pages::PE_TEB2_ADDR);
    bytes::lemma_store64(b2, 0x30, pe_pages::PE_TEB2_ADDR);
    bytes::lemma_store64(b3, 0x60, pe_pages::PE_PEB_ADDR);
    assert(bytes::le64(b2, 0x08) == top);
    assert(bytes::le64(b3, 0x08) == top && bytes::le64(b3, 0x10) == pe_pages::PE_THREAD_STACK_ADDR);
}

/// A worker thread starts with the routine to run and its argument on top of a
/// stack of its own, and with an environment block that describes that stack.
pub proof fn law_worker_thread_starts_with_its_routine(
    s: Space,
    free: Seq<u64>,
    start: u64,
    arg: u64,
)
    ensures
        pe_loader::thread_pages(s, free, start, arg).2 matches Ok(rsp) ==> {
            let m = pe_loader::thread_pages(s, free, start, arg).0.mem;
            let teb = 0x7FF0_0000_C000int;
            &&& process::word64(m, rsp as int) == Some(start)
            &&& process::word64(m, rsp + 8) == Some(arg)
            &&& process::word64(m, teb + 0x30) == Some(0x7FF0_0000_C000u64)
            &&& process::word64(m, teb + 0x60) == Some(0x7FF0_0000_2000u64)
            &&& process::word64(m, teb + 0x08) == Some((rsp + 16) as u64)
            &&& process::word64(m, teb + 0x10) == Some((rsp + 16 - 0x8000) as u64)
        },
{
    let (s2, f2, ok) = pe_loader::thread_stack(s, free, start, arg, 0);
    if ok && f2.len() > 0 {
        lemma_stack_pages(s, free, start, arg, 0);
        let stack = pe_loader::thread_stack_page(start, arg, true);
        let teb = pe_loader::worker_teb();
        let m = process::with_page(s2.mem, 0x7FF0_0000_C000, teb);
        lemma_new_page(s2.mem, 0x7FF0_0000_C000, teb);
        lemma_other_page(s2.mem, 0x7FF0_0010_7000, stack, 0x7FF0_0000_C000, teb);
        lemma_start_page(start, arg);
        lemma_worker_teb();
        lemma_page_word(m, 0x7FF0_0010_7000, stack, 4080);
        lemma_page_word(m, 0x7FF0_0010_7000, stack, 4088);
        lemma_page_word(m, 0x7FF0_0000_C000, teb, 0x08);
        lemma_page_word(m, 0x7FF0_0000_C000, teb, 0x10);
        lemma_page_word(m, 0x7FF0_0000_C000, teb, 0x30);
        lemma_page_word(m, 0x7FF0_0000_C000, teb, 0x60);
    }
}

/// Libraries are placed one behind the other: each gets its size, rounded up to
/// 64 KiB, and the next starts behind it. One that does not fit in the arena is
/// refused.
pub proof fn law_libraries_do_not_overlap(next: u64, first: u64, second: u64)
    ensures
        pe_loader::arena_slot(next, first) matches Some((a, b)) ==> a == next && a + first <= b
            && b < a + first + 0x1_0000 && (b - a) % 0x1_0000 == 0 && (pe_loader::arena_slot(
            b,
            second,
        ) matches Some((c, d)) ==> a + first <= c),
        pe_loader::arena_slot(next, first) is Some <==> next + (first + 0xFFFF) / 0x1_0000 * 0x1_0000
            < pe_pages::PE_DLL_ARENA_END,
{
}

} // verus!
