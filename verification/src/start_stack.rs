//! What a program finds when it starts: its arguments and its environment on
//! the stack, its segments in memory, and its first instruction.
use vstd::prelude::*;

use crate::bytes;
use crate::elf;
use crate::elf_layout;
use crate::process;
use crate::spawn;

verus! {

/// The byte `v` lies at `a`.
pub open spec fn byte_at(m: Map<int, u8>, a: int, v: u8) -> bool {
    m.contains_key(a) && m[a] == v
}

/// The bytes `s` lie at `a`, with a NUL behind them.
pub open spec fn string_at(m: Map<int, u8>, a: int, s: Seq<u8>) -> bool {
    &&& forall|j: int| 0 <= j < s.len() ==> byte_at(m, a + j, #[trigger] s[j])
    &&& byte_at(m, a + s.len(), 0)
}

/// The word at `a` is a pointer to the string `s`.
pub open spec fn points_to(m: Map<int, u8>, a: int, s: Seq<u8>) -> bool {
    process::word64(m, a) matches Some(q) && string_at(m, q as int, s)
}

/// From `a` on there are pointers to the strings `ss`, in order, and a null.
pub open spec fn list_at(m: Map<int, u8>, a: int, ss: Seq<Seq<u8>>) -> bool {
    &&& forall|i: int| 0 <= i < ss.len() ==> points_to(m, a + 8 * i, #[trigger] ss[i])
    &&& process::word64(m, a + 8 * ss.len()) == Some(0u64)
}

/// The stack of a program that starts with these strings: their number, the
/// list of the arguments, and the list of the environment behind it.
pub open spec fn starts_with(
    m: Map<int, u8>,
    rsp: int,
    argv: Seq<Seq<u8>>,
    envp: Seq<Seq<u8>>,
) -> bool {
    &&& process::word64(m, rsp) == Some(argv.len() as u64)
    &&& list_at(m, rsp + 8, argv)
    &&& list_at(m, rsp + 8 + 8 * (argv.len() + 1), envp)
}

/// The two words at `a` are these.
pub open spec fn pair_at(m: Map<int, u8>, a: int, k: u64, v: u64) -> bool {
    process::word64(m, a) == Some(k) && process::word64(m, a + 8) == Some(v)
}

/// The auxiliary vector at `a` tells where the program headers are, how big one
/// is and how many there are, the page size and the entry point; a null ends
/// it.
pub open spec fn vector_at(m: Map<int, u8>, a: int, img: elf::Image) -> bool {
    &&& pair_at(m, a, 3, img.phdr)
    &&& pair_at(m, a + 16, 4, img.phent)
    &&& pair_at(m, a + 32, 5, img.phnum)
    &&& pair_at(m, a + 48, 6, 4096)
    &&& pair_at(m, a + 64, 9, img.entry)
    &&& pair_at(m, a + 112, 0, 0)
}

proof fn lemma_word_bytes(ws: Seq<u64>, k: int)
    requires
        0 <= k < ws.len(),
    ensures
        process::word_bytes(ws).len() == 8 * ws.len(),
        process::word_bytes(ws).subrange(8 * k, 8 * k + 8) == bytes::bytes64(ws[k]),
    decreases ws.len(),
{
    let d = ws.drop_last();
    if d.len() > 0 {
        lemma_word_bytes(
            d,
            if k < d.len() {
                k
            } else {
                0
            },
        );
    }
    let b = process::word_bytes(ws);
    assert(process::word_bytes(d).len() == 8 * d.len());
    if k < d.len() {
        assert(d[k] == ws[k]);
        assert(b.subrange(8 * k, 8 * k + 8) =~= process::word_bytes(d).subrange(8 * k, 8 * k + 8));
    } else {
        assert(b.subrange(8 * k, 8 * k + 8) =~= bytes::bytes64(ws[k]));
    }
}

/// Words that were stored are read back one by one.
proof fn lemma_words_read_back(m: Map<int, u8>, a: int, ws: Seq<u64>, k: int)
    requires
        process::mapped(m, a, 8 * ws.len() as int),
        0 <= k < ws.len(),
    ensures
        process::word64(process::poke(m, a, process::word_bytes(ws)), a + 8 * k) == Some(ws[k]),
{
    let b = process::word_bytes(ws);
    let p = process::poke(m, a, b);
    lemma_word_bytes(ws, k);
    let at = a + 8 * k;
    assert forall|i: int| at <= i < at + 8 implies #[trigger] p.contains_key(i) by {
        assert(m.contains_key(i));
    }
    let v = ws[k];
    let w = bytes::bytes64(v);
    let got = process::peek(p, at, 8);
    assert(got =~= w) by {
        assert forall|i: int| 0 <= i < 8 implies got[i] == w[i] by {
            assert(m.contains_key(at + i));
            assert(got[i] == b[8 * k + i]);
            assert(b.subrange(8 * k, 8 * k + 8)[i] == b[8 * k + i]);
        }
    }
    let z = bytes::zeros(8);
    bytes::lemma_le64_of_splice(z, 0, v);
    assert(bytes::splice(z, 0, w) =~= w);
}

/// A string stays where it is when nothing is stored over it.
proof fn lemma_string_stays(m: Map<int, u8>, a: int, s: Seq<u8>, at: int, b: Seq<u8>)
    requires
        string_at(m, a, s),
        at + b.len() <= a || a + s.len() + 1 <= at,
    ensures
        string_at(process::poke(m, at, b), a, s),
{
    let p = process::poke(m, at, b);
    assert forall|j: int| 0 <= j < s.len() implies byte_at(p, a + j, #[trigger] s[j]) by {
        assert(byte_at(m, a + j, s[j]));
    }
    assert(byte_at(p, a + s.len(), 0));
}

/// Strings that were pushed lie below `top`, each where its pointer leads;
/// nothing else changed.
proof fn lemma_pushed(m: Map<int, u8>, top: int, ss: Seq<Seq<u8>>)
    requires
        process::mapped(m, top - process::cost(ss), process::cost(ss)),
    ensures
        forall|i: int|
            0 <= i < ss.len() ==> string_at(
                process::push_strings(m, top, ss),
                top - process::cost(ss.take(i + 1)),
                #[trigger] ss[i],
            ),
        forall|x: int|
            (#[trigger] process::push_strings(m, top, ss).contains_key(x) == m.contains_key(x)) && (
            m.contains_key(x) && !(top - process::cost(ss) <= x < top)
                ==> process::push_strings(m, top, ss)[x] == m[x]),
    decreases ss.len(),
{
    if ss.len() > 0 {
        let d = ss.drop_last();
        let n = ss.len() as int;
        process::lemma_cost_mono(ss, n - 1);
        process::lemma_cost_mono(d, d.len() as int);
        assert(ss.take(n - 1) =~= d);
        assert(ss.take(n) =~= ss);
        assert forall|x: int|
            top - process::cost(d) <= x < top implies #[trigger] m.contains_key(x) by {}
        lemma_pushed(m, top, d);
        let before = process::push_strings(m, top, d);
        let b = ss.last().push(0);
        let at = top - process::cost(ss);
        let p = process::push_strings(m, top, ss);
        assert(p == process::poke(before, at, b));
        assert forall|x: int| true implies (#[trigger] p.contains_key(x) == m.contains_key(x)) && (
        m.contains_key(x) && !(at <= x < top) ==> p[x] == m[x]) by {
            assert(before.contains_key(x) == m.contains_key(x));
        }
        assert forall|i: int| 0 <= i < ss.len() implies string_at(
            p,
            top - process::cost(ss.take(i + 1)),
            #[trigger] ss[i],
        ) by {
            if i < n - 1 {
                assert(d[i] == ss[i]);
                assert(d.take(i + 1) =~= ss.take(i + 1));
                let a = top - process::cost(d.take(i + 1));
                process::lemma_cost_mono(d, i + 1);
                assert(string_at(before, a, d[i]));
                lemma_string_stays(before, a, ss[i], at, b);
            } else {
                let s = ss.last();
                assert forall|j: int| 0 <= j < s.len() implies byte_at(
                    p,
                    at + j,
                    #[trigger] s[j],
                ) by {
                    assert(m.contains_key(at + j));
                    assert(b[j] == s[j]);
                }
                assert(m.contains_key(at + s.len()));
                assert(b[s.len() as int] == 0);
            }
        }
    }
}

/// Strings whose pointers stand among the words at `rsp`, from word `k` on, are
/// a list, as long as the words lie below the strings.
proof fn lemma_list(m: Map<int, u8>, rsp: int, ws: Seq<u64>, k: int, top: int, ss: Seq<Seq<u8>>)
    requires
        process::mapped(m, rsp, 8 * ws.len() as int),
        0 <= rsp,
        rsp + 8 * ws.len() <= top - process::cost(ss),
        top <= u64::MAX,
        0 <= k,
        k + ss.len() < ws.len(),
        ws[k + ss.len()] == 0,
        forall|i: int|
            0 <= i < ss.len() ==> #[trigger] ws[k + i] == process::string_ptrs(top, ss)[i],
        forall|i: int|
            0 <= i < ss.len() ==> string_at(
                m,
                top - process::cost(ss.take(i + 1)),
                #[trigger] ss[i],
            ),
    ensures
        list_at(process::poke(m, rsp, process::word_bytes(ws)), rsp + 8 * k, ss),
{
    let wb = process::word_bytes(ws);
    let t = process::poke(m, rsp, wb);
    lemma_word_bytes(ws, k);
    assert forall|i: int| 0 <= i < ss.len() implies points_to(
        t,
        rsp + 8 * k + 8 * i,
        #[trigger] ss[i],
    ) by {
        let a = top - process::cost(ss.take(i + 1));
        process::lemma_cost_mono(ss, i + 1);
        lemma_words_read_back(m, rsp, ws, k + i);
        assert(rsp + 8 * (k + i) == rsp + 8 * k + 8 * i);
        assert(ws[k + i] == process::string_ptrs(top, ss)[i]);
        assert(ws[k + i] == a);
        assert(string_at(m, a, ss[i]));
        lemma_string_stays(m, a, ss[i], rsp, wb);
    }
    lemma_words_read_back(m, rsp, ws, k + ss.len());
    assert(rsp + 8 * (k + ss.len()) == rsp + 8 * k + 8 * ss.len());
}

/// Strings stay where they are when others are pushed below them.
proof fn lemma_strings_stay(
    m: Map<int, u8>,
    top: int,
    ss: Seq<Seq<u8>>,
    low: int,
    more: Seq<Seq<u8>>,
)
    requires
        process::mapped(m, low - process::cost(more), process::cost(more)),
        low <= top - process::cost(ss),
        forall|i: int|
            0 <= i < ss.len() ==> string_at(
                m,
                top - process::cost(ss.take(i + 1)),
                #[trigger] ss[i],
            ),
    ensures
        forall|i: int|
            0 <= i < ss.len() ==> string_at(
                process::push_strings(m, low, more),
                top - process::cost(ss.take(i + 1)),
                #[trigger] ss[i],
            ),
{
    lemma_pushed(m, low, more);
    let p = process::push_strings(m, low, more);
    assert forall|i: int| 0 <= i < ss.len() implies string_at(
        p,
        top - process::cost(ss.take(i + 1)),
        #[trigger] ss[i],
    ) by {
        let a = top - process::cost(ss.take(i + 1));
        let s = ss[i];
        process::lemma_cost_mono(ss, i + 1);
        assert(string_at(m, a, s));
        assert forall|j: int| 0 <= j < s.len() implies byte_at(p, a + j, #[trigger] s[j]) by {
            assert(byte_at(m, a + j, s[j]));
            assert(p.contains_key(a + j) == m.contains_key(a + j));
        }
        assert(p.contains_key(a + s.len()) == m.contains_key(a + s.len()));
    }
}

/// The memory with the strings of both lists in place, and the words not yet.
spec fn strings_pushed(
    m: Map<int, u8>,
    top: int,
    argv: Seq<Seq<u8>>,
    envp: Seq<Seq<u8>>,
) -> Map<int, u8> {
    let low = top - 16;
    let m0 = process::poke(m, low, Seq::new(16, |i: int| 0x5Au8));
    process::push_strings(
        process::push_strings(m0, low, argv),
        low - process::cost(argv),
        envp,
    )
}

/// The words of the stack.
#[verifier::opaque]
spec fn stack_words(top: int, argv: Seq<Seq<u8>>, envp: Seq<Seq<u8>>, img: elf::Image) -> Seq<
    u64,
> {
    process::entry_words(top, argv, envp, img)
}

/// The words, by their places.
proof fn lemma_entry_words(top: int, argv: Seq<Seq<u8>>, envp: Seq<Seq<u8>>, img: elf::Image)
    ensures
        ({
            let ws = stack_words(top, argv, envp, img);
            let na = argv.len() as int;
            let ne = envp.len() as int;
            let x = 3 + na + ne;
            &&& ws.len() == 19 + na + ne
            &&& ws[0] == argv.len() as u64
            &&& forall|i: int|
                0 <= i < na ==> #[trigger] ws[1 + i] == process::string_ptrs(top - 16, argv)[i]
            &&& ws[1 + na] == 0
            &&& forall|i: int|
                0 <= i < ne ==> #[trigger] ws[2 + na + i] == process::string_ptrs(
                    top - 16 - process::cost(argv),
                    envp,
                )[i]
            &&& ws[2 + na + ne] == 0
            &&& ws[x] == 3 && ws[x + 1] == img.phdr
            &&& ws[x + 2] == 4 && ws[x + 3] == img.phent
            &&& ws[x + 4] == 5 && ws[x + 5] == img.phnum
            &&& ws[x + 6] == 6 && ws[x + 7] == 4096
            &&& ws[x + 8] == 9 && ws[x + 9] == img.entry
            &&& ws[x + 14] == 0 && ws[x + 15] == 0
        }),
{
    reveal(stack_words);
}

/// Where the strings and the words go, and that nothing else changes.
proof fn lemma_layout(
    m: Map<int, u8>,
    top: int,
    argv: Seq<Seq<u8>>,
    envp: Seq<Seq<u8>>,
    img: elf::Image,
)
    requires
        process::mapped(
            m,
            process::entry_rsp(top, argv, envp),
            top - process::entry_rsp(top, argv, envp),
        ),
    ensures
        ({
            let rsp = process::entry_rsp(top, argv, envp);
            let low = top - 16;
            let ca = process::cost(argv);
            let p = strings_pushed(m, top, argv, envp);
            let n = 19 + argv.len() + envp.len();
            &&& process::entry_stack(m, top, argv, envp, img) == process::poke(
                p,
                rsp,
                process::word_bytes(stack_words(top, argv, envp, img)),
            )
            &&& rsp % 16 == 0
            &&& argv.len() <= ca && envp.len() <= process::cost(envp)
            &&& rsp + 8 * n <= low - ca - process::cost(envp)
            &&& process::mapped(p, rsp, 8 * n as int)
            &&& forall|i: int|
                0 <= i < argv.len() ==> string_at(
                    p,
                    low - process::cost(argv.take(i + 1)),
                    #[trigger] argv[i],
                )
            &&& forall|i: int|
                0 <= i < envp.len() ==> string_at(
                    p,
                    low - ca - process::cost(envp.take(i + 1)),
                    #[trigger] envp[i],
                )
            &&& forall|y: int|
                (#[trigger] p.contains_key(y) == m.contains_key(y)) && (m.contains_key(y) && !(rsp
                    <= y < top) ==> p[y] == m[y])
        }),
{
    reveal(stack_words);
    let rsp = process::entry_rsp(top, argv, envp);
    let low = top - 16;
    let ca = process::cost(argv);
    process::lemma_cost_mono(argv, argv.len() as int);
    process::lemma_cost_mono(envp, envp.len() as int);
    assert(argv.take(argv.len() as int) =~= argv);
    assert(envp.take(envp.len() as int) =~= envp);
    let m0 = process::poke(m, low, Seq::new(16, |i: int| 0x5Au8));
    assert forall|x: int| rsp <= x < top implies #[trigger] m0.contains_key(x) by {
        assert(m.contains_key(x));
    }
    lemma_pushed(m0, low, argv);
    let m1 = process::push_strings(m0, low, argv);
    assert forall|x: int| rsp <= x < top implies #[trigger] m1.contains_key(x) by {
        assert(m0.contains_key(x));
    }
    lemma_pushed(m1, low - ca, envp);
    lemma_strings_stay(m1, low, argv, low - ca, envp);
    let p = strings_pushed(m, top, argv, envp);
    assert(p == process::push_strings(m1, low - ca, envp));
    assert forall|y: int| true implies (#[trigger] p.contains_key(y) == m.contains_key(y)) && (
    m.contains_key(y) && !(rsp <= y < top) ==> p[y] == m[y]) by {
        assert(p.contains_key(y) == m1.contains_key(y));
        assert(m1.contains_key(y) == m0.contains_key(y));
        assert(m0.contains_key(y) == m.contains_key(y));
    }
    assert forall|x: int| rsp <= x < top implies #[trigger] p.contains_key(x) by {
        assert(m.contains_key(x));
    }
}

proof fn lemma_pair(m: Map<int, u8>, rsp: int, ws: Seq<u64>, k: int, at: int, key: u64, v: u64)
    requires
        process::mapped(m, rsp, 8 * ws.len() as int),
        0 <= k,
        k + 1 < ws.len(),
        at == rsp + 8 * k,
        ws[k] == key,
        ws[k + 1] == v,
    ensures
        pair_at(process::poke(m, rsp, process::word_bytes(ws)), at, key, v),
{
    lemma_words_read_back(m, rsp, ws, k);
    lemma_words_read_back(m, rsp, ws, k + 1);
    assert(rsp + 8 * (k + 1) == rsp + 8 * k + 8);
}

proof fn lemma_rest_stays(m: Map<int, u8>, p: Map<int, u8>, rsp: int, top: int, ws: Seq<u64>)
    requires
        ws.len() > 0,
        rsp + 8 * ws.len() <= top,
        forall|y: int|
            (#[trigger] p.contains_key(y) == m.contains_key(y)) && (m.contains_key(y) && !(rsp <= y
                < top) ==> p[y] == m[y]),
    ensures
        ({
            let t = process::poke(p, rsp, process::word_bytes(ws));
            forall|x: int|
                (#[trigger] t.contains_key(x) == m.contains_key(x)) && (m.contains_key(x) && !(rsp
                    <= x < top) ==> t[x] == m[x])
        }),
{
    lemma_word_bytes(ws, 0);
    let t = process::poke(p, rsp, process::word_bytes(ws));
    assert forall|y: int| true implies (#[trigger] t.contains_key(y) == m.contains_key(y)) && (
    m.contains_key(y) && !(rsp <= y < top) ==> t[y] == m[y]) by {
        assert(p.contains_key(y) == m.contains_key(y));
    }
}

/// The stack as a program finds it, where the words have their places.
proof fn lemma_started(
    m: Map<int, u8>,
    rsp: int,
    ws: Seq<u64>,
    low: int,
    argv: Seq<Seq<u8>>,
    envp: Seq<Seq<u8>>,
)
    requires
        process::mapped(m, rsp, 8 * ws.len() as int),
        0 <= rsp,
        rsp + 8 * ws.len() <= low - process::cost(argv) - process::cost(envp),
        0 <= process::cost(argv),
        0 <= process::cost(envp),
        low <= u64::MAX,
        2 + argv.len() + envp.len() < ws.len(),
        ws[0] == argv.len() as u64,
        forall|i: int|
            0 <= i < argv.len() ==> #[trigger] ws[1 + i] == process::string_ptrs(low, argv)[i],
        ws[1 + argv.len() as int] == 0,
        forall|i: int|
            0 <= i < envp.len() ==> #[trigger] ws[2 + argv.len() + i] == process::string_ptrs(
                low - process::cost(argv),
                envp,
            )[i],
        ws[2 + argv.len() as int + envp.len()] == 0,
        forall|i: int|
            0 <= i < argv.len() ==> string_at(
                m,
                low - process::cost(argv.take(i + 1)),
                #[trigger] argv[i],
            ),
        forall|i: int|
            0 <= i < envp.len() ==> string_at(
                m,
                low - process::cost(argv) - process::cost(envp.take(i + 1)),
                #[trigger] envp[i],
            ),
    ensures
        starts_with(process::poke(m, rsp, process::word_bytes(ws)), rsp, argv, envp),
{
    let na = argv.len() as int;
    lemma_list(m, rsp, ws, 1, low, argv);
    lemma_list(m, rsp, ws, 2 + na, low - process::cost(argv), envp);
    assert(rsp + 8 * 1 == rsp + 8);
    assert(rsp + 8 * (2 + na) == rsp + 8 + 8 * (na + 1));
    lemma_words_read_back(m, rsp, ws, 0);
}

proof fn lemma_vector(m: Map<int, u8>, rsp: int, ws: Seq<u64>, x: int, img: elf::Image)
    requires
        process::mapped(m, rsp, 8 * ws.len() as int),
        0 <= x,
        x + 15 < ws.len(),
        ws[x] == 3 && ws[x + 1] == img.phdr,
        ws[x + 2] == 4 && ws[x + 3] == img.phent,
        ws[x + 4] == 5 && ws[x + 5] == img.phnum,
        ws[x + 6] == 6 && ws[x + 7] == 4096,
        ws[x + 8] == 9 && ws[x + 9] == img.entry,
        ws[x + 14] == 0 && ws[x + 15] == 0,
    ensures
        vector_at(process::poke(m, rsp, process::word_bytes(ws)), rsp + 8 * x, img),
{
    let aux = rsp + 8 * x;
    lemma_pair(m, rsp, ws, x, aux, 3, img.phdr);
    lemma_pair(m, rsp, ws, x + 2, aux + 16, 4, img.phent);
    lemma_pair(m, rsp, ws, x + 4, aux + 32, 5, img.phnum);
    lemma_pair(m, rsp, ws, x + 6, aux + 48, 6, 4096);
    lemma_pair(m, rsp, ws, x + 8, aux + 64, 9, img.entry);
    lemma_pair(m, rsp, ws, x + 14, aux + 112, 0, 0);
}

proof fn lemma_strings_ready(
    m: Map<int, u8>,
    top: int,
    argv: Seq<Seq<u8>>,
    envp: Seq<Seq<u8>>,
    img: elf::Image,
)
    requires
        0 <= process::entry_rsp(top, argv, envp),
        top <= u64::MAX,
        process::mapped(
            m,
            process::entry_rsp(top, argv, envp),
            top - process::entry_rsp(top, argv, envp),
        ),
    ensures
        starts_with(
            process::entry_stack(m, top, argv, envp, img),
            process::entry_rsp(top, argv, envp),
            argv,
            envp,
        ),
{
    let rsp = process::entry_rsp(top, argv, envp);
    let ws = stack_words(top, argv, envp, img);
    let m2 = strings_pushed(m, top, argv, envp);
    lemma_layout(m, top, argv, envp, img);
    lemma_entry_words(top, argv, envp, img);
    lemma_started(m2, rsp, ws, top - 16, argv, envp);
}

proof fn lemma_vector_ready(
    m: Map<int, u8>,
    top: int,
    argv: Seq<Seq<u8>>,
    envp: Seq<Seq<u8>>,
    img: elf::Image,
)
    requires
        0 <= process::entry_rsp(top, argv, envp),
        top <= u64::MAX,
        process::mapped(
            m,
            process::entry_rsp(top, argv, envp),
            top - process::entry_rsp(top, argv, envp),
        ),
    ensures
        vector_at(
            process::entry_stack(m, top, argv, envp, img),
            process::entry_rsp(top, argv, envp) + 8 * (3 + argv.len() + envp.len()),
            img,
        ),
{
    let rsp = process::entry_rsp(top, argv, envp);
    let ws = stack_words(top, argv, envp, img);
    let m2 = strings_pushed(m, top, argv, envp);
    lemma_layout(m, top, argv, envp, img);
    lemma_entry_words(top, argv, envp, img);
    lemma_vector(m2, rsp, ws, 3 + argv.len() as int + envp.len(), img);
}

proof fn lemma_rest_ready(
    m: Map<int, u8>,
    top: int,
    argv: Seq<Seq<u8>>,
    envp: Seq<Seq<u8>>,
    img: elf::Image,
)
    requires
        0 <= process::entry_rsp(top, argv, envp),
        top <= u64::MAX,
        process::mapped(
            m,
            process::entry_rsp(top, argv, envp),
            top - process::entry_rsp(top, argv, envp),
        ),
    ensures
        process::entry_rsp(top, argv, envp) % 16 == 0,
        forall|x: int|
            (#[trigger] process::entry_stack(m, top, argv, envp, img).contains_key(x)
                == m.contains_key(x)) && (m.contains_key(x) && !(process::entry_rsp(
                top,
                argv,
                envp,
            ) <= x < top) ==> process::entry_stack(m, top, argv, envp, img)[x] == m[x]),
{
    let rsp = process::entry_rsp(top, argv, envp);
    let ws = stack_words(top, argv, envp, img);
    let m2 = strings_pushed(m, top, argv, envp);
    lemma_layout(m, top, argv, envp, img);
    lemma_entry_words(top, argv, envp, img);
    lemma_rest_stays(m, m2, rsp, top, ws);
}

/// The entry stack holds the number of arguments at `rsp`, the list of the
/// arguments behind it, then the list of the environment, and then the
/// auxiliary vector.
pub proof fn law_entry_stack_holds_the_strings(
    m: Map<int, u8>,
    top: int,
    argv: Seq<Seq<u8>>,
    envp: Seq<Seq<u8>>,
    img: elf::Image,
)
    requires
        0 <= process::entry_rsp(top, argv, envp),
        top <= u64::MAX,
        process::mapped(
            m,
            process::entry_rsp(top, argv, envp),
            top - process::entry_rsp(top, argv, envp),
        ),
    ensures
        process::entry_rsp(top, argv, envp) % 16 == 0,
        starts_with(
            process::entry_stack(m, top, argv, envp, img),
            process::entry_rsp(top, argv, envp),
            argv,
            envp,
        ),
        vector_at(
            process::entry_stack(m, top, argv, envp, img),
            process::entry_rsp(top, argv, envp) + 8 * (3 + argv.len() + envp.len()),
            img,
        ),
        forall|x: int|
            (#[trigger] process::entry_stack(m, top, argv, envp, img).contains_key(x)
                == m.contains_key(x)) && (m.contains_key(x) && !(process::entry_rsp(
                top,
                argv,
                envp,
            ) <= x < top) ==> process::entry_stack(m, top, argv, envp, img)[x] == m[x]),
{
    lemma_strings_ready(m, top, argv, envp, img);
    lemma_vector_ready(m, top, argv, envp, img);
    lemma_rest_ready(m, top, argv, envp, img);
}

/// The addresses that the first stack, sixteen pages from where mappings begin,
/// and what lies on it take.
pub open spec fn on_the_stack(rsp: u64, a: int) -> bool {
    a < 0x7000_0001_0000 && (a >= 0x7000_0000_0000 || a >= rsp)
}

/// A program that was built starts at the address in its ELF header, with these
/// strings on a stack of its own, and finds the header table described behind
/// them. Outside the stack, memory is as its segments say.
pub proof fn law_built_program_finds_its_strings(
    free: Seq<u64>,
    image: Seq<u8>,
    argv: Seq<Seq<u8>>,
    envp: Seq<Seq<u8>>,
)
    requires
        spawn::image_built(free, image, argv, envp) is Ok,
    ensures
        ({
            let (sp, left, entry, rsp) = spawn::image_built(free, image, argv, envp)->Ok_0;
            let n = bytes::le16(image, 56) as nat;
            let loaded = elf::load_all(
                image,
                spawn::empty_space(spawn::fresh_root(free)),
                free.drop_last(),
                n,
            );
            &&& entry == bytes::le64(image, 24)
            &&& rsp % 16 == 0
            &&& rsp < 0x7000_0001_0000
            &&& starts_with(sp.mem, rsp as int, argv, envp)
            &&& vector_at(
                sp.mem,
                rsp + 8 * (3 + argv.len() + envp.len()),
                elf::Image {
                    entry: bytes::le64(image, 24),
                    phdr: elf::phdr_va(image, n),
                    phent: bytes::le16(image, 54) as u64,
                    phnum: bytes::le16(image, 56) as u64,
                },
            )
            &&& loaded is Ok
            &&& forall|a: int|
                !on_the_stack(rsp, a) ==> (#[trigger] sp.mem.contains_key(a) == (
                loaded->Ok_0).0.mem.contains_key(a)) && (sp.mem.contains_key(a) ==> sp.mem[a] == (
                loaded->Ok_0).0.mem[a])
        }),
{
    let n = bytes::le16(image, 56) as nat;
    let root = spawn::empty_space(spawn::fresh_root(free));
    let (s, f) = elf::load_all(image, root, free.drop_last(), n)->Ok_0;
    elf_layout::law_load_leaves_the_cursors(image, root, free.drop_last(), n);
    let base = s.next_va as int;
    let img = elf::Image {
        entry: bytes::le64(image, 24),
        phdr: elf::phdr_va(image, n),
        phent: bytes::le16(image, 54) as u64,
        phnum: n as u64,
    };
    let z = process::with_zero_pages(s, f, base, 16);
    process::law_fresh_pages_are_zero(s, f, base, 16);
    let top = base + 0x1_0000;
    let rsp = process::entry_rsp(top, argv, envp);
    process::lemma_cost_mono(argv, 0);
    process::lemma_cost_mono(envp, 0);
    assert(0 <= rsp) by {
        if rsp < 0 {
            reveal(elf_layout::maps);
            elf_layout::law_load_touches_no_other_address(image, root, free.drop_last(), n, rsp);
            assert(z.mem.contains_key(rsp) == s.mem.contains_key(rsp));
            assert(!root.mem.contains_key(rsp));
        }
    }
    law_entry_stack_holds_the_strings(z.mem, top, argv, envp, img);
    let sp = (spawn::image_built(free, image, argv, envp)->Ok_0).0;
    assert(sp.mem == process::entry_stack(z.mem, top, argv, envp, img));
    assert forall|a: int| !on_the_stack(rsp as u64, a) implies (#[trigger] sp.mem.contains_key(a)
        == s.mem.contains_key(a)) && (sp.mem.contains_key(a) ==> sp.mem[a] == s.mem[a]) by {
        assert(process::entry_stack(z.mem, top, argv, envp, img).contains_key(a)
            == z.mem.contains_key(a));
        assert(z.mem.contains_key(a) == s.mem.contains_key(a));
    }
}

} // verus!
