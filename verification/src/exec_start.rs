//! What `execve` hands to the program that it starts: the strings of the two
//! arrays that the caller named, in their places.
use vstd::prelude::*;

use crate::bytes;
use crate::ext2;
use crate::process;
use crate::spawn;
use crate::start_stack;
use crate::sys::{Caller, Outcome, Sv};
use crate::syscall;
use crate::syscall_fs;
use crate::task::Tv;

verus! {

/// A string that can be read in full: short enough, and no NUL inside.
pub open spec fn readable(s: Seq<u8>) -> bool {
    s.len() < 4096 && forall|j: int| 0 <= j < s.len() ==> #[trigger] s[j] != 0
}

/// At `a` a process has an array of pointers to these strings, a null behind.
pub open spec fn array_of(m: Map<int, u8>, a: int, ss: Seq<Seq<u8>>) -> bool {
    &&& a != 0
    &&& ss.len() < 256
    &&& start_stack::list_at(m, a, ss)
    &&& forall|i: int|
        0 <= i < ss.len() ==> readable(#[trigger] ss[i]) && process::word64(m, a + 8 * i) != Some(
            0u64,
        )
}

/// Text that was read from these bytes, as bytes again.
pub open spec fn passed_on(ss: Seq<Seq<u8>>) -> Seq<Seq<u8>> {
    Seq::new(ss.len(), |i: int| vstd::utf8::encode_utf8(syscall_fs::lossy(ss[i])))
}

proof fn lemma_string_is_read(m: Map<int, u8>, p: int, s: Seq<u8>, got: Seq<u8>)
    requires
        start_stack::string_at(m, p, s),
        readable(s),
        got == s.take(got.len() as int),
        got.len() <= s.len(),
    ensures
        syscall_fs::raw_str(m, p, got) == Some(s),
    decreases s.len() - got.len(),
{
    let k = got.len() as int;
    if k < s.len() {
        assert(start_stack::byte_at(m, p + k, s[k]));
        assert(got.push(s[k]) =~= s.take(k + 1));
        lemma_string_is_read(m, p, s, got.push(s[k]));
    } else {
        assert(got =~= s);
        assert(start_stack::byte_at(m, p + s.len(), 0));
    }
}

/// A string in a process's memory is read up to its NUL.
pub proof fn law_string_is_read_up_to_its_nul(m: Map<int, u8>, p: u64, s: Seq<u8>)
    requires
        start_stack::string_at(m, p as int, s),
        readable(s),
    ensures
        syscall_fs::user_str(m, p) == Some(syscall_fs::lossy(s)),
{
    assert(s.take(0) =~= Seq::empty());
    lemma_string_is_read(m, p as int, s, Seq::empty());
}

proof fn lemma_array_is_read(m: Map<int, u8>, a: int, ss: Seq<Seq<u8>>, got: Seq<Seq<char>>)
    requires
        array_of(m, a, ss),
        got.len() <= ss.len(),
        forall|i: int| 0 <= i < got.len() ==> #[trigger] got[i] == syscall_fs::lossy(ss[i]),
    ensures
        syscall_fs::str_array(m, a, got) == Some(
            Seq::new(ss.len(), |i: int| syscall_fs::lossy(ss[i])),
        ),
    decreases ss.len() - got.len(),
{
    let k = got.len() as int;
    if k < ss.len() {
        assert(start_stack::points_to(m, a + 8 * k, ss[k]));
        let q = process::word64(m, a + 8 * k)->0;
        assert(readable(ss[k]));
        law_string_is_read_up_to_its_nul(m, q, ss[k]);
        lemma_array_is_read(m, a, ss, got.push(syscall_fs::lossy(ss[k])));
    } else {
        assert(got =~= Seq::new(ss.len(), |i: int| syscall_fs::lossy(ss[i])));
    }
}

/// An array of strings in a process's memory is read in order, up to its null;
/// no array at all is an empty one.
pub proof fn law_array_is_read_up_to_its_null(m: Map<int, u8>, a: u64, ss: Seq<Seq<u8>>)
    requires
        array_of(m, a as int, ss),
    ensures
        syscall_fs::user_strs(m, a) == Some(
            Seq::new(ss.len(), |i: int| syscall_fs::lossy(ss[i])),
        ),
        syscall_fs::user_strs(m, 0) == Some(Seq::<Seq<char>>::empty()),
{
    lemma_array_is_read(m, a as int, ss, Seq::empty());
}

/// After an `execve` that succeeds, the new program has its own address space.
/// The word at its stack pointer is the number of strings in the array that
/// the second argument pointed to, the pointers behind it lead to those strings
/// in order and end with a null, and the pointers behind that null lead to the
/// strings of the array that the third argument pointed to.
pub proof fn law_execve_hands_over_arguments_and_environment(
    c: Caller,
    t: Tv,
    s: Sv,
    p: syscall_fs::Pg,
    argv: Seq<Seq<u8>>,
    envp: Seq<Seq<u8>>,
)
    requires
        c.frame.rax == 59,
        array_of(t.space.mem, c.frame.rsi as int, argv),
        array_of(t.space.mem, c.frame.rdx as int, envp),
    ensures
        syscall::served(c, t, s, p) matches Some((c2, t2, s2, p2, Outcome::Exec(f))) ==> {
            &&& start_stack::starts_with(
                t2.space.mem,
                f.rsp as int,
                passed_on(argv),
                passed_on(envp),
            )
            &&& f.rsp % 16 == 0
            &&& t2.pid == t.pid && t2.ppid == t.ppid && t2.uid == t.uid && t2.cwd == t.cwd
            &&& s2.disk == s.disk
        },
{
    law_array_is_read_up_to_its_null(t.space.mem, c.frame.rsi, argv);
    law_array_is_read_up_to_its_null(t.space.mem, c.frame.rdx, envp);
    let a = Seq::new(argv.len(), |i: int| syscall_fs::lossy(argv[i]));
    let e = Seq::new(envp.len(), |i: int| syscall_fs::lossy(envp[i]));
    assert(syscall::encoded(a) =~= passed_on(argv));
    assert(syscall::encoded(e) =~= passed_on(envp));
    lemma_served_exec(c, t, s, p);
    match syscall::exec_call(c, t, s, c.frame.rdi, c.frame.rsi, c.frame.rdx) {
        Some((c2, t2, s2, Outcome::Exec(f))) => {
            let fs = ext2::opened(s.disk)->Ok_0;
            let path = syscall_fs::user_path(t, c.frame.rdi)->0;
            let image = ext2::path_data(s.disk, fs, vstd::utf8::encode_utf8(path))->Ok_0->0;
            start_stack::law_built_program_finds_its_strings(
                s.free,
                image,
                passed_on(argv),
                passed_on(envp),
            );
        },
        _ => {},
    }
}

/// Call 59 is `execve`, with its path, its arguments and its environment in the
/// first three argument registers.
proof fn lemma_served_exec(c: Caller, t: Tv, s: Sv, p: syscall_fs::Pg)
    requires
        c.frame.rax == 59,
    ensures
        syscall::served(c, t, s, p) == syscall::plain(
            syscall::exec_call(c, t, s, c.frame.rdi, c.frame.rsi, c.frame.rdx),
        ),
{
}

/// The new program begins at the entry point of the image that the path in the
/// first argument names, with every other register clear.
pub proof fn law_execve_starts_the_named_program(
    c: Caller,
    t: Tv,
    s: Sv,
    p: syscall_fs::Pg,
    path: Seq<char>,
    image: Seq<u8>,
)
    requires
        c.frame.rax == 59,
        syscall_fs::user_path(t, c.frame.rdi) == Some(path),
        ext2::opened(s.disk) is Ok,
        ext2::path_data(s.disk, ext2::opened(s.disk)->Ok_0, vstd::utf8::encode_utf8(path)) == Ok::<
            Option<Seq<u8>>,
            &'static str,
        >(Some(image)),
    ensures
        syscall::served(c, t, s, p) matches Some((c2, t2, s2, p2, Outcome::Exec(f))) ==> {
            &&& f.rip == bytes::le64(image, 24)
            &&& f.cs == c.cs && f.ss == c.ss
            &&& f.rax == 0 && f.rdi == 0 && f.rsi == 0 && f.rdx == 0 && f.rbp == 0
            &&& c2.fsbase == 0
        },
{
    lemma_served_exec(c, t, s, p);
    match syscall::exec_call(c, t, s, c.frame.rdi, c.frame.rsi, c.frame.rdx) {
        Some((c2, t2, s2, Outcome::Exec(f))) => {
            let a = syscall::encoded(syscall_fs::user_strs(t.space.mem, c.frame.rsi)->0);
            let e = syscall::encoded(syscall_fs::user_strs(t.space.mem, c.frame.rdx)->0);
            start_stack::law_built_program_finds_its_strings(s.free, image, a, e);
        },
        _ => {},
    }
}

} // verus!
