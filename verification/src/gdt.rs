//! The segments of each processor, and the stacks its worst faults run on.
//!
//! The order of the descriptors is the one that the fast system call asks for;
//! it is the same on every processor, so the selectors are shared.
use vstd::prelude::*;

use x86_64::structures::gdt::{Descriptor, GlobalDescriptorTable};

verus! {

pub const MAX_CPUS: usize = 32;

pub const IST_STACK_SIZE: u64 = 20480;

/// Stacks for each processor.
pub const IST_STACKS: u64 = 3;

/// The words of the four segments: flat ones over all memory.
pub const KERNEL_CODE: u64 = 0x00AF_9B00_0000_FFFF;

pub const KERNEL_DATA: u64 = 0x00CF_9300_0000_FFFF;

pub const USER_DATA: u64 = 0x00CF_F300_0000_FFFF;

pub const USER_CODE: u64 = 0x00AF_FB00_0000_FFFF;

#[derive(Clone, Copy)]
pub struct Selectors {
    pub kernel_code: u16,
    pub kernel_data: u16,
    pub user_data: u16,
    pub user_code: u16,
}

/// The selector of the descriptor at `index`, asking for `level`.
pub open spec fn selector(index: int, level: int) -> int {
    8 * index + level
}

/// The descriptors follow the null one: kernel code and data, then user data
/// and code.
pub open spec fn shared() -> Selectors {
    Selectors {
        kernel_code: selector(1, 0) as u16,
        kernel_data: selector(2, 0) as u16,
        user_data: selector(3, 3) as u16,
        user_code: selector(4, 3) as u16,
    }
}

/// `x86_64`'s table of descriptors.
#[verifier::external_type_specification]
#[verifier::external_body]
pub struct ExGlobalDescriptorTable<const MAX: usize>(GlobalDescriptorTable<MAX>);

/// The words a table holds, the null descriptor first.
pub uninterp spec fn words(t: GlobalDescriptorTable) -> Seq<u64>;

/// The level of a descriptor: two bits of its word.
pub open spec fn level(word: u64) -> u64 {
    (word >> 45) & 3
}

/// `GlobalDescriptorTable::new`: a table that holds the null descriptor.
#[verifier::external_body]
fn new_table() -> (r: GlobalDescriptorTable)
    ensures
        words(r) == seq![0u64],
{
    GlobalDescriptorTable::new()
}

/// `GlobalDescriptorTable::append` of a `Descriptor::UserSegment`: the word takes
/// the next place, and the selector is eight times its index plus its level. A
/// table has eight places.
#[verifier::external_body]
fn append(t: &mut GlobalDescriptorTable, word: u64) -> (r: u16)
    requires
        words(*old(t)).len() < 8,
    ensures
        words(*final(t)) == words(*old(t)).push(word),
        r == selector(words(*old(t)).len() as int, level(word) as int),
{
    t.append(Descriptor::UserSegment(word)).0
}

/// `Descriptor::kernel_code_segment`: a flat 64-bit code segment of level 0.
#[verifier::external_body]
fn kernel_code_word() -> (r: u64)
    ensures
        r == KERNEL_CODE,
{
    match Descriptor::kernel_code_segment() {
        Descriptor::UserSegment(word) => word,
        Descriptor::SystemSegment(word, _) => word,
    }
}

/// `Descriptor::kernel_data_segment`: a flat data segment of level 0.
#[verifier::external_body]
fn kernel_data_word() -> (r: u64)
    ensures
        r == KERNEL_DATA,
{
    match Descriptor::kernel_data_segment() {
        Descriptor::UserSegment(word) => word,
        Descriptor::SystemSegment(word, _) => word,
    }
}

/// `Descriptor::user_data_segment`: a flat data segment of level 3.
#[verifier::external_body]
fn user_data_word() -> (r: u64)
    ensures
        r == USER_DATA,
{
    match Descriptor::user_data_segment() {
        Descriptor::UserSegment(word) => word,
        Descriptor::SystemSegment(word, _) => word,
    }
}

/// `Descriptor::user_code_segment`: a flat 64-bit code segment of level 3.
#[verifier::external_body]
fn user_code_word() -> (r: u64)
    ensures
        r == USER_CODE,
{
    match Descriptor::user_code_segment() {
        Descriptor::UserSegment(word) => word,
        Descriptor::SystemSegment(word, _) => word,
    }
}

proof fn lemma_levels()
    by (bit_vector)
    ensures
        (0x00AF_9B00_0000_FFFFu64 >> 45u64) & 3 == 0,
        (0x00CF_9300_0000_FFFFu64 >> 45u64) & 3 == 0,
        (0x00CF_F300_0000_FFFFu64 >> 45u64) & 3 == 3,
        (0x00AF_FB00_0000_FFFFu64 >> 45u64) & 3 == 3,
{
}

/// A processor's table, with the segments in their order, and the selectors. A
/// place for the task's own descriptor is left behind them.
pub fn segments() -> (r: (GlobalDescriptorTable, Selectors))
    ensures
        words(r.0) == seq![0u64, KERNEL_CODE, KERNEL_DATA, USER_DATA, USER_CODE],
        r.1 == shared(),
{
    proof {
        lemma_levels();
    }
    let mut t = new_table();
    let code: u64 = kernel_code_word();
    let kernel_code: u16 = append(&mut t, code);
    let data: u64 = kernel_data_word();
    let kernel_data: u16 = append(&mut t, data);
    let data: u64 = user_data_word();
    let user_data: u16 = append(&mut t, data);
    let code: u64 = user_code_word();
    let user_code: u16 = append(&mut t, code);
    assert(words(t) =~= seq![0u64, KERNEL_CODE, KERNEL_DATA, USER_DATA, USER_CODE]);
    (t, Selectors { kernel_code, kernel_data, user_data, user_code })
}

/// The selectors of every processor.
pub fn selectors() -> (r: Selectors)
    ensures
        r == shared(),
{
    segments().1
}

/// The top of stack `slot` of processor `cpu`, where the stacks lie from `base`
/// on.
pub open spec fn top(base: u64, cpu: int, slot: int) -> int {
    base + (cpu * IST_STACKS + slot + 1) * IST_STACK_SIZE
}

/// The tops of the three stacks of a processor.
pub fn init(base: u64, cpu: usize) -> (r: (u64, u64, u64))
    requires
        cpu < MAX_CPUS,
        base <= u64::MAX - MAX_CPUS * IST_STACKS * IST_STACK_SIZE,
    ensures
        r.0 == top(base, cpu as int, 0),
        r.1 == top(base, cpu as int, 1),
        r.2 == top(base, cpu as int, 2),
{
    let first: u64 = base + cpu as u64 * IST_STACKS * IST_STACK_SIZE;
    (first + IST_STACK_SIZE, first + 2 * IST_STACK_SIZE, first + 3 * IST_STACK_SIZE)
}

/// The selectors suit the fast system call: entering takes the kernel's code
/// and the data behind it, and returning takes the user's data and the code
/// behind it, both at the user's level.
pub proof fn law_selectors_suit_the_system_call()
    ensures
        shared().kernel_data == shared().kernel_code + 8,
        shared().user_code == shared().user_data + 8,
        shared().kernel_code % 4 == 0,
        shared().user_data % 4 == 3,
{
}

/// A fault on one processor never runs on another's stack, nor two kinds of
/// fault on the same one.
pub proof fn law_stacks_do_not_overlap(base: u64, c: int, s: int, d: int, t: int)
    requires
        0 <= s < IST_STACKS,
        0 <= t < IST_STACKS,
        c != d || s != t,
    ensures
        top(base, c, s) + IST_STACK_SIZE <= top(base, d, t) || top(base, d, t) + IST_STACK_SIZE
            <= top(base, c, s),
{
}

} // verus!
