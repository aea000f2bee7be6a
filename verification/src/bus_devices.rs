//! What is found on the bus, and what the USB keyboard's controller is told, by
//! the fields that the devices give and look at.
use vstd::prelude::*;

use crate::ahci;
use crate::bits;
use crate::bytes;
use crate::pci;
use crate::pci::Location;
use crate::xhci;

verus! {

/// Word `k` of the configuration space of a function.
pub open spec fn config_word(c: Seq<u32>, dev: int, func: int, k: int) -> u32 {
    c[dev * 512 + func * 64 + k]
}

/// A function that answers: its vendor is not all ones.
pub open spec fn present(c: Seq<u32>, dev: int, func: int) -> bool {
    config_word(c, dev, func, 0) % 0x1_0000 != 0xFFFF
}

/// A function of this class: class, subclass and interface are the three upper
/// bytes of word 2.
pub open spec fn is_of_class(c: Seq<u32>, dev: int, func: int, class: (u8, u8, u8)) -> bool {
    config_word(c, dev, func, 2) / 0x100 == class.0 * 0x1_0000 + class.1 * 0x100 + class.2
}

proof fn lemma_three_bytes(v: u32, x: u8, y: u8, z: u8, class: (u8, u8, u8))
    requires
        x == v / 0x100_0000,
        y == v / 0x1_0000 % 0x100,
        z == v / 0x100 % 0x100,
    ensures
        ((x, y, z) == class) == (v / 0x100 == class.0 * 0x1_0000 + class.1 * 0x100 + class.2),
{
    assert(v / 0x100 == x * 0x1_0000 + y * 0x100 + z);
}

proof fn lemma_function(c: Seq<u32>, dev: int, func: int, class: (u8, u8, u8))
    requires
        0 <= dev < 32,
        0 <= func < 8,
    ensures
        ({
            let loc = Location { bus: 0, dev: dev as u8, func: func as u8 };
            &&& (pci::half(c, loc, 0) == 0xFFFF) == !present(c, dev, func)
            &&& (pci::class_of(c, loc) == class) == is_of_class(c, dev, func, class)
        }),
{
    let loc = Location { bus: 0, dev: dev as u8, func: func as u8 };
    let v = config_word(c, dev, func, 2);
    let w = config_word(c, dev, func, 0);
    assert(pci::word(c, loc, 0) == w);
    assert(pci::word(c, loc, 8) == v);
    assert((pci::half(c, loc, 0) == 0xFFFF) == !present(c, dev, func)) by {
        bits::lemma_word(w);
        assert(0u8 as u32 & 2 == 0u32 & 2);
    }
    assert(pci::class_of(c, loc) == ((v >> 24) as u8, (v >> 16) as u8, (v >> 8) as u8));
    bits::lemma_word(v);
    lemma_three_bytes(v, (v >> 24) as u8, (v >> 16) as u8, (v >> 8) as u8, class);
}

proof fn lemma_class_from(c: Seq<u32>, class: (u8, u8, u8), dev: int, func: int)
    requires
        0 <= dev <= 32,
        0 <= func <= 8,
    ensures
        match pci::class_from(c, class, dev, func) {
            Some(loc) => {
                &&& loc.bus == 0 && loc.dev < 32 && loc.func < 8
                &&& dev * 8 + func <= loc.dev * 8 + loc.func
                &&& present(c, loc.dev as int, loc.func as int)
                &&& is_of_class(c, loc.dev as int, loc.func as int, class)
                &&& forall|d: int, f: int|
                    0 <= d < 32 && 0 <= f < 8 && dev * 8 + func <= d * 8 + f < loc.dev * 8
                        + loc.func && (d == dev && func > 0 || present(c, d, 0)) && present(c, d, f)
                        ==> !(#[trigger] is_of_class(c, d, f, class))
            },
            None => forall|d: int, f: int|
                0 <= d < 32 && 0 <= f < 8 && dev * 8 + func <= d * 8 + f && (d == dev && func > 0
                    || present(c, d, 0)) && present(c, d, f) ==> !(#[trigger] is_of_class(
                    c,
                    d,
                    f,
                    class,
                )),
        },
    decreases 32 - dev, 8 - func,
{
    if dev < 32 {
        if func >= 8 {
            lemma_class_from(c, class, dev + 1, 0);
        } else {
            lemma_function(c, dev, func, class);
            if !present(c, dev, func) {
                if func == 0 {
                    lemma_class_from(c, class, dev + 1, 0);
                } else {
                    lemma_class_from(c, class, dev, func + 1);
                }
            } else if !is_of_class(c, dev, func, class) {
                lemma_class_from(c, class, dev, func + 1);
            }
        }
    }
}

/// Looking for a class finds the first function on the bus that answers and is
/// of it, and misses none of a device whose first function answers.
pub proof fn law_first_function_of_a_class_is_found(
    c: Seq<u32>,
    class: (u8, u8, u8),
    dev: int,
    func: int,
)
    requires
        0 <= dev < 32,
        0 <= func < 8,
        present(c, dev, 0),
        present(c, dev, func),
        is_of_class(c, dev, func, class),
    ensures
        pci::class_from(c, class, 0, 0) matches Some(loc) && loc.bus == 0 && loc.dev < 32 && loc.func
            < 8 && loc.dev * 8 + loc.func <= dev * 8 + func && present(
            c,
            loc.dev as int,
            loc.func as int,
        ) && is_of_class(c, loc.dev as int, loc.func as int, class),
{
    lemma_class_from(c, class, 0, 0);
    assert(is_of_class(c, dev, func, class));
}

/// A base register says where its registers are; where it is marked as wide,
/// the next register is the upper half.
pub proof fn law_base_register_is_an_address(c: Seq<u32>, loc: Location, index: u8)
    requires
        pci::on_bus(loc),
        index < 6,
    ensures
        ({
            let low = config_word(c, loc.dev as int, loc.func as int, 4 + index);
            let high = config_word(c, loc.dev as int, loc.func as int, 5 + index);
            pci::base_of(c, loc, index) == low / 0x10 * 0x10 + (if low % 8 == 4 {
                high * 0x1_0000_0000
            } else {
                0
            })
        }),
{
    let low = config_word(c, loc.dev as int, loc.func as int, 4 + index);
    let high = config_word(c, loc.dev as int, loc.func as int, 5 + index);
    bits::lemma_word(low);
    bits::lemma_halves(0, high, low, 0);
    let off = (0x10 + index * 4) as u8;
    assert(pci::word(c, loc, off) == low);
    assert(pci::word(c, loc, (off + 4) as u8) == high);
}

/// What the list of capabilities holds at `p`.
pub open spec fn cap_word(c: Seq<u32>, loc: Location, p: u8) -> u32 {
    config_word(c, loc.dev as int, loc.func as int, (p / 4) as int)
}

/// `at` are the places of a list of capabilities: each names the next.
pub open spec fn is_cap_list(c: Seq<u32>, loc: Location, at: Seq<u8>) -> bool {
    &&& forall|i: int| 0 <= i < at.len() ==> #[trigger] at[i] >= 0x40 && at[i] % 4 == 0
    &&& forall|i: int|
        0 <= i < at.len() - 1 ==> cap_word(c, loc, #[trigger] at[i]) / 0x400 % 0x40 * 4 == at[i + 1]
}

/// The first capability of a kind in the list is the one that is found.
pub proof fn law_capability_is_found(c: Seq<u32>, loc: Location, id: u8, at: Seq<u8>, n: nat)
    requires
        0 < at.len() <= n,
        is_cap_list(c, loc, at),
        cap_word(c, loc, at.last()) % 0x100 == id,
        forall|i: int|
            0 <= i < at.len() - 1 ==> cap_word(c, loc, #[trigger] at[i]) % 0x100 != id,
    ensures
        pci::cap_from(c, loc, id, at[0], n) == Some(at.last()),
    decreases n,
{
    let w = cap_word(c, loc, at[0]);
    assert(pci::word(c, loc, at[0]) == w);
    bits::lemma_word(w);
    if at.len() > 1 {
        let rest = at.skip(1);
        assert(rest.last() == at.last());
        assert forall|i: int| 0 <= i < rest.len() implies #[trigger] rest[i] >= 0x40 && rest[i] % 4
            == 0 by {
            assert(rest[i] == at[i + 1]);
        }
        assert forall|i: int| 0 <= i < rest.len() - 1 implies cap_word(c, loc, #[trigger] rest[i])
            / 0x400 % 0x40 * 4 == rest[i + 1] && cap_word(c, loc, rest[i]) % 0x100 != id by {
            assert(rest[i] == at[i + 1]);
        }
        law_capability_is_found(c, loc, id, rest, (n - 1) as nat);
        assert(at[1] >= 0x40);
    }
}

/// A disk has as many sectors as words 100 to 103 of its identity say, where it
/// takes long addresses, and else as words 60 and 61 say; it queues as deep as
/// word 75 says, where word 76 says that it queues.
pub proof fn law_disk_says_its_size(id: Seq<u8>)
    requires
        id.len() == 512,
    ensures
        ({
            let long = bytes::le16(id, 2 * 83int) / 0x400 % 2 == 1 && bytes::le64(id, 2 * 100int) != 0;
            let sectors = if long {
                bytes::le64(id, 2 * 100int)
            } else {
                bytes::le32(id, 2 * 60int) as u64
            };
            let queues = bytes::le16(id, 2 * 76int) / 0x100 % 2 == 1;
            let deep = bytes::le16(id, 2 * 75int) % 0x20 + 1;
            &&& ahci::identity(id) is Ok <==> sectors != 0
            &&& ahci::identity(id) is Ok ==> (ahci::identity(id)->Ok_0).0 == sectors && (ahci::identity(
                id,
            )->Ok_0).1 == if !queues {
                1
            } else if deep == 1 {
                2
            } else {
                deep
            }
        }),
{
    bits::lemma_halves(0, 0, 0, bytes::le16(id, 166));
    bits::lemma_halves(0, 0, 0, bytes::le16(id, 152));
    bits::lemma_halves(0, 0, 0, bytes::le16(id, 150));
}

/// The capability registers of a USB controller say where its other registers
/// are, and how many slots and ports it has.
pub proof fn law_controller_says_its_layout(base: u64, cap: u32, hcs1: u32, dboff: u32, rtsoff: u32)
    requires
        base <= 0xFFFF_FFF0_0000_0000,
    ensures
        ({
            let l = xhci::layout_of(base, cap, hcs1, dboff, rtsoff);
            &&& l.op == base + cap % 0x100
            &&& l.db == base + dboff / 4 * 4
            &&& l.ir0 == base + rtsoff / 32 * 32 + 32
            &&& l.max_slots == hcs1 % 0x100
            &&& l.max_ports == hcs1 / 0x100_0000
        }),
{
    bits::lemma_word(cap);
    bits::lemma_word(hcs1);
    bits::lemma_word(dboff);
    bits::lemma_word(rtsoff);
}

/// The first port whose status has its lowest bit set is the one that is
/// taken, and ports count from one.
pub proof fn law_first_connected_port_is_taken(portsc: Seq<u32>, i: int, at: int)
    requires
        0 <= i <= at < portsc.len() <= 255,
        portsc[at] % 2 == 1,
        forall|k: int| i <= k < at ==> #[trigger] portsc[k] % 2 == 0,
    ensures
        xhci::port_from(portsc, i) == Some((at + 1) as u32),
    decreases at - i,
{
    bits::lemma_word(portsc[i]);
    if i < at {
        assert(portsc[i] % 2 == 0);
        law_first_connected_port_is_taken(portsc, i + 1, at);
    }
}

} // verus!
