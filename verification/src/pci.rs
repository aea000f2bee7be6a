//! PCI configuration space: the first bus, read through a snapshot of its
//! registers. A write comes out as the register address and the value.
use vstd::prelude::*;

verus! {

/// A device function.
#[derive(Clone, Copy, PartialEq, Eq, Debug, Structural)]
pub struct Location {
    pub bus: u8,
    pub dev: u8,
    pub func: u8,
}

/// A register write: the address for the address port, and the value for the
/// data port.
#[derive(Clone, Copy)]
pub struct ConfigWrite {
    pub addr: u32,
    pub value: u32,
}

/// The registers of the first bus: 64 words for each function, 8 functions for
/// each of 32 devices.
pub struct Config {
    words: Vec<u32>,
}

pub const BUS_WORDS: usize = 16384;

impl View for Config {
    type V = Seq<u32>;

    closed spec fn view(&self) -> Seq<u32> {
        self.words@
    }
}

/// A function of the first bus.
pub open spec fn on_bus(loc: Location) -> bool {
    loc.bus == 0 && loc.dev < 32 && loc.func < 8
}

/// The address of the register at `offset`.
pub open spec fn address(loc: Location, offset: u8) -> u32 {
    0x8000_0000u32 | ((loc.bus as u32) << 16) | ((loc.dev as u32) << 11) | ((loc.func as u32) << 8)
        | ((offset as u32) & 0xFC)
}

impl Location {
    pub fn addr(self, offset: u8) -> (r: u32)
        ensures
            r == address(self, offset),
    {
        0x8000_0000u32 | ((self.bus as u32) << 16) | ((self.dev as u32) << 11) | ((
        self.func as u32) << 8) | ((offset as u32) & 0xFC)
    }
}

/// Different registers have different addresses.
pub proof fn law_addresses_differ(a: Location, b: Location, x: u8, y: u8)
    requires
        a.dev < 32,
        a.func < 8,
        b.dev < 32,
        b.func < 8,
        address(a, x) == address(b, y),
    ensures
        a == b,
        x / 4 == y / 4,
{
    let (ab, ad, af) = (a.bus, a.dev, a.func);
    let (bb, bd, bf) = (b.bus, b.dev, b.func);
    assert(ab == bb && ad == bd && af == bf && x / 4 == y / 4) by (bit_vector)
        requires
            ad < 32,
            af < 8,
            bd < 32,
            bf < 8,
            0x8000_0000u32 | ((ab as u32) << 16) | ((ad as u32) << 11) | ((af as u32) << 8) | ((
            x as u32) & 0xFC) == 0x8000_0000u32 | ((bb as u32) << 16) | ((bd as u32) << 11) | ((
            bf as u32) << 8) | ((y as u32) & 0xFC),
    ;
}

/// The word at `offset`.
pub open spec fn word(c: Seq<u32>, loc: Location, offset: u8) -> u32 {
    c[loc.dev * 512 + loc.func * 64 + offset / 4]
}

/// The half word at `offset`.
pub open spec fn half(c: Seq<u32>, loc: Location, offset: u8) -> u16 {
    (word(c, loc, offset) >> ((offset as u32 & 2) * 8) as u32) as u16
}

/// The capability `id` in the list from `ptr` on, of at most `n` entries.
pub open spec fn cap_from(c: Seq<u32>, loc: Location, id: u8, ptr: u8, n: nat) -> Option<u8>
    decreases n,
{
    if n == 0 || ptr < 0x40 {
        None
    } else {
        let hdr = word(c, loc, ptr);
        if hdr as u8 == id {
            Some(ptr)
        } else {
            let next = (hdr >> 8) as u8 & 0xFC;
            if next == 0 {
                None
            } else {
                cap_from(c, loc, id, next, (n - 1) as nat)
            }
        }
    }
}

/// Class, subclass and programming interface.
pub open spec fn class_of(c: Seq<u32>, loc: Location) -> (u8, u8, u8) {
    let v = word(c, loc, 0x08);
    ((v >> 24) as u8, (v >> 16) as u8, (v >> 8) as u8)
}

/// The first function from `(dev, func)` on with this class. A device whose
/// first function is absent has no others.
pub open spec fn class_from(c: Seq<u32>, class: (u8, u8, u8), dev: int, func: int) -> Option<Location>
    decreases 32 - dev, 8 - func,
{
    if dev >= 32 {
        None
    } else if func >= 8 {
        class_from(c, class, dev + 1, 0)
    } else {
        let loc = Location { bus: 0, dev: dev as u8, func: func as u8 };
        if half(c, loc, 0) == 0xFFFF {
            if func == 0 {
                class_from(c, class, dev + 1, 0)
            } else {
                class_from(c, class, dev, func + 1)
            }
        } else if class_of(c, loc) == class {
            Some(loc)
        } else {
            class_from(c, class, dev, func + 1)
        }
    }
}

/// The address in base register `index`; 64 bits of it where it is marked so.
pub open spec fn base_of(c: Seq<u32>, loc: Location, index: u8) -> u64 {
    let off = (0x10 + index * 4) as u8;
    let low = word(c, loc, off);
    if low & 0b111 == 0b100 {
        let high = word(c, loc, (off + 4) as u8);
        (((high as u64) << 32) | (low as u64)) & !0xFu64
    } else {
        (low as u64) & !0xFu64
    }
}

impl Config {
    pub closed spec fn wf(self) -> bool {
        self.words@.len() == BUS_WORDS
    }

    /// A snapshot, if it is of a whole bus.
    pub fn new(words: Vec<u32>) -> (r: Option<Config>)
        ensures
            r is Some <==> words@.len() == BUS_WORDS,
            r is Some ==> r->0.wf() && r->0@ == words@,
    {
        if words.len() == BUS_WORDS {
            Some(Config { words })
        } else {
            None
        }
    }

    pub fn read32(&self, loc: Location, offset: u8) -> (r: u32)
        requires
            self.wf(),
            on_bus(loc),
        ensures
            r == word(self@, loc, offset),
    {
        self.words[loc.dev as usize * 512 + loc.func as usize * 64 + (offset / 4) as usize]
    }

    pub fn read16(&self, loc: Location, offset: u8) -> (r: u16)
        requires
            self.wf(),
            on_bus(loc),
        ensures
            r == half(self@, loc, offset),
    {
        let bit: u32 = offset as u32 & 2;
        assert(bit <= 2) by (bit_vector)
            requires
                bit == offset as u32 & 2,
        ;
        (self.read32(loc, offset) >> (bit * 8)) as u16
    }

    /// The write of a whole word.
    pub fn write32(&self, loc: Location, offset: u8, value: u32) -> (r: ConfigWrite)
        ensures
            r.addr == address(loc, offset),
            r.value == value,
    {
        ConfigWrite { addr: loc.addr(offset), value }
    }

    /// The write that changes the half word at `offset` and no other.
    pub fn write16(&self, loc: Location, offset: u8, value: u16) -> (r: ConfigWrite)
        requires
            self.wf(),
            on_bus(loc),
        ensures
            r.addr == address(loc, offset & 0xFC),
            ({
                let shift = ((offset as u32 & 2) * 8) as u32;
                let d = word(self@, loc, offset & 0xFC);
                r.value == (d & !(0xFFFFu32 << shift)) | ((value as u32) << shift)
            }),
    {
        let bit: u32 = offset as u32 & 2;
        assert(bit <= 2) by (bit_vector)
            requires
                bit == offset as u32 & 2,
        ;
        let shift: u32 = bit * 8;
        let d: u32 = self.read32(loc, offset & 0xFC);
        self.write32(
            loc,
            offset & 0xFC,
            (d & !(0xFFFFu32 << shift)) | ((value as u32) << shift),
        )
    }

    /// Where the capability `id` lies, if the function has it.
    pub fn find_cap(&self, loc: Location, id: u8) -> (r: Option<u8>)
        requires
            self.wf(),
            on_bus(loc),
        ensures
            r == if half(self@, loc, 0x06) & 0x10 == 0 {
                None
            } else {
                cap_from(self@, loc, id, word(self@, loc, 0x34) as u8 & 0xFC, 48)
            },
    {
        if self.read16(loc, 0x06) & 0x10 == 0 {
            return None;
        }
        let mut ptr: u8 = self.read32(loc, 0x34) as u8 & 0xFC;
        let mut left: u32 = 48;
        let ghost want = cap_from(self@, loc, id, ptr, 48);
        while left > 0
            invariant
                self.wf(),
                on_bus(loc),
                want == cap_from(self@, loc, id, ptr, left as nat),
                half(self@, loc, 0x06) & 0x10 != 0,
                want == cap_from(self@, loc, id, word(self@, loc, 0x34) as u8 & 0xFC, 48),
            decreases left,
        {
            if ptr < 0x40 {
                return None;
            }
            let hdr: u32 = self.read32(loc, ptr);
            if hdr as u8 == id {
                return Some(ptr);
            }
            ptr = (hdr >> 8) as u8 & 0xFC;
            if ptr == 0 {
                return None;
            }
            left = left - 1;
        }
        None
    }

    fn class_code(&self, loc: Location) -> (r: (u8, u8, u8))
        requires
            self.wf(),
            on_bus(loc),
        ensures
            r == class_of(self@, loc),
    {
        let v: u32 = self.read32(loc, 0x08);
        ((v >> 24) as u8, (v >> 16) as u8, (v >> 8) as u8)
    }

    /// The first function of a class.
    pub fn find_class(&self, class: u8, subclass: u8, progif: u8) -> (r: Option<Location>)
        requires
            self.wf(),
        ensures
            r == class_from(self@, (class, subclass, progif), 0, 0),
            r is Some ==> on_bus(r->0),
    {
        let mut dev: u8 = 0;
        let mut func: u8 = 0;
        let ghost kind = (class, subclass, progif);
        while dev < 32
            invariant
                self.wf(),
                dev <= 32,
                func <= 8,
                kind == (class, subclass, progif),
                class_from(self@, kind, 0, 0) == class_from(self@, kind, dev as int, func as int),
            decreases 32 - dev, 8 - func,
        {
            if func >= 8 {
                dev = dev + 1;
                func = 0;
            } else {
                let loc = Location { bus: 0, dev, func };
                if self.read16(loc, 0) == 0xFFFF {
                    if func == 0 {
                        dev = dev + 1;
                    } else {
                        func = func + 1;
                    }
                } else {
                    let (a, b, c) = self.class_code(loc);
                    if a == class && b == subclass && c == progif {
                        return Some(loc);
                    }
                    func = func + 1;
                }
            }
        }
        None
    }

    /// The SATA controller.
    pub fn find_ahci(&self) -> (r: Option<Location>)
        requires
            self.wf(),
        ensures
            r == class_from(self@, (0x01, 0x06, 0x01), 0, 0),
            r is Some ==> on_bus(r->0),
    {
        self.find_class(0x01, 0x06, 0x01)
    }

    /// The USB controller.
    pub fn find_xhci(&self) -> (r: Option<Location>)
        requires
            self.wf(),
        ensures
            r == class_from(self@, (0x0C, 0x03, 0x30), 0, 0),
            r is Some ==> on_bus(r->0),
    {
        self.find_class(0x0C, 0x03, 0x30)
    }

    /// The address in a base register.
    pub fn bar(&self, loc: Location, index: u8) -> (r: u64)
        requires
            self.wf(),
            on_bus(loc),
            index < 6,
        ensures
            r == base_of(self@, loc, index),
    {
        let off: u8 = 0x10 + index * 4;
        let low: u32 = self.read32(loc, off);
        if low & 0b111 == 0b100 {
            let high: u32 = self.read32(loc, off + 4);
            (((high as u64) << 32) | (low as u64)) & !0xFu64
        } else {
            (low as u64) & !0xFu64
        }
    }

    /// The write that lets a device reach memory.
    pub fn enable_bus_master(&self, loc: Location) -> (r: ConfigWrite)
        requires
            self.wf(),
            on_bus(loc),
        ensures
            r.addr == address(loc, 0x04),
            r.value == (half(self@, loc, 0x04) | 0b110) as u32,
    {
        let cmd: u16 = self.read16(loc, 0x04);
        self.write32(loc, 0x04, (cmd | 0b110) as u32)
    }
}

} // verus!
