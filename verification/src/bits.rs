//! What masks and shifts are in arithmetic.
use vstd::prelude::*;

verus! {

/// The fields of one word, by division and remainder.
pub proof fn lemma_word(x: u32)
    ensures
        x & 1 == x % 2,
        x & 0b111 == x % 8,
        x & 0xFF == x % 0x100,
        x & 0xFFFF == x % 0x1_0000,
        x & !3u32 == x / 4 * 4,
        x & !0x1Fu32 == x / 32 * 32,
        x as u8 == x % 0x100,
        x as u16 == x % 0x1_0000,
        (x >> 8) as u8 == x / 0x100 % 0x100,
        (x >> 16) as u8 == x / 0x1_0000 % 0x100,
        (x >> 24) as u8 == x / 0x100_0000,
        (x >> 24) & 0xFF == x / 0x100_0000,
        (x >> 10) & 0xF == x / 0x400 % 0x10,
        x >> 16 == x / 0x1_0000,
        x >> 0u32 == x,
        (x >> 8) as u8 & 0xFC == x / 0x400 % 0x40 * 4,
        (x as u64) & !0xFu64 == x / 0x10 * 0x10,
        0u32 & 2 == 0,
        x & 0x22 != 0 <==> x / 2 % 2 == 1 || x / 0x20 % 2 == 1,
        x & 0x40 != 0 <==> x / 0x40 % 2 == 1,
{
    assert(x & 1 == x % 2 && x & 0b111 == x % 8 && x & 0xFF == x % 0x100 && x & 0xFFFF == x
        % 0x1_0000 && x & !3u32 == x / 4 * 4 && x & !0x1Fu32 == x / 32 * 32 && x as u8 == x % 0x100
        && x as u16 == x % 0x1_0000 && (x >> 8) as u8 == x / 0x100 % 0x100 && (x >> 16) as u8 == x
        / 0x1_0000 % 0x100 && (x >> 24) as u8 == x / 0x100_0000 && (x >> 24) & 0xFF == x
        / 0x100_0000 && (x >> 10) & 0xF == x / 0x400 % 0x10 && x >> 16 == x / 0x1_0000 && x >> 0u32
        == x && (x >> 8) as u8 & 0xFC == x / 0x400 % 0x40 * 4 && (x as u64) & !0xFu64 == x / 0x10
        * 0x10 && 0u32 & 2 == 0 && (x & 0x22 != 0 <==> x / 2 % 2 == 1 || x / 0x20 % 2 == 1) && (x & 0x40
        != 0 <==> x / 0x40 % 2 == 1)) by (bit_vector);
}

/// The halves of a double word, and the bits of a half word.
pub proof fn lemma_halves(w: u64, y: u32, x: u32, h: u16)
    ensures
        w as u32 == w % 0x1_0000_0000,
        (w >> 32) as u32 == w / 0x1_0000_0000,
        (w & 0xFFFF_FFFF) as u32 == w % 0x1_0000_0000,
        (((y as u64) << 32) | (x as u64)) & !0xFu64 == y * 0x1_0000_0000 + x / 0x10 * 0x10,
        h & 0x400 != 0 <==> h / 0x400 % 2 == 1,
        h & 0x100 == 0 <==> h / 0x100 % 2 == 0,
        h & 0x1F == h % 0x20,
        w % 0x10 == 0 ==> w as u32 | 1 == w as u32 + 1,
        w & 1 == w % 2,
{
    assert(w as u32 == w % 0x1_0000_0000 && (w >> 32) as u32 == w / 0x1_0000_0000 && (w
        & 0xFFFF_FFFF) as u32 == w % 0x1_0000_0000 && (((y as u64) << 32) | (x as u64)) & !0xFu64
        == y * 0x1_0000_0000 + x / 0x10 * 0x10 && (h & 0x400 != 0 <==> h / 0x400 % 2 == 1) && (h
        & 0x100 == 0 <==> h / 0x100 % 2 == 0) && h & 0x1F == h % 0x20 && (w % 0x10 == 0 ==> w as u32
        | 1 == w as u32 + 1) && w & 1 == w % 2) by (bit_vector);
}

/// The words of requests and contexts for a USB controller, put together out of
/// their fields.
pub proof fn lemma_fields(cycle: u32, trt: u32, dir: u32, speed: u32, port: u32, packet: u32)
    requires
        cycle <= 1,
        trt <= 3,
        dir <= 1,
        speed <= 15,
        port <= 255,
        packet <= 0xFFFF,
    ensures
        (((2u32 << 10) | (1u32 << 6) | (trt << 16)) & !1u32) | cycle == 2 * 1024 + 64 + trt * 65536
            + cycle,
        (((3u32 << 10) | (1u32 << 16)) & !1u32) | cycle == 3 * 1024 + 65536 + cycle,
        (((4u32 << 10) | (dir << 16) | (1u32 << 5)) & !1u32) | cycle == 4 * 1024 + dir * 65536 + 32
            + cycle,
        (1u32 << 27) | (speed << 20) == 0x800_0000 + speed * 0x10_0000,
        (3u32 << 27) | (speed << 20) == 0x1800_0000 + speed * 0x10_0000,
        port << 16 == port * 65536,
        (4u32 << 3) | (packet << 16) | (3u32 << 1) == 32 + 6 + packet * 65536,
        (7u32 << 3) | (8u32 << 16) | (3u32 << 1) == 56 + 6 + 8 * 65536,
        1u32 | (1u32 << 3u32) == 9,
{
    assert((((2u32 << 10) | (1u32 << 6) | (trt << 16)) & !1u32) | cycle == 2 * 1024 + 64 + trt * 65536
        + cycle && (((3u32 << 10) | (1u32 << 16)) & !1u32) | cycle == 3 * 1024 + 65536 + cycle && (((
    4u32 << 10) | (dir << 16) | (1u32 << 5)) & !1u32) | cycle == 4 * 1024 + dir * 65536 + 32 + cycle
        && (1u32 << 27) | (speed << 20) == 0x800_0000 + speed * 0x10_0000 && (3u32 << 27) | (speed
        << 20) == 0x1800_0000 + speed * 0x10_0000 && port << 16 == port * 65536 && (4u32 << 3) | (
    packet << 16) | (3u32 << 1) == 32 + 6 + packet * 65536 && (7u32 << 3) | (8u32 << 16) | (3u32
        << 1) == 56 + 6 + 8 * 65536 && 1u32 | (1u32 << 3u32) == 9) by (bit_vector)
        requires
            cycle <= 1,
            trt <= 3,
            dir <= 1,
            speed <= 15,
            port <= 255,
            packet <= 0xFFFF,
    ;
}

} // verus!
