//! What the USB controller finds in the memory it shares with its driver: the
//! requests of a control transfer, and the contexts of a device.
use vstd::prelude::*;

use crate::bits;
use crate::bytes;
use crate::xhci;
use crate::xhci::{Rv, Trb};

verus! {

/// A request of this kind: the kind lies above the lowest ten bits.
pub open spec fn is_kind(t: Trb, kind: int) -> bool {
    t.w3 / 1024 % 64 == kind
}

/// The address in a request.
pub open spec fn points_at(t: Trb) -> int {
    t.w0 + 0x1_0000_0000 * t.w1
}

/// A request pushed on a ring with room behind it stands at the ring's place,
/// and the place moves on; all before it is as it was.
proof fn lemma_pushed(r: Rv, t: Trb)
    requires
        r.trbs.len() == 256,
        r.idx < 254,
    ensures
        xhci::pushed(r, t).trbs == r.trbs.update(r.idx as int, xhci::marked(t, r.cycle)),
        xhci::pushed(r, t).idx == r.idx + 1,
        xhci::pushed(r, t).cycle == r.cycle,
{
}

/// A control transfer that reads `len` bytes is three requests, one behind the
/// other: the setup with the eight bytes of the request, the data with the
/// address and the length of the buffer, and the status; one that reads nothing
/// has no data. All carry the ring's cycle bit.
#[verifier::spinoff_prover]
pub proof fn law_control_transfer_is_queued(r: Rv, req: Seq<u8>, data: u64, len: u16)
    requires
        r.trbs.len() == 256,
        r.idx < 252,
        r.cycle <= 1,
        req.len() == 8,
    ensures
        ({
            let after = xhci::controlled(r, req, data, len);
            let i = r.idx as int;
            let last = if len > 0 {
                i + 2
            } else {
                i + 1
            };
            &&& after.idx == last + 1
            &&& is_kind(after.trbs[i], 2)
            &&& after.trbs[i].w0 == bytes::le32(req, 0) && after.trbs[i].w1 == bytes::le32(req, 4)
            &&& after.trbs[i].w2 == 8
            &&& len > 0 ==> is_kind(after.trbs[i + 1], 3) && points_at(after.trbs[i + 1]) == data
                && after.trbs[i + 1].w2 == len
            &&& is_kind(after.trbs[last], 4)
            &&& forall|k: int| i <= k <= last ==> (#[trigger] after.trbs[k]).w3 % 2 == r.cycle
            &&& forall|k: int|
                0 <= k < 256 && !(i <= k <= last) ==> #[trigger] after.trbs[k] == r.trbs[k]
        }),
{
    let s = bytes::le64(req, 0);
    let trt = if len > 0 {
        3u32
    } else {
        0
    };
    let dir = if len > 0 {
        0u32
    } else {
        1
    };
    let t1 = Trb {
        w0: s as u32,
        w1: (s >> 32) as u32,
        w2: 8,
        w3: (xhci::TRB_SETUP << 10) | (1u32 << 6) | (trt << 16),
    };
    let t2 = Trb {
        w0: data as u32,
        w1: (data >> 32) as u32,
        w2: len as u32,
        w3: (xhci::TRB_DATA << 10) | (1u32 << 16),
    };
    let t3 = Trb {
        w0: 0,
        w1: 0,
        w2: 0,
        w3: (xhci::TRB_STATUS << 10) | (dir << 16) | (1u32 << 5),
    };
    bits::lemma_fields(r.cycle, trt, dir, 0, 0, 0);
    bits::lemma_halves(s, 0, 0, 0);
    bits::lemma_halves(data, 0, 0, 0);
    let lo = bytes::le32(req, 0);
    let hi = bytes::le32(req, 4);
    assert(s == lo + 0x1_0000_0000 * hi);
    assert(s % 0x1_0000_0000 == lo && s / 0x1_0000_0000 == hi);
    assert(xhci::marked(t1, r.cycle).w3 == 2 * 1024 + 64 + trt * 65536 + r.cycle);
    assert(xhci::marked(t2, r.cycle).w3 == 3 * 1024 + 65536 + r.cycle);
    assert(xhci::marked(t3, r.cycle).w3 == 4 * 1024 + dir * 65536 + 32 + r.cycle);
    lemma_pushed(r, t1);
    let a = xhci::pushed(r, t1);
    lemma_pushed(a, t2);
    let b = if len > 0 {
        xhci::pushed(a, t2)
    } else {
        a
    };
    lemma_pushed(b, t3);
    let after = xhci::controlled(r, req, data, len);
    assert(after == xhci::pushed(b, t3));
}

/// The context that gives a device its address: both the slot and the control
/// endpoint are new; the slot has the speed and the port of the device, and the
/// endpoint its largest packet and its ring. All else is zero.
#[verifier::spinoff_prover]
pub proof fn law_address_context_describes_the_device(speed: u32, port: u32, packet: u32, ep0: u64)
    requires
        speed <= 15,
        port <= 255,
        packet <= 0xFFFF,
        ep0 % 16 == 0,
    ensures
        ({
            let w = xhci::address_input(speed, port, packet, ep0);
            &&& w.len() == 1024
            &&& w[1] == 3
            &&& w[8] == 1 * 0x800_0000 + speed * 0x10_0000
            &&& w[9] == port * 0x1_0000
            &&& w[17] == packet * 0x1_0000 + 4 * 8 + 3 * 2
            &&& w[18] + 0x1_0000_0000 * w[19] == ep0 + 1
            &&& forall|k: int|
                0 <= k < 1024 && k != 1 && k != 8 && k != 9 && k != 17 && k != 18 && k != 19
                    ==> #[trigger] w[k] == 0
        }),
{
    bits::lemma_fields(0, 0, 0, speed, port, packet);
    bits::lemma_halves(ep0, 0, 0, 0);
}

/// The context that adds the keyboard's endpoint, the third: an interrupt
/// endpoint of eight bytes, with its ring.
#[verifier::spinoff_prover]
pub proof fn law_endpoint_context_adds_the_keyboard(speed: u32, port: u32, kbd: u64)
    requires
        speed <= 15,
        port <= 255,
        kbd % 16 == 0,
    ensures
        ({
            let w = xhci::endpoint_input(speed, port, kbd);
            &&& w.len() == 1024
            &&& w[1] == 1 + 8
            &&& w[8] == 3 * 0x800_0000 + speed * 0x10_0000
            &&& w[9] == port * 0x1_0000
            &&& w[33] == 8 * 0x1_0000 + 7 * 8 + 3 * 2
            &&& w[34] + 0x1_0000_0000 * w[35] == kbd + 1
            &&& w[36] == 8
        }),
{
    bits::lemma_fields(0, 0, 0, speed, port, 0);
    bits::lemma_halves(kbd, 0, 0, 0);
}

} // verus!
