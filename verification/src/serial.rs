//! The serial line: its set-up, and what goes out for a text.
use vstd::prelude::*;

verus! {

pub const COM1: u16 = 0x3F8;

/// A port, as an offset from the line's first one, and the byte to write.
#[derive(Clone, Copy, PartialEq, Eq, Debug, Structural)]
pub struct PortWrite {
    pub offset: u16,
    pub value: u8,
}

/// The writes that set the line up: no interrupts, 38400 baud, 8N1, queues on.
pub fn init() -> (r: [PortWrite; 7])
    ensures
        r@ == seq![
            PortWrite { offset: 1, value: 0x00 },
            PortWrite { offset: 3, value: 0x80 },
            PortWrite { offset: 0, value: 0x03 },
            PortWrite { offset: 1, value: 0x00 },
            PortWrite { offset: 3, value: 0x03 },
            PortWrite { offset: 2, value: 0xC7 },
            PortWrite { offset: 4, value: 0x0B },
        ],
{
    let r: [PortWrite; 7] = [
        PortWrite { offset: 1, value: 0x00 },
        PortWrite { offset: 3, value: 0x80 },
        PortWrite { offset: 0, value: 0x03 },
        PortWrite { offset: 1, value: 0x00 },
        PortWrite { offset: 3, value: 0x03 },
        PortWrite { offset: 2, value: 0xC7 },
        PortWrite { offset: 4, value: 0x0B },
    ];
    assert(r@ =~= seq![
        PortWrite { offset: 1, value: 0x00 },
        PortWrite { offset: 3, value: 0x80 },
        PortWrite { offset: 0, value: 0x03 },
        PortWrite { offset: 1, value: 0x00 },
        PortWrite { offset: 3, value: 0x03 },
        PortWrite { offset: 2, value: 0xC7 },
        PortWrite { offset: 4, value: 0x0B },
    ]);
    r
}

/// The line can take a byte when this bit of its status is set.
pub fn can_send(status: u8) -> (r: bool)
    ensures
        r == (status & 0x20 != 0),
{
    status & 0x20 != 0
}

/// `b` with a carriage return before each line feed.
pub open spec fn with_returns(b: Seq<u8>) -> Seq<u8>
    decreases b.len(),
{
    if b.len() == 0 {
        Seq::empty()
    } else {
        let rest = with_returns(b.drop_last());
        if b.last() == 0x0A {
            rest.push(0x0D).push(0x0A)
        } else {
            rest.push(b.last())
        }
    }
}

/// What goes out for a text.
pub fn print(out: &mut Vec<u8>, s: &str)
    ensures
        final(out)@ == old(out)@ + with_returns(vstd::utf8::encode_utf8(s@)),
{
    let b = s.as_bytes();
    let n: usize = b.len();
    let mut i: usize = 0;
    assert(with_returns(b@.take(0)) =~= Seq::empty());
    assert(out@ =~= old(out)@ + with_returns(b@.take(0)));
    while i < n
        invariant
            i <= n,
            n == b@.len(),
            out@ == old(out)@ + with_returns(b@.take(i as int)),
        decreases n - i,
    {
        let ghost o = out@;
        assert(b@.take(i + 1).drop_last() =~= b@.take(i as int));
        if b[i] == 0x0A {
            out.push(0x0D);
        }
        out.push(b[i]);
        i = i + 1;
        assert(out@ =~= old(out)@ + with_returns(b@.take(i as int)));
    }
    assert(b@.take(n as int) =~= b@);
}

/// Bytes go out as they are.
pub fn write_bytes(out: &mut Vec<u8>, b: &[u8])
    ensures
        final(out)@ == old(out)@ + b@,
{
    crate::bytes::extend(out, b);
}

/// A text without line feeds goes out as it is.
pub proof fn law_plain_text_is_unchanged(b: Seq<u8>)
    requires
        forall|i: int| 0 <= i < b.len() ==> b[i] != 0x0A,
    ensures
        with_returns(b) == b,
    decreases b.len(),
{
    if b.len() > 0 {
        law_plain_text_is_unchanged(b.drop_last());
        assert(b.drop_last().push(b.last()) =~= b);
    } else {
        assert(b =~= Seq::empty());
    }
}

} // verus!
