//! What the drivers tell their devices, and what they make of the answers, by
//! the places that the devices look at.
use vstd::prelude::*;

use crate::ahci;
use crate::bits;
use crate::bytes;
use crate::console;
use crate::smp;

verus! {

/// A transfer command says whether to read or to write, and how many sectors;
/// the number stands elsewhere where the disk queues commands, and there the
/// tag is told too.
pub proof fn law_transfer_command_says_what_to_do(
    is_write: bool,
    ncq: bool,
    lba: u64,
    sectors: u16,
    tag: u8,
)
    requires
        tag < 32,
    ensures
        ({
            let f = ahci::transfer_fis(is_write, ncq, lba, sectors, tag);
            &&& f.len() == 20 && f[0] == 0x27 && f[1] == 0x80
            &&& !ncq && !is_write ==> f[2] == 0x25
            &&& !ncq && is_write ==> f[2] == 0x35
            &&& ncq && !is_write ==> f[2] == 0x60
            &&& ncq && is_write ==> f[2] == 0x61
            &&& !ncq ==> f[12] + 256 * f[13] == sectors
            &&& ncq ==> f[3] + 256 * f[11] == sectors && f[12] == 8 * tag
        }),
{
    assert((sectors as u8) + 256 * ((sectors >> 8) as u8) == sectors && (tag < 32 ==> (tag << 3)
        == 8 * tag)) by (bit_vector);
}

/// A command's table holds the command, and for a transfer the address of the
/// buffer and one less than its length.
pub proof fn law_command_table_leads_to_the_buffer(fis: Seq<u8>, phys: u64, n: u32)
    requires
        fis.len() == 20,
        n > 0,
    ensures
        ({
            let t = ahci::table_of(fis, Some((phys, n)));
            &&& t.len() == 0x90
            &&& t.subrange(0, 20) == fis
            &&& bytes::le64(t, 0x80) == phys
            &&& bytes::le32(t, 0x8C) == n - 1
        }),
{
    let b = bytes::bytes64(phys) + bytes::bytes32(0) + bytes::bytes32((n - 1) as u32);
    let z = bytes::zeros(0x90);
    let u = bytes::splice(z, 0x80, b);
    let t = bytes::splice(u, 0, fis);
    assert(t.subrange(0, 20) =~= fis);
    bytes::lemma_le64_of_splice(t, 0x80, phys);
    assert(bytes::splice(t, 0x80, bytes::bytes64(phys)) =~= t);
    bytes::lemma_le32_of_splice(t, 0x8C, (n - 1) as u32);
    assert(bytes::splice(t, 0x8C, bytes::bytes32((n - 1) as u32)) =~= t);
}

/// The processors to start are all but the one that runs already.
pub proof fn law_every_other_processor_is_started(ids: Seq<u32>, own: u32, id: u32)
    ensures
        smp::to_start(ids, own).contains(id) <==> ids.contains(id) && id != own,
    decreases ids.len(),
{
    if ids.len() > 0 {
        let d = ids.drop_last();
        law_every_other_processor_is_started(d, own, id);
        let r = smp::to_start(ids, own);
        let q = smp::to_start(d, own);
        if ids.contains(id) {
            let k = choose|k: int| 0 <= k < ids.len() && ids[k] == id;
            if k < d.len() {
                assert(d[k] == id);
            }
        }
        if d.contains(id) {
            let k = choose|k: int| 0 <= k < d.len() && d[k] == id;
            assert(ids[k] == id);
        }
        if ids.last() != own {
            assert(r == q.push(ids.last()));
            if q.contains(id) {
                let k = choose|k: int| 0 <= k < q.len() && q[k] == id;
                assert(r[k] == id);
            }
            assert(r[q.len() as int] == ids.last());
            assert(ids[ids.len() - 1] == ids.last());
            if r.contains(id) {
                let k = choose|k: int| 0 <= k < r.len() && r[k] == id;
                if k < q.len() {
                    assert(q[k] == id);
                }
            }
        }
    }
}

/// Every letter key gives a letter, and with shift the same letter as a
/// capital; `y` and `z` change places, as the layout has them.
pub proof fn law_letter_keys_give_letters(code: u8)
    requires
        0x04 <= code <= 0x1D,
    ensures
        ({
            let c = console::key_char(code, false, false);
            &&& 0x61 <= c <= 0x7A
            &&& console::key_char(code, true, false) == c - 0x20
            &&& code < 0x1C ==> c == 0x61 + (code - 4)
            &&& code == 0x1C ==> c == 0x7A
            &&& code == 0x1D ==> c == 0x79
        }),
{
}

/// No two keys give the same character.
pub proof fn law_keys_give_different_characters(a: u8, b: u8, shift: bool, altgr: bool)
    requires
        console::key_char(a, shift, altgr) == console::key_char(b, shift, altgr),
        console::key_char(a, shift, altgr) != 0,
    ensures
        a == b,
{
}

/// What was typed is what is read, in the order in which it was typed.
pub proof fn law_typed_characters_are_queued_in_order(s: console::Con, out: Seq<u8>, c: u8, n: int)
    requires
        c != 8,
        0 <= n,
    ensures
        console::typed(s, out, c).0.queue == s.queue.push(c),
        ({
            let (left, got) = console::taken(s, n);
            got + left.queue == s.queue && (got.len() == n || left.queue.len() == 0)
        }),
{
    let (left, got) = console::taken(s, n);
    assert(got + left.queue =~= s.queue);
}

/// A typed character is echoed as it is, as a star where the input is masked,
/// but for the end of the line, and not at all where it is hidden.
pub proof fn law_echo_follows_its_mode(s: console::Con, out: Seq<u8>, c: u8)
    requires
        c != 8,
    ensures
        s.echo == 0 ==> console::typed(s, out, c).1 == out.push(c),
        s.echo == 1 ==> console::typed(s, out, c).1 == out.push(
            if c == 10 {
                10
            } else {
                '*' as u8
            },
        ),
        s.echo == 2 ==> console::typed(s, out, c).1 == out,
{
}

proof fn lemma_one_new_key(
    s: console::Con,
    out: Seq<u8>,
    keys: Seq<u8>,
    shift: bool,
    altgr: bool,
    i: int,
    p: int,
)
    requires
        0 <= i <= keys.len(),
        0 <= p < keys.len(),
        keys[p] != 0,
        !s.prev.contains(keys[p]),
        console::key_char(keys[p], shift, altgr) != 0,
        console::key_char(keys[p], shift, altgr) != 8,
        forall|j: int|
            0 <= j < keys.len() && j != p ==> #[trigger] keys[j] == 0 || s.prev.contains(keys[j]),
    ensures
        ({
            let c = console::key_char(keys[p], shift, altgr);
            let (t, o, pushed) = console::keys_fed(s, out, false, keys, shift, altgr, i);
            if i <= p {
                t == console::typed(s, out, c).0 && o == console::typed(s, out, c).1 && pushed
            } else {
                t == s && o == out && !pushed
            }
        }),
    decreases keys.len() - i,
{
    if i < keys.len() {
        if i == p {
            let (t, o) = console::typed(s, out, console::key_char(keys[p], shift, altgr));
            lemma_no_new_key(t, o, true, keys, shift, altgr, i + 1);
        } else {
            lemma_one_new_key(s, out, keys, shift, altgr, i + 1, p);
        }
    }
}

proof fn lemma_no_new_key(
    s: console::Con,
    out: Seq<u8>,
    pushed: bool,
    keys: Seq<u8>,
    shift: bool,
    altgr: bool,
    i: int,
)
    requires
        0 <= i <= keys.len(),
        forall|j: int| i <= j < keys.len() ==> #[trigger] keys[j] == 0 || s.prev.contains(keys[j]),
    ensures
        console::keys_fed(s, out, pushed, keys, shift, altgr, i) == (s, out, pushed),
    decreases keys.len() - i,
{
    if i < keys.len() {
        lemma_no_new_key(s, out, pushed, keys, shift, altgr, i + 1);
    }
}

/// A report in which one key is down that was not before types the character of
/// that key: with shift where either shift key is down, and on the third level
/// where the right alt key is. Every thread that waits for input is woken, and
/// the keys are remembered.
pub proof fn law_new_key_is_typed(s: console::Con, rpt: Seq<u8>, p: int)
    requires
        rpt.len() == 8,
        2 <= p < 8,
        rpt[p] != 0,
        !s.prev.contains(rpt[p]),
        forall|j: int| 2 <= j < 8 && j != p ==> #[trigger] rpt[j] == 0 || s.prev.contains(rpt[j]),
    ensures
        ({
            let shift = rpt[0] / 2 % 2 == 1 || rpt[0] / 32 % 2 == 1;
            let altgr = rpt[0] / 64 % 2 == 1;
            let c = console::key_char(rpt[p], shift, altgr);
            c != 0 && c != 8 ==> ({
                let (t, out, woken) = console::report_fed(s, rpt);
                &&& t.queue == s.queue.push(c)
                &&& out == console::typed(s, Seq::empty(), c).1
                &&& woken == s.waiters && t.waiters.len() == 0
                &&& t.prev.len() == 6
                &&& forall|j: int| 0 <= j < 6 ==> #[trigger] t.prev[j] == rpt[j + 2]
            })
        }),
{
    let keys = rpt.subrange(2, 8);
    let m = rpt[0];
    bits::lemma_word(m as u32);
    assert((m & 0x22) as u32 == m as u32 & 0x22);
    assert((m & 0x40) as u32 == m as u32 & 0x40);
    let shift = m & 0x22 != 0;
    let altgr = m & 0x40 != 0;
    assert(shift == (rpt[0] / 2 % 2 == 1 || rpt[0] / 32 % 2 == 1));
    assert(altgr == (rpt[0] / 64 % 2 == 1));
    let c = console::key_char(rpt[p], shift, altgr);
    assert(keys[p - 2] == rpt[p]);
    assert forall|j: int| 0 <= j < keys.len() && j != p - 2 implies #[trigger] keys[j] == 0
        || s.prev.contains(keys[j]) by {
        assert(keys[j] == rpt[j + 2]);
    }
    if c != 0 && c != 8 {
        lemma_one_new_key(s, Seq::empty(), keys, shift, altgr, 0, p - 2);
    }
}

} // verus!
