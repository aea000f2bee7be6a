//! What base relocation does to an image: a directory is a row of blocks, each
//! a page and a list of fixups, and every 64-bit fixup moves by the same
//! distance.
use vstd::prelude::*;

use crate::bytes;
use crate::pe;

verus! {

/// The page that the block at `p` is about.
pub open spec fn page_of_block(img: Seq<u8>, p: int) -> int {
    bytes::le32(img, p) as int
}

/// The bytes that the block at `p` takes, its eight-byte head among them.
pub open spec fn size_of_block(img: Seq<u8>, p: int) -> int {
    bytes::le32(img, p + 4) as int
}

/// How many fixups the block at `p` lists.
pub open spec fn fixups(img: Seq<u8>, p: int) -> int {
    (size_of_block(img, p) - 8) / 2
}

/// Fixup `e` of the block at `p`.
pub open spec fn fixup(img: Seq<u8>, p: int, e: int) -> int {
    bytes::le16(img, p + 8 + 2 * e) as int
}

/// The fixup asks for a 64-bit word to be moved; the other kind is padding.
pub open spec fn is_dir64(img: Seq<u8>, p: int, e: int) -> bool {
    fixup(img, p, e) / 4096 == 10
}

pub open spec fn is_padding(img: Seq<u8>, p: int, e: int) -> bool {
    fixup(img, p, e) / 4096 == 0
}

/// The word that fixup `e` of the block at `p` names.
pub open spec fn word_of(img: Seq<u8>, p: int, e: int) -> int {
    page_of_block(img, p) + fixup(img, p, e) % 4096
}

/// The blocks of `[rva, end)` begin at `at`, one behind the other.
pub open spec fn is_row(img: Seq<u8>, at: Seq<int>, rva: int, end: int) -> bool {
    &&& at.len() > 0 && at[0] == rva && 0 <= rva && end <= img.len()
    &&& forall|i: int|
        0 <= i < at.len() ==> size_of_block(img, #[trigger] at[i]) >= 8 && rva <= at[i] && at[i]
            + size_of_block(img, at[i]) <= end
    &&& forall|i: int, j: int|
        0 <= i && j == i + 1 && j < at.len() ==> #[trigger] at[j] == #[trigger] at[i]
            + size_of_block(img, at[i])
    &&& at.last() + size_of_block(img, at.last()) == end
}

/// Fixup `e` of the block at `p` moves a word that lies inside the image and
/// outside the directory, or is padding.
pub open spec fn is_sound(img: Seq<u8>, p: int, e: int, rva: int, end: int) -> bool {
    ||| is_padding(img, p, e)
    ||| is_dir64(img, p, e) && word_of(img, p, e) + 8 <= img.len() && (word_of(img, p, e) + 8 <= rva
        || end <= word_of(img, p, e))
}

/// Every fixup of every block is sound, and no two name overlapping words.
pub open spec fn is_clean(img: Seq<u8>, at: Seq<int>, rva: int, end: int) -> bool {
    &&& forall|i: int, e: int|
        0 <= i < at.len() && 0 <= e < fixups(img, at[i]) ==> #[trigger] is_sound(
            img,
            at[i],
            e,
            rva,
            end,
        )
    &&& forall|i: int, e: int, j: int, g: int|
        #![trigger is_dir64(img, at[i], e), is_dir64(img, at[j], g)]
        0 <= i < at.len() && 0 <= e < fixups(img, at[i]) && 0 <= j < at.len() && 0 <= g < fixups(
            img,
            at[j],
        ) && (i != j || e != g) && is_dir64(img, at[i], e) && is_dir64(img, at[j], g) ==> word_of(
            img,
            at[i],
            e,
        ) + 8 <= word_of(img, at[j], g) || word_of(img, at[j], g) + 8 <= word_of(img, at[i], e)
}


/// The words at `ws` moved by `delta` between `a` and `b`; nothing else did.
spec fn moved(a: Seq<u8>, b: Seq<u8>, ws: Set<int>, delta: u64) -> bool {
    &&& b.len() == a.len()
    &&& forall|t: int| #[trigger]
        ws.contains(t) ==> bytes::le64(b, t) == bytes::le64(a, t).wrapping_add(delta)
    &&& forall|x: int|
        0 <= x < a.len() && (forall|t: int| #[trigger] ws.contains(t) ==> !(t <= x < t + 8))
            ==> #[trigger] b[x] == a[x]
}

/// The words of `a` and of `b` lie inside `len` bytes and apart from each other.
spec fn apart(a: Set<int>, b: Set<int>, len: int) -> bool {
    &&& forall|t: int| #[trigger] a.contains(t) ==> 0 <= t && t + 8 <= len
    &&& forall|t: int| #[trigger] b.contains(t) ==> 0 <= t && t + 8 <= len
    &&& forall|s: int, t: int| #[trigger]
        a.contains(s) && #[trigger] b.contains(t) ==> s + 8 <= t || t + 8 <= s
}

/// A word no byte of which changed reads the same.
proof fn lemma_same_word(a: Seq<u8>, b: Seq<u8>, t: int)
    requires
        forall|x: int| t <= x < t + 8 ==> a[x] == b[x],
    ensures
        bytes::le64(a, t) == bytes::le64(b, t),
{
    assert(a[t + 0] == b[t + 0] && a[t + 1] == b[t + 1] && a[t + 2] == b[t + 2] && a[t + 3] == b[t
        + 3]);
    assert(a[t + 4] == b[t + 4] && a[t + 5] == b[t + 5] && a[t + 6] == b[t + 6] && a[t + 7] == b[t
        + 7]);
}

/// Two rounds of moves on words that lie apart are one.
proof fn lemma_moves_add(
    a: Seq<u8>,
    b: Seq<u8>,
    c: Seq<u8>,
    s: Set<int>,
    t: Set<int>,
    delta: u64,
)
    requires
        moved(a, b, s, delta),
        moved(b, c, t, delta),
        apart(s, t, a.len() as int),
    ensures
        moved(a, c, s.union(t), delta),
{
    assert forall|w: int| #[trigger] s.union(t).contains(w) implies bytes::le64(c, w)
        == bytes::le64(a, w).wrapping_add(delta) by {
        if s.contains(w) {
            assert forall|x: int| w <= x < w + 8 implies b[x] == c[x] by {
                assert forall|v: int| #[trigger] t.contains(v) implies !(v <= x < v + 8) by {
                    assert(s.contains(w) && t.contains(v));
                }
            }
            lemma_same_word(b, c, w);
        } else {
            assert forall|x: int| w <= x < w + 8 implies a[x] == b[x] by {
                assert forall|v: int| #[trigger] s.contains(v) implies !(v <= x < v + 8) by {
                    assert(s.contains(v) && t.contains(w));
                }
            }
            lemma_same_word(a, b, w);
        }
    }
    assert forall|x: int|
        0 <= x < a.len() && (forall|v: int| #[trigger]
            s.union(t).contains(v) ==> !(v <= x < v + 8)) implies #[trigger] c[x] == a[x] by {
        assert forall|v: int| #[trigger] s.contains(v) implies !(v <= x < v + 8) by {
            assert(s.union(t).contains(v));
        }
        assert forall|v: int| #[trigger] t.contains(v) implies !(v <= x < v + 8) by {
            assert(s.union(t).contains(v));
        }
        assert(b[x] == a[x]);
    }
}

/// One store moves one word.
proof fn lemma_one_move(a: Seq<u8>, t: int, delta: u64)
    requires
        0 <= t,
        t + 8 <= a.len(),
    ensures
        moved(
            a,
            bytes::splice(a, t, bytes::bytes64(bytes::le64(a, t).wrapping_add(delta))),
            set![t],
            delta,
        ),
{
    let v = bytes::le64(a, t).wrapping_add(delta);
    bytes::lemma_store64(a, t, v);
    let b = bytes::splice(a, t, bytes::bytes64(v));
    assert forall|x: int|
        0 <= x < a.len() && (forall|w: int| #[trigger] set![t].contains(w) ==> !(w <= x < w
            + 8)) implies #[trigger] b[x] == a[x] by {
        assert(set![t].contains(t));
    }
}

/// The directory reads the same in both images.
spec fn same_directory(a: Seq<u8>, b: Seq<u8>, rva: int, end: int) -> bool {
    a.len() == b.len() && forall|x: int| rva <= x < end ==> #[trigger] a[x] == b[x]
}

/// The words that the fixups from `e` on of the block at `p` name.
spec fn block_words(img: Seq<u8>, p: int, e: int) -> Set<int> {
    Set::new(
        |t: int|
            exists|g: int|
                e <= g < fixups(img, p) && #[trigger] is_dir64(img, p, g) && t == word_of(
                    img,
                    p,
                    g,
                ),
    )
}

/// The words that the blocks from `i` on name.
spec fn row_words(img: Seq<u8>, at: Seq<int>, i: int) -> Set<int> {
    Set::new(
        |t: int|
            exists|j: int, g: int|
                i <= j < at.len() && 0 <= g < fixups(img, at[j]) && #[trigger] is_dir64(
                    img,
                    at[j],
                    g,
                ) && t == word_of(img, at[j], g),
    )
}

/// What one fixup does, where the directory still reads as it did.
proof fn lemma_one_fixup(
    img: Seq<u8>,
    cur: Seq<u8>,
    p: int,
    e: int,
    rva: int,
    end: int,
    delta: u64,
)
    requires
        same_directory(img, cur, rva, end),
        0 <= rva <= p,
        end <= img.len(),
        p + size_of_block(img, p) <= end,
        0 <= e < fixups(img, p),
        is_sound(img, p, e, rva, end),
    ensures
        ({
            let n = fixups(img, p);
            let page = page_of_block(img, p);
            let t = word_of(img, p, e);
            pe::fix_entries(cur, p, e, n, page, delta) == pe::fix_entries(
                if is_dir64(img, p, e) {
                    bytes::splice(cur, t, bytes::bytes64(bytes::le64(cur, t).wrapping_add(delta)))
                } else {
                    cur
                },
                p,
                e + 1,
                n,
                page,
                delta,
            )
        }),
{
    let o = p + 8 + 2 * e;
    assert(cur[o] == img[o] && cur[o + 1] == img[o + 1]);
    assert(bytes::le16(cur, p + 8 + e * 2) == bytes::le16(img, o));
}

/// The words of a block that lie behind fixup `e` lie apart from its word.
proof fn lemma_block_apart(img: Seq<u8>, at: Seq<int>, rva: int, end: int, i: int, e: int)
    requires
        is_clean(img, at, rva, end),
        0 <= i < at.len(),
        0 <= e < fixups(img, at[i]),
        is_dir64(img, at[i], e),
    ensures
        apart(
            set![word_of(img, at[i], e)],
            block_words(img, at[i], e + 1),
            img.len() as int,
        ),
{
    let p = at[i];
    let t = word_of(img, p, e);
    let rest = block_words(img, p, e + 1);
    assert(is_sound(img, at[i], e, rva, end));
    assert forall|w: int| #[trigger] rest.contains(w) implies 0 <= w && w + 8 <= img.len() && (w + 8
        <= t || t + 8 <= w) by {
        let g = choose|g: int|
            e + 1 <= g < fixups(img, p) && #[trigger] is_dir64(img, p, g) && w == word_of(
                img,
                p,
                g,
            );
        assert(is_sound(img, at[i], g, rva, end));
        assert(is_dir64(img, at[i], e) && is_dir64(img, at[i], g));
    }
}

/// The words from fixup `e` on are its own and those behind it.
proof fn lemma_block_words(img: Seq<u8>, p: int, e: int)
    requires
        0 <= e < fixups(img, p),
    ensures
        block_words(img, p, e) == (if is_dir64(img, p, e) {
            set![word_of(img, p, e)].union(block_words(img, p, e + 1))
        } else {
            block_words(img, p, e + 1)
        }),
{
    let t = word_of(img, p, e);
    let rest = block_words(img, p, e + 1);
    if is_dir64(img, p, e) {
        assert forall|w: int| set![t].union(rest).contains(w) implies block_words(
            img,
            p,
            e,
        ).contains(w) by {
            if w == t {
                assert(is_dir64(img, p, e));
            }
        }
        assert(set![t].union(rest) =~= block_words(img, p, e));
    } else {
        assert(block_words(img, p, e) =~= rest);
    }
}

/// A word outside the directory moves, and the directory stays.
proof fn lemma_directory_stays(
    img: Seq<u8>,
    cur: Seq<u8>,
    p: int,
    e: int,
    rva: int,
    end: int,
    v: u64,
)
    requires
        same_directory(img, cur, rva, end),
        0 <= rva,
        end <= img.len(),
        is_dir64(img, p, e),
        is_sound(img, p, e, rva, end),
    ensures
        same_directory(
            img,
            bytes::splice(cur, word_of(img, p, e), bytes::bytes64(v)),
            rva,
            end,
        ),
{
}

proof fn lemma_entries(
    img: Seq<u8>,
    cur: Seq<u8>,
    at: Seq<int>,
    rva: int,
    end: int,
    i: int,
    e: int,
    delta: u64,
)
    requires
        is_row(img, at, rva, end),
        is_clean(img, at, rva, end),
        same_directory(img, cur, rva, end),
        0 <= i < at.len(),
        0 <= e <= fixups(img, at[i]),
    ensures
        pe::fix_entries(
            cur,
            at[i],
            e,
            fixups(img, at[i]),
            page_of_block(img, at[i]),
            delta,
        ) matches Ok(b) && moved(cur, b, block_words(img, at[i], e), delta),
    decreases fixups(img, at[i]) - e,
{
    let p = at[i];
    let n = fixups(img, p);
    let page = page_of_block(img, p);
    if e < n {
        assert(is_sound(img, at[i], e, rva, end));
        assert(rva <= at[i] && p + size_of_block(img, p) <= end);
        lemma_one_fixup(img, cur, p, e, rva, end, delta);
        lemma_block_words(img, p, e);
        if is_dir64(img, p, e) {
            let t = word_of(img, p, e);
            let v = bytes::le64(cur, t).wrapping_add(delta);
            let next = bytes::splice(cur, t, bytes::bytes64(v));
            assert(0 <= t && t + 8 <= cur.len());
            lemma_one_move(cur, t, delta);
            lemma_directory_stays(img, cur, p, e, rva, end, v);
            lemma_entries(img, next, at, rva, end, i, e + 1, delta);
            lemma_block_apart(img, at, rva, end, i, e);
            lemma_moves_add(
                cur,
                next,
                pe::fix_entries(next, p, e + 1, n, page, delta)->Ok_0,
                set![t],
                block_words(img, p, e + 1),
                delta,
            );
        } else {
            lemma_entries(img, cur, at, rva, end, i, e + 1, delta);
        }
    } else {
        assert(block_words(img, p, e) =~= Set::empty());
    }
}

proof fn lemma_rest(
    img: Seq<u8>,
    cur: Seq<u8>,
    at: Seq<int>,
    rva: int,
    end: int,
    i: int,
    delta: u64,
)
    requires
        is_row(img, at, rva, end),
        is_clean(img, at, rva, end),
        same_directory(img, cur, rva, end),
        0 <= i < at.len(),
    ensures
        pe::fix_blocks(cur, at[i], end, delta) matches Ok(b) && moved(
            cur,
            b,
            row_words(img, at, i),
            delta,
        ),
    decreases at.len() - i,
{
    let p = at[i];
    assert(size_of_block(img, p) >= 8 && rva <= p && p + size_of_block(img, p) <= end);
    assert(cur[p] == img[p] && cur[p + 1] == img[p + 1] && cur[p + 2] == img[p + 2] && cur[p + 3]
        == img[p + 3]);
    assert(cur[p + 4] == img[p + 4] && cur[p + 5] == img[p + 5] && cur[p + 6] == img[p + 6] && cur[p
        + 7] == img[p + 7]);
    assert(bytes::le32(cur, p) == bytes::le32(img, p));
    assert(bytes::le32(cur, p + 4) == bytes::le32(img, p + 4));
    lemma_entries(img, cur, at, rva, end, i, 0, delta);
    let n = fixups(img, p);
    let b = pe::fix_entries(cur, p, 0, n, page_of_block(img, p), delta)->Ok_0;
    let here = block_words(img, p, 0);
    assert forall|x: int| rva <= x < end implies #[trigger] img[x] == b[x] by {
        assert forall|t: int| #[trigger] here.contains(t) implies !(t <= x < t + 8) by {
            let g = choose|g: int|
                0 <= g < n && #[trigger] is_dir64(img, p, g) && t == word_of(img, p, g);
            assert(is_sound(img, at[i], g, rva, end));
        }
        assert(cur[x] == img[x]);
        assert(b[x] == cur[x]);
    }
    if i + 1 < at.len() {
        assert(at[i + 1] == at[i] + size_of_block(img, at[i]));
        lemma_rest(img, b, at, rva, end, i + 1, delta);
        let c = pe::fix_blocks(b, at[i + 1], end, delta)->Ok_0;
        let rest = row_words(img, at, i + 1);
        assert(apart(here, rest, cur.len() as int)) by {
            assert forall|w: int| #[trigger] here.contains(w) implies 0 <= w && w + 8
                <= cur.len() by {
                let g = choose|g: int|
                    0 <= g < n && #[trigger] is_dir64(img, p, g) && w == word_of(img, p, g);
                assert(is_sound(img, at[i], g, rva, end));
            }
            assert forall|w: int| #[trigger] rest.contains(w) implies 0 <= w && w + 8
                <= cur.len() by {
                let (j, g) = choose|j: int, g: int|
                    i + 1 <= j < at.len() && 0 <= g < fixups(img, at[j]) && #[trigger] is_dir64(
                        img,
                        at[j],
                        g,
                    ) && w == word_of(img, at[j], g);
                assert(is_sound(img, at[j], g, rva, end));
            }
            assert forall|v: int, w: int| #[trigger]
                here.contains(v) && #[trigger] rest.contains(w) implies v + 8 <= w || w + 8
                <= v by {
                let e = choose|e: int|
                    0 <= e < n && #[trigger] is_dir64(img, p, e) && v == word_of(img, p, e);
                let (j, g) = choose|j: int, g: int|
                    i + 1 <= j < at.len() && 0 <= g < fixups(img, at[j]) && #[trigger] is_dir64(
                        img,
                        at[j],
                        g,
                    ) && w == word_of(img, at[j], g);
                assert(is_dir64(img, at[i], e) && is_dir64(img, at[j], g));
            }
        }
        lemma_moves_add(cur, b, c, here, rest, delta);
        assert(here.union(rest) =~= row_words(img, at, i)) by {
            assert forall|w: int| here.union(rest).contains(w) implies row_words(
                img,
                at,
                i,
            ).contains(w) by {
                if here.contains(w) {
                    let g = choose|g: int|
                        0 <= g < n && #[trigger] is_dir64(img, p, g) && w == word_of(img, p, g);
                    assert(is_dir64(img, at[i], g));
                }
            }
            assert forall|w: int| row_words(img, at, i).contains(w) implies here.union(
                rest,
            ).contains(w) by {
                let (j, g) = choose|j: int, g: int|
                    i <= j < at.len() && 0 <= g < fixups(img, at[j]) && #[trigger] is_dir64(
                        img,
                        at[j],
                        g,
                    ) && w == word_of(img, at[j], g);
                if j == i {
                    assert(is_dir64(img, p, g));
                } else {
                    assert(is_dir64(img, at[j], g));
                }
            }
        }
    } else {
        assert(at.last() == at[i]);
        assert(pe::fix_blocks(b, end, end, delta) == Ok::<Seq<u8>, &'static str>(b));
        assert(here =~= row_words(img, at, i)) by {
            assert forall|w: int| here.contains(w) implies row_words(img, at, i).contains(w) by {
                let g = choose|g: int|
                    0 <= g < n && #[trigger] is_dir64(img, p, g) && w == word_of(img, p, g);
                assert(is_dir64(img, at[i], g));
            }
        }
    }
}

/// Relocating by a directory that is a row of blocks succeeds. Every 64-bit
/// fixup of every block, where they name words that lie apart from one another
/// and outside the directory, adds `delta` to its word; every byte that no
/// fixup names is as it was.
pub proof fn law_every_fixup_of_every_block_moves_its_word(
    img: Seq<u8>,
    at: Seq<int>,
    rva: int,
    size: int,
    delta: u64,
)
    requires
        is_row(img, at, rva, rva + size),
        is_clean(img, at, rva, rva + size),
    ensures
        pe::relocated(img, rva, size, delta) is Ok,
        ({
            let b = pe::relocated(img, rva, size, delta)->Ok_0;
            &&& b.len() == img.len()
            &&& forall|i: int, e: int|
                0 <= i < at.len() && 0 <= e < (bytes::le32(img, at[i] + 4) - 8) / 2
                    && #[trigger] is_dir64(img, at[i], e) ==> bytes::le64(
                    b,
                    word_of(img, at[i], e),
                ) == bytes::le64(img, word_of(img, at[i], e)).wrapping_add(delta)
            &&& forall|x: int|
                0 <= x < img.len() && (forall|i: int, e: int|
                    0 <= i < at.len() && 0 <= e < fixups(img, at[i]) && #[trigger] is_dir64(
                        img,
                        at[i],
                        e,
                    ) ==> !(word_of(img, at[i], e) <= x < word_of(img, at[i], e) + 8))
                    ==> #[trigger] b[x] == img[x]
        }),
{
    lemma_rest(img, img, at, rva, rva + size, 0, delta);
    let b = pe::relocated(img, rva, size, delta)->Ok_0;
    let ws = row_words(img, at, 0);
    assert forall|i: int, e: int|
        0 <= i < at.len() && 0 <= e < (bytes::le32(img, at[i] + 4) - 8) / 2 && #[trigger] is_dir64(
            img,
            at[i],
            e,
        ) implies bytes::le64(b, word_of(img, at[i], e)) == bytes::le64(
        img,
        word_of(img, at[i], e),
    ).wrapping_add(delta) by {
        assert(ws.contains(word_of(img, at[i], e)));
    }
    assert forall|x: int|
        0 <= x < img.len() && (forall|i: int, e: int|
            0 <= i < at.len() && 0 <= e < fixups(img, at[i]) && #[trigger] is_dir64(img, at[i], e)
                ==> !(word_of(img, at[i], e) <= x < word_of(img, at[i], e) + 8))
        implies #[trigger] b[x] == img[x] by {
        assert forall|t: int| #[trigger] ws.contains(t) implies !(t <= x < t + 8) by {
            let (j, g) = choose|j: int, g: int|
                0 <= j < at.len() && 0 <= g < fixups(img, at[j]) && #[trigger] is_dir64(
                    img,
                    at[j],
                    g,
                ) && t == word_of(img, at[j], g);
        }
    }
}

} // verus!
