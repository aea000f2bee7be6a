//! Byte-level tokenizer: raw bytes, or byte pair encoding with a merge table.
//!
//! Ids below 256 stand for single bytes; merge `k` makes id `256 + k` out of
//! two earlier ids.
use vstd::prelude::*;

verus! {

/// Every merge is made of ids that exist before it.
pub open spec fn sound(m: Seq<(u32, u32)>) -> bool {
    forall|k: int|
        0 <= k < m.len() ==> (#[trigger] m[k]).0 < 256 + k && m[k].1 < 256 + k
}

/// The bytes an id stands for; none for an id that does not exist.
pub open spec fn expansion(m: Seq<(u32, u32)>, id: int) -> Seq<u8>
    decreases id,
{
    if id < 0 {
        Seq::empty()
    } else if id < 256 {
        seq![id as u8]
    } else if id - 256 < m.len() {
        let (a, b) = m[id - 256];
        if a < id && b < id {
            expansion(m, a as int) + expansion(m, b as int)
        } else {
            Seq::empty()
        }
    } else {
        Seq::empty()
    }
}

/// The bytes a list of ids stands for.
pub open spec fn spelled(m: Seq<(u32, u32)>, ids: Seq<u32>) -> Seq<u8>
    decreases ids.len(),
{
    if ids.len() == 0 {
        Seq::empty()
    } else {
        spelled(m, ids.drop_last()) + expansion(m, ids.last() as int)
    }
}

/// The bytes a list of tokens stands for.
pub open spec fn decoded(m: Seq<(u32, u32)>, tokens: Seq<u16>) -> Seq<u8>
    decreases tokens.len(),
{
    if tokens.len() == 0 {
        Seq::empty()
    } else {
        decoded(m, tokens.drop_last()) + expansion(m, tokens.last() as int)
    }
}

pub open spec fn is_ws(b: u8) -> bool {
    b == 0x20 || b == 0x09 || b == 0x0A || b == 0x0D || b == 0x0B || b == 0x0C
}

/// Where the run of whitespace, or of other bytes, that `i` is in ends; `j` is
/// past its start.
pub open spec fn run_end(data: Seq<u8>, i: int, j: int) -> int
    decreases data.len() - j,
{
    if j < data.len() && is_ws(data[j]) == is_ws(data[i]) {
        run_end(data, i, j + 1)
    } else {
        j
    }
}

/// The first merge, from `k` on, of this pair; the table's length if none.
pub open spec fn rank(m: Seq<(u32, u32)>, pair: (u32, u32), k: int) -> int
    decreases m.len() - k,
{
    if k >= m.len() {
        m.len() as int
    } else if m[k] == pair {
        k
    } else {
        rank(m, pair, k + 1)
    }
}

/// Among the first `n` adjacent pairs, the leftmost of the lowest rank, and
/// its rank; nothing where no pair has a merge.
pub open spec fn lowest(m: Seq<(u32, u32)>, ids: Seq<u32>, n: int) -> Option<(int, int)>
    decreases n,
{
    if n <= 0 {
        None
    } else {
        let r = rank(m, (ids[n - 1], ids[n]), 0);
        match lowest(m, ids, n - 1) {
            Some((w, best)) => if r < best {
                Some((n - 1, r))
            } else {
                Some((w, best))
            },
            None => if r < m.len() {
                Some((n - 1, r))
            } else {
                None
            },
        }
    }
}

/// The pair at `w` replaced by one id.
pub open spec fn joined(ids: Seq<u32>, w: int, id: u32) -> Seq<u32> {
    ids.take(w).push(id) + ids.skip(w + 2)
}

/// Merges applied, lowest rank first, until none applies.
pub open spec fn merged(m: Seq<(u32, u32)>, ids: Seq<u32>) -> Seq<u32>
    decreases ids.len(),
{
    match lowest(m, ids, ids.len() - 1) {
        Some((w, r)) => if 0 <= w < ids.len() - 1 {
            merged(m, joined(ids, w, (256 + r) as u32))
        } else {
            ids
        },
        None => ids,
    }
}

/// One id for each byte.
pub open spec fn byte_ids(data: Seq<u8>) -> Seq<u32> {
    Seq::new(data.len(), |i: int| data[i] as u32)
}

pub open spec fn as_tokens(ids: Seq<u32>) -> Seq<u16> {
    Seq::new(ids.len(), |i: int| ids[i] as u16)
}

/// The tokens of the data from `i` on, run by run.
pub open spec fn encoded_from(m: Seq<(u32, u32)>, data: Seq<u8>, i: int) -> Seq<u16>
    decreases data.len() - i,
{
    let j = run_end(data, i, i + 1);
    if i < 0 || i >= data.len() || j <= i || j > data.len() {
        Seq::empty()
    } else {
        as_tokens(merged(m, byte_ids(data.subrange(i, j)))) + encoded_from(m, data, j)
    }
}

/// The tokens of the data. Without merges every byte is a token; with them,
/// runs of whitespace and of other bytes are encoded one by one, and no merge
/// crosses from one to the next.
pub open spec fn encoded(m: Seq<(u32, u32)>, data: Seq<u8>) -> Seq<u16> {
    if m.len() == 0 {
        Seq::new(data.len(), |i: int| data[i] as u16)
    } else {
        encoded_from(m, data, 0)
    }
}

pub struct Tokenizer {
    merges: Vec<(u32, u32)>,
    expand: Vec<Vec<u8>>,
    vocab_size: usize,
}

impl View for Tokenizer {
    type V = Seq<(u32, u32)>;

    closed spec fn view(&self) -> Seq<(u32, u32)> {
        self.merges@
    }
}

/// Whether every merge is made of ids that exist before it.
pub fn is_sound(m: &[(u32, u32)]) -> (r: bool)
    ensures
        r == sound(m@),
{
    let n: usize = m.len();
    let mut k: usize = 0;
    while k < n
        invariant
            k <= n,
            n == m@.len(),
            forall|j: int| 0 <= j < k ==> (#[trigger] m@[j]).0 < 256 + j && m@[j].1 < 256 + j,
        decreases n - k,
    {
        let lim: u64 = k as u64;
        let (a, b) = m[k];
        if a as u64 >= 256 && a as u64 - 256 >= lim {
            assert(!(m@[k as int].0 < 256 + k));
            return false;
        }
        if b as u64 >= 256 && b as u64 - 256 >= lim {
            assert(!(m@[k as int].1 < 256 + k));
            return false;
        }
        k = k + 1;
    }
    true
}

impl Tokenizer {
    pub closed spec fn wf(self) -> bool {
        &&& sound(self.merges@)
        &&& self.expand@.len() == 256 + self.merges@.len()
        &&& self.vocab_size == self.expand@.len()
        &&& forall|i: int|
            0 <= i < self.expand@.len() ==> (#[trigger] self.expand@[i])@ == expansion(
                self.merges@,
                i,
            )
    }

    /// A tokenizer with these merges.
    pub fn new(merges: Vec<(u32, u32)>) -> (r: Self)
        requires
            sound(merges@),
        ensures
            r.wf(),
            r@ == merges@,
    {
        let mut expand: Vec<Vec<u8>> = Vec::new();
        let mut b: u16 = 0;
        while b < 256
            invariant
                b <= 256,
                expand@.len() == b,
                forall|i: int|
                    0 <= i < expand@.len() ==> (#[trigger] expand@[i])@ == expansion(merges@, i),
            decreases 256 - b,
        {
            let one: Vec<u8> = vec![b as u8];
            assert(one@ =~= expansion(merges@, b as int));
            expand.push(one);
            b = b + 1;
        }
        let n: usize = merges.len();
        let mut k: usize = 0;
        while k < n
            invariant
                k <= n,
                n == merges@.len(),
                sound(merges@),
                expand@.len() == 256 + k,
                forall|i: int|
                    0 <= i < expand@.len() ==> (#[trigger] expand@[i])@ == expansion(merges@, i),
            decreases n - k,
        {
            let (a, b) = merges[k];
            assert(merges@[k as int].0 < 256 + k && merges@[k as int].1 < 256 + k);
            let len: usize = expand.len();
            let mut v: Vec<u8> = Vec::new();
            crate::bytes::extend(&mut v, expand[a as usize].as_slice());
            crate::bytes::extend(&mut v, expand[b as usize].as_slice());
            assert(v@ =~= expansion(merges@, 256 + k as int));
            expand.push(v);
            k = k + 1;
        }
        let vocab_size: usize = expand.len();
        Tokenizer { merges, expand, vocab_size }
    }

    /// How many ids there are.
    pub fn vocab_size(&self) -> (r: usize)
        requires
            self.wf(),
        ensures
            r == 256 + self@.len(),
    {
        self.vocab_size
    }

    /// Whether every byte is a token of its own.
    pub fn is_byte(&self) -> (r: bool)
        ensures
            r == (self@.len() == 0),
    {
        self.merges.len() == 0
    }

    fn rank_of(&self, a: u32, b: u32) -> (r: usize)
        ensures
            r == rank(self@, (a, b), 0),
            r <= self@.len(),
    {
        let n: usize = self.merges.len();
        let mut k: usize = 0;
        while k < n
            invariant
                k <= n,
                n == self.merges@.len(),
                rank(self.merges@, (a, b), 0) == rank(self.merges@, (a, b), k as int),
            decreases n - k,
        {
            let (x, y) = self.merges[k];
            if x == a && y == b {
                return k;
            }
            k = k + 1;
        }
        n
    }

    fn encode_chunk(&self, chunk: &[u8], out: &mut Vec<u16>)
        requires
            self.wf(),
            self@.len() + 256 <= u32::MAX,
        ensures
            final(out)@ == old(out)@ + as_tokens(merged(self@, byte_ids(chunk@))),
    {
        let n: usize = chunk.len();
        let mut ids: Vec<u32> = Vec::new();
        let mut i: usize = 0;
        while i < n
            invariant
                i <= n,
                n == chunk@.len(),
                ids@ == byte_ids(chunk@).take(i as int),
            decreases n - i,
        {
            ids.push(chunk[i] as u32);
            i = i + 1;
            assert(ids@ =~= byte_ids(chunk@).take(i as int));
        }
        assert(ids@ =~= byte_ids(chunk@));
        let ghost want = merged(self@, byte_ids(chunk@));
        loop
            invariant
                self.wf(),
                self@.len() + 256 <= u32::MAX,
                want == merged(self@, ids@),
                out@ == old(out)@,
            ensures
                want == ids@,
                out@ == old(out)@,
            decreases ids@.len(),
        {
            let pairs: usize = if ids.len() == 0 { 0 } else { ids.len() - 1 };
            let mut best: Option<usize> = None;
            let mut best_rank: usize = self.merges.len();
            let mut w: usize = 0;
            while w < pairs
                invariant
                    w <= pairs,
                    pairs == if ids@.len() == 0 {
                        0int
                    } else {
                        ids@.len() - 1
                    },
                    best_rank <= self@.len(),
                    lowest(self@, ids@, w as int) == match best {
                        Some(p) => Some((p as int, best_rank as int)),
                        None => None,
                    },
                    best is None ==> best_rank == self@.len(),
                    best matches Some(p) ==> p < pairs && best_rank < self@.len(),
                decreases pairs - w,
            {
                let r: usize = self.rank_of(ids[w], ids[w + 1]);
                if r < best_rank {
                    best_rank = r;
                    best = Some(w);
                }
                w = w + 1;
            }
            assert(lowest(self@, ids@, ids@.len() - 1) == lowest(self@, ids@, pairs as int));
            match best {
                Some(p) => {
                    let ghost before = ids@;
                    let id: u32 = 256 + best_rank as u32;
                    ids.set(p, id);
                    let _gone: u32 = ids.remove(p + 1);
                    assert(ids@ =~= joined(before, p as int, (256 + best_rank) as u32));
                },
                None => {
                    break;
                },
            }
        }
        let len: usize = ids.len();
        let mut j: usize = 0;
        while j < len
            invariant
                j <= len,
                len == ids@.len(),
                out@ == old(out)@ + as_tokens(ids@).take(j as int),
            decreases len - j,
        {
            #[verifier::truncate]
            let t: u16 = ids[j] as u16;
            out.push(t);
            j = j + 1;
            assert(out@ =~= old(out)@ + as_tokens(ids@).take(j as int));
        }
        assert(as_tokens(ids@).take(len as int) =~= as_tokens(ids@));
    }

    /// The tokens of `data`. An id past 65535 is cut to its low 16 bits.
    pub fn encode(&self, data: &[u8]) -> (r: Vec<u16>)
        requires
            self.wf(),
            self@.len() + 256 <= u32::MAX,
        ensures
            r@ == encoded(self@, data@),
    {
        let n: usize = data.len();
        let mut out: Vec<u16> = Vec::new();
        let mut i: usize = 0;
        if self.merges.len() == 0 {
            while i < n
                invariant
                    i <= n,
                    n == data@.len(),
                    out@ == Seq::new(i as nat, |k: int| data@[k] as u16),
                decreases n - i,
            {
                out.push(data[i] as u16);
                i = i + 1;
                assert(out@ =~= Seq::new(i as nat, |k: int| data@[k] as u16));
            }
            return out;
        }
        while i < n
            invariant
                i <= n,
                n == data@.len(),
                self.wf(),
                self@.len() + 256 <= u32::MAX,
                out@ + encoded_from(self@, data@, i as int) == encoded_from(self@, data@, 0),
            decreases n - i,
        {
            let ws: bool = white(data[i]);
            let mut j: usize = i + 1;
            while j < n && white(data[j]) == ws
                invariant
                    i < j <= n,
                    n == data@.len(),
                    ws == is_ws(data@[i as int]),
                    run_end(data@, i as int, i + 1) == run_end(data@, i as int, j as int),
                decreases n - j,
            {
                j = j + 1;
            }
            let chunk = crate::bytes::sub(data, i, j);
            let ghost before = out@;
            self.encode_chunk(chunk.as_slice(), &mut out);
            assert(chunk@ =~= data@.subrange(i as int, j as int));
            assert(out@ + encoded_from(self@, data@, j as int) =~= before + encoded_from(
                self@,
                data@,
                i as int,
            ));
            i = j;
        }
        assert(out@ =~= encoded_from(self@, data@, 0));
        out
    }

    /// The bytes of `tokens`; a token that does not exist stands for none.
    pub fn decode(&self, tokens: &[u16]) -> (r: Vec<u8>)
        requires
            self.wf(),
        ensures
            r@ == decoded(self@, tokens@),
    {
        let n: usize = tokens.len();
        let mut out: Vec<u8> = Vec::new();
        let mut i: usize = 0;
        assert(tokens@.take(0) =~= Seq::<u16>::empty());
        while i < n
            invariant
                i <= n,
                n == tokens@.len(),
                self.wf(),
                out@ == decoded(self@, tokens@.take(i as int)),
            decreases n - i,
        {
            let t: usize = tokens[i] as usize;
            if t < self.expand.len() {
                crate::bytes::extend(&mut out, self.expand[t].as_slice());
            } else {
                assert(expansion(self@, t as int) =~= Seq::<u8>::empty());
            }
            assert(tokens@.take(i + 1).drop_last() =~= tokens@.take(i as int));
            i = i + 1;
            assert(out@ =~= decoded(self@, tokens@.take(i as int)));
        }
        assert(tokens@.take(n as int) =~= tokens@);
        out
    }
}

fn white(b: u8) -> (r: bool)
    ensures
        r == is_ws(b),
{
    b == 0x20 || b == 0x09 || b == 0x0A || b == 0x0D || b == 0x0B || b == 0x0C
}

proof fn lemma_rank(m: Seq<(u32, u32)>, pair: (u32, u32), k: int)
    requires
        0 <= k <= m.len(),
    ensures
        k <= rank(m, pair, k) <= m.len(),
        rank(m, pair, k) < m.len() ==> m[rank(m, pair, k)] == pair,
    decreases m.len() - k,
{
    if k < m.len() && m[k] != pair {
        lemma_rank(m, pair, k + 1);
    }
}

/// A merge step takes the lowest rank there is, and the leftmost pair of that
/// rank; it finds none only where no adjacent pair has a merge.
pub proof fn law_lowest_rank_first(m: Seq<(u32, u32)>, ids: Seq<u32>, n: int)
    requires
        0 <= n < ids.len(),
    ensures
        match lowest(m, ids, n) {
            Some((w, r)) => {
                &&& 0 <= w < n
                &&& 0 <= r < m.len()
                &&& r == rank(m, (ids[w], ids[w + 1]), 0)
                &&& m[r] == (ids[w], ids[w + 1])
                &&& forall|v: int|
                    0 <= v < n ==> r <= #[trigger] rank(m, (ids[v], ids[v + 1]), 0)
                &&& forall|v: int|
                    0 <= v < w ==> r < #[trigger] rank(m, (ids[v], ids[v + 1]), 0)
            },
            None => forall|v: int|
                0 <= v < n ==> #[trigger] rank(m, (ids[v], ids[v + 1]), 0) == m.len(),
        },
    decreases n,
{
    if n > 0 {
        law_lowest_rank_first(m, ids, n - 1);
        lemma_rank(m, (ids[n - 1], ids[n]), 0);
    }
}

proof fn lemma_spelled_add(m: Seq<(u32, u32)>, a: Seq<u32>, b: Seq<u32>)
    ensures
        spelled(m, a + b) == spelled(m, a) + spelled(m, b),
    decreases b.len(),
{
    if b.len() == 0 {
        assert(a + b =~= a);
        assert(spelled(m, a) + spelled(m, b) =~= spelled(m, a));
    } else {
        lemma_spelled_add(m, a, b.drop_last());
        assert((a + b).drop_last() =~= a + b.drop_last());
        assert(spelled(m, a + b) =~= spelled(m, a) + spelled(m, b));
    }
}

proof fn lemma_spelled_one(m: Seq<(u32, u32)>, id: u32)
    ensures
        spelled(m, seq![id]) == expansion(m, id as int),
{
    reveal_with_fuel(spelled, 2);
    assert(seq![id].drop_last() =~= Seq::<u32>::empty());
    assert(spelled(m, seq![id]) =~= expansion(m, id as int));
}

spec fn small(ids: Seq<u32>, n: nat) -> bool {
    forall|i: int| 0 <= i < ids.len() ==> #[trigger] ids[i] < n
}

proof fn lemma_merged_spells(m: Seq<(u32, u32)>, ids: Seq<u32>)
    requires
        sound(m),
        m.len() + 256 <= 65536,
        small(ids, 256 + m.len()),
    ensures
        spelled(m, merged(m, ids)) == spelled(m, ids),
        small(merged(m, ids), 256 + m.len()),
    decreases ids.len(),
{
    if ids.len() >= 1 {
        law_lowest_rank_first(m, ids, ids.len() - 1);
    }
    match lowest(m, ids, ids.len() - 1) {
        Some((w, r)) => {
            let id = (256 + r) as u32;
            let next = joined(ids, w, id);
            assert(small(next, 256 + m.len()));
            lemma_merged_spells(m, next);
            let head = ids.take(w);
            let tail = ids.skip(w + 2);
            assert(next =~= head + seq![id] + tail);
            assert(ids =~= head + (seq![ids[w]] + seq![ids[w + 1]]) + tail);
            lemma_spelled_add(m, head + seq![id], tail);
            lemma_spelled_add(m, head, seq![id]);
            lemma_spelled_add(m, head + (seq![ids[w]] + seq![ids[w + 1]]), tail);
            lemma_spelled_add(m, head, seq![ids[w]] + seq![ids[w + 1]]);
            lemma_spelled_add(m, seq![ids[w]], seq![ids[w + 1]]);
            lemma_spelled_one(m, id);
            lemma_spelled_one(m, ids[w]);
            lemma_spelled_one(m, ids[w + 1]);
            assert(m[r] == (ids[w], ids[w + 1]));
            assert(m[r].0 < 256 + r && m[r].1 < 256 + r);
            assert(expansion(m, id as int) == expansion(m, ids[w] as int) + expansion(
                m,
                ids[w + 1] as int,
            ));
        },
        None => {},
    }
}

proof fn lemma_byte_ids_spell(m: Seq<(u32, u32)>, data: Seq<u8>)
    ensures
        spelled(m, byte_ids(data)) == data,
    decreases data.len(),
{
    if data.len() > 0 {
        lemma_byte_ids_spell(m, data.drop_last());
        assert(byte_ids(data).drop_last() =~= byte_ids(data.drop_last()));
        assert(spelled(m, byte_ids(data)) =~= data);
    }
}

proof fn lemma_tokens_spell(m: Seq<(u32, u32)>, ids: Seq<u32>)
    requires
        small(ids, 65536),
    ensures
        decoded(m, as_tokens(ids)) == spelled(m, ids),
    decreases ids.len(),
{
    if ids.len() > 0 {
        assert(small(ids.drop_last(), 65536));
        lemma_tokens_spell(m, ids.drop_last());
        assert(as_tokens(ids).drop_last() =~= as_tokens(ids.drop_last()));
        assert(ids.last() < 65536);
    }
}

proof fn lemma_decoded_add(m: Seq<(u32, u32)>, a: Seq<u16>, b: Seq<u16>)
    ensures
        decoded(m, a + b) == decoded(m, a) + decoded(m, b),
    decreases b.len(),
{
    if b.len() == 0 {
        assert(a + b =~= a);
        assert(decoded(m, a) + decoded(m, b) =~= decoded(m, a));
    } else {
        lemma_decoded_add(m, a, b.drop_last());
        assert((a + b).drop_last() =~= a + b.drop_last());
        assert(decoded(m, a + b) =~= decoded(m, a) + decoded(m, b));
    }
}

proof fn lemma_run_end(data: Seq<u8>, i: int, j: int)
    requires
        0 <= i < j <= data.len(),
    ensures
        j <= run_end(data, i, j) <= data.len(),
    decreases data.len() - j,
{
    if j < data.len() && is_ws(data[j]) == is_ws(data[i]) {
        lemma_run_end(data, i, j + 1);
    }
}

proof fn lemma_round_trip_from(m: Seq<(u32, u32)>, data: Seq<u8>, i: int)
    requires
        sound(m),
        m.len() + 256 <= 65536,
        0 <= i <= data.len(),
    ensures
        decoded(m, encoded_from(m, data, i)) == data.skip(i),
    decreases data.len() - i,
{
    if i < data.len() {
        lemma_run_end(data, i, i + 1);
        let j = run_end(data, i, i + 1);
        let chunk = data.subrange(i, j);
        let ids = merged(m, byte_ids(chunk));
        assert(small(byte_ids(chunk), 256 + m.len()));
        lemma_merged_spells(m, byte_ids(chunk));
        lemma_byte_ids_spell(m, chunk);
        lemma_tokens_spell(m, ids);
        lemma_decoded_add(m, as_tokens(ids), encoded_from(m, data, j));
        lemma_round_trip_from(m, data, j);
        assert(chunk + data.skip(j) =~= data.skip(i));
    } else {
        assert(data.skip(i) =~= Seq::<u8>::empty());
    }
}

/// Decoding what was encoded gives the data back, as long as every id fits a
/// token.
pub proof fn law_decode_undoes_encode(m: Seq<(u32, u32)>, data: Seq<u8>)
    requires
        sound(m),
        m.len() + 256 <= 65536,
    ensures
        decoded(m, encoded(m, data)) == data,
{
    if m.len() == 0 {
        let ids = byte_ids(data);
        assert(small(ids, 65536));
        lemma_tokens_spell(m, ids);
        lemma_byte_ids_spell(m, data);
        assert(as_tokens(ids) =~= encoded(m, data));
    } else {
        lemma_round_trip_from(m, data, 0);
        assert(data.skip(0) =~= data);
    }
}

proof fn lemma_run_end_before(x: Seq<u8>, y: Seq<u8>, i: int, j: int)
    requires
        0 <= i < j <= x.len(),
        0 < y.len(),
        is_ws(x.last()) != is_ws(y[0]),
        is_ws(x[j - 1]) == is_ws(x[i]),
    ensures
        run_end(x + y, i, j) == run_end(x, i, j),
    decreases x.len() - j,
{
    if j < x.len() {
        assert((x + y)[j] == x[j]);
        if is_ws(x[j]) == is_ws(x[i]) {
            lemma_run_end_before(x, y, i, j + 1);
        }
    } else {
        assert((x + y)[j] == y[0]);
    }
}

proof fn lemma_run_end_behind(x: Seq<u8>, y: Seq<u8>, i: int, j: int)
    requires
        0 <= i < j <= y.len(),
    ensures
        run_end(x + y, x.len() + i, x.len() + j) == x.len() + run_end(y, i, j),
    decreases y.len() - j,
{
    assert((x + y)[x.len() + i] == y[i]);
    if j < y.len() {
        assert((x + y)[x.len() + j] == y[j]);
        if is_ws(y[j]) == is_ws(y[i]) {
            lemma_run_end_behind(x, y, i, j + 1);
        }
    }
}

proof fn lemma_encoded_behind(m: Seq<(u32, u32)>, x: Seq<u8>, y: Seq<u8>, i: int)
    requires
        0 <= i <= y.len(),
    ensures
        encoded_from(m, x + y, x.len() + i) == encoded_from(m, y, i),
    decreases y.len() - i,
{
    if i < y.len() {
        lemma_run_end(y, i, i + 1);
        lemma_run_end_behind(x, y, i, i + 1);
        let j = run_end(y, i, i + 1);
        assert((x + y).subrange(x.len() + i, x.len() + j) =~= y.subrange(i, j));
        lemma_encoded_behind(m, x, y, j);
    }
}

proof fn lemma_encoded_before(m: Seq<(u32, u32)>, x: Seq<u8>, y: Seq<u8>, i: int)
    requires
        0 <= i <= x.len(),
        0 < x.len(),
        0 < y.len(),
        is_ws(x.last()) != is_ws(y[0]),
    ensures
        encoded_from(m, x + y, i) == encoded_from(m, x, i) + encoded_from(m, x + y, x.len() as int),
    decreases x.len() - i,
{
    let rest = encoded_from(m, x + y, x.len() as int);
    if i < x.len() {
        lemma_run_end(x, i, i + 1);
        lemma_run_end_before(x, y, i, i + 1);
        let j = run_end(x, i, i + 1);
        assert((x + y).subrange(i, j) =~= x.subrange(i, j));
        lemma_encoded_before(m, x, y, j);
        let head = as_tokens(merged(m, byte_ids(x.subrange(i, j))));
        assert(head + (encoded_from(m, x, j) + rest) =~= head + encoded_from(m, x, j) + rest);
    } else {
        assert(encoded_from(m, x, i) + rest =~= rest);
    }
}

/// No merge crosses a boundary between white space and other bytes: what stands
/// before it and what stands behind it are encoded apart.
pub proof fn law_merges_stay_within_runs(m: Seq<(u32, u32)>, x: Seq<u8>, y: Seq<u8>)
    requires
        0 < x.len(),
        0 < y.len(),
        is_ws(x.last()) != is_ws(y[0]),
    ensures
        encoded(m, x + y) == encoded(m, x) + encoded(m, y),
{
    if m.len() == 0 {
        assert(encoded(m, x + y) =~= encoded(m, x) + encoded(m, y));
    } else {
        lemma_encoded_before(m, x, y, 0);
        lemma_encoded_behind(m, x, y, 0);
    }
}

proof fn lemma_no_rank(m: Seq<(u32, u32)>, pair: (u32, u32), k: int)
    requires
        0 <= k <= m.len(),
        rank(m, pair, k) == m.len(),
    ensures
        forall|i: int| k <= i < m.len() ==> #[trigger] m[i] != pair,
    decreases m.len() - k,
{
    if k < m.len() {
        if m[k] != pair {
            lemma_no_rank(m, pair, k + 1);
        }
    }
}

/// No adjacent pair of `ids` has a merge.
spec fn settled(m: Seq<(u32, u32)>, ids: Seq<u32>) -> bool {
    forall|v: int|
        0 <= v < ids.len() - 1 ==> #[trigger] rank(m, (ids[v], ids[v + 1]), 0) == m.len()
}

proof fn lemma_merged_settled(m: Seq<(u32, u32)>, ids: Seq<u32>)
    ensures
        settled(m, merged(m, ids)),
    decreases ids.len(),
{
    if ids.len() >= 1 {
        law_lowest_rank_first(m, ids, ids.len() - 1);
        match lowest(m, ids, ids.len() - 1) {
            Some((w, r)) => {
                lemma_merged_settled(m, joined(ids, w, (256 + r) as u32));
            },
            None => {},
        }
    }
}

proof fn lemma_one_run(data: Seq<u8>, j: int)
    requires
        0 < j <= data.len(),
        forall|i: int| 0 <= i < data.len() ==> is_ws(#[trigger] data[i]) == is_ws(data[0]),
    ensures
        run_end(data, 0, j) == data.len(),
    decreases data.len() - j,
{
    if j < data.len() {
        assert(is_ws(data[j]) == is_ws(data[0]));
        lemma_one_run(data, j + 1);
    }
}

/// A run that is all white space, or all other bytes, is merged as far as it
/// goes: no two tokens that stand side by side have a merge.
pub proof fn law_runs_are_merged_to_the_end(m: Seq<(u32, u32)>, run: Seq<u8>)
    requires
        sound(m),
        m.len() + 256 <= 65536,
        forall|i: int| 0 <= i < run.len() ==> is_ws(#[trigger] run[i]) == is_ws(run[0]),
    ensures
        forall|v: int|
            0 <= v < encoded(m, run).len() - 1 ==> !m.contains(
                (#[trigger] encoded(m, run)[v] as u32, encoded(m, run)[v + 1] as u32),
            ),
{
    let e = encoded(m, run);
    if m.len() > 0 && run.len() > 0 {
        let ids = merged(m, byte_ids(run));
        lemma_one_run(run, 1);
        assert(run.subrange(0, run.len() as int) =~= run);
        assert(encoded_from(m, run, run.len() as int) =~= Seq::<u16>::empty());
        assert(e =~= as_tokens(ids));
        assert(small(byte_ids(run), 256 + m.len()));
        lemma_merged_spells(m, byte_ids(run));
        lemma_merged_settled(m, byte_ids(run));
        assert forall|v: int| 0 <= v < e.len() - 1 implies !m.contains(
            (#[trigger] e[v] as u32, e[v + 1] as u32),
        ) by {
            let pair = (ids[v], ids[v + 1]);
            assert(ids[v] < 65536 && ids[v + 1] < 65536);
            assert(e[v] as u32 == ids[v] && e[v + 1] as u32 == ids[v + 1]);
            assert(rank(m, pair, 0) == m.len());
            lemma_no_rank(m, pair, 0);
        }
    }
}

/// Without merges a byte is its own token.
pub proof fn law_bytes_are_tokens(data: Seq<u8>, i: int)
    requires
        0 <= i < data.len(),
    ensures
        encoded(Seq::empty(), data).len() == data.len(),
        encoded(Seq::empty(), data)[i] == data[i] as u16,
{
}

} // verus!
