//! Deterministic token sampling: the random numbers, and how much of the text
//! a model gets to see.
use vstd::prelude::*;

verus! {

/// One step of xorshift64*.
pub open spec fn stepped(x: u64) -> u64 {
    let a = x ^ (x >> 12);
    let b = a ^ (a << 25);
    b ^ (b >> 27)
}

/// The number a state gives.
pub open spec fn output(x: u64) -> u64 {
    x.wrapping_mul(0x2545_F491_4F6C_DD1D)
}

/// xorshift64*: the same seed gives the same numbers.
pub struct Rng {
    state: u64,
}

impl View for Rng {
    type V = u64;

    closed spec fn view(&self) -> u64 {
        self.state
    }
}

impl Rng {
    /// A generator; seed 0, which the steps would never leave, is replaced.
    pub fn new(seed: u64) -> (r: Self)
        ensures
            r@ == if seed == 0 {
                0x9E37_79B9_7F4A_7C15
            } else {
                seed
            },
            r@ != 0,
    {
        Rng { state: if seed == 0 { 0x9E37_79B9_7F4A_7C15 } else { seed } }
    }

    pub fn next_u64(&mut self) -> (r: u64)
        ensures
            final(self)@ == stepped(old(self)@),
            r == output(final(self)@),
    {
        let mut x: u64 = self.state;
        x = x ^ (x >> 12);
        x = x ^ (x << 25);
        x = x ^ (x >> 27);
        self.state = x;
        x.wrapping_mul(0x2545_F491_4F6C_DD1D)
    }

    /// The top 24 bits of the next number: over 2^24, a number in `[0, 1)`.
    pub fn next_24(&mut self) -> (r: u32)
        ensures
            final(self)@ == stepped(old(self)@),
            r == output(final(self)@) >> 40,
            r < 0x100_0000,
    {
        let x: u64 = self.next_u64();
        assert(x >> 40 < 0x100_0000) by (bit_vector);
        (x >> 40) as u32
    }
}

/// A generator never gets stuck at zero.
pub proof fn law_state_stays_nonzero(x: u64)
    requires
        x != 0,
    ensures
        stepped(x) != 0,
{
    let a = x ^ (x >> 12);
    let b = a ^ (a << 25);
    assert(x != 0 ==> x ^ (x >> 12) != 0) by (bit_vector);
    assert(a != 0 ==> a ^ (a << 25) != 0) by (bit_vector);
    assert(b != 0 ==> b ^ (b >> 27) != 0) by (bit_vector);
}

/// Where the part of `n` tokens begins that fits a context of `block` tokens.
pub fn window(n: usize, block: usize) -> (r: usize)
    ensures
        r == if n > block {
            n - block
        } else {
            0
        },
{
    if n > block {
        n - block
    } else {
        0
    }
}

// --- choosing among scores ---
//
// A score stands here as an integer that orders as the score does.

/// Index `i` is chosen before `j`: it scores higher, or the same and comes
/// first.
pub open spec fn before(keys: Seq<u32>, i: int, j: int) -> bool {
    keys[i] > keys[j] || (keys[i] == keys[j] && i < j)
}

/// The index of the highest score, the first such one.
pub fn argmax(keys: &[u32]) -> (r: usize)
    requires
        keys@.len() > 0,
    ensures
        r < keys@.len(),
        forall|i: int| 0 <= i < keys@.len() && i != r ==> before(keys@, r as int, i),
{
    let n: usize = keys.len();
    let mut best: usize = 0;
    let mut i: usize = 1;
    while i < n
        invariant
            n == keys@.len(),
            best < i <= n,
            forall|j: int| 0 <= j < i && j != best ==> before(keys@, best as int, j),
        decreases n - i,
    {
        if keys[i] > keys[best] {
            assert forall|j: int| 0 <= j < i implies before(keys@, i as int, j) by {
                if j != best {
                    assert(before(keys@, best as int, j));
                }
            }
            best = i;
        }
        i = i + 1;
    }
    best
}

/// The first unused index that scores highest among the unused ones.
fn best_unused(keys: &[u32], used: &Vec<bool>) -> (r: usize)
    requires
        used@.len() == keys@.len(),
        exists|i: int| 0 <= i < used@.len() && !used@[i],
    ensures
        r < keys@.len(),
        !used@[r as int],
        forall|i: int| 0 <= i < keys@.len() && i != r && !used@[i] ==> before(keys@, r as int, i),
{
    let n: usize = keys.len();
    let mut best: Option<usize> = None;
    let mut i: usize = 0;
    while i < n
        invariant
            n == keys@.len(),
            used@.len() == n,
            i <= n,
            best is None ==> forall|j: int| 0 <= j < i ==> used@[j],
            best matches Some(b) ==> b < i && !used@[b as int] && forall|j: int|
                0 <= j < i && j != b && !used@[j] ==> before(keys@, b as int, j),
        decreases n - i,
    {
        if !used[i] {
            best = match best {
                Some(b) => if keys[i] > keys[b] {
                    Some(i)
                } else {
                    Some(b)
                },
                None => Some(i),
            };
        }
        i = i + 1;
    }
    match best {
        Some(b) => b,
        None => 0,
    }
}

/// `r` holds the `k` best indices, the best first.
pub open spec fn is_top(keys: Seq<u32>, k: int, r: Seq<usize>) -> bool {
    &&& r.len() == k
    &&& forall|a: int| 0 <= a < k ==> (#[trigger] r[a]) < keys.len()
    &&& forall|a: int, b: int|
        #![trigger r[a], r[b]]
        0 <= a < b < k ==> before(keys, r[a] as int, r[b] as int)
    &&& forall|a: int, i: int|
        #![trigger r[a], keys[i]]
        0 <= a < k && 0 <= i < keys.len() && !r.contains(i as usize) ==> before(
            keys,
            r[a] as int,
            i,
        )
}

/// The best `k` indices, the best first; at least one and at most all.
pub fn top_k(keys: &[u32], k: usize) -> (r: Vec<usize>)
    requires
        keys@.len() > 0,
    ensures
        is_top(
            keys@,
            if k < 1 {
                1
            } else if k > keys@.len() {
                keys@.len() as int
            } else {
                k as int
            },
            r@,
        ),
{
    let n: usize = keys.len();
    let want: usize = if k < 1 {
        1
    } else if k > n {
        n
    } else {
        k
    };
    let mut used: Vec<bool> = Vec::new();
    while used.len() < n
        invariant
            used@.len() <= n,
            forall|i: int| 0 <= i < used@.len() ==> !used@[i],
        decreases n - used@.len(),
    {
        used.push(false);
    }
    let mut r: Vec<usize> = Vec::new();
    while r.len() < want
        invariant
            n == keys@.len(),
            n > 0,
            want <= n,
            r@.len() <= want,
            used@.len() == n,
            forall|i: int| 0 <= i < n ==> (used@[i] <==> #[trigger] r@.contains(i as usize)),
            is_top(keys@, r@.len() as int, r@),
        decreases want - r@.len(),
    {
        proof {
            lemma_some_is_left(used@, r@);
        }
        let b: usize = best_unused(keys, &used);
        let ghost r0 = r@;
        used.set(b, true);
        r.push(b);
        proof {
            assert(r@.last() == b);
            assert forall|i: int| 0 <= i < n implies (used@[i] <==> #[trigger] r@.contains(
                i as usize,
            )) by {
                if r0.contains(i as usize) {
                    let a = r0.index_of(i as usize);
                    assert(r@[a] == i);
                }
                if r@.contains(i as usize) {
                    let a = r@.index_of(i as usize);
                    if a < r0.len() {
                        assert(r0[a] == i);
                    }
                }
            }
            assert forall|a: int, c: int|
                #![trigger r@[a], r@[c]]
                0 <= a < c < r@.len() implies before(keys@, r@[a] as int, r@[c] as int) by {
                assert(r@[a] == r0[a]);
                if c < r0.len() {
                    assert(r@[c] == r0[c]);
                } else {
                    assert(!r0.contains(b));
                    assert(keys@[b as int] == keys@[b as int]);
                }
            }
            assert forall|a: int, i: int|
                #![trigger r@[a], keys@[i]]
                0 <= a < r@.len() && 0 <= i < keys@.len() && !r@.contains(
                    i as usize,
                ) implies before(keys@, r@[a] as int, i) by {
                assert(!used@[i]);
                assert(i != b);
                if a < r0.len() {
                    assert(r@[a] == r0[a]);
                    assert(!r0.contains(i as usize));
                }
            }
        }
    }
    r
}

/// While fewer indices are chosen than there are, one is left.
proof fn lemma_some_is_left(used: Seq<bool>, r: Seq<usize>)
    requires
        r.len() < used.len() <= usize::MAX,
        forall|i: int| 0 <= i < used.len() ==> (used[i] <==> #[trigger] r.contains(i as usize)),
    ensures
        exists|i: int| 0 <= i < used.len() && !used[i],
{
    if forall|i: int| 0 <= i < used.len() ==> used[i] {
        let s = r.to_set();
        let all = vstd::set_lib::set_int_range(0, used.len() as int);
        vstd::set_lib::lemma_int_range(0, used.len() as int);
        vstd::seq_lib::seq_to_set_is_finite(r);
        r.lemma_cardinality_of_set();
        let img = s.map(|u: usize| u as int);
        vstd::set_lib::lemma_map_size_bound(s, img, |u: usize| u as int);
        assert(all.subset_of(img)) by {
            assert forall|i: int| all.contains(i) implies img.contains(i) by {
                assert(used[i]);
                assert(r.contains(i as usize));
                assert(s.contains(i as usize));
                assert((i as usize) as int == i);
            }
        }
        vstd::set_lib::lemma_len_subset(all, img);
    }
}

/// Two ways to choose the best `k` agree.
pub proof fn law_choice_is_unique(keys: Seq<u32>, k: int, r: Seq<usize>, q: Seq<usize>)
    requires
        is_top(keys, k, r),
        is_top(keys, k, q),
        keys.len() <= usize::MAX,
    ensures
        r == q,
{
    assert forall|a: int| 0 <= a < k implies r[a] == q[a] by {
        lemma_same_place(keys, k, r, q, a);
    }
    assert(r =~= q);
}

proof fn lemma_same_place(keys: Seq<u32>, k: int, r: Seq<usize>, q: Seq<usize>, a: int)
    requires
        is_top(keys, k, r),
        is_top(keys, k, q),
        keys.len() <= usize::MAX,
        0 <= a < k,
    ensures
        r[a] == q[a],
    decreases a,
{
    if r[a] != q[a] {
        assert forall|b: int| 0 <= b < a implies r[b] == q[b] by {
            lemma_same_place(keys, k, r, q, b);
        }
        // Whichever comes first of the two has to stand in the other list
        // before its place there.
        lemma_not_later(keys, k, r, q, a);
        lemma_not_later(keys, k, q, r, a);
    }
}

proof fn lemma_not_later(keys: Seq<u32>, k: int, r: Seq<usize>, q: Seq<usize>, a: int)
    requires
        is_top(keys, k, r),
        is_top(keys, k, q),
        0 <= a < k,
        r[a] != q[a],
        forall|b: int| 0 <= b < a ==> r[b] == q[b],
    ensures
        before(keys, q[a] as int, r[a] as int),
{
    if q.contains(r[a]) {
        let c = q.index_of(r[a]);
        assert(q[c] == r[a]);
        if c < a {
            assert(r[c] == q[c]);
            assert(before(keys, r[c] as int, r[a] as int));
        } else {
            assert(before(keys, q[a] as int, q[c] as int));
        }
    } else {
        assert((r[a] as int) as usize == r[a]);
        assert(before(keys, q[a] as int, r[a] as int)) by {
            assert(keys[r[a] as int] == keys[r[a] as int]);
        }
    }
}

} // verus!
