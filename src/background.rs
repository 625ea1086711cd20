use vstd::prelude::*;

use crate::pixel::Rgba8;
use std::collections::HashMap;

verus! {

broadcast use vstd::std_specs::hash::group_hash_axioms;

/// Number of occurrences of colour `c` in `s`.
pub open spec fn count_of(s: Seq<Rgba8>, c: Rgba8) -> nat
    decreases s.len(),
{
    if s.len() == 0 {
        0
    } else {
        count_of(s.drop_last(), c) + if s.last() == c { 1nat } else { 0nat }
    }
}

/// `k` is the first position whose colour is a most frequent colour of `s`.
pub open spec fn is_first_most_frequent(s: Seq<Rgba8>, k: int) -> bool {
    &&& 0 <= k < s.len()
    &&& forall|j: int| 0 <= j < s.len() ==> count_of(s, #[trigger] s[j]) <= count_of(s, s[k])
    &&& forall|j: int| 0 <= j < k ==> count_of(s, #[trigger] s[j]) < count_of(s, s[k])
}

/// The background of an image with pixels `s`: its most frequent colour (the
/// one met first, on a tie), where that colour covers more than a quarter of
/// the pixels; otherwise none.
pub open spec fn background_of(s: Seq<Rgba8>) -> Option<Rgba8> {
    if exists|k: int| is_first_most_frequent(s, k) && count_of(s, s[k]) > s.len() / 4 {
        Some(
            s[choose|k: int| is_first_most_frequent(s, k) && count_of(s, s[k]) > s.len() / 4],
        )
    } else {
        None
    }
}

/// The colour as one 32-bit key.
pub open spec fn color_key(c: Rgba8) -> u32 {
    (c.r as u32) | ((c.g as u32) << 8u32) | ((c.b as u32) << 16u32) | ((c.a as u32) << 24u32)
}

proof fn lemma_color_key_injective(c: Rgba8, d: Rgba8)
    ensures
        color_key(c) == color_key(d) ==> c == d,
{
    let (r1, g1, b1, a1) = (c.r as u32, c.g as u32, c.b as u32, c.a as u32);
    let (r2, g2, b2, a2) = (d.r as u32, d.g as u32, d.b as u32, d.a as u32);
    assert((r1 | (g1 << 8u32) | (b1 << 16u32) | (a1 << 24u32)) == (r2 | (g2 << 8u32) | (b2
        << 16u32) | (a2 << 24u32)) ==> r1 == r2 && g1 == g2 && b1 == b2 && a1 == a2)
        by (bit_vector)
        requires
            r1 < 256 && g1 < 256 && b1 < 256 && a1 < 256,
            r2 < 256 && g2 < 256 && b2 < 256 && a2 < 256,
    ;
}

proof fn lemma_count_prefix_step(s: Seq<Rgba8>, i: int, c: Rgba8)
    requires
        0 <= i < s.len(),
    ensures
        count_of(s.subrange(0, i + 1), c) == count_of(s.subrange(0, i), c) + if s[i] == c {
            1nat
        } else {
            0nat
        },
{
    assert(s.subrange(0, i + 1).drop_last() =~= s.subrange(0, i));
}

proof fn lemma_count_bounded(s: Seq<Rgba8>, c: Rgba8)
    ensures
        count_of(s, c) <= s.len(),
    decreases s.len(),
{
    if s.len() > 0 {
        lemma_count_bounded(s.drop_last(), c);
    }
}

proof fn lemma_count_positive(s: Seq<Rgba8>, i: int)
    requires
        0 <= i < s.len(),
    ensures
        count_of(s, s[i]) > 0,
    decreases s.len(),
{
    if i < s.len() - 1 {
        lemma_count_positive(s.drop_last(), i);
        assert(s.drop_last()[i] == s[i]);
    }
}

fn color_key_of(c: Rgba8) -> (r: u32)
    ensures
        r == color_key(c),
{
    (c.r as u32) | ((c.g as u32) << 8u32) | ((c.b as u32) << 16u32) | ((c.a as u32) << 24u32)
}

/// Counts the colours of `data`, keyed by `color_key`.
fn count_colors(data: &Vec<Rgba8>) -> (m: HashMap<u32, u64>)
    ensures
        forall|c: Rgba8|
            #![trigger count_of(data@, c)]
            if m@.contains_key(color_key(c)) {
                m@[color_key(c)] == count_of(data@, c)
            } else {
                count_of(data@, c) == 0
            },
{
    let mut m: HashMap<u32, u64> = HashMap::new();
    let n = data.len();
    let mut i: usize = 0;
    while i < n
        invariant
            n == data@.len(),
            0 <= i <= n,
            forall|c: Rgba8|
                #![trigger count_of(data@.subrange(0, i as int), c)]
                if m@.contains_key(color_key(c)) {
                    m@[color_key(c)] == count_of(data@.subrange(0, i as int), c)
                        && count_of(data@.subrange(0, i as int), c) > 0
                } else {
                    count_of(data@.subrange(0, i as int), c) == 0
                },
        decreases n - i,
    {
        let p = data[i];
        let k = color_key_of(p);
        let prefix = Ghost(data@.subrange(0, i as int));
        proof {
            lemma_count_bounded(prefix@, p);
        }
        let cur: u64 = match m.get(&k) {
            Some(v) => *v,
            None => 0,
        };
        assert(cur == count_of(prefix@, p)) by {
            if !m@.contains_key(k) {
                assert(count_of(prefix@, p) == 0);
            }
        }
        m.insert(k, cur + 1);
        proof {
            assert forall|c: Rgba8|
                #![trigger count_of(data@.subrange(0, i + 1), c)]
                if m@.contains_key(color_key(c)) {
                    m@[color_key(c)] == count_of(data@.subrange(0, i + 1), c) && count_of(
                        data@.subrange(0, i + 1),
                        c,
                    ) > 0
                } else {
                    count_of(data@.subrange(0, i + 1), c) == 0
                } by {
                lemma_count_prefix_step(data@, i as int, c);
                lemma_color_key_injective(c, p);
                assert(count_of(prefix@, c) == count_of(data@.subrange(0, i as int), c));
            }
        }
        i = i + 1;
    }
    proof {
        assert(data@.subrange(0, n as int) =~= data@);
        assert forall|c: Rgba8|
            #![trigger count_of(data@, c)]
            if m@.contains_key(color_key(c)) {
                m@[color_key(c)] == count_of(data@, c)
            } else {
                count_of(data@, c) == 0
            } by {
            assert(count_of(data@.subrange(0, n as int), c) == count_of(data@, c));
        }
    }
    m
}

/// Finds the dominant uniform colour of an image: the most frequent colour
/// (the first one met in row-major order, on a tie), if it covers more than a
/// quarter of the pixels.
pub fn detect_background(data: &Vec<Rgba8>) -> (r: Option<Rgba8>)
    ensures
        r == background_of(data@),
{
    let counts = count_colors(data);
    let n = data.len();
    let mut best: usize = 0;
    let mut best_count: u64 = 0;
    let mut i: usize = 0;
    while i < n
        invariant
            n == data@.len(),
            0 <= i <= n,
            forall|c: Rgba8|
                #![trigger count_of(data@, c)]
                if counts@.contains_key(color_key(c)) {
                    counts@[color_key(c)] == count_of(data@, c)
                } else {
                    count_of(data@, c) == 0
                },
            best <= i,
            i == 0 ==> best_count == 0,
            i > 0 ==> best < i && best_count == count_of(data@, data@[best as int]),
            forall|j: int| 0 <= j < i ==> count_of(data@, #[trigger] data@[j]) <= best_count,
            forall|j: int| 0 <= j < best ==> count_of(data@, #[trigger] data@[j]) < best_count,
        decreases n - i,
    {
        let p = data[i];
        let k = color_key_of(p);
        proof {
            lemma_count_positive(data@, i as int);
        }
        assert(count_of(data@, p) == counts@[k]);
        let c: u64 = match counts.get(&k) {
            Some(v) => *v,
            None => 0,
        };
        if c > best_count {
            best = i;
            best_count = c;
        }
        i = i + 1;
    }
    if n > 0 && best_count > (n / 4) as u64 {
        proof {
            assert(is_first_most_frequent(data@, best as int));
            assert forall|k: int|
                is_first_most_frequent(data@, k) && count_of(data@, data@[k]) > data@.len()
                    / 4 implies data@[k] == data@[best as int] by {
                if k < best {
                    assert(count_of(data@, data@[k]) < best_count);
                } else if k > best {
                    assert(count_of(data@, data@[best as int]) < count_of(data@, data@[k]));
                }
            }
        }
        Some(data[best])
    } else {
        proof {
            assert forall|k: int|
                !(is_first_most_frequent(data@, k) && count_of(data@, data@[k]) > data@.len()
                    / 4) by {
                if is_first_most_frequent(data@, k) {
                    assert(count_of(data@, data@[k]) <= best_count);
                }
            }
        }
        None
    }
}

} // verus!
