use vstd::prelude::*;

verus! {

/// One pixel: red, green, blue and alpha, eight bits each.
#[derive(PartialEq, Eq, Structural, Clone, Copy, Debug)]
pub struct Rgba8 {
    pub r: u8,
    pub g: u8,
    pub b: u8,
    pub a: u8,
}

/// How far channel `x` lies above channel `y` (zero where it does not).
pub open spec fn excess(x: u8, y: u8) -> u8 {
    if x > y {
        (x - y) as u8
    } else {
        0
    }
}

pub open spec fn max_u8(x: u8, y: u8) -> u8 {
    if x >= y {
        x
    } else {
        y
    }
}

pub open spec fn max4(w: u8, x: u8, y: u8, z: u8) -> u8 {
    max_u8(max_u8(w, x), max_u8(y, z))
}

pub open spec fn abs_diff(x: u8, y: u8) -> u8 {
    if x >= y {
        (x - y) as u8
    } else {
        (y - x) as u8
    }
}

/// The largest amount by which a channel of `p` exceeds the same channel of `q`.
pub open spec fn excess_of(p: Rgba8, q: Rgba8) -> u8 {
    max4(excess(p.r, q.r), excess(p.g, q.g), excess(p.b, q.b), excess(p.a, q.a))
}

/// Distance of two pixels: the largest absolute difference over the four channels.
pub open spec fn distance(p: Rgba8, q: Rgba8) -> u8 {
    max4(abs_diff(p.r, q.r), abs_diff(p.g, q.g), abs_diff(p.b, q.b), abs_diff(p.a, q.a))
}

/// The pair (how much `left` is brighter, how much `right` is brighter), each the
/// maximum over the four channels.
pub open spec fn min_max_distance(left: Rgba8, right: Rgba8) -> (u8, u8) {
    (excess_of(left, right), excess_of(right, left))
}

/// The distance is the larger of the two one-sided distances, and is zero only
/// for equal pixels.
pub proof fn lemma_distance_is_max_excess(p: Rgba8, q: Rgba8)
    ensures
        distance(p, q) == max_u8(excess_of(p, q), excess_of(q, p)),
        distance(p, q) == distance(q, p),
        distance(p, q) == 0 <==> p == q,
{
}

fn channel_excess(x: u8, y: u8) -> (r: u8)
    ensures
        r == excess(x, y),
{
    if x > y {
        x - y
    } else {
        0
    }
}

fn max_of(x: u8, y: u8) -> (r: u8)
    ensures
        r == max_u8(x, y),
{
    if x >= y {
        x
    } else {
        y
    }
}

/// Largest absolute channel difference of two pixels.
pub fn pixel_distance(left: Rgba8, right: Rgba8) -> (r: u64)
    ensures
        r == distance(left, right) as u64,
{
    let dr = if left.r >= right.r { left.r - right.r } else { right.r - left.r };
    let dg = if left.g >= right.g { left.g - right.g } else { right.g - left.g };
    let db = if left.b >= right.b { left.b - right.b } else { right.b - left.b };
    let da = if left.a >= right.a { left.a - right.a } else { right.a - left.a };
    max_of(max_of(dr, dg), max_of(db, da)) as u64
}

/// One step of the channel fold: the channel pair `(c1, c2)` raises the
/// running maximum of the side that is brighter.
fn fold_channel(acc: (u8, u8), c1: u8, c2: u8) -> (r: (u8, u8))
    ensures
        r == (max_u8(acc.0, excess(c1, c2)), max_u8(acc.1, excess(c2, c1))),
{
    let (min, max) = acc;
    if c2 > c1 {
        (min, max_of(max, c2 - c1))
    } else {
        (max_of(min, c1 - c2), max)
    }
}

/// The per-channel maxima of "left brighter than right" and of "right brighter
/// than left".
pub fn pixel_min_max_distance(left: Rgba8, right: Rgba8) -> (r: (u8, u8))
    ensures
        r == min_max_distance(left, right),
{
    let acc = fold_channel((0, 0), left.r, right.r);
    let acc = fold_channel(acc, left.g, right.g);
    let acc = fold_channel(acc, left.b, right.b);
    fold_channel(acc, left.a, right.a)
}

} // verus!
