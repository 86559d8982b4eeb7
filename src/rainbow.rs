//! Colors by nesting depth, and the grouping of visible pairs by depth.
use crate::fragments::{DepthPair, Span};
use vstd::prelude::*;

verus! {

/// A full turn of the hue circle, in thousandths of a degree.
pub const FULL_TURN: i32 = 360000;

/// Configuration of depth coloring. Hues are in thousandths of a degree.
#[derive(Clone, Copy, Debug, PartialEq, Eq, Structural)]
pub struct RainbowSettings {
    pub enabled: bool,
    pub start_hue: i32,
    pub hue_step: i32,
}

/// A color: hue in thousandths of a degree, in `0..FULL_TURN`, and
/// saturation, lightness and alpha in percent.
#[derive(Clone, Copy, Debug, PartialEq, Eq, Structural)]
pub struct Hsla {
    pub hue: i32,
    pub saturation: u8,
    pub lightness: u8,
    pub alpha: u8,
}

/// `(start_hue + depth * hue_step) mod 360°`, in thousandths of a degree.
pub open spec fn spec_hue(start_hue: int, hue_step: int, depth: int) -> int {
    (start_hue + depth * hue_step) % (FULL_TURN as int)
}

pub open spec fn spec_color(s: RainbowSettings, depth: int) -> Hsla {
    Hsla {
        hue: spec_hue(s.start_hue as int, s.hue_step as int, depth) as i32,
        saturation: 75,
        lightness: 60,
        alpha: 100,
    }
}

/// The hue for a nesting depth: the start hue turned by `depth` steps,
/// taken modulo a full turn.
pub fn hue_for_depth(start_hue: i32, hue_step: i32, depth: usize) -> (r: i32)
    ensures
        r as int == spec_hue(start_hue as int, hue_step as int, depth as int),
        0 <= r < FULL_TURN,
{
    let d: i128 = depth as i128;
    let st: i128 = hue_step as i128;
    assert(-0x8000_0000_0000_0000_0000_0000 <= d * st <= 0x8000_0000_0000_0000_0000_0000)
        by (nonlinear_arith)
        requires
            0 <= d <= 0xffff_ffff_ffff_ffff,
            -0x8000_0000 <= st <= 0x7fff_ffff,
    ;
    let x: i128 = start_hue as i128 + d * st;
    let m: i128 = FULL_TURN as i128;
    if x >= 0 {
        let r: u128 = (x as u128) % (m as u128);
        r as i32
    } else {
        let neg: u128 = (-x) as u128;
        let rem: u128 = neg % (m as u128);
        if rem == 0 {
            assert(x % 360000 == 0) by (nonlinear_arith)
                requires
                    x < 0,
                    neg == -x,
                    neg % 360000 == 0,
            ;
            0
        } else {
            assert(x % 360000 == 360000 - rem) by (nonlinear_arith)
                requires
                    x < 0,
                    neg == -x,
                    rem == neg % 360000,
                    rem != 0,
            ;
            (360000 - rem) as i32
        }
    }
}

/// The color for a nesting depth: its hue, saturation 75%, lightness 60%,
/// fully opaque.
pub fn color_for_depth(settings: &RainbowSettings, depth: usize) -> (c: Hsla)
    ensures
        c == spec_color(*settings, depth as int),
{
    Hsla {
        hue: hue_for_depth(settings.start_hue, settings.hue_step, depth),
        saturation: 75,
        lightness: 60,
        alpha: 100,
    }
}

/// Whether some pair has nesting depth `d`.
pub open spec fn depth_occurs(ps: Seq<DepthPair>, d: usize) -> bool {
    exists|i: int| 0 <= i < ps.len() && #[trigger] ps[i].depth == d
}

/// The token ranges of the first `n` pairs of depth `d`: for each, its
/// opening then its closing token, in the pairs' order.
pub open spec fn ranges_upto(ps: Seq<DepthPair>, d: usize, n: nat) -> Seq<Span>
    decreases n,
{
    if n == 0 || n > ps.len() {
        Seq::empty()
    } else {
        let prev = ranges_upto(ps, d, (n - 1) as nat);
        if ps[n - 1].depth == d {
            prev.push(ps[n - 1].open).push(ps[n - 1].close)
        } else {
            prev
        }
    }
}

pub open spec fn ranges_of_depth(ps: Seq<DepthPair>, d: usize) -> Seq<Span> {
    ranges_upto(ps, d, ps.len())
}

/// The opening and closing token ranges of the pairs at depth `d`.
pub fn ranges_at_depth(ps: &Vec<DepthPair>, d: usize) -> (r: Vec<Span>)
    ensures
        r@ == ranges_of_depth(ps@, d),
{
    let mut r: Vec<Span> = Vec::new();
    let mut i: usize = 0;
    while i < ps.len()
        invariant
            i <= ps@.len(),
            r@ == ranges_upto(ps@, d, i as nat),
        decreases ps@.len() - i,
    {
        if ps[i].depth == d {
            r.push(ps[i].open);
            r.push(ps[i].close);
        }
        i = i + 1;
    }
    r
}

/// Each depth that occurs among the pairs, once, in order of first occurrence.
pub fn distinct_depths(ps: &Vec<DepthPair>) -> (r: Vec<usize>)
    ensures
        r@.no_duplicates(),
        forall|d: usize| r@.contains(d) <==> depth_occurs(ps@, d),
{
    let mut r: Vec<usize> = Vec::new();
    let mut i: usize = 0;
    while i < ps.len()
        invariant
            i <= ps@.len(),
            r@.no_duplicates(),
            forall|d: usize|
                r@.contains(d) <==> exists|j: int| 0 <= j < i && #[trigger] ps@[j].depth == d,
        decreases ps@.len() - i,
    {
        let d = ps[i].depth;
        let mut k: usize = 0;
        let mut seen = false;
        while k < r.len()
            invariant
                k <= r@.len(),
                seen ==> r@.contains(d),
                !seen ==> forall|j: int| 0 <= j < k ==> r@[j] != d,
            decreases r@.len() - k,
        {
            if r[k] == d {
                seen = true;
            }
            k = k + 1;
        }
        let ghost before = r@;
        if !seen {
            r.push(d);
        }
        proof {
            assert forall|e: usize| r@.contains(e) <==> (before.contains(e) || e == d) by {
                if !seen {
                    assert(r@ == before.push(d));
                    if before.contains(e) {
                        let t = choose|t: int| 0 <= t < before.len() && before[t] == e;
                        assert(r@[t] == e);
                    }
                    if r@.contains(e) && e != d {
                        let t = choose|t: int| 0 <= t < r@.len() && r@[t] == e;
                        assert(before[t] == e);
                    }
                    assert(r@[r@.len() - 1] == d);
                }
            }
            assert forall|e: usize|
                r@.contains(e) <==> exists|j: int| 0 <= j < i + 1 && #[trigger] ps@[j].depth == e by {
                if e == d {
                    assert(ps@[i as int].depth == e);
                }
                if before.contains(e) {
                    let j = choose|j: int| 0 <= j < i && #[trigger] ps@[j].depth == e;
                    assert(0 <= j < i + 1 && ps@[j].depth == e);
                }
                if exists|j: int| 0 <= j < i + 1 && #[trigger] ps@[j].depth == e {
                    let j = choose|j: int| 0 <= j < i + 1 && #[trigger] ps@[j].depth == e;
                    if j < i {
                        assert(before.contains(e));
                    }
                }
            }
        }
        i = i + 1;
    }
    r
}

} // verus!
