use vstd::prelude::*;
use crate::progress::{progress_of, Fraction, FractionModel};

verus! {

/// An axis-aligned rectangle: top-left corner and size, in integer units.
#[derive(Clone, Copy, Debug, PartialEq, Eq, Structural)]
pub struct Rect {
    pub x: i32,
    pub y: i32,
    pub width: u32,
    pub height: u32,
}

/// The width of the filled part of a bar `width` units wide at progress `p`:
/// `width * p`, rounded down to a whole unit.
pub open spec fn filled_width(width: nat, p: FractionModel) -> nat
    recommends
        p.den > 0,
{
    (width * p.num) / p.den
}

/// The bar drawn inside `bounds` at progress `p`: anchored at the top-left
/// corner of the bounds, `filled_width` wide and as tall as the bounds.
pub open spec fn bar_of(bounds: Rect, p: FractionModel) -> Rect {
    Rect {
        x: bounds.x,
        y: bounds.y,
        width: filled_width(bounds.width as nat, p) as u32,
        height: bounds.height,
    }
}

/// The rectangle that shows progress `p` inside `bounds`.
pub fn bar_geometry(bounds: Rect, p: Fraction) -> (r: Rect)
    requires
        p.wf(),
    ensures
        r == bar_of(bounds, p@),
        r.width <= bounds.width,
{
    assert((bounds.width as u128) * (p.num as u128) <= 0xffff_ffff_u128 * 0xffff_ffff_ffff_ffff_u128)
        by (nonlinear_arith)
        requires
            bounds.width <= 0xffff_ffff_u32,
            p.num <= 0xffff_ffff_ffff_ffff_u64,
    ;
    let product: u128 = (bounds.width as u128) * (p.num as u128);
    proof {
        lemma_filled_width_bounded(bounds.width as nat, p@);
    }
    let w: u128 = product / (p.den as u128);
    Rect { x: bounds.x, y: bounds.y, width: w as u32, height: bounds.height }
}

proof fn lemma_filled_width_bounded(width: nat, p: FractionModel)
    requires
        p.den > 0,
        p.num <= p.den,
    ensures
        filled_width(width, p) <= width,
{
    assert(width * p.num <= width * p.den) by (nonlinear_arith)
        requires
            p.num <= p.den,
    ;
    assert((width * p.num) / p.den <= (width * p.den) / p.den) by (nonlinear_arith)
        requires
            width * p.num <= width * p.den,
            p.den > 0,
    ;
    assert((width * p.den) / p.den == width) by (nonlinear_arith)
        requires
            p.den > 0,
    ;
}

/// The bar's width is the bounds' width times the progress, short of it by
/// less than one unit, never wider than the bounds; its height is the
/// bounds' height and it starts at their top-left corner.
pub proof fn lemma_bar_matches_progress(bounds: Rect, p: FractionModel)
    requires
        p.den > 0,
        p.num <= p.den,
    ensures
        bar_of(bounds, p).width * p.den <= bounds.width * p.num,
        bounds.width * p.num < (bar_of(bounds, p).width + 1) * p.den,
        bar_of(bounds, p).width <= bounds.width,
        bar_of(bounds, p).height == bounds.height,
        bar_of(bounds, p).x == bounds.x,
        bar_of(bounds, p).y == bounds.y,
{
    lemma_filled_width_bounded(bounds.width as nat, p);
    let w = filled_width(bounds.width as nat, p);
    let prod: int = bounds.width * p.num;
    let den: int = p.den as int;
    assert(w * den <= prod && prod < (w + 1) * den) by (nonlinear_arith)
        requires
            w == prod / den,
            den > 0,
            prod >= 0,
    ;
}

/// As time goes on, the bar for a timer of `d` milliseconds never gets
/// narrower.
pub proof fn lemma_bar_width_monotone(bounds: Rect, t1: nat, t2: nat, d: nat)
    requires
        d > 0,
        t1 <= t2,
    ensures
        bar_of(bounds, progress_of(t1, d)).width <= bar_of(bounds, progress_of(t2, d)).width,
{
    let p1 = progress_of(t1, d);
    let p2 = progress_of(t2, d);
    let w: nat = bounds.width as nat;
    lemma_filled_width_bounded(w, p1);
    lemma_filled_width_bounded(w, p2);
    assert(w * p1.num <= w * p2.num) by (nonlinear_arith)
        requires
            p1.num <= p2.num,
    ;
    let a: int = (w * p1.num) as int;
    let b: int = (w * p2.num) as int;
    let dd: int = d as int;
    assert(a / dd <= b / dd) by (nonlinear_arith)
        requires
            0 <= a <= b,
            dd > 0,
    ;
}

} // verus!
