//! The order in which pixels are visited.
//!
//! The traversal starts at a base offset derived from the start position, plus
//! the configured offset, and moves `step_by_n_pixels` pixels at a time in
//! row-major order. Past the last pixel it goes back to pixel 0. Without
//! `spread` only the first pass is used; with `spread` the traversal offers as
//! many visits as the image has pixels.
use vstd::prelude::*;

use crate::prelude::{Config, ImagePosition};

verus! {

/// The base offset, in pixels, that a start position stands for. It is added
/// to the configured offset, not used as a coordinate.
pub open spec fn base_offset(position: ImagePosition, width: nat, height: nat) -> nat {
    match position {
        ImagePosition::TopLeft => 0,
        ImagePosition::TopRight => width,
        ImagePosition::BottomLeft => height,
        ImagePosition::BottomRight => width + height,
        ImagePosition::Center => (width + height) / 2,
        ImagePosition::At(x, y) => (x * y) as nat,
    }
}

/// Row-major index of the first pixel of the first pass.
pub open spec fn start_index(cfg: Config, width: nat, height: nat) -> nat {
    base_offset(cfg.position, width, height) + cfg.offset as nat
}

/// Number of indices `start`, `start + step`, ... that lie below `total`.
pub open spec fn first_pass_visits(start: nat, step: nat, total: nat) -> nat {
    if start < total {
        ((total - start - 1) / (step as int) + 1) as nat
    } else {
        0
    }
}

/// How many pixel visits the traversal offers.
pub open spec fn visit_budget(cfg: Config, width: nat, height: nat) -> nat {
    if cfg.spread {
        width * height
    } else {
        first_pass_visits(start_index(cfg, width, height), cfg.step_by_n_pixels as nat, width * height)
    }
}

/// Row-major index of the pixel of visit `t` (counting from 0).
pub open spec fn visit(cfg: Config, width: nat, height: nat, t: nat) -> nat
    decreases t,
{
    if t == 0 {
        let s = start_index(cfg, width, height);
        if s < width * height {
            s
        } else {
            0
        }
    } else {
        let p = visit(cfg, width, height, (t - 1) as nat);
        if p + cfg.step_by_n_pixels < width * height {
            p + cfg.step_by_n_pixels as nat
        } else {
            0
        }
    }
}

/// Every visit lands inside a non-empty image.
pub proof fn lemma_visit_in_image(cfg: Config, width: nat, height: nat, t: nat)
    requires
        width * height > 0,
    ensures
        visit(cfg, width, height, t) < width * height,
    decreases t,
{
    if t > 0 {
        lemma_visit_in_image(cfg, width, height, (t - 1) as nat);
    }
}

/// The order of visits does not depend on `spread`.
pub proof fn lemma_visit_ignores_spread(cfg: Config, other: Config, width: nat, height: nat, t: nat)
    requires
        other == (Config { spread: other.spread, ..cfg }),
    ensures
        visit(other, width, height, t) == visit(cfg, width, height, t),
    decreases t,
{
    if t > 0 {
        lemma_visit_ignores_spread(cfg, other, width, height, (t - 1) as nat);
    }
}

/// Within the first pass, visit `t` lies `t` steps past the start.
pub proof fn lemma_first_pass_visit(cfg: Config, width: nat, height: nat, t: nat)
    requires
        cfg.wf(),
        t < first_pass_visits(start_index(cfg, width, height), cfg.step_by_n_pixels as nat, width * height),
    ensures
        visit(cfg, width, height, t) == start_index(cfg, width, height) + t * cfg.step_by_n_pixels,
    decreases t,
{
    let s = start_index(cfg, width, height) as int;
    let step = cfg.step_by_n_pixels as int;
    let total = (width * height) as int;
    let q = (total - s - 1) / step;
    assert(q * step <= total - s - 1) by (nonlinear_arith)
        requires
            q == (total - s - 1) / step,
            step >= 1,
            total - s - 1 >= 0,
    ;
    assert(t * step <= q * step) by (nonlinear_arith)
        requires
            t <= q,
            step >= 1,
    ;
    if t > 0 {
        lemma_first_pass_visit(cfg, width, height, (t - 1) as nat);
        assert((t - 1) * step + step == t * step) by (nonlinear_arith);
        assert(visit(cfg, width, height, (t - 1) as nat) + step < total);
    } else {
        assert(t * step == 0) by (nonlinear_arith)
            requires
                t == 0,
        ;
        assert(s < total);
    }
}

/// Without `spread`, no pixel is visited twice.
pub proof fn lemma_first_pass_distinct(cfg: Config, width: nat, height: nat)
    requires
        cfg.wf(),
        !cfg.spread,
    ensures
        forall|t1: nat, t2: nat|
            t1 < t2 < visit_budget(cfg, width, height) ==> visit(cfg, width, height, t1) != visit(cfg, width, height, t2),
{
    assert forall|t1: nat, t2: nat| t1 < t2 < visit_budget(cfg, width, height) implies visit(cfg, width, height, t1)
        != visit(cfg, width, height, t2) by {
        lemma_first_pass_visit(cfg, width, height, t1);
        lemma_first_pass_visit(cfg, width, height, t2);
        let step = cfg.step_by_n_pixels as int;
        assert(t1 * step < t2 * step) by (nonlinear_arith)
            requires
                t1 < t2,
                step >= 1,
        ;
    }
}

/// The traversal never offers more visits than the image has pixels.
pub proof fn lemma_budget_within_image(cfg: Config, width: nat, height: nat)
    requires
        cfg.wf(),
    ensures
        visit_budget(cfg, width, height) <= width * height,
{
    let s = start_index(cfg, width, height);
    let total = width * height;
    if !cfg.spread && s < total {
        let step = cfg.step_by_n_pixels as int;
        let x = total - s - 1;
        assert(x / step <= x) by (nonlinear_arith)
            requires
                x >= 0,
                step >= 1,
        ;
    }
}

/// The row-major index at which the first pass starts, if it lies inside the
/// image.
pub fn start_pixel(cfg: &Config, width: u32, height: u32, total: usize) -> (r: Option<usize>)
    requires
        total == width * height,
    ensures
        r matches Some(s) ==> s == start_index(*cfg, width as nat, height as nat) && s < total,
        r is None ==> start_index(*cfg, width as nat, height as nat) >= total,
{
    let w = width as u64;
    let h = height as u64;
    let base: u64 = match cfg.position {
        ImagePosition::TopLeft => 0,
        ImagePosition::TopRight => w,
        ImagePosition::BottomLeft => h,
        ImagePosition::BottomRight => w + h,
        ImagePosition::Center => (w + h) / 2,
        ImagePosition::At(x, y) => {
            assert(x as int * y as int <= u64::MAX) by (nonlinear_arith)
                requires
                    x <= u32::MAX,
                    y <= u32::MAX,
            ;
            x as u64 * y as u64
        },
    };
    let t = total as u64;
    if base < t && (cfg.offset as u64) < t - base {
        Some((base + cfg.offset as u64) as usize)
    } else {
        None
    }
}

/// The pixel of the first visit.
pub fn first_pixel(cfg: &Config, width: u32, height: u32, total: usize) -> (r: usize)
    requires
        total == width * height,
    ensures
        r == visit(*cfg, width as nat, height as nat, 0),
{
    match start_pixel(cfg, width, height, total) {
        Some(s) => s,
        None => 0,
    }
}

/// The pixel visited after pixel `p`.
pub fn next_pixel(cfg: &Config, total: usize, p: usize) -> (r: usize)
    requires
        p < total,
    ensures
        r == (if p + cfg.step_by_n_pixels < total { p + cfg.step_by_n_pixels } else { 0 }),
{
    if cfg.step_by_n_pixels < total - p {
        p + cfg.step_by_n_pixels
    } else {
        0
    }
}

/// How many visits the traversal offers.
pub fn visit_count(cfg: &Config, width: u32, height: u32, total: usize) -> (r: usize)
    requires
        cfg.wf(),
        total == width * height,
    ensures
        r == visit_budget(*cfg, width as nat, height as nat),
{
    if cfg.spread {
        total
    } else {
        match start_pixel(cfg, width, height, total) {
            Some(s) => (total - s - 1) / cfg.step_by_n_pixels + 1,
            None => 0,
        }
    }
}

} // verus!
