//! Monitor geometry and zone records.
//!
//! Monitors arrive from the enumerator as positioned rectangles in desktop
//! coordinates; zones arrive from the config loader as positioned rectangles
//! in the same space.  `compute_layout` turns the monitor list into the
//! canvas geometry every tick uses: the global minimum offset and the
//! bounding-box size.

use vstd::prelude::*;

verus! {

/// A point in desktop coordinates.
#[derive(Debug, Clone, Copy, PartialEq, Eq, Structural)]
pub struct Position {
    pub x: i32,
    pub y: i32,
}

/// A rectangle extent.
#[derive(Debug, Clone, Copy, PartialEq, Eq, Structural)]
pub struct Size {
    pub width: i32,
    pub height: i32,
}

/// Position and extent of one monitor, as the enumerator reports it.
#[derive(Debug, Clone, Copy, PartialEq, Eq, Structural)]
pub struct SlimMonitorInfo {
    pub pos_x: i32,
    pub pos_y: i32,
    pub width: i32,
    pub height: i32,
}

/// One configured zone: the stable LED index, the enabled flag, and the
/// rectangle it samples, in desktop coordinates.
#[allow(non_snake_case)]
#[derive(Debug, Clone, Copy, PartialEq, Eq, Structural)]
pub struct LED {
    pub index: i32,
    pub IsEnabled: bool,
    pub Position: Position,
    pub Size: Size,
}

/// Canvas geometry for one session: the global minimum offset of all
/// monitors and the bounding-box size of their union.
#[derive(Debug, Clone, Copy, PartialEq, Eq, Structural)]
pub struct Layout {
    pub min_x: i32,
    pub min_y: i32,
    pub width: usize,
    pub height: usize,
}

/// Least `pos_x` over the monitors; 0 when there are none.
pub open spec fn min_pos_x(s: Seq<SlimMonitorInfo>) -> int
    decreases s.len(),
{
    if s.len() == 0 {
        0
    } else if s.len() == 1 {
        s[0].pos_x as int
    } else {
        let rest = min_pos_x(s.drop_last());
        if s.last().pos_x < rest {
            s.last().pos_x as int
        } else {
            rest
        }
    }
}

/// Least `pos_y` over the monitors; 0 when there are none.
pub open spec fn min_pos_y(s: Seq<SlimMonitorInfo>) -> int
    decreases s.len(),
{
    if s.len() == 0 {
        0
    } else if s.len() == 1 {
        s[0].pos_y as int
    } else {
        let rest = min_pos_y(s.drop_last());
        if s.last().pos_y < rest {
            s.last().pos_y as int
        } else {
            rest
        }
    }
}

/// Greatest right edge `pos_x + width` over the monitors; 0 when there are
/// none.
pub open spec fn max_right(s: Seq<SlimMonitorInfo>) -> int
    decreases s.len(),
{
    if s.len() == 0 {
        0
    } else if s.len() == 1 {
        s[0].pos_x + s[0].width
    } else {
        let rest = max_right(s.drop_last());
        if s.last().pos_x + s.last().width > rest {
            s.last().pos_x + s.last().width
        } else {
            rest
        }
    }
}

/// Greatest bottom edge `pos_y + height` over the monitors; 0 when there
/// are none.
pub open spec fn max_bottom(s: Seq<SlimMonitorInfo>) -> int
    decreases s.len(),
{
    if s.len() == 0 {
        0
    } else if s.len() == 1 {
        s[0].pos_y + s[0].height
    } else {
        let rest = max_bottom(s.drop_last());
        if s.last().pos_y + s.last().height > rest {
            s.last().pos_y + s.last().height
        } else {
            rest
        }
    }
}

/// The canvas geometry that the monitor list `s` asks for, whether or not
/// it is usable: origin at the minimum offset, size the bounding box.
pub open spec fn spec_canvas_width(s: Seq<SlimMonitorInfo>) -> int {
    max_right(s) - min_pos_x(s)
}

pub open spec fn spec_canvas_height(s: Seq<SlimMonitorInfo>) -> int {
    max_bottom(s) - min_pos_y(s)
}

/// A usable layout exists: at least one monitor, a positive bounding box,
/// and a pixel buffer that fits in memory.
pub open spec fn layout_ok(s: Seq<SlimMonitorInfo>) -> bool {
    &&& s.len() > 0
    &&& spec_canvas_width(s) > 0
    &&& spec_canvas_height(s) > 0
    &&& spec_canvas_width(s) * spec_canvas_height(s) * 4 <= usize::MAX
}

/// Compute the canvas geometry for a monitor list.
///
/// Returns `None` exactly when no canvas can be built: the list is empty
/// (startup must abort, no display surface exists), the bounding box is
/// degenerate, or the pixel buffer would not fit in memory.
pub fn compute_layout(monitors: &Vec<SlimMonitorInfo>) -> (r: Option<Layout>)
    ensures
        match r {
            Some(l) => {
                &&& layout_ok(monitors@)
                &&& l.min_x == min_pos_x(monitors@)
                &&& l.min_y == min_pos_y(monitors@)
                &&& l.width == spec_canvas_width(monitors@)
                &&& l.height == spec_canvas_height(monitors@)
            },
            None => !layout_ok(monitors@),
        },
{
    if monitors.len() == 0 {
        return None;
    }
    let m0 = monitors[0];
    let mut mnx: i64 = m0.pos_x as i64;
    let mut mny: i64 = m0.pos_y as i64;
    let mut mxr: i64 = m0.pos_x as i64 + m0.width as i64;
    let mut mxb: i64 = m0.pos_y as i64 + m0.height as i64;
    let mut i: usize = 1;
    while i < monitors.len()
        invariant
            1 <= i <= monitors@.len(),
            mnx == min_pos_x(monitors@.subrange(0, i as int)),
            mny == min_pos_y(monitors@.subrange(0, i as int)),
            mxr == max_right(monitors@.subrange(0, i as int)),
            mxb == max_bottom(monitors@.subrange(0, i as int)),
            i32::MIN <= mnx <= i32::MAX,
            i32::MIN <= mny <= i32::MAX,
            i32::MIN + i32::MIN <= mxr <= i32::MAX + i32::MAX,
            i32::MIN + i32::MIN <= mxb <= i32::MAX + i32::MAX,
        decreases monitors@.len() - i,
    {
        let m = monitors[i];
        proof {
            assert(monitors@.subrange(0, i + 1).drop_last() =~= monitors@.subrange(0, i as int));
            assert(monitors@.subrange(0, i + 1).last() == monitors@[i as int]);
        }
        if (m.pos_x as i64) < mnx {
            mnx = m.pos_x as i64;
        }
        if (m.pos_y as i64) < mny {
            mny = m.pos_y as i64;
        }
        if m.pos_x as i64 + m.width as i64 > mxr {
            mxr = m.pos_x as i64 + m.width as i64;
        }
        if m.pos_y as i64 + m.height as i64 > mxb {
            mxb = m.pos_y as i64 + m.height as i64;
        }
        i = i + 1;
    }
    proof {
        assert(monitors@.subrange(0, monitors@.len() as int) =~= monitors@);
    }
    let w: i64 = mxr - mnx;
    let h: i64 = mxb - mny;
    if w <= 0 || h <= 0 {
        return None;
    }
    proof {
        assert((w as int) * (h as int) * 4 < u128::MAX) by (nonlinear_arith)
            requires
                0 < w <= 0x2_0000_0000int,
                0 < h <= 0x2_0000_0000int,
        ;
    }
    if (w as u128) * (h as u128) * 4 > usize::MAX as u128 {
        return None;
    }
    proof {
        assert(w <= (w as int) * (h as int) * 4 && h <= (w as int) * (h as int) * 4)
            by (nonlinear_arith)
            requires
                w >= 1,
                h >= 1,
        ;
    }
    Some(
        Layout {
            min_x: mnx as i32,
            min_y: mny as i32,
            width: w as usize,
            height: h as usize,
        },
    )
}

/// Turn one enumerated monitor rectangle, given by its edges, into the
/// record the pipeline carries.
pub fn rect_to_monitor(left: i32, top: i32, right: i32, bottom: i32) -> (m: SlimMonitorInfo)
    requires
        right - left <= i32::MAX,
        bottom - top <= i32::MAX,
        right - left >= i32::MIN,
        bottom - top >= i32::MIN,
    ensures
        m.pos_x == left,
        m.pos_y == top,
        m.width == right - left,
        m.height == bottom - top,
{
    SlimMonitorInfo { pos_x: left, pos_y: top, width: right - left, height: bottom - top }
}

} // verus!
