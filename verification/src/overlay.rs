//! Canvas annotations for configuration snapshots: outline every zone's
//! rectangle in red, or flood each zone's rectangle with its extracted
//! average color.  Out-of-canvas parts of a rectangle are skipped, as in
//! extraction.

use crate::canvas::{lemma_pixel_write_isolated, pix_idx, Canvas};
use crate::color::Color;
use crate::geometry::LED;
use vstd::prelude::*;

verus! {

/// Canvas coordinate `(x, y)` lies inside `led`'s rectangle.
pub open spec fn in_zone_rect(led: LED, min_x: int, min_y: int, x: int, y: int) -> bool {
    let rx = x - (led.Position.x - min_x);
    let ry = y - (led.Position.y - min_y);
    0 <= rx < led.Size.width && 0 <= ry < led.Size.height
}

/// Canvas coordinate `(x, y)` lies on the one-pixel outline of `led`'s
/// rectangle.
pub open spec fn on_zone_outline(led: LED, min_x: int, min_y: int, x: int, y: int) -> bool {
    let rx = x - (led.Position.x - min_x);
    let ry = y - (led.Position.y - min_y);
    &&& in_zone_rect(led, min_x, min_y, x, y)
    &&& (rx == 0 || rx == led.Size.width - 1 || ry == 0 || ry == led.Size.height - 1)
}

/// The border marker: opaque red.
pub open spec fn border_channel(c: int) -> u8 {
    if c == 0 {
        255u8
    } else if c == 3 {
        255u8
    } else {
        0u8
    }
}

/// The opaque fill a zone takes from its sample.
pub open spec fn fill_channel(col: Color, c: int) -> u8 {
    if c == 0 {
        col.r
    } else if c == 1 {
        col.g
    } else if c == 2 {
        col.b
    } else {
        255u8
    }
}

/// Channel `c` of pixel `(x, y)` after the first `k` zones are flooded
/// with their colors in order, the last zone winning where rectangles
/// overlap.
pub open spec fn painted_byte(
    orig: Seq<u8>,
    leds: Seq<LED>,
    colors: Seq<Color>,
    k: int,
    min_x: int,
    min_y: int,
    cw: int,
    x: int,
    y: int,
    c: int,
) -> u8
    decreases k,
{
    if k <= 0 {
        orig[pix_idx(cw, x, y, c)]
    } else if in_zone_rect(leds[k - 1], min_x, min_y, x, y) {
        fill_channel(colors[k - 1], c)
    } else {
        painted_byte(orig, leds, colors, k - 1, min_x, min_y, cw, x, y, c)
    }
}

/// Write the four channels of every canvas pixel of `led`'s rectangle for
/// which `outline_only` is met, leaving every other byte alone.
fn mark_zone(canvas: &mut Canvas, led: LED, min_x: i32, min_y: i32, col: Color, outline_only: bool)
    requires
        old(canvas).wf(),
    ensures
        final(canvas).wf(),
        final(canvas).width == old(canvas).width,
        final(canvas).height == old(canvas).height,
        forall|x: int, y: int, c: int|
            0 <= x < old(canvas).width && 0 <= y < old(canvas).height && 0 <= c < 4
                ==> final(canvas).data@[#[trigger] pix_idx(old(canvas).width as int, x, y, c)] == (
            if (if outline_only {
                on_zone_outline(led, min_x as int, min_y as int, x, y)
            } else {
                in_zone_rect(led, min_x as int, min_y as int, x, y)
            }) {
                if outline_only {
                    border_channel(c)
                } else {
                    fill_channel(col, c)
                }
            } else {
                old(canvas).data@[pix_idx(old(canvas).width as int, x, y, c)]
            }),
{
    let cw = canvas.width;
    let ch = canvas.height;
    let w: i32 = led.Size.width;
    let h: i32 = led.Size.height;
    if w <= 0 || h <= 0 {
        return ;
    }
    let dx: i128 = led.Position.x as i128 - min_x as i128;
    let dy: i128 = led.Position.y as i128 - min_y as i128;
    let ghost orig = canvas.data@;
    let mut rx: i32 = 0;
    while rx < w
        invariant
            0 <= rx <= w,
            0 < w,
            0 < h,
            w == led.Size.width,
            h == led.Size.height,
            dx == led.Position.x - min_x,
            dy == led.Position.y - min_y,
            canvas.wf(),
            canvas.width == cw,
            canvas.height == ch,
            forall|x: int, y: int, c: int|
                0 <= x < cw && 0 <= y < ch && 0 <= c < 4 ==> canvas.data@[#[trigger] pix_idx(
                    cw as int,
                    x,
                    y,
                    c,
                )] == (if (if outline_only {
                    on_zone_outline(led, min_x as int, min_y as int, x, y)
                } else {
                    in_zone_rect(led, min_x as int, min_y as int, x, y)
                }) && x - dx < rx {
                    if outline_only {
                        border_channel(c)
                    } else {
                        fill_channel(col, c)
                    }
                } else {
                    orig[pix_idx(cw as int, x, y, c)]
                }),
        decreases w - rx,
    {
        let mut ry: i32 = 0;
        while ry < h
            invariant
                0 <= ry <= h,
                0 <= rx < w,
                0 < h,
                w == led.Size.width,
                h == led.Size.height,
                dx == led.Position.x - min_x,
                dy == led.Position.y - min_y,
                canvas.wf(),
                canvas.width == cw,
                canvas.height == ch,
                forall|x: int, y: int, c: int|
                    0 <= x < cw && 0 <= y < ch && 0 <= c < 4 ==> canvas.data@[#[trigger] pix_idx(
                        cw as int,
                        x,
                        y,
                        c,
                    )] == (if (if outline_only {
                        on_zone_outline(led, min_x as int, min_y as int, x, y)
                    } else {
                        in_zone_rect(led, min_x as int, min_y as int, x, y)
                    }) && (x - dx < rx || (x - dx == rx && y - dy < ry)) {
                        if outline_only {
                            border_channel(c)
                        } else {
                            fill_channel(col, c)
                        }
                    } else {
                        orig[pix_idx(cw as int, x, y, c)]
                    }),
            decreases h - ry,
        {
            let border = rx == 0 || rx == w - 1 || ry == 0 || ry == h - 1;
            let qx: i128 = dx + rx as i128;
            let qy: i128 = dy + ry as i128;
            if (!outline_only || border) && qx >= 0 && qy >= 0 && (qx as u128) < cw as u128 && (
            qy as u128) < ch as u128 {
                let x = qx as usize;
                let y = qy as usize;
                if outline_only {
                    canvas.set_channel(x, y, 0, 255);
                    canvas.set_channel(x, y, 1, 0);
                    canvas.set_channel(x, y, 2, 0);
                    canvas.set_channel(x, y, 3, 255);
                } else {
                    canvas.set_channel(x, y, 0, col.r);
                    canvas.set_channel(x, y, 1, col.g);
                    canvas.set_channel(x, y, 2, col.b);
                    canvas.set_channel(x, y, 3, 255);
                }
                proof {
                    lemma_pixel_write_isolated(cw as int, ch as int, x as int, y as int);
                }
            }
            ry = ry + 1;
        }
        rx = rx + 1;
    }
}

/// Outline every zone's rectangle in red, so a saved snapshot shows where
/// the configured zones sit.  A pixel on any zone's outline turns opaque
/// red; every other pixel keeps its value.
pub fn draw_zone_borders(canvas: &mut Canvas, leds_array: &Vec<LED>, min_x: i32, min_y: i32)
    requires
        old(canvas).wf(),
    ensures
        final(canvas).wf(),
        final(canvas).width == old(canvas).width,
        final(canvas).height == old(canvas).height,
        forall|x: int, y: int, c: int|
            0 <= x < old(canvas).width && 0 <= y < old(canvas).height && 0 <= c < 4
                ==> final(canvas).data@[#[trigger] pix_idx(old(canvas).width as int, x, y, c)] == (
            if (exists|k: int|
                0 <= k < leds_array@.len() && on_zone_outline(
                    #[trigger] leds_array@[k],
                    min_x as int,
                    min_y as int,
                    x,
                    y,
                )) {
                border_channel(c)
            } else {
                old(canvas).data@[pix_idx(old(canvas).width as int, x, y, c)]
            }),
{
    let cw = canvas.width;
    let ch = canvas.height;
    let ghost orig = canvas.data@;
    let marker = Color::new(0, 255, 0, 0);
    let mut i: usize = 0;
    while i < leds_array.len()
        invariant
            i <= leds_array@.len(),
            canvas.wf(),
            canvas.width == cw,
            canvas.height == ch,
            forall|x: int, y: int, c: int|
                0 <= x < cw && 0 <= y < ch && 0 <= c < 4 ==> canvas.data@[#[trigger] pix_idx(
                    cw as int,
                    x,
                    y,
                    c,
                )] == (if (exists|k: int|
                    0 <= k < i && on_zone_outline(
                        #[trigger] leds_array@[k],
                        min_x as int,
                        min_y as int,
                        x,
                        y,
                    )) {
                    border_channel(c)
                } else {
                    orig[pix_idx(cw as int, x, y, c)]
                }),
        decreases leds_array@.len() - i,
    {
        let led = leds_array[i];
        mark_zone(canvas, led, min_x, min_y, marker, true);
        proof {
            assert forall|x: int, y: int, c: int|
                0 <= x < cw && 0 <= y < ch && 0 <= c < 4 implies canvas.data@[#[trigger] pix_idx(
                cw as int,
                x,
                y,
                c,
            )] == (if (exists|k: int|
                0 <= k < i + 1 && on_zone_outline(
                    #[trigger] leds_array@[k],
                    min_x as int,
                    min_y as int,
                    x,
                    y,
                )) {
                border_channel(c)
            } else {
                orig[pix_idx(cw as int, x, y, c)]
            }) by {
                if on_zone_outline(leds_array@[i as int], min_x as int, min_y as int, x, y) {
                    assert(exists|k: int|
                        0 <= k < i + 1 && on_zone_outline(
                            #[trigger] leds_array@[k],
                            min_x as int,
                            min_y as int,
                            x,
                            y,
                        ));
                }
            }
        }
        i = i + 1;
    }
}

/// Flood every zone's rectangle with its extracted sample, opaque, the
/// last zone winning where rectangles overlap; every pixel outside all
/// zones keeps its value.  `colors` pairs with `leds_array` by position.
pub fn paint_zone_colors(
    canvas: &mut Canvas,
    leds_array: &Vec<LED>,
    colors: &Vec<Color>,
    min_x: i32,
    min_y: i32,
)
    requires
        old(canvas).wf(),
        colors@.len() == leds_array@.len(),
    ensures
        final(canvas).wf(),
        final(canvas).width == old(canvas).width,
        final(canvas).height == old(canvas).height,
        forall|x: int, y: int, c: int|
            0 <= x < old(canvas).width && 0 <= y < old(canvas).height && 0 <= c < 4
                ==> final(canvas).data@[#[trigger] pix_idx(old(canvas).width as int, x, y, c)]
                == painted_byte(
                old(canvas).data@,
                leds_array@,
                colors@,
                leds_array@.len() as int,
                min_x as int,
                min_y as int,
                old(canvas).width as int,
                x,
                y,
                c,
            ),
{
    let cw = canvas.width;
    let ch = canvas.height;
    let ghost orig = canvas.data@;
    let mut i: usize = 0;
    while i < leds_array.len()
        invariant
            i <= leds_array@.len(),
            colors@.len() == leds_array@.len(),
            canvas.wf(),
            canvas.width == cw,
            canvas.height == ch,
            forall|x: int, y: int, c: int|
                0 <= x < cw && 0 <= y < ch && 0 <= c < 4 ==> canvas.data@[#[trigger] pix_idx(
                    cw as int,
                    x,
                    y,
                    c,
                )] == painted_byte(
                    orig,
                    leds_array@,
                    colors@,
                    i as int,
                    min_x as int,
                    min_y as int,
                    cw as int,
                    x,
                    y,
                    c,
                ),
        decreases leds_array@.len() - i,
    {
        let led = leds_array[i];
        let col = colors[i];
        mark_zone(canvas, led, min_x, min_y, col, false);
        i = i + 1;
    }
}

} // verus!
