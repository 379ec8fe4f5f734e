//! The zone color extractor: reduce each enabled zone to one average color.
//!
//! A zone samples only the perimeter pixels of its rectangle, translated
//! into canvas space.  A perimeter coordinate that falls outside the canvas
//! is skipped outright — not clamped and not counted as black.  The average
//! is the integer-division mean of each channel over the counted pixels;
//! a zone with no counted pixel (its whole rectangle off-canvas) yields
//! black by design, never an error.

use crate::canvas::{pix_idx, Canvas};
use crate::color::Color;
use crate::geometry::LED;
use vstd::arithmetic::div_mod::{lemma_div_by_multiple, lemma_div_is_ordered};
use vstd::prelude::*;

verus! {

/// The perimeter coordinates of a `w` by `h` rectangle, relative to its
/// own top-left corner, in sampling order: top row, bottom row, then the
/// interior cells of the left and right columns.  Empty for a degenerate
/// rectangle.
pub open spec fn perimeter_coords(w: int, h: int) -> Seq<(int, int)> {
    if w <= 0 || h <= 0 {
        Seq::empty()
    } else {
        let top = Seq::new(w as nat, |i: int| (i, 0int));
        let bottom = if h > 1 {
            Seq::new(w as nat, |i: int| (i, h - 1))
        } else {
            Seq::empty()
        };
        let left = if h > 2 {
            Seq::new((h - 2) as nat, |j: int| (0int, j + 1))
        } else {
            Seq::empty()
        };
        let right = if h > 2 && w > 1 {
            Seq::new((h - 2) as nat, |j: int| (w - 1, j + 1))
        } else {
            Seq::empty()
        };
        top + bottom + left + right
    }
}

/// Every perimeter coordinate lies inside the rectangle.
pub proof fn lemma_perimeter_coords_in_rect(w: int, h: int)
    ensures
        forall|i: int|
            0 <= i < perimeter_coords(w, h).len() ==> {
                &&& 0 <= (#[trigger] perimeter_coords(w, h)[i]).0 < w
                &&& 0 <= perimeter_coords(w, h)[i].1 < h
            },
{
}

/// The canvas coordinate that perimeter cell `p` of `led`'s rectangle
/// lands on, after subtracting the global minimum offset.
pub open spec fn sample_pos(led: LED, min_x: int, min_y: int, p: (int, int)) -> (int, int) {
    (led.Position.x - min_x + p.0, led.Position.y - min_y + p.1)
}

/// Whether a canvas coordinate is in bounds.
pub open spec fn in_canvas(cw: int, ch: int, q: (int, int)) -> bool {
    0 <= q.0 < cw && 0 <= q.1 < ch
}

/// How many of the first `n` perimeter cells of `led`'s rectangle land on
/// the canvas.
pub open spec fn perim_count(cw: int, ch: int, led: LED, min_x: int, min_y: int, n: int) -> int
    decreases n,
{
    if n <= 0 {
        0
    } else {
        let coords = perimeter_coords(led.Size.width as int, led.Size.height as int);
        perim_count(cw, ch, led, min_x, min_y, n - 1) + if in_canvas(
            cw,
            ch,
            sample_pos(led, min_x, min_y, coords[n - 1]),
        ) {
            1int
        } else {
            0int
        }
    }
}

/// Sum of channel `chan` over the counted cells among the first `n`
/// perimeter cells.
pub open spec fn perim_sum(
    canvas: Seq<u8>,
    cw: int,
    ch: int,
    led: LED,
    min_x: int,
    min_y: int,
    chan: int,
    n: int,
) -> int
    decreases n,
{
    if n <= 0 {
        0
    } else {
        let coords = perimeter_coords(led.Size.width as int, led.Size.height as int);
        let q = sample_pos(led, min_x, min_y, coords[n - 1]);
        perim_sum(canvas, cw, ch, led, min_x, min_y, chan, n - 1) + if in_canvas(cw, ch, q) {
            canvas[pix_idx(cw, q.0, q.1, chan)] as int
        } else {
            0int
        }
    }
}

/// Count over the whole perimeter.
pub open spec fn zone_count(cw: int, ch: int, led: LED, min_x: int, min_y: int) -> int {
    perim_count(
        cw,
        ch,
        led,
        min_x,
        min_y,
        perimeter_coords(led.Size.width as int, led.Size.height as int).len() as int,
    )
}

/// Channel sum over the whole perimeter.
pub open spec fn zone_sum(
    canvas: Seq<u8>,
    cw: int,
    ch: int,
    led: LED,
    min_x: int,
    min_y: int,
    chan: int,
) -> int {
    perim_sum(
        canvas,
        cw,
        ch,
        led,
        min_x,
        min_y,
        chan,
        perimeter_coords(led.Size.width as int, led.Size.height as int).len() as int,
    )
}

/// The sample one zone produces: the integer mean of each channel over its
/// counted perimeter pixels, or black when nothing was counted.
pub open spec fn zone_sample(
    canvas: Seq<u8>,
    cw: int,
    ch: int,
    led: LED,
    min_x: int,
    min_y: int,
) -> Color {
    let cnt = zone_count(cw, ch, led, min_x, min_y);
    if cnt > 0 {
        Color {
            led_index: led.index,
            r: (zone_sum(canvas, cw, ch, led, min_x, min_y, 0) / cnt) as u8,
            g: (zone_sum(canvas, cw, ch, led, min_x, min_y, 1) / cnt) as u8,
            b: (zone_sum(canvas, cw, ch, led, min_x, min_y, 2) / cnt) as u8,
        }
    } else {
        Color { led_index: led.index, r: 0, g: 0, b: 0 }
    }
}

/// The count never exceeds the number of cells visited.
proof fn lemma_perim_count_bounds(cw: int, ch: int, led: LED, min_x: int, min_y: int, n: int)
    requires
        n >= 0,
    ensures
        0 <= perim_count(cw, ch, led, min_x, min_y, n) <= n,
    decreases n,
{
    if n > 0 {
        lemma_perim_count_bounds(cw, ch, led, min_x, min_y, n - 1);
    }
}

/// A channel sum is bounded by 255 per counted cell.
proof fn lemma_perim_sum_bounds(
    canvas: Seq<u8>,
    cw: int,
    ch: int,
    led: LED,
    min_x: int,
    min_y: int,
    chan: int,
    n: int,
)
    requires
        n >= 0,
    ensures
        0 <= perim_sum(canvas, cw, ch, led, min_x, min_y, chan, n) <= 255 * perim_count(
            cw,
            ch,
            led,
            min_x,
            min_y,
            n,
        ),
    decreases n,
{
    if n > 0 {
        lemma_perim_sum_bounds(canvas, cw, ch, led, min_x, min_y, chan, n - 1);
        lemma_perim_count_bounds(cw, ch, led, min_x, min_y, n - 1);
    }
}

/// Average one zone's perimeter over the canvas.
pub fn avg_zone_color(canvas: &Canvas, led: &LED, min_x: i32, min_y: i32) -> (sample: Color)
    requires
        canvas.wf(),
    ensures
        sample == zone_sample(
            canvas.data@,
            canvas.width as int,
            canvas.height as int,
            *led,
            min_x as int,
            min_y as int,
        ),
{
    let w: i32 = led.Size.width;
    let h: i32 = led.Size.height;
    let ghost cw = canvas.width as int;
    let ghost chh = canvas.height as int;
    let ghost coords = perimeter_coords(w as int, h as int);
    if w <= 0 || h <= 0 {
        return Color { led_index: led.index, r: 0, g: 0, b: 0 };
    }
    let mut rsum: u64 = 0;
    let mut gsum: u64 = 0;
    let mut bsum: u64 = 0;
    let mut cnt: u64 = 0;
    let ghost total = coords.len() as int;
    proof {
        assert(total <= 2 * (w as int) + 2 * (h as int));
    }
    // Top row.
    let mut x: i32 = 0;
    while x < w
        invariant
            0 <= x <= w,
            0 < w,
            0 < h,
            canvas.wf(),
            w == led.Size.width,
            h == led.Size.height,
            coords == perimeter_coords(w as int, h as int),
            total == coords.len(),
            total <= 2 * (w as int) + 2 * (h as int),
            cnt == perim_count(cw, chh, *led, min_x as int, min_y as int, x as int),
            rsum == perim_sum(canvas.data@, cw, chh, *led, min_x as int, min_y as int, 0, x as int),
            gsum == perim_sum(canvas.data@, cw, chh, *led, min_x as int, min_y as int, 1, x as int),
            bsum == perim_sum(canvas.data@, cw, chh, *led, min_x as int, min_y as int, 2, x as int),
            cw == canvas.width,
            chh == canvas.height,
        decreases w - x,
    {
        proof {
            lemma_perim_count_bounds(cw, chh, *led, min_x as int, min_y as int, x as int);
            lemma_perim_sum_bounds(canvas.data@, cw, chh, *led, min_x as int, min_y as int, 0,
                x as int);
            lemma_perim_sum_bounds(canvas.data@, cw, chh, *led, min_x as int, min_y as int, 1,
                x as int);
            lemma_perim_sum_bounds(canvas.data@, cw, chh, *led, min_x as int, min_y as int, 2,
                x as int);
            assert(coords.len() >= w as int);
            assert(coords[x as int] == (x as int, 0int));
        }
        sample_cell(canvas, led, min_x, min_y, x, 0, &mut rsum, &mut gsum, &mut bsum, &mut cnt,
            Ghost(x as int));
        x = x + 1;
    }
    let ghost t1 = w as int;
    // Bottom row.
    if h > 1 {
        let mut x: i32 = 0;
        while x < w
            invariant
                0 <= x <= w,
                0 < w,
                1 < h,
                canvas.wf(),
                w == led.Size.width,
                h == led.Size.height,
                coords == perimeter_coords(w as int, h as int),
                total == coords.len(),
                total <= 2 * (w as int) + 2 * (h as int),
                cnt == perim_count(cw, chh, *led, min_x as int, min_y as int, t1 + x as int),
                rsum == perim_sum(canvas.data@, cw, chh, *led, min_x as int, min_y as int, 0,
                    t1 + x as int),
                gsum == perim_sum(canvas.data@, cw, chh, *led, min_x as int, min_y as int, 1,
                    t1 + x as int),
                bsum == perim_sum(canvas.data@, cw, chh, *led, min_x as int, min_y as int, 2,
                    t1 + x as int),
                t1 == w as int,
                cw == canvas.width,
                chh == canvas.height,
            decreases w - x,
        {
            proof {
                lemma_perim_count_bounds(cw, chh, *led, min_x as int, min_y as int, t1 + x as int);
                lemma_perim_sum_bounds(canvas.data@, cw, chh, *led, min_x as int, min_y as int, 0,
                    t1 + x as int);
                lemma_perim_sum_bounds(canvas.data@, cw, chh, *led, min_x as int, min_y as int, 1,
                    t1 + x as int);
                lemma_perim_sum_bounds(canvas.data@, cw, chh, *led, min_x as int, min_y as int, 2,
                    t1 + x as int);
                assert(coords.len() >= 2 * (w as int));
                assert(coords[t1 + x as int] == (x as int, h - 1 as int));
            }
            sample_cell(canvas, led, min_x, min_y, x, h - 1, &mut rsum, &mut gsum, &mut bsum,
                &mut cnt, Ghost(t1 + x as int));
            x = x + 1;
        }
    }
    let ghost t2 = t1 + (if h > 1 { w as int } else { 0int });
    // Left and right columns, interior cells only.
    if h > 2 {
        let mut j: i32 = 0;
        while j < h - 2
            invariant
                0 <= j <= h - 2,
                0 < w,
                2 < h,
                canvas.wf(),
                w == led.Size.width,
                h == led.Size.height,
                coords == perimeter_coords(w as int, h as int),
                total == coords.len(),
                total <= 2 * (w as int) + 2 * (h as int),
                cnt == perim_count(cw, chh, *led, min_x as int, min_y as int, t2 + j as int),
                rsum == perim_sum(canvas.data@, cw, chh, *led, min_x as int, min_y as int, 0,
                    t2 + j as int),
                gsum == perim_sum(canvas.data@, cw, chh, *led, min_x as int, min_y as int, 1,
                    t2 + j as int),
                bsum == perim_sum(canvas.data@, cw, chh, *led, min_x as int, min_y as int, 2,
                    t2 + j as int),
                t2 == 2 * (w as int),
                cw == canvas.width,
                chh == canvas.height,
            decreases h - 2 - j,
        {
            proof {
                lemma_perim_count_bounds(cw, chh, *led, min_x as int, min_y as int, t2 + j as int);
                lemma_perim_sum_bounds(canvas.data@, cw, chh, *led, min_x as int, min_y as int, 0,
                    t2 + j as int);
                lemma_perim_sum_bounds(canvas.data@, cw, chh, *led, min_x as int, min_y as int, 1,
                    t2 + j as int);
                lemma_perim_sum_bounds(canvas.data@, cw, chh, *led, min_x as int, min_y as int, 2,
                    t2 + j as int);
                assert(coords.len() >= 2 * (w as int) + (h as int) - 2);
                assert(coords[t2 + j as int] == (0int, j + 1 as int));
            }
            sample_cell(canvas, led, min_x, min_y, 0, j + 1, &mut rsum, &mut gsum, &mut bsum,
                &mut cnt, Ghost(t2 + j as int));
            j = j + 1;
        }
        let ghost t3 = t2 + (h as int - 2);
        if w > 1 {
            let mut j: i32 = 0;
            while j < h - 2
                invariant
                    0 <= j <= h - 2,
                    1 < w,
                    2 < h,
                    canvas.wf(),
                    w == led.Size.width,
                    h == led.Size.height,
                    coords == perimeter_coords(w as int, h as int),
                    total == coords.len(),
                    total <= 2 * (w as int) + 2 * (h as int),
                    cnt == perim_count(cw, chh, *led, min_x as int, min_y as int, t3 + j as int),
                    rsum == perim_sum(canvas.data@, cw, chh, *led, min_x as int, min_y as int, 0,
                        t3 + j as int),
                    gsum == perim_sum(canvas.data@, cw, chh, *led, min_x as int, min_y as int, 1,
                        t3 + j as int),
                    bsum == perim_sum(canvas.data@, cw, chh, *led, min_x as int, min_y as int, 2,
                        t3 + j as int),
                    t3 == 2 * (w as int) + (h as int) - 2,
                    cw == canvas.width,
                    chh == canvas.height,
                decreases h - 2 - j,
            {
                proof {
                    lemma_perim_count_bounds(cw, chh, *led, min_x as int, min_y as int,
                        t3 + j as int);
                    lemma_perim_sum_bounds(canvas.data@, cw, chh, *led, min_x as int, min_y as int,
                        0, t3 + j as int);
                    lemma_perim_sum_bounds(canvas.data@, cw, chh, *led, min_x as int, min_y as int,
                        1, t3 + j as int);
                    lemma_perim_sum_bounds(canvas.data@, cw, chh, *led, min_x as int, min_y as int,
                        2, t3 + j as int);
                    assert(coords.len() >= 2 * (w as int) + 2 * ((h as int) - 2));
                    assert(coords[t3 + j as int] == (w - 1 as int, j + 1 as int));
                }
                sample_cell(canvas, led, min_x, min_y, w - 1, j + 1, &mut rsum, &mut gsum,
                    &mut bsum, &mut cnt, Ghost(t3 + j as int));
                j = j + 1;
            }
        }
    }
    proof {
        assert(total == (w as int) + (if h > 1 {
            w as int
        } else {
            0int
        }) + (if h > 2 {
            h - 2
        } else {
            0int
        }) + (if h > 2 && w > 1 {
            h - 2
        } else {
            0int
        }));
    }
    if cnt == 0 {
        return Color { led_index: led.index, r: 0, g: 0, b: 0 };
    }
    proof {
        lemma_perim_sum_bounds(canvas.data@, cw, chh, *led, min_x as int, min_y as int, 0, total);
        lemma_perim_sum_bounds(canvas.data@, cw, chh, *led, min_x as int, min_y as int, 1, total);
        lemma_perim_sum_bounds(canvas.data@, cw, chh, *led, min_x as int, min_y as int, 2, total);
        lemma_avg_le_255(rsum as int, cnt as int);
        lemma_avg_le_255(gsum as int, cnt as int);
        lemma_avg_le_255(bsum as int, cnt as int);
    }
    Color { led_index: led.index, r: (rsum / cnt) as u8, g: (gsum / cnt) as u8, b: (bsum / cnt) as u8 }
}

/// A channel mean over counted pixels never exceeds 255.
proof fn lemma_avg_le_255(sum: int, cnt: int)
    requires
        0 < cnt,
        0 <= sum <= 255 * cnt,
    ensures
        0 <= sum / cnt <= 255,
{
    lemma_div_is_ordered(sum, 255 * cnt, cnt);
    lemma_div_by_multiple(255, cnt);
    vstd::arithmetic::div_mod::lemma_div_pos_is_pos(sum, cnt);
}

/// The samples of the enabled zones of `leds`, in list order: one `Color`
/// per enabled zone, none for a disabled one.
pub open spec fn extract_spec(
    canvas: Seq<u8>,
    cw: int,
    ch: int,
    leds: Seq<LED>,
    min_x: int,
    min_y: int,
) -> Seq<Color>
    decreases leds.len(),
{
    if leds.len() == 0 {
        Seq::empty()
    } else {
        let rest = extract_spec(canvas, cw, ch, leds.drop_last(), min_x, min_y);
        if leds.last().IsEnabled {
            rest.push(zone_sample(canvas, cw, ch, leds.last(), min_x, min_y))
        } else {
            rest
        }
    }
}

/// How many zones of `leds` are enabled.
pub open spec fn count_enabled(leds: Seq<LED>) -> int
    decreases leds.len(),
{
    if leds.len() == 0 {
        0
    } else {
        count_enabled(leds.drop_last()) + if leds.last().IsEnabled {
            1int
        } else {
            0int
        }
    }
}

/// Extraction produces exactly one sample per enabled zone.
pub proof fn lemma_extract_spec_len(
    canvas: Seq<u8>,
    cw: int,
    ch: int,
    leds: Seq<LED>,
    min_x: int,
    min_y: int,
)
    ensures
        extract_spec(canvas, cw, ch, leds, min_x, min_y).len() == count_enabled(leds),
        count_enabled(leds) <= leds.len(),
    decreases leds.len(),
{
    if leds.len() > 0 {
        lemma_extract_spec_len(canvas, cw, ch, leds.drop_last(), min_x, min_y);
    }
}

/// One average color per enabled zone, in the zone list's order.
pub fn calculate_avg_colors(
    canvas: &Canvas,
    min_x: i32,
    min_y: i32,
    leds_array: &Vec<LED>,
) -> (samples: Vec<Color>)
    requires
        canvas.wf(),
    ensures
        samples@ == extract_spec(
            canvas.data@,
            canvas.width as int,
            canvas.height as int,
            leds_array@,
            min_x as int,
            min_y as int,
        ),
        samples@.len() == count_enabled(leds_array@),
{
    let ghost cw = canvas.width as int;
    let ghost chh = canvas.height as int;
    let mut samples: Vec<Color> = Vec::new();
    let mut i: usize = 0;
    while i < leds_array.len()
        invariant
            i <= leds_array@.len(),
            canvas.wf(),
            cw == canvas.width,
            chh == canvas.height,
            samples@ == extract_spec(
                canvas.data@,
                cw,
                chh,
                leds_array@.subrange(0, i as int),
                min_x as int,
                min_y as int,
            ),
        decreases leds_array@.len() - i,
    {
        let led = leds_array[i];
        proof {
            assert(leds_array@.subrange(0, i + 1).drop_last() =~= leds_array@.subrange(0, i as int));
            assert(leds_array@.subrange(0, i + 1).last() == leds_array@[i as int]);
        }
        if led.IsEnabled {
            let c = avg_zone_color(canvas, &led, min_x, min_y);
            samples.push(c);
        }
        i = i + 1;
    }
    proof {
        assert(leds_array@.subrange(0, leds_array@.len() as int) =~= leds_array@);
        lemma_extract_spec_len(canvas.data@, cw, chh, leds_array@, min_x as int, min_y as int);
    }
    samples
}

/// A zone whose rectangle lies entirely outside the canvas counts no pixel.
proof fn lemma_offscreen_count_zero(
    cw: int,
    ch: int,
    led: LED,
    min_x: int,
    min_y: int,
    n: int,
)
    requires
        n <= perimeter_coords(led.Size.width as int, led.Size.height as int).len(),
        led.Position.x - min_x + led.Size.width <= 0 || led.Position.x - min_x >= cw
            || led.Position.y - min_y + led.Size.height <= 0 || led.Position.y - min_y >= ch,
    ensures
        perim_count(cw, ch, led, min_x, min_y, n) == 0,
    decreases n,
{
    if n > 0 {
        lemma_offscreen_count_zero(cw, ch, led, min_x, min_y, n - 1);
        lemma_perimeter_coords_in_rect(led.Size.width as int, led.Size.height as int);
    }
}

/// A zone whose rectangle lies entirely outside the canvas bounds extracts
/// RGB(0, 0, 0): no perimeter pixel is counted, and the empty average is
/// black by design, not an error.
pub proof fn lemma_offscreen_zone_black(
    canvas: Seq<u8>,
    cw: int,
    ch: int,
    led: LED,
    min_x: int,
    min_y: int,
)
    requires
        led.Position.x - min_x + led.Size.width <= 0 || led.Position.x - min_x >= cw
            || led.Position.y - min_y + led.Size.height <= 0 || led.Position.y - min_y >= ch,
    ensures
        zone_count(cw, ch, led, min_x, min_y) == 0,
        zone_sample(canvas, cw, ch, led, min_x, min_y) == (Color {
            led_index: led.index,
            r: 0,
            g: 0,
            b: 0,
        }),
{
    lemma_offscreen_count_zero(
        cw,
        ch,
        led,
        min_x,
        min_y,
        perimeter_coords(led.Size.width as int, led.Size.height as int).len() as int,
    );
}

/// Over a uniform canvas every counted cell contributes the same value, so
/// the count is full and each channel sum is the value times the count.
proof fn lemma_uniform_sums(
    canvas: Seq<u8>,
    cw: int,
    ch: int,
    led: LED,
    min_x: int,
    min_y: int,
    r: u8,
    g: u8,
    b: u8,
    n: int,
)
    requires
        0 <= n <= perimeter_coords(led.Size.width as int, led.Size.height as int).len(),
        forall|x: int, y: int|
            0 <= x < cw && 0 <= y < ch ==> canvas[#[trigger] pix_idx(cw, x, y, 0)] == r,
        forall|x: int, y: int|
            0 <= x < cw && 0 <= y < ch ==> canvas[#[trigger] pix_idx(cw, x, y, 1)] == g,
        forall|x: int, y: int|
            0 <= x < cw && 0 <= y < ch ==> canvas[#[trigger] pix_idx(cw, x, y, 2)] == b,
        0 <= led.Position.x - min_x,
        led.Position.x - min_x + led.Size.width <= cw,
        0 <= led.Position.y - min_y,
        led.Position.y - min_y + led.Size.height <= ch,
    ensures
        perim_count(cw, ch, led, min_x, min_y, n) == n,
        perim_sum(canvas, cw, ch, led, min_x, min_y, 0, n) == (r as int) * n,
        perim_sum(canvas, cw, ch, led, min_x, min_y, 1, n) == (g as int) * n,
        perim_sum(canvas, cw, ch, led, min_x, min_y, 2, n) == (b as int) * n,
    decreases n,
{
    if n > 0 {
        lemma_uniform_sums(canvas, cw, ch, led, min_x, min_y, r, g, b, n - 1);
        lemma_perimeter_coords_in_rect(led.Size.width as int, led.Size.height as int);
        assert((r as int) * (n - 1) + r == (r as int) * n) by (nonlinear_arith);
        assert((g as int) * (n - 1) + g == (g as int) * n) by (nonlinear_arith);
        assert((b as int) * (n - 1) + b == (b as int) * n) by (nonlinear_arith);
    } else {
        assert((r as int) * 0 == 0) by (nonlinear_arith);
        assert((g as int) * 0 == 0) by (nonlinear_arith);
        assert((b as int) * 0 == 0) by (nonlinear_arith);
    }
}

/// Over a canvas uniformly filled with one color, every fully in-bounds
/// zone extracts exactly that color, independent of the rectangle's
/// position or size.
pub proof fn lemma_uniform_zone_sample(
    canvas: Seq<u8>,
    cw: int,
    ch: int,
    led: LED,
    min_x: int,
    min_y: int,
    r: u8,
    g: u8,
    b: u8,
)
    requires
        forall|x: int, y: int|
            0 <= x < cw && 0 <= y < ch ==> canvas[#[trigger] pix_idx(cw, x, y, 0)] == r,
        forall|x: int, y: int|
            0 <= x < cw && 0 <= y < ch ==> canvas[#[trigger] pix_idx(cw, x, y, 1)] == g,
        forall|x: int, y: int|
            0 <= x < cw && 0 <= y < ch ==> canvas[#[trigger] pix_idx(cw, x, y, 2)] == b,
        led.Size.width > 0,
        led.Size.height > 0,
        0 <= led.Position.x - min_x,
        led.Position.x - min_x + led.Size.width <= cw,
        0 <= led.Position.y - min_y,
        led.Position.y - min_y + led.Size.height <= ch,
    ensures
        zone_sample(canvas, cw, ch, led, min_x, min_y) == (Color {
            led_index: led.index,
            r,
            g,
            b,
        }),
{
    let total = perimeter_coords(led.Size.width as int, led.Size.height as int).len() as int;
    assert(total >= led.Size.width);
    lemma_uniform_sums(canvas, cw, ch, led, min_x, min_y, r, g, b, total);
    lemma_div_by_multiple(r as int, total);
    lemma_div_by_multiple(g as int, total);
    lemma_div_by_multiple(b as int, total);
}

/// Visit one perimeter cell: translate it into canvas space, skip it when
/// out of bounds, otherwise add its channels to the running sums.
fn sample_cell(
    canvas: &Canvas,
    led: &LED,
    min_x: i32,
    min_y: i32,
    px: i32,
    py: i32,
    rsum: &mut u64,
    gsum: &mut u64,
    bsum: &mut u64,
    cnt: &mut u64,
    Ghost(t): Ghost<int>,
)
    requires
        canvas.wf(),
        0 <= t < perimeter_coords(led.Size.width as int, led.Size.height as int).len(),
        perimeter_coords(led.Size.width as int, led.Size.height as int)[t] == (px as int, py as int),
        *old(cnt) == perim_count(canvas.width as int, canvas.height as int, *led, min_x as int,
            min_y as int, t),
        *old(rsum) == perim_sum(canvas.data@, canvas.width as int, canvas.height as int, *led,
            min_x as int, min_y as int, 0, t),
        *old(gsum) == perim_sum(canvas.data@, canvas.width as int, canvas.height as int, *led,
            min_x as int, min_y as int, 1, t),
        *old(bsum) == perim_sum(canvas.data@, canvas.width as int, canvas.height as int, *led,
            min_x as int, min_y as int, 2, t),
        *old(cnt) <= t,
        *old(rsum) <= 255 * t,
        *old(gsum) <= 255 * t,
        *old(bsum) <= 255 * t,
        t < 0x2_0000_0000_0000,
    ensures
        *final(cnt) == perim_count(canvas.width as int, canvas.height as int, *led, min_x as int,
            min_y as int, t + 1),
        *final(rsum) == perim_sum(canvas.data@, canvas.width as int, canvas.height as int, *led,
            min_x as int, min_y as int, 0, t + 1),
        *final(gsum) == perim_sum(canvas.data@, canvas.width as int, canvas.height as int, *led,
            min_x as int, min_y as int, 1, t + 1),
        *final(bsum) == perim_sum(canvas.data@, canvas.width as int, canvas.height as int, *led,
            min_x as int, min_y as int, 2, t + 1),
{
    let qx: i64 = led.Position.x as i64 - min_x as i64 + px as i64;
    let qy: i64 = led.Position.y as i64 - min_y as i64 + py as i64;
    let ghost q = sample_pos(*led, min_x as int, min_y as int, (px as int, py as int));
    if qx >= 0 && qy >= 0 && (qx as u64) < canvas.width as u64 && (qy as u64)
        < canvas.height as u64 {
        let r = canvas.channel_at(qx as usize, qy as usize, 0);
        let g = canvas.channel_at(qx as usize, qy as usize, 1);
        let b = canvas.channel_at(qx as usize, qy as usize, 2);
        *rsum = *rsum + r as u64;
        *gsum = *gsum + g as u64;
        *bsum = *bsum + b as u64;
        *cnt = *cnt + 1;
        proof {
            assert(in_canvas(canvas.width as int, canvas.height as int, q));
        }
    } else {
        proof {
            assert(!in_canvas(canvas.width as int, canvas.height as int, q));
        }
    }
}

} // verus!
