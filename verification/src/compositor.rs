//! The frame compositor: blit every monitor's latest frame from a Frame
//! Store snapshot into one canvas spanning the bounding box of all
//! monitors.
//!
//! The canvas starts zero-filled, so a monitor whose frame is missing from
//! the snapshot leaves its region black — never stale content, since the
//! canvas is rebuilt from scratch every tick.  Each present frame is
//! clipped to the canvas bounds before its rows are copied, which tolerates
//! partially off-canvas or misreported geometry; a frame whose byte count
//! does not match its monitor's geometry is skipped for the tick.  Where
//! monitor rectangles overlap, the last-processed monitor wins.

use crate::canvas::{
    lemma_pix_idx_bounds, lemma_pix_idx_decode, lemma_pixel_write_isolated, pix_idx, Canvas,
};
use crate::frame_store::{FrameData, FrameStore};
use crate::geometry::SlimMonitorInfo;
use vstd::prelude::*;

verus! {

/// The frame holds exactly the bytes its monitor's geometry calls for.
pub open spec fn frame_fits(m: SlimMonitorInfo, f: Seq<u8>) -> bool {
    f.len() == m.width * m.height * 4
}

/// Canvas coordinate `(x, y)` lies inside monitor `m`'s rectangle once the
/// global minimum offset is subtracted.
pub open spec fn covers(m: SlimMonitorInfo, min_x: int, min_y: int, x: int, y: int) -> bool {
    let dx = m.pos_x - min_x;
    let dy = m.pos_y - min_y;
    dx <= x < dx + m.width && dy <= y < dy + m.height
}

/// The byte monitor `m`'s frame `f` shows at canvas coordinate `(x, y)`,
/// channel `c` (meaningful when `covers` holds and `f` fits `m`).
pub open spec fn frame_byte(
    m: SlimMonitorInfo,
    f: Seq<u8>,
    min_x: int,
    min_y: int,
    x: int,
    y: int,
    c: int,
) -> u8 {
    f[pix_idx(m.width as int, x - (m.pos_x - min_x), y - (m.pos_y - min_y), c)]
}

/// Whether monitor `k` of `mons` contributes a pixel at `(x, y)`: its frame
/// is in the snapshot, the frame matches its geometry, and its rectangle
/// covers the coordinate.
pub open spec fn monitor_shows(
    snap: Map<i32, Seq<u8>>,
    mons: Seq<SlimMonitorInfo>,
    k: int,
    min_x: int,
    min_y: int,
    x: int,
    y: int,
) -> bool {
    &&& snap.contains_key(k as i32)
    &&& frame_fits(mons[k], snap[k as i32])
    &&& covers(mons[k], min_x, min_y, x, y)
}

/// Channel `c` of canvas pixel `(x, y)` after blitting the first `k`
/// monitors in order: the last monitor that shows the pixel wins, and zero
/// remains where none does.
pub open spec fn composite_byte(
    snap: Map<i32, Seq<u8>>,
    mons: Seq<SlimMonitorInfo>,
    k: int,
    min_x: int,
    min_y: int,
    x: int,
    y: int,
    c: int,
) -> u8
    decreases k,
{
    if k <= 0 {
        0u8
    } else if monitor_shows(snap, mons, k - 1, min_x, min_y, x, y) {
        frame_byte(mons[k - 1], snap[(k - 1) as i32], min_x, min_y, x, y, c)
    } else {
        composite_byte(snap, mons, k - 1, min_x, min_y, x, y, c)
    }
}

/// The whole composited buffer: every in-bounds byte is the composite of
/// all monitors at its decoded coordinate.
pub open spec fn composite_canvas(
    snap: Map<i32, Seq<u8>>,
    mons: Seq<SlimMonitorInfo>,
    width: int,
    height: int,
    min_x: int,
    min_y: int,
) -> Seq<u8> {
    Seq::new(
        (width * height * 4) as nat,
        |i: int|
            composite_byte(
                snap,
                mons,
                mons.len() as int,
                min_x,
                min_y,
                (i / 4) % width,
                (i / 4) / width,
                i % 4,
            ),
    )
}

/// What `composite_canvas` holds at an in-bounds coordinate.
pub proof fn lemma_composite_canvas_at(
    snap: Map<i32, Seq<u8>>,
    mons: Seq<SlimMonitorInfo>,
    width: int,
    height: int,
    min_x: int,
    min_y: int,
    x: int,
    y: int,
    c: int,
)
    requires
        0 <= x < width,
        0 <= y < height,
        0 <= c < 4,
    ensures
        composite_canvas(snap, mons, width, height, min_x, min_y)[pix_idx(width, x, y, c)]
            == composite_byte(snap, mons, mons.len() as int, min_x, min_y, x, y, c),
{
    let i = pix_idx(width, x, y, c);
    lemma_pix_idx_bounds(width, height, x, y, c);
    lemma_pix_idx_decode(width, height, i);
    crate::canvas::lemma_pix_idx_injective(width, x, y, c, (i / 4) % width, (i / 4) / width, i % 4);
}

/// Composite a Frame Store snapshot into one canvas.
///
/// The result is `width` by `height`, zero-filled except where a monitor
/// with a well-sized frame in the snapshot covers a pixel; there it shows
/// that monitor's frame byte, the last such monitor winning on overlap.
/// Monitor `k` of `monitors` is keyed in the store as id `k`.
pub fn combine_screens(
    snapshot: &FrameStore,
    monitors: &Vec<SlimMonitorInfo>,
    width: usize,
    height: usize,
    min_x: i32,
    min_y: i32,
) -> (canvas: Canvas)
    requires
        width * height * 4 <= usize::MAX,
        monitors@.len() <= i32::MAX,
    ensures
        canvas.wf(),
        canvas.width == width,
        canvas.height == height,
        canvas.data@ == composite_canvas(
            snapshot@,
            monitors@,
            width as int,
            height as int,
            min_x as int,
            min_y as int,
        ),
{
    let ghost snap = snapshot@;
    let ghost mons = monitors@;
    let mut canvas = Canvas::new(width, height);
    proof {
        assert forall|x: int, y: int, c: int|
            0 <= x < width && 0 <= y < height && 0 <= c < 4 implies canvas.data@[#[trigger] pix_idx(
            width as int,
            x,
            y,
            c,
        )] == composite_byte(snap, mons, 0, min_x as int, min_y as int, x, y, c) by {
            lemma_pix_idx_bounds(width as int, height as int, x, y, c);
        }
    }
    let mut k: usize = 0;
    while k < monitors.len()
        invariant
            k <= mons.len(),
            monitors@ == mons,
            snapshot@ == snap,
            canvas.wf(),
            canvas.width == width,
            canvas.height == height,
            forall|x: int, y: int, c: int|
                0 <= x < width && 0 <= y < height && 0 <= c < 4 ==> canvas.data@[#[trigger] pix_idx(
                    width as int,
                    x,
                    y,
                    c,
                )] == composite_byte(snap, mons, k as int, min_x as int, min_y as int, x, y, c),
        decreases mons.len() - k,
    {
        let m = monitors[k];
        let ghost prev = canvas.data@;
        match snapshot.get(k as i32) {
            Some(fd) => {
                let mw: i128 = m.width as i128;
                let mh: i128 = m.height as i128;
                if mw > 0 && mh > 0 {
                    proof {
                        assert(mw * mh * 4 < i128::MAX) by (nonlinear_arith)
                            requires
                                0 < mw < 0x1_0000_0000i128,
                                0 < mh < 0x1_0000_0000i128,
                        ;
                    }
                    if fd.data.len() as i128 == mw * mh * 4 {
                        blit_monitor(&mut canvas, m, fd, min_x, min_y);
                    }
                }
            },
            None => {},
        }
        proof {
            assert forall|x: int, y: int, c: int|
                0 <= x < width && 0 <= y < height && 0 <= c < 4 implies canvas.data@[#[trigger] pix_idx(
                width as int,
                x,
                y,
                c,
            )] == composite_byte(
                snap,
                mons,
                k + 1,
                min_x as int,
                min_y as int,
                x,
                y,
                c,
            ) by {
                lemma_pix_idx_bounds(width as int, height as int, x, y, c);
            }
        }
        k = k + 1;
    }
    proof {
        assert(canvas.data@ =~= composite_canvas(
            snap,
            mons,
            width as int,
            height as int,
            min_x as int,
            min_y as int,
        )) by {
            assert forall|i: int|
                0 <= i < width * height * 4 implies canvas.data@[i] == composite_byte(
                snap,
                mons,
                mons.len() as int,
                min_x as int,
                min_y as int,
                (i / 4) % (width as int),
                (i / 4) / (width as int),
                i % 4,
            ) by {
                if width > 0 && height > 0 {
                    lemma_pix_idx_decode(width as int, height as int, i);
                }
            }
        }
    }
    canvas
}

/// Copy the rows of one monitor's frame into the canvas at the monitor's
/// placement, clipped to the canvas bounds; every uncovered byte keeps its
/// value.
fn blit_monitor(canvas: &mut Canvas, m: SlimMonitorInfo, f: &FrameData, min_x: i32, min_y: i32)
    requires
        old(canvas).wf(),
        m.width > 0,
        m.height > 0,
        f@.len() == m.width * m.height * 4,
    ensures
        final(canvas).wf(),
        final(canvas).width == old(canvas).width,
        final(canvas).height == old(canvas).height,
        forall|x: int, y: int, c: int|
            0 <= x < old(canvas).width && 0 <= y < old(canvas).height && 0 <= c < 4
                ==> final(canvas).data@[#[trigger] pix_idx(old(canvas).width as int, x, y, c)] == (
            if covers(m, min_x as int, min_y as int, x, y) {
                frame_byte(m, f@, min_x as int, min_y as int, x, y, c)
            } else {
                old(canvas).data@[pix_idx(old(canvas).width as int, x, y, c)]
            }),
{
    let cw = canvas.width;
    let ch = canvas.height;
    let dx: i128 = m.pos_x as i128 - min_x as i128;
    let dy: i128 = m.pos_y as i128 - min_y as i128;
    let sx0: i128 = if dx < 0 {
        -dx
    } else {
        0
    };
    let sy0: i128 = if dy < 0 {
        -dy
    } else {
        0
    };
    let sx1: i128 = if (m.width as i128) < cw as i128 - dx {
        m.width as i128
    } else {
        cw as i128 - dx
    };
    let sy1: i128 = if (m.height as i128) < ch as i128 - dy {
        m.height as i128
    } else {
        ch as i128 - dy
    };
    if sx0 >= sx1 || sy0 >= sy1 {
        // Nothing of this monitor lands on the canvas.
        return ;
    }
    let ghost orig = canvas.data@;
    let mut sy: i128 = sy0;
    while sy < sy1
        invariant
            sy0 <= sy <= sy1,
            sx0 < sx1,
            sy0 < sy1,
            canvas.wf(),
            canvas.width == cw,
            canvas.height == ch,
            sx0 == if dx < 0 {
                -dx
            } else {
                0
            },
            sy0 == if dy < 0 {
                -dy
            } else {
                0
            },
            sx1 == if (m.width as int) < cw - dx {
                m.width as int
            } else {
                cw - dx
            },
            sy1 == if (m.height as int) < ch - dy {
                m.height as int
            } else {
                ch - dy
            },
            dx == m.pos_x - min_x,
            dy == m.pos_y - min_y,
            m.width > 0,
            m.height > 0,
            f@.len() == m.width * m.height * 4,
            forall|x: int, y: int, c: int|
                0 <= x < cw && 0 <= y < ch && 0 <= c < 4 ==> canvas.data@[#[trigger] pix_idx(
                    cw as int,
                    x,
                    y,
                    c,
                )] == (if covers(m, min_x as int, min_y as int, x, y) && y - dy < sy {
                    frame_byte(m, f@, min_x as int, min_y as int, x, y, c)
                } else {
                    orig[pix_idx(cw as int, x, y, c)]
                }),
        decreases sy1 - sy,
    {
        let cy: usize = (dy + sy) as usize;
        let mut sx: i128 = sx0;
        while sx < sx1
            invariant
                sx0 <= sx <= sx1,
                sx0 < sx1,
                sy0 <= sy < sy1,
                canvas.wf(),
                canvas.width == cw,
                canvas.height == ch,
                cy == dy + sy,
                sx0 == if dx < 0 {
                    -dx
                } else {
                    0
                },
                sy0 == if dy < 0 {
                    -dy
                } else {
                    0
                },
                sx1 == if (m.width as int) < cw - dx {
                    m.width as int
                } else {
                    cw - dx
                },
                sy1 == if (m.height as int) < ch - dy {
                    m.height as int
                } else {
                    ch - dy
                },
                dx == m.pos_x - min_x,
                dy == m.pos_y - min_y,
                m.width > 0,
                m.height > 0,
                f@.len() == m.width * m.height * 4,
                forall|x: int, y: int, c: int|
                    0 <= x < cw && 0 <= y < ch && 0 <= c < 4 ==> canvas.data@[#[trigger] pix_idx(
                        cw as int,
                        x,
                        y,
                        c,
                    )] == (if covers(m, min_x as int, min_y as int, x, y) && (y - dy < sy || (y - dy
                        == sy && x - dx < sx)) {
                        frame_byte(m, f@, min_x as int, min_y as int, x, y, c)
                    } else {
                        orig[pix_idx(cw as int, x, y, c)]
                    }),
            decreases sx1 - sx,
        {
            let cx: usize = (dx + sx) as usize;
            proof {
                lemma_pix_idx_bounds(m.width as int, m.height as int, sx as int, sy as int, 3);
                assert(vstd::std_specs::vec::spec_vec_len(&f.data) == f.data@.len());
            }
            let sbase: usize = ((sy * m.width as i128 + sx) * 4) as usize;
            let v0 = f.data[sbase];
            let v1 = f.data[sbase + 1];
            let v2 = f.data[sbase + 2];
            let v3 = f.data[sbase + 3];
            canvas.set_channel(cx, cy, 0, v0);
            canvas.set_channel(cx, cy, 1, v1);
            canvas.set_channel(cx, cy, 2, v2);
            canvas.set_channel(cx, cy, 3, v3);
            proof {
                lemma_pixel_write_isolated(cw as int, ch as int, cx as int, cy as int);
                assert(forall|c: int|
                    0 <= c < 4 ==> #[trigger] pix_idx(m.width as int, sx as int, sy as int, c)
                        == sbase + c);
            }
            sx = sx + 1;
        }
        sy = sy + 1;
    }
}

/// The compositor is deterministic and idempotent: the composited contents
/// are a function of the snapshot, the monitor list and the geometry alone,
/// so repeated `combine_screens` calls over the same Frame Store snapshot
/// produce byte-identical canvases.
pub proof fn lemma_combine_deterministic(
    c1: Canvas,
    c2: Canvas,
    snap: Map<i32, Seq<u8>>,
    mons: Seq<SlimMonitorInfo>,
    width: int,
    height: int,
    min_x: int,
    min_y: int,
)
    requires
        c1.data@ == composite_canvas(snap, mons, width, height, min_x, min_y),
        c2.data@ == composite_canvas(snap, mons, width, height, min_x, min_y),
    ensures
        c1.data@ == c2.data@,
{
}

/// Removing a monitor's frame from the snapshot — a failed capture —
/// leaves its canvas region zero-filled: any in-bounds byte that no
/// present, well-sized, covering monitor shows is 0 in the composited
/// canvas, never content from a prior tick.
pub proof fn lemma_missing_frame_region_black(
    snap: Map<i32, Seq<u8>>,
    mons: Seq<SlimMonitorInfo>,
    width: int,
    height: int,
    min_x: int,
    min_y: int,
    x: int,
    y: int,
    c: int,
)
    requires
        0 <= x < width,
        0 <= y < height,
        0 <= c < 4,
        forall|j: int| 0 <= j < mons.len() ==> !monitor_shows(snap, mons, j, min_x, min_y, x, y),
    ensures
        composite_canvas(snap, mons, width, height, min_x, min_y)[pix_idx(width, x, y, c)] == 0,
{
    lemma_composite_canvas_at(snap, mons, width, height, min_x, min_y, x, y, c);
    lemma_uncovered_byte_zero(snap, mons, mons.len() as int, min_x, min_y, x, y, c);
}

/// Where no monitor among the first `k` shows a pixel, the composite keeps
/// the zero fill.
pub proof fn lemma_uncovered_byte_zero(
    snap: Map<i32, Seq<u8>>,
    mons: Seq<SlimMonitorInfo>,
    k: int,
    min_x: int,
    min_y: int,
    x: int,
    y: int,
    c: int,
)
    requires
        k <= mons.len(),
        forall|j: int| 0 <= j < k ==> !monitor_shows(snap, mons, j, min_x, min_y, x, y),
    ensures
        composite_byte(snap, mons, k, min_x, min_y, x, y, c) == 0,
    decreases k,
{
    if k > 0 {
        lemma_uncovered_byte_zero(snap, mons, k - 1, min_x, min_y, x, y, c);
    }
}

} // verus!
