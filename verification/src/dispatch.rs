//! The output dispatcher and tick pipeline.
//!
//! A tick snapshots the Frame Store, composites the snapshot into one
//! canvas, extracts one average color per enabled zone, and sorts the
//! samples ascending by zone index — the order in which the LED sink
//! expects them, whatever order per-zone extraction finished in.  The sink
//! protocol takes the colors as hex strings in chunks of at most 256,
//! each chunk carrying the strip offset of its first LED.

use crate::color::{hex_pair, Color};
use crate::compositor::{combine_screens, composite_canvas};
use crate::extractor::{calculate_avg_colors, count_enabled, extract_spec};
use crate::frame_store::FrameStore;
use crate::geometry::{SlimMonitorInfo, LED};
use vstd::prelude::*;
use vstd::seq_lib::{group_to_multiset_ensures, to_multiset_insert, to_multiset_len, to_multiset_remove};

verus! {

broadcast use group_to_multiset_ensures;

/// Samples stand in ascending zone-index order.
pub open spec fn sorted_by_index(s: Seq<Color>) -> bool {
    forall|i: int, j: int| 0 <= i < j < s.len() ==> s[i].led_index <= s[j].led_index
}

/// Sort samples ascending by LED index.  The result is a permutation of
/// the input: no sample appears, disappears or changes.
pub fn sort_colors_by_index(colors: &mut Vec<Color>)
    ensures
        sorted_by_index(final(colors)@),
        final(colors)@.to_multiset() == old(colors)@.to_multiset(),
{
    let mut i: usize = 1;
    while i < colors.len()
        invariant
            i >= 1,
            colors@.to_multiset() == old(colors)@.to_multiset(),
            sorted_by_index(colors@.subrange(0, if i <= colors@.len() {
                i as int
            } else {
                colors@.len() as int
            })),
        decreases colors@.len() - i,
    {
        let ghost before = colors@;
        let x = colors.remove(i);
        proof {
            to_multiset_remove(before, i as int);
        }
        let mut j: usize = i;
        while j > 0 && colors[j - 1].led_index > x.led_index
            invariant
                j <= i,
                i < before.len(),
                colors@ == before.remove(i as int),
                sorted_by_index(before.subrange(0, i as int)),
                forall|k: int| j <= k < i ==> (#[trigger] colors@[k]).led_index > x.led_index,
            decreases j,
        {
            j = j - 1;
        }
        let ghost mid = colors@;
        colors.insert(j, x);
        proof {
            to_multiset_insert(mid, j as int, x);
            assert(before.contains(x)) by {
                assert(before[i as int] == x);
            }
            assert(colors@.to_multiset() =~= old(colors)@.to_multiset());
            assert forall|a: int, b: int| 0 <= a < b < i + 1 implies colors@[a].led_index
                <= colors@[b].led_index by {
                assert(forall|k: int|
                    0 <= k < j ==> colors@[k] == before.subrange(0, i as int)[k]);
                assert(colors@[j as int] == x);
                assert(forall|k: int|
                    j < k < i + 1 ==> colors@[k] == before.subrange(0, i as int)[k - 1]);
                if j > 0 {
                    assert(before.subrange(0, i as int)[j - 1].led_index <= x.led_index);
                }
            }
            assert(sorted_by_index(colors@.subrange(0, i + 1))) by {
                assert(forall|a: int, b: int|
                    0 <= a < b < i + 1 ==> (#[trigger] colors@.subrange(0, i + 1)[a]).led_index
                        <= (#[trigger] colors@.subrange(0, i + 1)[b]).led_index);
            }
        }
        i = i + 1;
    }
    proof {
        if colors@.len() > 0 {
            assert(colors@.subrange(0, colors@.len() as int) =~= colors@);
        }
    }
}

/// The hex digits the sink receives for one sample.
pub open spec fn color_hex(c: Color) -> Seq<char> {
    hex_pair(c.r as int) + hex_pair(c.g as int) + hex_pair(c.b as int)
}

/// How many chunks a dispatch of `n` samples takes.
pub open spec fn spec_num_chunks(n: int) -> int {
    if n % 256 == 0 {
        n / 256
    } else {
        n / 256 + 1
    }
}

/// One dispatch chunk for the LED sink: the strip offset of its first LED
/// and the hex rendering of each sample in the chunk.
pub struct PixelChunk {
    pub start: usize,
    pub hex: Vec<String>,
}

/// Cut the ordered samples into sink chunks of at most 256 colors: chunk
/// `i` starts at strip offset `i * 256` and carries the hex renderings of
/// the samples at offsets `i * 256` up to the next chunk.
pub fn build_pixel_chunks(colors: &Vec<Color>) -> (chunks: Vec<PixelChunk>)
    ensures
        chunks@.len() == spec_num_chunks(colors@.len() as int),
        forall|i: int|
            0 <= i < chunks@.len() ==> {
                &&& (#[trigger] chunks@[i]).start == i * 256
                &&& chunks@[i].hex@.len() == (if (i + 1) * 256 <= colors@.len() {
                    256int
                } else {
                    colors@.len() - i * 256
                })
                &&& forall|j: int|
                    0 <= j < chunks@[i].hex@.len() ==> (#[trigger] chunks@[i].hex@[j])@
                        == color_hex(colors@[i * 256 + j])
            },
{
    let n = colors.len();
    let mut chunks: Vec<PixelChunk> = Vec::new();
    let mut pos: usize = 0;
    while pos < n
        invariant
            pos <= n,
            n == colors@.len(),
            pos == chunks@.len() * 256,
            forall|i: int|
                0 <= i < chunks@.len() ==> {
                    &&& (#[trigger] chunks@[i]).start == i * 256
                    &&& chunks@[i].hex@.len() == 256
                    &&& forall|j: int|
                        0 <= j < 256 ==> (#[trigger] chunks@[i].hex@[j])@ == color_hex(
                            colors@[i * 256 + j],
                        )
                },
        decreases n - pos,
    {
        let start = pos;
        let mut hex: Vec<String> = Vec::new();
        let mut j: usize = 0;
        while j < 256 && pos < n
            invariant
                pos == start + j,
                j <= 256,
                pos <= n,
                n == colors@.len(),
                hex@.len() == j,
                forall|jj: int|
                    0 <= jj < j ==> (#[trigger] hex@[jj])@ == color_hex(colors@[start + jj]),
            decreases 256 - j,
        {
            let s = colors[pos].to_hex();
            hex.push(s);
            pos = pos + 1;
            j = j + 1;
        }
        let ghost nchunks = chunks@.len() as int;
        chunks.push(PixelChunk { start, hex });
        proof {
            assert(start == nchunks * 256);
            if pos < n {
                assert((nchunks + 1) * 256 == nchunks * 256 + 256);
            }
        }
        if pos == n && j < 256 {
            // Final partial chunk: the loop ends here.
            proof {
                lemma_last_chunk_count(n as int, nchunks, j as int);
            }
            proof {
                assert(forall|i: int|
                    0 <= i < nchunks ==> (#[trigger] chunks@[i]).hex@.len() == 256 && (if (i + 1)
                        * 256 <= n {
                        256int
                    } else {
                        n - i * 256
                    }) == 256);
            }
            return chunks;
        }
        proof {
            assert(j == 256);
            assert((nchunks + 1) * 256 == nchunks * 256 + 256);
        }
    }
    proof {
        lemma_full_chunk_count(n as int, chunks@.len() as int);
        assert(forall|i: int|
            0 <= i < chunks@.len() ==> ((#[trigger] chunks@[i]).hex@.len() == 256 && (if (i + 1)
                * 256 <= n {
                256int
            } else {
                n - i * 256
            }) == 256));
    }
    chunks
}

/// When every chunk is full, the chunk count is the exact quotient.
proof fn lemma_full_chunk_count(n: int, k: int)
    requires
        n == k * 256,
        k >= 0,
    ensures
        spec_num_chunks(n) == k,
{
    vstd::arithmetic::div_mod::lemma_fundamental_div_mod_converse(n, 256, k, 0);
}

/// A final partial chunk rounds the count up.
proof fn lemma_last_chunk_count(n: int, k: int, j: int)
    requires
        n == k * 256 + j,
        k >= 0,
        0 < j < 256,
    ensures
        spec_num_chunks(n) == k + 1,
{
    vstd::arithmetic::div_mod::lemma_fundamental_div_mod_converse(n, 256, k, j);
}

/// One processing tick: snapshot the Frame Store, composite, extract,
/// and order the samples for dispatch.
///
/// The result holds exactly the enabled zones' samples — the samples of
/// the canvas composited from the snapshot — in ascending zone-index
/// order.
pub fn tick(
    store: &FrameStore,
    monitors: &Vec<SlimMonitorInfo>,
    leds_array: &Vec<LED>,
    width: usize,
    height: usize,
    min_x: i32,
    min_y: i32,
) -> (samples: Vec<Color>)
    requires
        width * height * 4 <= usize::MAX,
        monitors@.len() <= i32::MAX,
    ensures
        sorted_by_index(samples@),
        samples@.to_multiset() == extract_spec(
            composite_canvas(
                store@,
                monitors@,
                width as int,
                height as int,
                min_x as int,
                min_y as int,
            ),
            width as int,
            height as int,
            leds_array@,
            min_x as int,
            min_y as int,
        ).to_multiset(),
        samples@.len() == count_enabled(leds_array@),
{
    let snapshot = store.snapshot();
    let canvas = combine_screens(&snapshot, monitors, width, height, min_x, min_y);
    let mut samples = calculate_avg_colors(&canvas, min_x, min_y, leds_array);
    let ghost unsorted = samples@;
    sort_colors_by_index(&mut samples);
    proof {
        to_multiset_len(unsorted);
        to_multiset_len(samples@);
    }
    samples
}

} // verus!
