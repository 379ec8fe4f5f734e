use lightshow::canvas::Canvas;
use lightshow::compositor::combine_screens;
use lightshow::dispatch::tick;
use lightshow::extractor::{avg_zone_color, calculate_avg_colors};
use lightshow::frame_store::{FrameData, FrameStore};
use lightshow::geometry::{compute_layout, Layout, Position, Size, SlimMonitorInfo, LED};
use lightshow::overlay::{draw_zone_borders, paint_zone_colors};
use lightshow::color::Color;

#[allow(non_snake_case)]
fn zone(index: i32, enabled: bool, x: i32, y: i32, w: i32, h: i32) -> LED {
    LED {
        index,
        IsEnabled: enabled,
        Position: Position { x, y },
        Size: Size { width: w, height: h },
    }
}

fn solid_frame(w: usize, h: usize, r: u8, g: u8, b: u8) -> FrameData {
    let mut data = Vec::with_capacity(w * h * 4);
    for _ in 0..w * h {
        data.extend_from_slice(&[r, g, b, 255]);
    }
    FrameData { data }
}

fn monitor(x: i32, y: i32, w: i32, h: i32) -> SlimMonitorInfo {
    SlimMonitorInfo { pos_x: x, pos_y: y, width: w, height: h }
}

fn canvas_pixel(canvas: &Canvas, x: usize, y: usize) -> (u8, u8, u8, u8) {
    let i = (y * canvas.width + x) * 4;
    (canvas.data[i], canvas.data[i + 1], canvas.data[i + 2], canvas.data[i + 3])
}

#[test]
fn two_monitors_red_blue_scenario() {
    // Two 1920x1080 monitors side by side; the canvas spans 3840x1080.
    let monitors = vec![monitor(0, 0, 1920, 1080), monitor(1920, 0, 1920, 1080)];
    let layout = compute_layout(&monitors).unwrap();
    assert_eq!(
        layout,
        Layout { min_x: 0, min_y: 0, width: 3840, height: 1080 }
    );

    let mut store = FrameStore::new();
    store.publish(0, solid_frame(1920, 1080, 255, 0, 0));
    store.publish(1, solid_frame(1920, 1080, 0, 0, 255));

    // Zone 0 on the left (red) monitor, zone 1 on the right (blue) one.
    let zones = vec![zone(0, true, 10, 10, 50, 50), zone(1, true, 1930, 10, 50, 50)];
    let samples = tick(
        &store,
        &monitors,
        &zones,
        layout.width,
        layout.height,
        layout.min_x,
        layout.min_y,
    );

    assert_eq!(samples.len(), 2);
    assert_eq!(samples[0], Color { led_index: 0, r: 255, g: 0, b: 0 });
    assert_eq!(samples[1], Color { led_index: 1, r: 0, g: 0, b: 255 });
}

#[test]
fn straddling_zone_averages_only_in_bounds_pixels() {
    // A uniformly green canvas; the zone hangs off the right edge, so a
    // large share of its perimeter is out of bounds.  Skipped pixels must
    // not drag the average toward black.
    let mut canvas = Canvas::new(100, 100);
    canvas.fill(0, 255, 0, 255);
    let z = zone(0, true, 80, 25, 40, 50);
    let sample = avg_zone_color(&canvas, &z, 0, 0);
    assert_eq!(sample, Color { led_index: 0, r: 0, g: 255, b: 0 });
}

#[test]
fn fully_offscreen_zone_is_black() {
    let mut canvas = Canvas::new(64, 64);
    canvas.fill(200, 200, 200, 255);
    for z in [
        zone(3, true, -80, 10, 20, 20),
        zone(4, true, 100, 10, 20, 20),
        zone(5, true, 10, -30, 20, 20),
        zone(6, true, 10, 70, 20, 20),
    ] {
        let sample = avg_zone_color(&canvas, &z, 0, 0);
        assert_eq!(sample, Color { led_index: z.index, r: 0, g: 0, b: 0 });
    }
}

#[test]
fn uniform_canvas_zone_average_matches_fill() {
    let mut canvas = Canvas::new(40, 30);
    canvas.fill(12, 34, 56, 255);
    // Position and size do not matter while the zone stays in bounds.
    for z in [zone(0, true, 0, 0, 40, 30), zone(1, true, 7, 5, 3, 9), zone(2, true, 39, 29, 1, 1)]
    {
        let sample = avg_zone_color(&canvas, &z, 0, 0);
        assert_eq!(sample, Color { led_index: z.index, r: 12, g: 34, b: 56 });
    }
}

#[test]
fn average_uses_integer_division() {
    // A 2x1 zone has exactly its two top-row cells as perimeter; with red
    // channel values 10 and 15 the mean is 25 / 2 = 12.
    let mut canvas = Canvas::new(2, 1);
    canvas.set_channel(0, 0, 0, 10);
    canvas.set_channel(1, 0, 0, 15);
    let sample = avg_zone_color(&canvas, &zone(0, true, 0, 0, 2, 1), 0, 0);
    assert_eq!(sample, Color { led_index: 0, r: 12, g: 0, b: 0 });
}

#[test]
fn degenerate_zone_is_black() {
    let mut canvas = Canvas::new(8, 8);
    canvas.fill(50, 60, 70, 255);
    let sample = avg_zone_color(&canvas, &zone(9, true, 2, 2, 0, 3), 0, 0);
    assert_eq!(sample, Color { led_index: 9, r: 0, g: 0, b: 0 });
}

#[test]
fn disabled_zones_produce_no_sample() {
    let mut canvas = Canvas::new(16, 16);
    canvas.fill(1, 2, 3, 255);
    let zones = vec![
        zone(0, true, 0, 0, 4, 4),
        zone(1, false, 4, 4, 4, 4),
        zone(2, true, 8, 8, 4, 4),
    ];
    let samples = calculate_avg_colors(&canvas, 0, 0, &zones);
    assert_eq!(samples.len(), 2);
    assert_eq!(samples[0].led_index, 0);
    assert_eq!(samples[1].led_index, 2);
}

#[test]
fn combine_is_deterministic_and_idempotent() {
    let monitors = vec![monitor(0, 0, 8, 6), monitor(8, 0, 8, 6)];
    let mut store = FrameStore::new();
    store.publish(0, solid_frame(8, 6, 9, 8, 7));
    let snap = store.snapshot();
    let c1 = combine_screens(&snap, &monitors, 16, 6, 0, 0);
    let c2 = combine_screens(&snap, &monitors, 16, 6, 0, 0);
    assert_eq!(c1.data, c2.data);
}

#[test]
fn missing_frame_leaves_region_zero_filled() {
    let monitors = vec![monitor(0, 0, 4, 4), monitor(4, 0, 4, 4)];
    let mut store = FrameStore::new();
    // Only the right monitor publishes; the left one's capture "failed".
    store.publish(1, solid_frame(4, 4, 10, 20, 30));
    let snap = store.snapshot();
    let canvas = combine_screens(&snap, &monitors, 8, 4, 0, 0);
    for y in 0..4 {
        for x in 0..4 {
            assert_eq!(canvas_pixel(&canvas, x, y), (0, 0, 0, 0));
        }
        for x in 4..8 {
            assert_eq!(canvas_pixel(&canvas, x, y), (10, 20, 30, 255));
        }
    }
    // A zone over the dead region extracts black.
    let sample = avg_zone_color(&canvas, &zone(0, true, 0, 0, 4, 4), 0, 0);
    assert_eq!(sample, Color { led_index: 0, r: 0, g: 0, b: 0 });
}

#[test]
fn stale_content_never_survives_a_rebuild() {
    let monitors = vec![monitor(0, 0, 4, 4)];
    let mut store = FrameStore::new();
    store.publish(0, solid_frame(4, 4, 200, 100, 50));
    let first = combine_screens(&store.snapshot(), &monitors, 4, 4, 0, 0);
    assert_eq!(canvas_pixel(&first, 0, 0), (200, 100, 50, 255));
    // A later tick whose snapshot lacks the frame gets a fresh zero fill.
    let empty = FrameStore::new();
    let second = combine_screens(&empty.snapshot(), &monitors, 4, 4, 0, 0);
    for b in second.data.iter() {
        assert_eq!(*b, 0);
    }
}

#[test]
fn wrong_sized_frame_is_skipped_for_the_tick() {
    let monitors = vec![monitor(0, 0, 4, 4)];
    let mut store = FrameStore::new();
    // 2x2 worth of bytes published for a 4x4 monitor: geometry mismatch.
    store.publish(0, solid_frame(2, 2, 255, 255, 255));
    let canvas = combine_screens(&store.snapshot(), &monitors, 4, 4, 0, 0);
    for b in canvas.data.iter() {
        assert_eq!(*b, 0);
    }
}

#[test]
fn overlapping_monitors_last_one_wins() {
    let monitors = vec![monitor(0, 0, 4, 4), monitor(2, 0, 4, 4)];
    let mut store = FrameStore::new();
    store.publish(0, solid_frame(4, 4, 1, 1, 1));
    store.publish(1, solid_frame(4, 4, 2, 2, 2));
    let canvas = combine_screens(&store.snapshot(), &monitors, 6, 4, 0, 0);
    assert_eq!(canvas_pixel(&canvas, 1, 0), (1, 1, 1, 255));
    // The overlap at x in 2..4 shows the later monitor.
    assert_eq!(canvas_pixel(&canvas, 2, 0), (2, 2, 2, 255));
    assert_eq!(canvas_pixel(&canvas, 3, 0), (2, 2, 2, 255));
    assert_eq!(canvas_pixel(&canvas, 5, 0), (2, 2, 2, 255));
}

#[test]
fn negative_monitor_origin_is_shifted_by_the_layout() {
    let monitors = vec![monitor(-4, -2, 4, 4), monitor(0, -2, 4, 4)];
    let layout = compute_layout(&monitors).unwrap();
    assert_eq!(layout, Layout { min_x: -4, min_y: -2, width: 8, height: 4 });
    let mut store = FrameStore::new();
    store.publish(0, solid_frame(4, 4, 5, 0, 0));
    store.publish(1, solid_frame(4, 4, 0, 5, 0));
    let canvas = combine_screens(
        &store.snapshot(),
        &monitors,
        layout.width,
        layout.height,
        layout.min_x,
        layout.min_y,
    );
    assert_eq!(canvas_pixel(&canvas, 0, 0), (5, 0, 0, 255));
    assert_eq!(canvas_pixel(&canvas, 4, 0), (0, 5, 0, 255));
}

#[test]
fn tick_orders_samples_by_zone_index() {
    let monitors = vec![monitor(0, 0, 8, 8)];
    let mut store = FrameStore::new();
    store.publish(0, solid_frame(8, 8, 77, 88, 99));
    // Zones listed out of index order; dispatch must sort them.
    let zones = vec![
        zone(2, true, 4, 4, 2, 2),
        zone(0, true, 0, 0, 2, 2),
        zone(1, true, 2, 2, 2, 2),
    ];
    let samples = tick(&store, &monitors, &zones, 8, 8, 0, 0);
    let indices: Vec<i32> = samples.iter().map(|s| s.led_index).collect();
    assert_eq!(indices, vec![0, 1, 2]);
    for s in samples {
        assert_eq!((s.r, s.g, s.b), (77, 88, 99));
    }
}

#[test]
fn partly_offscreen_monitor_is_clipped() {
    // The monitor extends 2 pixels left of the canvas origin.
    let monitors = vec![monitor(-2, 0, 4, 2)];
    let mut store = FrameStore::new();
    let mut data = Vec::new();
    for p in 0..8u8 {
        data.extend_from_slice(&[p, 0, 0, 255]);
    }
    store.publish(0, FrameData { data });
    let canvas = combine_screens(&store.snapshot(), &monitors, 4, 2, 0, 0);
    // Source columns 2 and 3 land on canvas columns 0 and 1.
    assert_eq!(canvas_pixel(&canvas, 0, 0), (2, 0, 0, 255));
    assert_eq!(canvas_pixel(&canvas, 1, 0), (3, 0, 0, 255));
    assert_eq!(canvas_pixel(&canvas, 0, 1), (6, 0, 0, 255));
    assert_eq!(canvas_pixel(&canvas, 2, 0), (0, 0, 0, 0));
    assert_eq!(canvas_pixel(&canvas, 3, 1), (0, 0, 0, 0));
}

#[test]
fn snapshot_is_independent_of_later_publishes() {
    let mut store = FrameStore::new();
    store.publish(0, solid_frame(2, 2, 1, 2, 3));
    let snap = store.snapshot();
    store.publish(0, solid_frame(2, 2, 9, 9, 9));
    assert_eq!(snap.get(0).unwrap().data[0], 1);
    assert_eq!(store.get(0).unwrap().data[0], 9);
}

#[test]
fn publish_overwrites_previous_frame() {
    let mut store = FrameStore::new();
    store.publish(7, solid_frame(1, 1, 10, 11, 12));
    store.publish(7, solid_frame(1, 1, 20, 21, 22));
    let f = store.get(7).unwrap();
    assert_eq!(&f.data, &vec![20, 21, 22, 255]);
    assert!(store.get(3).is_none());
}

#[test]
fn zone_borders_are_outlined_in_red() {
    let mut canvas = Canvas::new(8, 8);
    canvas.fill(9, 9, 9, 9);
    let zones = vec![zone(0, true, 2, 2, 3, 3)];
    draw_zone_borders(&mut canvas, &zones, 0, 0);
    // Corners and edges of the 3x3 rectangle turn red...
    assert_eq!(canvas_pixel(&canvas, 2, 2), (255, 0, 0, 255));
    assert_eq!(canvas_pixel(&canvas, 4, 2), (255, 0, 0, 255));
    assert_eq!(canvas_pixel(&canvas, 2, 4), (255, 0, 0, 255));
    assert_eq!(canvas_pixel(&canvas, 4, 4), (255, 0, 0, 255));
    assert_eq!(canvas_pixel(&canvas, 3, 2), (255, 0, 0, 255));
    // ...the interior cell and the outside stay untouched.
    assert_eq!(canvas_pixel(&canvas, 3, 3), (9, 9, 9, 9));
    assert_eq!(canvas_pixel(&canvas, 0, 0), (9, 9, 9, 9));
}

#[test]
fn painted_zones_show_their_sample_color() {
    let mut canvas = Canvas::new(6, 6);
    let zones = vec![zone(0, true, 0, 0, 2, 2), zone(1, true, 1, 1, 2, 2)];
    let colors = vec![
        Color { led_index: 0, r: 100, g: 0, b: 0 },
        Color { led_index: 1, r: 0, g: 100, b: 0 },
    ];
    paint_zone_colors(&mut canvas, &zones, &colors, 0, 0);
    assert_eq!(canvas_pixel(&canvas, 0, 0), (100, 0, 0, 255));
    // The overlap at (1, 1) shows the later zone.
    assert_eq!(canvas_pixel(&canvas, 1, 1), (0, 100, 0, 255));
    assert_eq!(canvas_pixel(&canvas, 2, 2), (0, 100, 0, 255));
    assert_eq!(canvas_pixel(&canvas, 5, 5), (0, 0, 0, 0));
}
