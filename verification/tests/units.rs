use lightshow::capture::{parse_flags, parse_i32, parse_u32, trim, Capture, FlagsError};
use lightshow::color::Color;
use lightshow::dispatch::{build_pixel_chunks, sort_colors_by_index};
use lightshow::frame_store::FrameStore;
use lightshow::geometry::{compute_layout, rect_to_monitor, SlimMonitorInfo};

fn color(i: i32, r: u8, g: u8, b: u8) -> Color {
    Color::new(i, r, g, b)
}

#[test]
fn to_hex_renders_uppercase_pairs() {
    assert_eq!(color(0, 255, 0, 10).to_hex(), "FF000A");
    assert_eq!(color(1, 0, 0, 0).to_hex(), "000000");
    assert_eq!(color(2, 0x1A, 0xB2, 0x03).to_hex(), "1AB203");
    assert_eq!(color(3, 16, 32, 171).to_hex(), "1020AB");
}

#[test]
fn parse_flags_accepts_id_and_fps() {
    assert_eq!(parse_flags("0,10"), Ok((0, 10)));
    assert_eq!(parse_flags(" 3 , 24 "), Ok((3, 24)));
    assert_eq!(parse_flags("-7,0"), Ok((-7, 0)));
    assert_eq!(parse_flags("+2,+60"), Ok((2, 60)));
    assert_eq!(parse_flags("2147483647,4294967295"), Ok((i32::MAX, u32::MAX)));
    assert_eq!(parse_flags("-2147483648,0"), Ok((i32::MIN, 0)));
}

#[test]
fn parse_flags_rejects_bad_field_counts() {
    assert_eq!(parse_flags("5"), Err(FlagsError::InvalidFormat));
    assert_eq!(parse_flags(""), Err(FlagsError::InvalidFormat));
    assert_eq!(parse_flags("1,2,3"), Err(FlagsError::InvalidFormat));
}

#[test]
fn parse_flags_rejects_bad_numbers() {
    assert_eq!(parse_flags("a,b"), Err(FlagsError::InvalidNumber));
    assert_eq!(parse_flags("1,-2"), Err(FlagsError::InvalidNumber));
    assert_eq!(parse_flags("2147483648,1"), Err(FlagsError::InvalidNumber));
    assert_eq!(parse_flags("1,4294967296"), Err(FlagsError::InvalidNumber));
    assert_eq!(parse_flags(",10"), Err(FlagsError::InvalidNumber));
    assert_eq!(parse_flags("1 2,3"), Err(FlagsError::InvalidNumber));
}

#[test]
fn number_parsers_match_their_grammar() {
    assert_eq!(parse_i32("42"), Some(42));
    assert_eq!(parse_i32("-42"), Some(-42));
    assert_eq!(parse_i32(""), None);
    assert_eq!(parse_i32("-"), None);
    assert_eq!(parse_i32("4x2"), None);
    assert_eq!(parse_u32("0"), Some(0));
    assert_eq!(parse_u32("-1"), None);
    assert_eq!(parse_u32("99999999999999999999"), None);
}

#[test]
fn trim_strips_ascii_whitespace() {
    assert_eq!(trim("  7 "), "7");
    assert_eq!(trim("\t x\r\n"), "x");
    assert_eq!(trim(""), "");
    assert_eq!(trim("   "), "");
    assert_eq!(trim("a b"), "a b");
}

#[test]
fn capture_falls_back_to_defaults_on_bad_flags() {
    let c = Capture::new("bogus", 5);
    assert_eq!(c.id, 0);
    assert_eq!(c.fps_limit, 10);
    assert_eq!(c.frame_count, 0);
    assert_eq!(c.frame_time_ms, 5);
}

#[test]
fn capture_takes_id_and_fps_from_flags() {
    let c = Capture::new("1,24", 0);
    assert_eq!(c.id, 1);
    assert_eq!(c.fps_limit, 24);
}

#[test]
fn fps_log_fires_once_a_second() {
    let mut c = Capture::new("0,10", 1_000);
    assert!(!c.register_frame(1_400));
    assert_eq!(c.frame_count, 1);
    assert!(!c.register_frame(1_900));
    assert_eq!(c.frame_count, 2);
    assert!(c.register_frame(2_000));
    assert_eq!(c.frame_count, 0);
    assert_eq!(c.last_fps_log_ms, 2_000);
}

#[test]
fn remaining_frame_time_honors_the_cap() {
    let mut c = Capture::new("0,20", 1_000);
    // The budget at 20 FPS is 50 ms.
    assert_eq!(c.remaining_frame_millis(1_020), 30);
    assert_eq!(c.remaining_frame_millis(1_050), 0);
    assert_eq!(c.remaining_frame_millis(1_500), 0);
    c.reset_frame_timer(1_500);
    assert_eq!(c.remaining_frame_millis(1_510), 40);
}

#[test]
fn uncapped_sessions_never_sleep() {
    let c = Capture::new("0,0", 0);
    assert_eq!(c.remaining_frame_millis(123), 0);
}

#[test]
fn capture_publishes_under_its_own_id() {
    let c = Capture::new("5,10", 0);
    let mut store = FrameStore::new();
    c.publish_frame(&mut store, vec![1, 2, 3, 4]);
    assert_eq!(&store.get(5).unwrap().data, &vec![1, 2, 3, 4]);
}

#[test]
fn sort_orders_by_led_index_and_keeps_samples() {
    let mut v = vec![color(3, 3, 3, 3), color(0, 0, 0, 0), color(2, 2, 2, 2), color(1, 1, 1, 1)];
    sort_colors_by_index(&mut v);
    let indices: Vec<i32> = v.iter().map(|c| c.led_index).collect();
    assert_eq!(indices, vec![0, 1, 2, 3]);
    assert_eq!(v[2], color(2, 2, 2, 2));
}

#[test]
fn sort_handles_empty_and_single() {
    let mut v: Vec<Color> = vec![];
    sort_colors_by_index(&mut v);
    assert!(v.is_empty());
    let mut v = vec![color(9, 1, 2, 3)];
    sort_colors_by_index(&mut v);
    assert_eq!(v, vec![color(9, 1, 2, 3)]);
}

#[test]
fn chunks_carry_strip_offsets_and_hex() {
    let colors: Vec<Color> = (0..257).map(|i| color(i, 1, 2, 3)).collect();
    let chunks = build_pixel_chunks(&colors);
    assert_eq!(chunks.len(), 2);
    assert_eq!(chunks[0].start, 0);
    assert_eq!(chunks[0].hex.len(), 256);
    assert_eq!(chunks[1].start, 256);
    assert_eq!(chunks[1].hex.len(), 1);
    assert_eq!(chunks[0].hex[0], "010203");
    assert_eq!(chunks[1].hex[0], "010203");
}

#[test]
fn chunk_boundaries_are_exact() {
    assert_eq!(build_pixel_chunks(&vec![]).len(), 0);
    let one = build_pixel_chunks(&vec![color(0, 255, 128, 64)]);
    assert_eq!(one.len(), 1);
    assert_eq!(one[0].hex, vec!["FF8040"]);
    let full: Vec<Color> = (0..256).map(|i| color(i, 0, 0, 0)).collect();
    assert_eq!(build_pixel_chunks(&full).len(), 1);
}

#[test]
fn layout_requires_at_least_one_monitor() {
    assert_eq!(compute_layout(&vec![]), None);
}

#[test]
fn layout_rejects_degenerate_geometry() {
    let monitors = vec![SlimMonitorInfo { pos_x: 0, pos_y: 0, width: 0, height: 1080 }];
    assert_eq!(compute_layout(&monitors), None);
}

#[test]
fn monitor_rectangles_convert_to_position_and_size() {
    let m = rect_to_monitor(-1920, 0, 0, 1080);
    assert_eq!(m.pos_x, -1920);
    assert_eq!(m.pos_y, 0);
    assert_eq!(m.width, 1920);
    assert_eq!(m.height, 1080);
}
