use xorstream::display::shorten_path;
use xorstream::progress::ProgressTracker;
use xorstream::progress::bar_widths;
use xorstream::progress::eta_seconds;
use xorstream::progress::percent_done;
use xorstream::progress::throughput_kib_s;

#[test]
fn updates_are_throttled_but_completion_always_renders() {
    let mut t = ProgressTracker::new(0, 10);
    // Within the interval and short of the total: suppressed.
    assert!(!t.note_progress(4, 50));
    assert!(!t.note_progress(8, 150));
    // Past the interval: rendered, and the throttle mark moves.
    assert!(t.note_progress(9, 300));
    assert!(!t.note_progress(9, 400));
    // Reaching the total renders no matter how recent the last render was.
    assert!(t.note_progress(10, 401));
}

#[test]
fn completion_is_reported_exactly_once_over_a_chunked_read() {
    // Chunks of 4, 4 and 2 bytes of a 10-byte file, read fast enough that
    // the throttle suppresses everything it may: only the final update, the
    // one whose count equals the size, renders — and it always does.
    let mut t = ProgressTracker::new(0, 10);
    let mut processed: u64 = 0;
    let mut renders_at_total = 0;
    for (size, now) in [(4u64, 1u64), (4, 2), (2, 3)] {
        processed += size;
        let rendered = t.note_progress(processed, now);
        assert_eq!(rendered, processed == 10);
        if rendered && processed == 10 {
            renders_at_total += 1;
        }
    }
    assert_eq!(processed, 10);
    assert_eq!(renders_at_total, 1);
}

#[test]
fn percent_is_exact_integer_division() {
    assert_eq!(percent_done(0, 10), 0);
    assert_eq!(percent_done(50, 200), 25);
    assert_eq!(percent_done(199, 200), 99);
    assert_eq!(percent_done(200, 200), 100);
    assert_eq!(percent_done(0, 0), 100);
}

#[test]
fn throughput_scales_bytes_to_kib_per_second() {
    assert_eq!(throughput_kib_s(2048, 1000), 2);
    assert_eq!(throughput_kib_s(1024, 500), 2);
    assert_eq!(throughput_kib_s(100, 0), 0);
    assert_eq!(throughput_kib_s(0, 1000), 0);
}

#[test]
fn eta_divides_remaining_bytes_by_speed() {
    assert_eq!(eta_seconds(10240, 0, 2), 5);
    assert_eq!(eta_seconds(10240, 10240, 2), 0);
    assert_eq!(eta_seconds(10240, 0, 0), 0);
    // A count past the total leaves nothing remaining.
    assert_eq!(eta_seconds(10, 20, 1), 0);
}

#[test]
fn bar_widths_round_to_the_nearest_cell() {
    assert_eq!(bar_widths(0, 20), (0, 20));
    assert_eq!(bar_widths(50, 20), (10, 10));
    assert_eq!(bar_widths(100, 20), (20, 0));
    assert_eq!(bar_widths(33, 20), (7, 13));
    // 2.5 cells round up.
    assert_eq!(bar_widths(25, 10), (3, 7));
}

#[test]
fn short_paths_are_left_alone() {
    assert_eq!(shorten_path("src/main.rs", 30), "src/main.rs");
    assert_eq!(shorten_path("", 10), "");
    assert_eq!(shorten_path("exactly10c", 10), "exactly10c");
}

#[test]
fn long_paths_keep_their_trailing_segments() {
    assert_eq!(
        shorten_path("/very/long/path/to/some/file.txt", 15),
        ".../some/file.txt"
    );
    assert_eq!(shorten_path("a/bb/ccc/dddd", 8), ".../ccc/dddd");
}

#[test]
fn an_oversized_last_segment_is_truncated() {
    assert_eq!(shorten_path("abcdefghij", 5), ".../ab");
    assert_eq!(shorten_path("dir/abcdefghij", 5), ".../ab");
}

#[test]
fn trailing_separators_collapse() {
    assert_eq!(shorten_path("a/", 30), "a");
}
