use timelapse_core::progress::{frame_from_bytes, get_ffmpeg_progress, parse_frame_from_line};

#[test]
fn parses_a_typical_progress_line() {
    let line = "frame=  123 fps= 30 q=28.0 size=    1024kB time=00:00:04.10";
    assert_eq!(parse_frame_from_line(line), Some(123));
}

#[test]
fn parses_without_whitespace() {
    assert_eq!(parse_frame_from_line("frame=42"), Some(42));
}

#[test]
fn tolerates_variable_whitespace() {
    assert_eq!(parse_frame_from_line("frame= \t 55 fps=1"), Some(55));
}

#[test]
fn lines_without_the_token_yield_nothing() {
    assert_eq!(parse_frame_from_line(""), None);
    assert_eq!(parse_frame_from_line("fps= 30 q=28.0"), None);
    assert_eq!(parse_frame_from_line("reframe= 30"), Some(30));
    assert_eq!(parse_frame_from_line("frame = 30"), None);
}

#[test]
fn token_without_digits_is_skipped_in_favor_of_a_later_one() {
    assert_eq!(parse_frame_from_line("frame=x frame= 42"), Some(42));
    assert_eq!(parse_frame_from_line("frame=  frame=7"), Some(7));
    assert_eq!(parse_frame_from_line("frame=end"), None);
}

#[test]
fn leftmost_token_wins() {
    assert_eq!(parse_frame_from_line("frame=1 frame=2"), Some(1));
}

#[test]
fn values_beyond_u32_yield_nothing() {
    assert_eq!(parse_frame_from_line("frame=4294967295"), Some(u32::MAX));
    assert_eq!(parse_frame_from_line("frame=4294967296"), None);
    assert_eq!(parse_frame_from_line("frame=99999999999999999999"), None);
}

#[test]
fn buffer_scanning_returns_the_first_line_with_a_frame() {
    let buffer = b"Press [q] to stop\nframe=   7 fps=30\nframe=   9 fps=30\n";
    assert_eq!(get_ffmpeg_progress(buffer), Some(7));
    assert_eq!(get_ffmpeg_progress(b""), None);
    assert_eq!(get_ffmpeg_progress(b"no progress here\nnor here"), None);
    assert_eq!(get_ffmpeg_progress(b"junk\nframe=3"), Some(3));
}

#[test]
fn byte_scanner_matches_the_line_parser() {
    assert_eq!(frame_from_bytes(b"frame= 11"), Some(11));
    assert_eq!(frame_from_bytes(b"fram= 11"), None);
}
