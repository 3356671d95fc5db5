use timelapse_core::encoder::{
    build_encoder_args, escape_single_quotes, get_frames_directory, get_manifest_file_path,
    get_output_path, render_concat_manifest,
};
use timelapse_core::manifest::FrameEntry;
use timelapse_core::numfmt::{format_duration_micros, u64_to_string};
use timelapse_core::rotation::get_rotation_filter;

#[test]
fn rotation_mapping() {
    assert_eq!(get_rotation_filter(0), None);
    assert_eq!(get_rotation_filter(90).as_deref(), Some("transpose=1"));
    assert_eq!(get_rotation_filter(180).as_deref(), Some("transpose=1,transpose=1"));
    assert_eq!(get_rotation_filter(270).as_deref(), Some("transpose=2"));
    assert_eq!(get_rotation_filter(45), None);
    assert_eq!(get_rotation_filter(360), None);
}

#[test]
fn encoder_args_without_filter() {
    let args = build_encoder_args("/j/filelist.txt", &None, "/j/output.mp4");
    let expected: Vec<&str> = vec![
        "-f", "concat", "-safe", "0", "-i", "/j/filelist.txt", "-c:v", "libx264", "-crf", "18",
        "-preset", "veryfast", "-pix_fmt", "yuv420p", "-movflags", "+faststart", "-progress",
        "pipe:2", "-y", "/j/output.mp4",
    ];
    assert_eq!(args, expected);
}

#[test]
fn encoder_args_with_filter() {
    let filter = Some("transpose=1".to_string());
    let args = build_encoder_args("/j/filelist.txt", &filter, "/j/output.mp4");
    let expected: Vec<&str> = vec![
        "-f", "concat", "-safe", "0", "-i", "/j/filelist.txt", "-vf", "transpose=1", "-c:v",
        "libx264", "-crf", "18", "-preset", "veryfast", "-pix_fmt", "yuv420p", "-movflags",
        "+faststart", "-progress", "pipe:2", "-y", "/j/output.mp4",
    ];
    assert_eq!(args, expected);
}

#[test]
fn manifest_rendering() {
    let entries = vec![
        FrameEntry { path: "/a/frame1.png".to_string(), duration_micros: 100_000 },
        FrameEntry { path: "/a/frame2.png".to_string(), duration_micros: 500_000 },
    ];
    let rendered = render_concat_manifest(&entries);
    assert_eq!(
        rendered,
        "file '/a/frame1.png'\nduration 0.100000\nfile '/a/frame2.png'\nduration 0.500000\n"
    );
}

#[test]
fn manifest_rendering_escapes_quotes() {
    let entries = vec![FrameEntry {
        path: "/a/it's here.png".to_string(),
        duration_micros: 250_000,
    }];
    let rendered = render_concat_manifest(&entries);
    assert_eq!(rendered, "file '/a/it'\\''s here.png'\nduration 0.250000\n");
}

#[test]
fn quote_escaping() {
    assert_eq!(escape_single_quotes("no quotes"), "no quotes");
    assert_eq!(escape_single_quotes("a'b"), "a'\\''b");
    assert_eq!(escape_single_quotes("''"), "'\\'''\\''");
    assert_eq!(escape_single_quotes(""), "");
}

#[test]
fn duration_formatting() {
    assert_eq!(format_duration_micros(100_000), "0.100000");
    assert_eq!(format_duration_micros(500_000), "0.500000");
    assert_eq!(format_duration_micros(0), "0.000000");
    assert_eq!(format_duration_micros(1_500_000), "1.500000");
    assert_eq!(format_duration_micros(333_333), "0.333333");
    assert_eq!(format_duration_micros(1_000_001), "1.000001");
}

#[test]
fn decimal_rendering() {
    assert_eq!(u64_to_string(0), "0");
    assert_eq!(u64_to_string(7), "7");
    assert_eq!(u64_to_string(1_234_567), "1234567");
    assert_eq!(u64_to_string(u64::MAX), "18446744073709551615");
}

#[test]
fn job_paths() {
    assert_eq!(get_frames_directory("j1"), "/tmp/timelapse/j1/frames");
    assert_eq!(get_output_path("j1"), "/tmp/timelapse/j1/output.mp4");
    assert_eq!(get_manifest_file_path("j1"), "/tmp/timelapse/j1/filelist.txt");
}
