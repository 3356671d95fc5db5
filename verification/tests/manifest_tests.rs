use timelapse_core::manifest::{
    build_frame_manifest, is_image_filename, select_image_files, ManifestError,
};
use timelapse_core::natord::{natural_le_str, sort_strings_natural};

fn strings(names: &[&str]) -> Vec<String> {
    names.iter().map(|n| n.to_string()).collect()
}

#[test]
fn natural_sort_orders_frames_by_number() {
    let sorted = sort_strings_natural(strings(&["frame2.png", "frame10.png", "frame1.png"]));
    assert_eq!(sorted, strings(&["frame1.png", "frame2.png", "frame10.png"]));
}

#[test]
fn natural_order_compares_digit_runs_numerically() {
    assert!(natural_le_str("frame2", "frame10"));
    assert!(!natural_le_str("frame10", "frame2"));
    assert!(natural_le_str("a", "b"));
    assert!(natural_le_str("frame", "frame1"));
    // equal numeric value with different zero padding: a tie both ways
    assert!(natural_le_str("f01", "f1"));
    assert!(natural_le_str("f1", "f01"));
    // digits sort before letters, as their code points do
    assert!(natural_le_str("frame2", "framea"));
    // long runs beyond any machine integer still compare by value
    assert!(natural_le_str(
        "v99999999999999999999998",
        "v99999999999999999999999"
    ));
    assert!(!natural_le_str(
        "v100000000000000000000000",
        "v99999999999999999999999"
    ));
}

#[test]
fn image_selection_is_case_insensitive_and_keeps_order() {
    let names = strings(&[
        "b.PNG",
        "a.jpeg",
        "notes.txt",
        "c.webp",
        "png",
        ".png",
        "d.JPG",
        "archive.tar.gz",
    ]);
    let selected = select_image_files(&names);
    assert_eq!(selected, strings(&["b.PNG", "a.jpeg", "c.webp", "d.JPG"]));
}

#[test]
fn names_beyond_ascii_sort_and_filter() {
    let sorted = sort_strings_natural(strings(&["caf\u{e9}10.png", "caf\u{e9}2.png"]));
    assert_eq!(sorted, strings(&["caf\u{e9}2.png", "caf\u{e9}10.png"]));
    assert!(is_image_filename("caf\u{e9}.png"));
    assert!(!is_image_filename("caf\u{e9}.mov"));
}

#[test]
fn image_filename_rules() {
    assert!(is_image_filename("frame1.png"));
    assert!(is_image_filename("frame1.WEBP"));
    assert!(is_image_filename("a.b.jpg"));
    assert!(!is_image_filename("frame1.gif"));
    assert!(!is_image_filename("png"));
    assert!(!is_image_filename(".png"));
    assert!(!is_image_filename("frame1.png.tmp"));
    assert!(!is_image_filename(""));
}

#[test]
fn duration_split_with_eight_frames() {
    let names = strings(&[
        "f1.png", "f2.png", "f3.png", "f4.png", "f5.png", "f6.png", "f7.png", "f8.png",
    ]);
    let entries = build_frame_manifest("/tmp/timelapse/j/frames", &names, 10).unwrap();
    assert_eq!(entries.len(), 8);
    for (i, e) in entries.iter().enumerate() {
        if i < 3 {
            assert_eq!(e.duration_micros, 100_000, "frame {} should be normal", i);
        } else {
            assert_eq!(e.duration_micros, 500_000, "frame {} should be slow", i);
        }
    }
}

#[test]
fn duration_split_with_three_frames() {
    let names = strings(&["f1.png", "f2.png", "f3.png"]);
    let entries = build_frame_manifest("/d", &names, 10).unwrap();
    assert_eq!(entries.len(), 3);
    for e in &entries {
        assert_eq!(e.duration_micros, 500_000);
    }
}

#[test]
fn manifest_orders_and_joins_paths() {
    let names = strings(&["frame10.png", "skip.txt", "frame2.png", "frame1.png"]);
    let entries = build_frame_manifest("/tmp/timelapse/j/frames", &names, 10).unwrap();
    let paths: Vec<&str> = entries.iter().map(|e| e.path.as_str()).collect();
    assert_eq!(
        paths,
        vec![
            "/tmp/timelapse/j/frames/frame1.png",
            "/tmp/timelapse/j/frames/frame2.png",
            "/tmp/timelapse/j/frames/frame10.png",
        ]
    );
}

#[test]
fn empty_manifest_is_an_error() {
    let none = strings(&[]);
    assert!(matches!(
        build_frame_manifest("/d", &none, 10),
        Err(ManifestError::EmptyManifest)
    ));
    let unqualified = strings(&["notes.txt", "video.mp4"]);
    assert!(matches!(
        build_frame_manifest("/d", &unqualified, 10),
        Err(ManifestError::EmptyManifest)
    ));
    assert_eq!(ManifestError::EmptyManifest.message(), "No image files found");
}

#[test]
fn empty_manifest_records_a_failed_status() {
    let mut store = timelapse_core::store::JobStore::new();
    store.mark_processing("job");
    let names = strings(&[]);
    match build_frame_manifest("/d", &names, 10) {
        Ok(_) => panic!("an empty frame source must not build a manifest"),
        Err(e) => store.mark_failed("job", e.message().as_str()),
    }
    match store.get_status("job") {
        timelapse_core::models::JobStatusType::Failed(message) => {
            assert_eq!(message, "No image files found");
        }
        other => panic!("unexpected status {:?}", other),
    }
}
