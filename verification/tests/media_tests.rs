use timelapse_core::media::{
    accept_upload_filename, make_data_url, mime_for_filename, video_content_disposition,
};

#[test]
fn data_urls_carry_the_base64_payload() {
    assert_eq!(make_data_url("image/png", b"hello"), "data:image/png;base64,aGVsbG8=");
    assert_eq!(make_data_url("video/mp4", b""), "data:video/mp4;base64,");
    assert_eq!(make_data_url("image/jpeg", &[0xff, 0xd8]), "data:image/jpeg;base64,/9g=");
}

#[test]
fn preview_content_types() {
    assert_eq!(mime_for_filename("a.png"), "image/png");
    assert_eq!(mime_for_filename("a.PNG"), "image/png");
    assert_eq!(mime_for_filename("a.webp"), "image/webp");
    assert_eq!(mime_for_filename("a.jpg"), "image/jpeg");
    assert_eq!(mime_for_filename("a.jpeg"), "image/jpeg");
    assert_eq!(mime_for_filename("no_extension"), "image/jpeg");
    assert_eq!(mime_for_filename(".png"), "image/jpeg");
}

#[test]
fn upload_names_are_filtered_and_sanitized() {
    assert_eq!(accept_upload_filename("photo.png").as_deref(), Some("photo.png"));
    assert_eq!(accept_upload_filename("../evil.png").as_deref(), Some("..evil.png"));
    assert_eq!(accept_upload_filename("dir/sub.webp").as_deref(), Some("dirsub.webp"));
    assert_eq!(accept_upload_filename("notes.txt"), None);
    assert_eq!(accept_upload_filename("png"), None);
}

#[test]
fn download_disposition_names_the_job() {
    assert_eq!(
        video_content_disposition("abc-123"),
        "inline; filename=\"timelapse_abc-123.mp4\""
    );
}
