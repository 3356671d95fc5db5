use timelapse_core::models::{
    compute_percent, truncate_error, validate_request, JobStatusType, ValidationError,
};
use timelapse_core::models::job_status_report;
use timelapse_core::store::JobStore;

fn percent_of(store: &JobStore, job: &str) -> u8 {
    match store.get_status(job) {
        JobStatusType::Processing(Some(p)) => p.percent,
        other => panic!("expected a progress snapshot, got {:?}", other),
    }
}

#[test]
fn progress_percent_is_monotonic_and_caps_at_99() {
    let mut store = JobStore::new();
    store.mark_processing("job");
    let mut seen: Vec<u8> = Vec::new();
    for line in [
        "frame=10 fps=30 q=28.0",
        "frame=25 fps=30 q=28.0",
        "frame=25 fps=30 q=28.0",
        "frame=50 fps=30 q=28.0",
    ] {
        store.apply_progress_line("job", line, 50);
        seen.push(percent_of(&store, "job"));
    }
    assert_eq!(seen, vec![20, 50, 50, 99]);
    for w in seen.windows(2) {
        assert!(w[0] <= w[1]);
    }
    assert!(*seen.last().unwrap() <= 99);
}

#[test]
fn frame_count_never_regresses() {
    let mut store = JobStore::new();
    store.update_job_progress("job", "encoding", 30, 100);
    store.update_job_progress("job", "encoding", 10, 100);
    match store.get_status("job") {
        JobStatusType::Processing(Some(p)) => {
            assert_eq!(p.current_frame, 30);
            assert_eq!(p.percent, 30);
        }
        other => panic!("unexpected status {:?}", other),
    }
}

#[test]
fn completed_is_terminal() {
    let mut store = JobStore::new();
    store.mark_processing("job");
    store.mark_completed("job");
    store.apply_progress_line("job", "frame= 5", 10);
    store.update_job_progress("job", "encoding", 5, 10);
    store.mark_failed("job", "late failure");
    store.mark_processing("job");
    assert!(matches!(store.get_status("job"), JobStatusType::Completed));
}

#[test]
fn failed_is_terminal() {
    let mut store = JobStore::new();
    store.mark_failed("job", "boom");
    store.mark_completed("job");
    store.update_job_progress("job", "encoding", 5, 10);
    match store.get_status("job") {
        JobStatusType::Failed(message) => assert_eq!(message, "boom"),
        other => panic!("unexpected status {:?}", other),
    }
}

#[test]
fn jobs_are_isolated() {
    let mut store = JobStore::new();
    store.mark_processing("a");
    store.mark_processing("b");
    store.update_job_progress("a", "encoding", 40, 80);
    match store.get_status("b") {
        JobStatusType::Processing(None) => {}
        other => panic!("job b saw job a's writes: {:?}", other),
    }
    store.update_job_progress("b", "encoding", 1, 80);
    assert_eq!(percent_of(&store, "a"), 50);
    assert_eq!(percent_of(&store, "b"), 1);
}

#[test]
fn unknown_job_reads_as_pending() {
    let store = JobStore::new();
    assert!(matches!(store.get_status("nobody"), JobStatusType::Pending));
}

#[test]
fn long_error_is_truncated_with_marker() {
    let long: String = "x".repeat(600);
    let mut store = JobStore::new();
    store.mark_failed("job", &long);
    match store.get_status("job") {
        JobStatusType::Failed(message) => {
            assert_eq!(message.chars().count(), 503);
            assert!(message.ends_with("..."));
            assert!(message.starts_with("xxx"));
        }
        other => panic!("unexpected status {:?}", other),
    }
}

#[test]
fn short_error_is_kept_unchanged() {
    let msg: String = "y".repeat(400);
    assert_eq!(truncate_error(&msg), msg);
    let exact: String = "z".repeat(500);
    assert_eq!(truncate_error(&exact), exact);
    let over: String = "w".repeat(501);
    let stored = truncate_error(&over);
    assert_eq!(stored.chars().count(), 503);
    assert!(stored.ends_with("..."));
}

#[test]
fn truncation_counts_characters_not_bytes() {
    let long: String = "\u{20ac}".repeat(600);
    let stored = truncate_error(&long);
    assert_eq!(stored.chars().count(), 503);
    assert!(stored.ends_with("..."));
    assert!(stored.starts_with('\u{20ac}'));
}

#[test]
fn status_names() {
    assert_eq!(JobStatusType::Pending.as_str(), "pending");
    assert_eq!(JobStatusType::Processing(None).as_str(), "processing");
    assert_eq!(JobStatusType::Completed.as_str(), "completed");
    assert_eq!(JobStatusType::Failed(String::from("e")).as_str(), "failed");
}

#[test]
fn status_reports() {
    let pending = job_status_report(&JobStatusType::Pending);
    assert_eq!(pending.status, "pending");
    assert_eq!(pending.progress, None);
    assert_eq!(pending.error, None);

    let accepted = job_status_report(&JobStatusType::Processing(None));
    assert_eq!(accepted.status, "processing");
    assert_eq!(accepted.progress, Some(0));
    assert_eq!(accepted.stage.as_deref(), Some("preparing"));
    assert_eq!(accepted.current_frame, None);

    let mut store = JobStore::new();
    store.update_job_progress("j", "encoding", 25, 50);
    let live = job_status_report(&store.get_status("j"));
    assert_eq!(live.status, "processing");
    assert_eq!(live.progress, Some(50));
    assert_eq!(live.stage.as_deref(), Some("encoding"));
    assert_eq!(live.current_frame, Some(25));
    assert_eq!(live.total_frames, Some(50));

    let done = job_status_report(&JobStatusType::Completed);
    assert_eq!(done.status, "completed");
    assert_eq!(done.progress, Some(100));
    assert_eq!(done.stage.as_deref(), Some("complete"));

    let failed = job_status_report(&JobStatusType::Failed(String::from("oops")));
    assert_eq!(failed.status, "failed");
    assert_eq!(failed.error.as_deref(), Some("oops"));
    assert_eq!(failed.progress, None);
}

#[test]
fn percent_derivation() {
    assert_eq!(compute_percent(0, 0), 0);
    assert_eq!(compute_percent(7, 0), 0);
    assert_eq!(compute_percent(10, 50), 20);
    assert_eq!(compute_percent(49, 50), 98);
    assert_eq!(compute_percent(50, 50), 99);
    assert_eq!(compute_percent(500, 50), 99);
    assert_eq!(compute_percent(1, 3), 33);
}

#[test]
fn request_validation() {
    assert!(validate_request(0, 30).is_ok());
    assert!(validate_request(90, 1).is_ok());
    assert!(validate_request(180, 60).is_ok());
    assert!(validate_request(270, 24).is_ok());
    assert_eq!(validate_request(45, 30), Err(ValidationError::InvalidRotation));
    assert_eq!(validate_request(360, 30), Err(ValidationError::InvalidRotation));
    assert_eq!(validate_request(0, 0), Err(ValidationError::InvalidFps));
    assert_eq!(validate_request(0, 61), Err(ValidationError::InvalidFps));
    assert_eq!(
        ValidationError::InvalidRotation.message(),
        "Invalid rotation. Must be 0, 90, 180, or 270"
    );
    assert_eq!(ValidationError::InvalidFps.message(), "FPS must be between 1 and 60");
}
