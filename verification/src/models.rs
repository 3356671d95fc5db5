//! The data model of the orchestration core: progress snapshots, job
//! lifecycle states, the derived status report handed to pollers, request
//! and response shapes, error-message truncation, and request validation.

use vstd::prelude::*;

verus! {

/// Ghost mirror of [`ProcessingProgress`].
pub struct ProgressModel {
    pub stage: Seq<char>,
    pub current_frame: u32,
    pub total_frames: u32,
    pub percent: u8,
}

/// A live snapshot of encode advancement for one job.
#[derive(Debug)]
pub struct ProcessingProgress {
    pub stage: String,
    pub current_frame: u32,
    pub total_frames: u32,
    pub percent: u8,
}

impl View for ProcessingProgress {
    type V = ProgressModel;

    open spec fn view(&self) -> ProgressModel {
        ProgressModel {
            stage: self.stage@,
            current_frame: self.current_frame,
            total_frames: self.total_frames,
            percent: self.percent,
        }
    }
}

impl Clone for ProcessingProgress {
    fn clone(&self) -> (res: Self)
        ensures
            res@ == self@,
    {
        ProcessingProgress {
            stage: self.stage.clone(),
            current_frame: self.current_frame,
            total_frames: self.total_frames,
            percent: self.percent,
        }
    }
}

/// Ghost mirror of [`JobStatusType`].
pub enum JobState {
    Pending,
    Processing(Option<ProgressModel>),
    Completed,
    Failed(Seq<char>),
}

/// The lifecycle state of one job.  `Processing(None)` means accepted but
/// not yet measured; `Processing(Some(p))` carries a live progress
/// snapshot; `Completed` and `Failed` are terminal.
#[derive(Debug)]
pub enum JobStatusType {
    Pending,
    Processing(Option<ProcessingProgress>),
    Completed,
    Failed(String),
}

impl View for JobStatusType {
    type V = JobState;

    open spec fn view(&self) -> JobState {
        match self {
            JobStatusType::Pending => JobState::Pending,
            JobStatusType::Processing(p) => JobState::Processing(
                match p {
                    Some(snapshot) => Some(snapshot@),
                    None => None,
                },
            ),
            JobStatusType::Completed => JobState::Completed,
            JobStatusType::Failed(message) => JobState::Failed(message@),
        }
    }
}

impl Clone for JobStatusType {
    fn clone(&self) -> (res: Self)
        ensures
            res@ == self@,
    {
        match self {
            JobStatusType::Pending => JobStatusType::Pending,
            JobStatusType::Processing(None) => JobStatusType::Processing(None),
            JobStatusType::Processing(Some(p)) => JobStatusType::Processing(Some(p.clone())),
            JobStatusType::Completed => JobStatusType::Completed,
            JobStatusType::Failed(message) => JobStatusType::Failed(message.clone()),
        }
    }
}

impl JobState {
    /// Terminal states take no further transitions.
    pub open spec fn is_terminal(self) -> bool {
        self is Completed || self is Failed
    }

    /// The short name of the state, as the status interface reports it.
    pub open spec fn as_str_spec(self) -> Seq<char> {
        match self {
            JobState::Pending => "pending"@,
            JobState::Processing(_) => "processing"@,
            JobState::Completed => "completed"@,
            JobState::Failed(_) => "failed"@,
        }
    }
}

impl JobStatusType {
    /// The short name of the lifecycle state.
    pub fn as_str(&self) -> (r: &str)
        ensures
            r@ == self@.as_str_spec(),
    {
        match self {
            JobStatusType::Pending => "pending",
            JobStatusType::Processing(_) => "processing",
            JobStatusType::Completed => "completed",
            JobStatusType::Failed(_) => "failed",
        }
    }
}

/// The progress percentage derived from a frame count: zero while the total
/// is unknown, otherwise `current / total` scaled to a percentage and capped
/// at 99.  Only the terminal `Completed` report shows 100.
pub open spec fn percent_spec(current: u32, total: u32) -> u8 {
    if total == 0 {
        0u8
    } else {
        let p = (current as int) * 100 / (total as int);
        if p > 99 {
            99u8
        } else {
            p as u8
        }
    }
}

/// Derives the capped progress percentage from a frame count.
pub fn compute_percent(current: u32, total: u32) -> (p: u8)
    ensures
        p == percent_spec(current, total),
{
    if total == 0 {
        0
    } else {
        let scaled = (current as u64) * 100 / (total as u64);
        if scaled > 99 {
            99
        } else {
            scaled as u8
        }
    }
}

/// With a fixed total, the derived percentage never decreases as the frame
/// count grows.
pub proof fn lemma_percent_monotonic(c1: u32, c2: u32, total: u32)
    requires
        c1 <= c2,
    ensures
        percent_spec(c1, total) <= percent_spec(c2, total),
{
    if total != 0 {
        vstd::arithmetic::div_mod::lemma_div_is_ordered(
            (c1 as int) * 100,
            (c2 as int) * 100,
            total as int,
        );
    }
}

/// Ghost mirror of [`JobStatus`].
pub struct JobStatusModel {
    pub status: Seq<char>,
    pub progress: Option<u32>,
    pub stage: Option<Seq<char>>,
    pub current_frame: Option<u32>,
    pub total_frames: Option<u32>,
    pub error: Option<Seq<char>>,
}

/// The flattened status record handed to pollers of the job status
/// interface.
#[derive(Debug)]
pub struct JobStatus {
    pub status: String,
    pub progress: Option<u32>,
    pub stage: Option<String>,
    pub current_frame: Option<u32>,
    pub total_frames: Option<u32>,
    pub error: Option<String>,
}

impl View for JobStatus {
    type V = JobStatusModel;

    open spec fn view(&self) -> JobStatusModel {
        JobStatusModel {
            status: self.status@,
            progress: self.progress,
            stage: match self.stage {
                Some(s) => Some(s@),
                None => None,
            },
            current_frame: self.current_frame,
            total_frames: self.total_frames,
            error: match self.error {
                Some(e) => Some(e@),
                None => None,
            },
        }
    }
}

/// How one lifecycle state flattens into a status report: the state's short
/// name; the percentage, stage and frame counts where a snapshot exists; a
/// fixed `preparing` stage at zero percent for a job accepted but not yet
/// measured; 100 percent and a `complete` stage for a finished job; and the
/// failure message for a failed one.
pub open spec fn report_spec(state: JobState) -> JobStatusModel {
    match state {
        JobState::Pending => JobStatusModel {
            status: "pending"@,
            progress: None,
            stage: None,
            current_frame: None,
            total_frames: None,
            error: None,
        },
        JobState::Processing(Some(p)) => JobStatusModel {
            status: "processing"@,
            progress: Some(p.percent as u32),
            stage: Some(p.stage),
            current_frame: Some(p.current_frame),
            total_frames: Some(p.total_frames),
            error: None,
        },
        JobState::Processing(None) => JobStatusModel {
            status: "processing"@,
            progress: Some(0u32),
            stage: Some("preparing"@),
            current_frame: None,
            total_frames: None,
            error: None,
        },
        JobState::Completed => JobStatusModel {
            status: "completed"@,
            progress: Some(100u32),
            stage: Some("complete"@),
            current_frame: None,
            total_frames: None,
            error: None,
        },
        JobState::Failed(message) => JobStatusModel {
            status: "failed"@,
            progress: None,
            stage: None,
            current_frame: None,
            total_frames: None,
            error: Some(message),
        },
    }
}

/// Flattens a lifecycle state into the record the status interface exposes.
pub fn job_status_report(state: &JobStatusType) -> (r: JobStatus)
    ensures
        r@ == report_spec(state@),
{
    match state {
        JobStatusType::Pending => JobStatus {
            status: "pending".to_owned(),
            progress: None,
            stage: None,
            current_frame: None,
            total_frames: None,
            error: None,
        },
        JobStatusType::Processing(Some(p)) => JobStatus {
            status: "processing".to_owned(),
            progress: Some(p.percent as u32),
            stage: Some(p.stage.clone()),
            current_frame: Some(p.current_frame),
            total_frames: Some(p.total_frames),
            error: None,
        },
        JobStatusType::Processing(None) => JobStatus {
            status: "processing".to_owned(),
            progress: Some(0),
            stage: Some("preparing".to_owned()),
            current_frame: None,
            total_frames: None,
            error: None,
        },
        JobStatusType::Completed => JobStatus {
            status: "completed".to_owned(),
            progress: Some(100),
            stage: Some("complete".to_owned()),
            current_frame: None,
            total_frames: None,
            error: None,
        },
        JobStatusType::Failed(message) => JobStatus {
            status: "failed".to_owned(),
            progress: None,
            stage: None,
            current_frame: None,
            total_frames: None,
            error: Some(message.clone()),
        },
    }
}

/// The bound on stored failure messages, in characters.
pub const ERROR_MESSAGE_LIMIT: usize = 500;

/// A failure message as the store keeps it: unchanged up to the limit,
/// otherwise cut at the limit with a truncation marker appended.
pub open spec fn truncated_message(msg: Seq<char>) -> Seq<char> {
    if msg.len() <= 500 {
        msg
    } else {
        msg.take(500) + "..."@
    }
}

/// Bounds a failure message to the store's limit, marking any cut.
pub fn truncate_error(msg: &str) -> (r: String)
    ensures
        r@ == truncated_message(msg@),
{
    let len = msg.unicode_len();
    if len <= ERROR_MESSAGE_LIMIT {
        msg.to_owned()
    } else {
        let mut s = msg.substring_char(0, ERROR_MESSAGE_LIMIT).to_owned();
        s.append("...");
        proof {
            assert(s@ =~= truncated_message(msg@));
        }
        s
    }
}

/// The response returned by the upload collaborator after frames arrive.
#[derive(Debug)]
pub struct UploadResponse {
    pub job_id: String,
    pub file_count: usize,
    pub filenames: Vec<String>,
}

/// A request to start an encode for an uploaded job.
#[derive(Debug)]
pub struct CreateTimelapseRequest {
    pub job_id: String,
    pub rotation: u32,
    pub fps: u32,
}

/// The immediate acknowledgement returned when an encode is accepted.
#[derive(Debug)]
pub struct CreateTimelapseResponse {
    pub job_id: String,
    pub status: String,
}

/// A job's identity and bookkeeping, as the upload collaborator tracks it.
#[derive(Debug)]
pub struct JobInfo {
    pub job_id: String,
    pub status: JobStatusType,
    pub file_count: usize,
    pub filenames: Vec<String>,
}

/// A reason a request is rejected before any state transition.
#[derive(Debug, Clone, Copy, PartialEq, Eq, Structural)]
pub enum ValidationError {
    InvalidRotation,
    InvalidFps,
}

/// A rotation angle the boundary accepts.
pub open spec fn valid_rotation(rotation: u32) -> bool {
    rotation == 0 || rotation == 90 || rotation == 180 || rotation == 270
}

/// A frame rate the boundary accepts.
pub open spec fn valid_fps(fps: u32) -> bool {
    1 <= fps <= 60
}

impl ValidationError {
    /// The caller-facing description of the rejection.
    pub fn message(&self) -> (r: String)
        ensures
            *self == ValidationError::InvalidRotation ==> r@
                == "Invalid rotation. Must be 0, 90, 180, or 270"@,
            *self == ValidationError::InvalidFps ==> r@ == "FPS must be between 1 and 60"@,
    {
        match self {
            ValidationError::InvalidRotation => "Invalid rotation. Must be 0, 90, 180, or 270"
                .to_owned(),
            ValidationError::InvalidFps => "FPS must be between 1 and 60".to_owned(),
        }
    }
}

/// Validates the request parameters that gate entry into `Processing`:
/// rotation must be one of the four right angles and the frame rate must lie
/// between 1 and 60.  Rotation is checked first, as the boundary does.
pub fn validate_request(rotation: u32, fps: u32) -> (r: Result<(), ValidationError>)
    ensures
        r is Ok <==> valid_rotation(rotation) && valid_fps(fps),
        r == Err::<(), ValidationError>(ValidationError::InvalidRotation) <==> !valid_rotation(
            rotation,
        ),
        r == Err::<(), ValidationError>(ValidationError::InvalidFps) <==> valid_rotation(rotation)
            && !valid_fps(fps),
{
    if !(rotation == 0 || rotation == 90 || rotation == 180 || rotation == 270) {
        Err(ValidationError::InvalidRotation)
    } else if fps == 0 || fps > 60 {
        Err(ValidationError::InvalidFps)
    } else {
        Ok(())
    }
}

} // verus!
