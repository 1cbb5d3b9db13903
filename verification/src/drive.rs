//! Requests that name the video by its Google Drive URL: the checks on the request,
//! the download, and the frames that are made of it. Each function here takes how far
//! a request has come and what happened, and gives how far it is then and what is to
//! be done.
use crate::batch::{
    outcome_views, pack_url_archive, plan_frames, plan_views, planned, url_archive, url_archive_reads_back,
    FrameOutcome, FramePlan, OutcomeView, PackFault, PackFaultView, PlanView,
};
use crate::ffmpeg::{
    answer_frame, extraction, frame_answer, frame_command, reads_as_encoded, takes_one_frame, Command,
    CommandView, Run, RunView, FRAME_TIMEOUT_SECS,
};
use crate::number::{is_digit, is_digits, law_numeral_denotes_its_number, number, numeral, write_number};
use crate::reply::{
    hands_out, is_error, is_jpeg, json_error, json_rejection_response, json_reply, says, zip_archive, zip_reply, Reply, ReplyView,
};
use crate::text::{join, texts};
use crate::timestamp::{position, seek_seconds, MAX_TIMESTAMPS};
use vstd::prelude::*;

verus! {

/// The largest video that is fetched, in bytes (2 GB).
pub const MAX_VIDEO_BYTES: u64 = 2 * 1024 * 1024 * 1024;

/// What is fetched from Drive, and the header that allows it.
#[derive(Debug, PartialEq, Eq)]
pub struct DriveRequest {
    pub url: String,
    /// The value of the `Authorization` header.
    pub authorization: String,
}

/// What is fetched from Drive, as mathematical values.
pub struct DriveRequestView {
    pub url: Seq<char>,
    pub authorization: Seq<char>,
}

impl View for DriveRequest {
    type V = DriveRequestView;

    open spec fn view(&self) -> DriveRequestView {
        DriveRequestView { url: self.url@, authorization: self.authorization@ }
    }
}

/// The request for the video at a URL, with a short-lived OAuth token.
pub open spec fn drive_request(url: Seq<char>, token: Seq<char>) -> DriveRequestView {
    DriveRequestView { url, authorization: "Bearer "@ + token }
}

/// What can happen while the video is fetched from Drive.
#[derive(Debug, PartialEq, Eq)]
pub enum DriveEvent {
    /// There is no HTTP client to fetch it with.
    NoClient,
    /// Drive did not answer, for the reason that the text gives.
    FetchFailed(String),
    /// Drive answered with this status and, if it said so, this length.
    Answered { status: u16, content_length: Option<u64> },
    /// There is no place to store the video, or it could not be written there.
    StorageFailed,
    /// So many bytes more came in.
    Chunk(usize),
    /// The stream broke off.
    StreamFailed,
    /// The stream is at its end.
    Ended,
}

/// What can happen while the video is fetched, as mathematical values.
pub enum DriveEventView {
    NoClient,
    FetchFailed(Seq<char>),
    Answered { status: u16, content_length: Option<u64> },
    StorageFailed,
    Chunk(usize),
    StreamFailed,
    Ended,
}

impl View for DriveEvent {
    type V = DriveEventView;

    open spec fn view(&self) -> DriveEventView {
        match *self {
            DriveEvent::NoClient => DriveEventView::NoClient,
            DriveEvent::FetchFailed(reason) => DriveEventView::FetchFailed(reason@),
            DriveEvent::Answered { status, content_length } => DriveEventView::Answered {
                status,
                content_length,
            },
            DriveEvent::StorageFailed => DriveEventView::StorageFailed,
            DriveEvent::Chunk(length) => DriveEventView::Chunk(length),
            DriveEvent::StreamFailed => DriveEventView::StreamFailed,
            DriveEvent::Ended => DriveEventView::Ended,
        }
    }
}

/// What an event means for a download.
enum DriveAction {
    /// Make a place for the video and read the stream.
    Store,
    /// Write the chunk that came in.
    Write,
    /// The video is complete.
    Complete,
    /// Answer the request.
    Reply(Reply),
}

/// What an event means for a download, as mathematical values.
pub enum DriveActionView {
    Store,
    Write,
    Complete,
    Reply(ReplyView),
}

impl View for DriveAction {
    type V = DriveActionView;

    closed spec fn view(&self) -> DriveActionView {
        match *self {
            DriveAction::Store => DriveActionView::Store,
            DriveAction::Write => DriveActionView::Write,
            DriveAction::Complete => DriveActionView::Complete,
            DriveAction::Reply(reply) => DriveActionView::Reply(reply@),
        }
    }
}

/// The reply to a video that is too large.
pub open spec fn too_large() -> ReplyView {
    json_error(413, "video exceeds 2 GB server limit"@)
}

/// The reply to a status of Drive, unless the status is that of success.
pub open spec fn drive_refusal(status: u16) -> Option<ReplyView> {
    if status == 200 {
        None
    } else if status == 401 {
        Some(json_error(401, "Drive returned 401: expired or invalid token"@))
    } else if status == 403 {
        Some(json_error(403, "Drive returned 403: no permission for this file"@))
    } else if status == 404 {
        Some(json_error(404, "Drive returned 404: file not found"@))
    } else {
        Some(json_error(500, "Drive returned unexpected status "@ + numeral(status as nat)))
    }
}

/// How many bytes have been taken in after an event, and what it means for the
/// download.
pub open spec fn drive_step(received: u64, event: DriveEventView) -> (u64, DriveActionView) {
    match event {
        DriveEventView::NoClient => (
            received,
            DriveActionView::Reply(json_error(500, "internal error"@)),
        ),
        DriveEventView::FetchFailed(reason) => (
            received,
            DriveActionView::Reply(json_error(500, "Drive fetch failed: "@ + reason)),
        ),
        DriveEventView::Answered { status, content_length } => (
            received,
            match (drive_refusal(status), content_length) {
                (Some(refusal), _) => DriveActionView::Reply(refusal),
                (None, Some(length)) if length > MAX_VIDEO_BYTES => DriveActionView::Reply(too_large()),
                (None, _) => DriveActionView::Store,
            },
        ),
        DriveEventView::StorageFailed => (
            received,
            DriveActionView::Reply(json_error(500, "internal error"@)),
        ),
        DriveEventView::Chunk(length) => if received + length > MAX_VIDEO_BYTES {
            (received, DriveActionView::Reply(too_large()))
        } else {
            ((received + length) as u64, DriveActionView::Write)
        },
        DriveEventView::StreamFailed => (
            received,
            DriveActionView::Reply(json_error(500, "stream read error"@)),
        ),
        DriveEventView::Ended => (received, DriveActionView::Complete),
    }
}

/// What the answer of Drive means for the download.
fn check_answer(status: u16, content_length: Option<u64>) -> (action: DriveAction)
    ensures
        action@ == drive_step(0, DriveEventView::Answered { status, content_length }).1,
{
    if status == 401 {
        return DriveAction::Reply(json_reply(401, "Drive returned 401: expired or invalid token"));
    }
    if status == 403 {
        return DriveAction::Reply(
            json_reply(403, "Drive returned 403: no permission for this file"),
        );
    }
    if status == 404 {
        return DriveAction::Reply(json_reply(404, "Drive returned 404: file not found"));
    }
    if status != 200 {
        let number = write_number(status as u64);
        let message = join("Drive returned unexpected status ", number.as_str());
        return DriveAction::Reply(json_reply(500, message.as_str()));
    }
    match content_length {
        Some(length) => {
            if length > MAX_VIDEO_BYTES {
                DriveAction::Reply(json_reply(413, "video exceeds 2 GB server limit"))
            } else {
                DriveAction::Store
            }
        },
        None => DriveAction::Store,
    }
}

/// Takes a download one event further.
fn fetch_video(received: u64, event: DriveEvent) -> (next: (u64, DriveAction))
    ensures
        (next.0, next.1@) == drive_step(received, event@),
{
    match event {
        DriveEvent::NoClient => (received, DriveAction::Reply(json_reply(500, "internal error"))),
        DriveEvent::FetchFailed(reason) => {
            let message = join("Drive fetch failed: ", reason.as_str());
            (received, DriveAction::Reply(json_reply(500, message.as_str())))
        },
        DriveEvent::Answered { status, content_length } => (
            received,
            check_answer(status, content_length),
        ),
        DriveEvent::StorageFailed => (
            received,
            DriveAction::Reply(json_reply(500, "internal error")),
        ),
        DriveEvent::Chunk(length) => {
            if received > MAX_VIDEO_BYTES || length as u64 > MAX_VIDEO_BYTES - received {
                return (received, DriveAction::Reply(json_reply(413, "video exceeds 2 GB server limit")));
            }
            (received + length as u64, DriveAction::Write)
        },
        DriveEvent::StreamFailed => (
            received,
            DriveAction::Reply(json_reply(500, "stream read error")),
        ),
        DriveEvent::Ended => (received, DriveAction::Complete),
    }
}

/// JSON body for POST /extract-frame-url
#[derive(Debug, PartialEq, Eq)]
pub struct ExtractFrameUrlRequest {
    /// Google Drive download URL.
    /// Format: https://www.googleapis.com/drive/v3/files/{fileId}?alt=media
    pub video_url: String,
    /// Short-lived Google OAuth2 bearer token (from ScriptApp.getOAuthToken()).
    /// Passed as Authorization: Bearer {token} when fetching from Drive.
    pub access_token: String,
    /// Minutes component of seek position (total minutes, e.g. 65 for 1h05m)
    pub minute: u32,
    /// Seconds component of seek position (0-59)
    pub second: u32,
}

/// The body of a request for one frame, as mathematical values.
pub struct FrameUrlRequestView {
    pub video_url: Seq<char>,
    pub access_token: Seq<char>,
    pub minute: u32,
    pub second: u32,
}

impl View for ExtractFrameUrlRequest {
    type V = FrameUrlRequestView;

    open spec fn view(&self) -> FrameUrlRequestView {
        FrameUrlRequestView {
            video_url: self.video_url@,
            access_token: self.access_token@,
            minute: self.minute,
            second: self.second,
        }
    }
}

/// How far a request for one frame has come.
#[derive(Debug, Clone, Copy, PartialEq, Eq)]
pub struct FrameUrlJob {
    /// Where the frame is, in seconds.
    pub seek_secs: u64,
    /// How many bytes of the video have come in.
    pub received: u64,
}

/// What can happen to a request for one frame.
#[derive(Debug, PartialEq, Eq)]
pub enum FrameUrlEvent {
    /// The body was read, or could not be, for the reason that the text gives.
    Body(Result<ExtractFrameUrlRequest, String>),
    /// The download went on.
    Drive(DriveEvent),
    /// The run that was asked for ended.
    Finished(Run),
}

/// What is to be done next for a request for one frame.
#[derive(Debug, PartialEq, Eq)]
pub enum FrameUrlAction {
    /// Ask Drive for the video.
    Fetch(DriveRequest),
    /// Make a place for the video and read the stream.
    StoreVideo,
    /// Write the chunk that came in.
    WriteChunk,
    /// Run the command on the stored video.
    Extract(Command),
    /// Answer the request.
    Reply(Reply),
}

/// What can happen to a request for one frame, as mathematical values.
pub enum FrameUrlEventView {
    Body(Result<FrameUrlRequestView, Seq<char>>),
    Drive(DriveEventView),
    Finished(RunView),
}

/// What is to be done for a request for one frame, as mathematical values.
pub enum FrameUrlActionView {
    Fetch(DriveRequestView),
    StoreVideo,
    WriteChunk,
    Extract(CommandView),
    Reply(ReplyView),
}

impl View for FrameUrlEvent {
    type V = FrameUrlEventView;

    open spec fn view(&self) -> FrameUrlEventView {
        match *self {
            FrameUrlEvent::Body(body) => FrameUrlEventView::Body(
                match body {
                    Ok(request) => Ok(request@),
                    Err(reason) => Err(reason@),
                },
            ),
            FrameUrlEvent::Drive(event) => FrameUrlEventView::Drive(event@),
            FrameUrlEvent::Finished(run) => FrameUrlEventView::Finished(run@),
        }
    }
}

impl View for FrameUrlAction {
    type V = FrameUrlActionView;

    open spec fn view(&self) -> FrameUrlActionView {
        match *self {
            FrameUrlAction::Fetch(request) => FrameUrlActionView::Fetch(request@),
            FrameUrlAction::StoreVideo => FrameUrlActionView::StoreVideo,
            FrameUrlAction::WriteChunk => FrameUrlActionView::WriteChunk,
            FrameUrlAction::Extract(command) => FrameUrlActionView::Extract(command@),
            FrameUrlAction::Reply(reply) => FrameUrlActionView::Reply(reply@),
        }
    }
}

/// What a request for one frame is refused with, if it is.
pub open spec fn frame_url_refusal(request: FrameUrlRequestView) -> Option<ReplyView> {
    if request.video_url.len() == 0 {
        Some(json_error(400, "video_url is required"@))
    } else if request.access_token.len() == 0 {
        Some(json_error(400, "access_token is required"@))
    } else if request.second > 59 {
        Some(json_error(400, "second must be 0-59"@))
    } else {
        None
    }
}

/// How far a request for one frame is after an event, and what is to be done then.
pub open spec fn frame_url_step(job: FrameUrlJob, event: FrameUrlEventView) -> (
    FrameUrlJob,
    FrameUrlActionView,
) {
    match event {
        FrameUrlEventView::Body(Err(reason)) => (
            job,
            FrameUrlActionView::Reply(json_error(422, reason)),
        ),
        FrameUrlEventView::Body(Ok(request)) => match frame_url_refusal(request) {
            Some(refusal) => (job, FrameUrlActionView::Reply(refusal)),
            None => (
                FrameUrlJob { seek_secs: position(request.minute, request.second) as u64, received: 0 },
                FrameUrlActionView::Fetch(drive_request(request.video_url, request.access_token)),
            ),
        },
        FrameUrlEventView::Drive(event) => {
            let (received, action) = drive_step(job.received, event);
            (
                FrameUrlJob { received, ..job },
                match action {
                    DriveActionView::Store => FrameUrlActionView::StoreVideo,
                    DriveActionView::Write => FrameUrlActionView::WriteChunk,
                    DriveActionView::Complete => FrameUrlActionView::Extract(
                        extraction(numeral(job.seek_secs as nat), FRAME_TIMEOUT_SECS),
                    ),
                    DriveActionView::Reply(reply) => FrameUrlActionView::Reply(reply),
                },
            )
        },
        FrameUrlEventView::Finished(run) => (job, FrameUrlActionView::Reply(frame_answer(run))),
    }
}

impl FrameUrlJob {
    /// A request of which nothing is known.
    pub fn new() -> (job: FrameUrlJob)
        ensures
            job == (FrameUrlJob { seek_secs: 0, received: 0 }),
    {
        FrameUrlJob { seek_secs: 0, received: 0 }
    }
}

/// The request for the video at a URL, with a short-lived OAuth token.
fn authorize(url: String, token: &str) -> (request: DriveRequest)
    ensures
        request@ == drive_request(url@, token@),
{
    DriveRequest { url, authorization: join("Bearer ", token) }
}

/// Extract a single frame from a Google Drive video URL.
///
/// The body gives a Drive download URL, a short-lived OAuth token and the timestamp.
/// The video is fetched from Drive; the reply is a raw JPEG frame at the timestamp.
pub fn extract_frame_url(job: FrameUrlJob, event: FrameUrlEvent) -> (next: (FrameUrlJob, FrameUrlAction))
    ensures
        (next.0, next.1@) == frame_url_step(job, event@),
        event@ matches FrameUrlEventView::Finished(run) ==> reads_as_encoded(run),
{
    match event {
        FrameUrlEvent::Body(Err(reason)) => (
            job,
            FrameUrlAction::Reply(json_rejection_response(reason.as_str())),
        ),
        FrameUrlEvent::Body(Ok(request)) => {
            if request.video_url.as_str().is_empty() {
                return (job, FrameUrlAction::Reply(json_reply(400, "video_url is required")));
            }
            if request.access_token.as_str().is_empty() {
                return (job, FrameUrlAction::Reply(json_reply(400, "access_token is required")));
            }
            if request.second > 59 {
                return (job, FrameUrlAction::Reply(json_reply(400, "second must be 0-59")));
            }
            let seek_secs = seek_seconds(request.minute, request.second);
            let fetch = authorize(request.video_url, request.access_token.as_str());
            (FrameUrlJob { seek_secs, received: 0 }, FrameUrlAction::Fetch(fetch))
        },
        FrameUrlEvent::Drive(event) => {
            let (received, action) = fetch_video(job.received, event);
            let action = match action {
                DriveAction::Store => FrameUrlAction::StoreVideo,
                DriveAction::Write => FrameUrlAction::WriteChunk,
                DriveAction::Complete => FrameUrlAction::Extract(frame_command(job.seek_secs)),
                DriveAction::Reply(reply) => FrameUrlAction::Reply(reply),
            };
            (FrameUrlJob { seek_secs: job.seek_secs, received }, action)
        },
        FrameUrlEvent::Finished(run) => (job, FrameUrlAction::Reply(answer_frame(run))),
    }
}

/// JSON body for POST /extract-frames-url
#[derive(Debug, PartialEq, Eq)]
pub struct ExtractFramesUrlRequest {
    /// Google Drive download URL.
    /// Format: https://www.googleapis.com/drive/v3/files/{fileId}?alt=media
    pub video_url: String,
    /// Short-lived Google OAuth2 bearer token (from ScriptApp.getOAuthToken()).
    /// Passed as Authorization: Bearer {token} when fetching from Drive.
    pub access_token: String,
    /// List of timestamps to extract. Supports formats: plain seconds ("90"),
    /// MM:SS ("1:30"), or HH:MM:SS ("01:05:30"). Max 60 entries.
    pub timestamps: Vec<String>,
}

/// The body of a request for many frames, as mathematical values.
pub struct FramesUrlRequestView {
    pub video_url: Seq<char>,
    pub access_token: Seq<char>,
    pub timestamps: Seq<Seq<char>>,
}

impl View for ExtractFramesUrlRequest {
    type V = FramesUrlRequestView;

    open spec fn view(&self) -> FramesUrlRequestView {
        FramesUrlRequestView {
            video_url: self.video_url@,
            access_token: self.access_token@,
            timestamps: texts(self.timestamps@),
        }
    }
}

/// How far a request for many frames has come.
#[derive(Debug, PartialEq, Eq)]
pub struct FramesUrlJob {
    /// Where the frames are.
    pub timestamps: Vec<String>,
    /// How many bytes of the video have come in.
    pub received: u64,
}

/// How far a request for many frames has come, as mathematical values.
pub struct FramesUrlJobView {
    pub timestamps: Seq<Seq<char>>,
    pub received: u64,
}

impl View for FramesUrlJob {
    type V = FramesUrlJobView;

    open spec fn view(&self) -> FramesUrlJobView {
        FramesUrlJobView { timestamps: texts(self.timestamps@), received: self.received }
    }
}

/// What can happen to a request for many frames.
#[derive(Debug, PartialEq, Eq)]
pub enum FramesUrlEvent {
    /// The body was read, or could not be, for the reason that the text gives.
    Body(Result<ExtractFramesUrlRequest, String>),
    /// The download went on.
    Drive(DriveEvent),
    /// All plans were carried out, with these outcomes in the order that they came in.
    Finished(Vec<FrameOutcome>),
    /// The task that was to pack the frames did not come to its end.
    PackingLost,
}

/// What is to be done next for a request for many frames.
#[derive(Debug, PartialEq, Eq)]
pub enum FramesUrlAction {
    /// Ask Drive for the video.
    Fetch(DriveRequest),
    /// Make a place for the video and read the stream.
    StoreVideo,
    /// Write the chunk that came in.
    WriteChunk,
    /// Carry out the plans on the stored video.
    ExtractAll(Vec<FramePlan>),
    /// Answer the request.
    Reply(Reply),
}

/// What can happen to a request for many frames, as mathematical values.
pub enum FramesUrlEventView {
    Body(Result<FramesUrlRequestView, Seq<char>>),
    Drive(DriveEventView),
    Finished(Seq<OutcomeView>),
    PackingLost,
}

/// What is to be done for a request for many frames, as mathematical values.
pub enum FramesUrlActionView {
    Fetch(DriveRequestView),
    StoreVideo,
    WriteChunk,
    ExtractAll(Seq<PlanView>),
    Reply(ReplyView),
}

impl View for FramesUrlEvent {
    type V = FramesUrlEventView;

    open spec fn view(&self) -> FramesUrlEventView {
        match *self {
            FramesUrlEvent::Body(body) => FramesUrlEventView::Body(
                match body {
                    Ok(request) => Ok(request@),
                    Err(reason) => Err(reason@),
                },
            ),
            FramesUrlEvent::Drive(event) => FramesUrlEventView::Drive(event@),
            FramesUrlEvent::Finished(outcomes) => FramesUrlEventView::Finished(outcome_views(outcomes@)),
            FramesUrlEvent::PackingLost => FramesUrlEventView::PackingLost,
        }
    }
}

impl View for FramesUrlAction {
    type V = FramesUrlActionView;

    open spec fn view(&self) -> FramesUrlActionView {
        match *self {
            FramesUrlAction::Fetch(request) => FramesUrlActionView::Fetch(request@),
            FramesUrlAction::StoreVideo => FramesUrlActionView::StoreVideo,
            FramesUrlAction::WriteChunk => FramesUrlActionView::WriteChunk,
            FramesUrlAction::ExtractAll(plans) => FramesUrlActionView::ExtractAll(plan_views(plans@)),
            FramesUrlAction::Reply(reply) => FramesUrlActionView::Reply(reply@),
        }
    }
}

/// What a request for many frames is refused with, if it is. One that asks for too
/// many frames is well formed and cannot be processed.
pub open spec fn frames_url_refusal(request: FramesUrlRequestView) -> Option<ReplyView> {
    if request.video_url.len() == 0 {
        Some(json_error(400, "video_url is required"@))
    } else if request.access_token.len() == 0 {
        Some(json_error(400, "access_token is required"@))
    } else if request.timestamps.len() == 0 {
        Some(json_error(400, "timestamps array is required and must not be empty"@))
    } else if request.timestamps.len() > MAX_TIMESTAMPS {
        Some(json_error(422, "exceeded maximum of 60 timestamps per request"@))
    } else {
        None
    }
}

/// What a timestamp of the body is refused with that asks for no position.
pub open spec fn url_timestamp_refusal() -> Seq<char> {
    "Invalid timestamp format, must be seconds or MM:SS or HH:MM:SS"@
}

/// The reply that hands out the archive of these outcomes, or says why there is none.
pub open spec fn archive_answer(outcomes: Seq<OutcomeView>) -> ReplyView {
    match url_archive(outcomes) {
        Ok(archive) => zip_archive(archive),
        Err(PackFaultView::NameTooLong) => json_error(500, "internal error"@),
        Err(PackFaultView::Message(text)) => json_error(500, text),
    }
}

/// How far a request for many frames is after an event, and what is to be done then.
pub open spec fn frames_url_step(job: FramesUrlJobView, event: FramesUrlEventView) -> (
    FramesUrlJobView,
    FramesUrlActionView,
) {
    match event {
        FramesUrlEventView::Body(Err(reason)) => (
            job,
            FramesUrlActionView::Reply(json_error(422, reason)),
        ),
        FramesUrlEventView::Body(Ok(request)) => match frames_url_refusal(request) {
            Some(refusal) => (job, FramesUrlActionView::Reply(refusal)),
            None => (
                FramesUrlJobView { timestamps: request.timestamps, received: 0 },
                FramesUrlActionView::Fetch(drive_request(request.video_url, request.access_token)),
            ),
        },
        FramesUrlEventView::Drive(event) => {
            let (received, download) = drive_step(job.received, event);
            match download {
                DriveActionView::Store => (
                    FramesUrlJobView { received, ..job },
                    FramesUrlActionView::StoreVideo,
                ),
                DriveActionView::Write => (
                    FramesUrlJobView { received, ..job },
                    FramesUrlActionView::WriteChunk,
                ),
                DriveActionView::Complete => (
                    FramesUrlJobView { timestamps: Seq::empty(), received },
                    FramesUrlActionView::ExtractAll(
                        job.timestamps.map_values(
                            |timestamp: Seq<char>| planned(timestamp, url_timestamp_refusal()),
                        ),
                    ),
                ),
                DriveActionView::Reply(reply) => (
                    FramesUrlJobView { received, ..job },
                    FramesUrlActionView::Reply(reply),
                ),
            }
        },
        FramesUrlEventView::Finished(outcomes) => (
            job,
            FramesUrlActionView::Reply(archive_answer(outcomes)),
        ),
        FramesUrlEventView::PackingLost => (
            job,
            FramesUrlActionView::Reply(json_error(500, "internal error"@)),
        ),
    }
}

impl FramesUrlJob {
    /// A request of which nothing is known.
    pub fn new() -> (job: FramesUrlJob)
        ensures
            job@ == (FramesUrlJobView { timestamps: Seq::empty(), received: 0 }),
    {
        let job = FramesUrlJob { timestamps: Vec::new(), received: 0 };
        assert(job@.timestamps =~= Seq::empty());
        job
    }
}

/// Extract multiple frames from a Google Drive video URL.
///
/// The body gives a Drive download URL, a short-lived OAuth token and a list of
/// timestamps. The video is fetched from Drive and all frames are extracted
/// concurrently; the reply is a ZIP with the JPEGs and an extraction_report.json that
/// describes successes and failures.
pub fn extract_frames_url(job: FramesUrlJob, event: FramesUrlEvent) -> (next: (
    FramesUrlJob,
    FramesUrlAction,
))
    ensures
        (next.0@, next.1@) == frames_url_step(job@, event@),
        event@ matches FramesUrlEventView::Finished(outcomes) ==> url_archive_reads_back(outcomes),
{
    match event {
        FramesUrlEvent::Body(Err(reason)) => (
            job,
            FramesUrlAction::Reply(json_rejection_response(reason.as_str())),
        ),
        FramesUrlEvent::Body(Ok(request)) => {
            assert(request@.timestamps.len() == request.timestamps.len());
            if request.video_url.as_str().is_empty() {
                return (job, FramesUrlAction::Reply(json_reply(400, "video_url is required")));
            }
            if request.access_token.as_str().is_empty() {
                return (job, FramesUrlAction::Reply(json_reply(400, "access_token is required")));
            }
            if request.timestamps.len() == 0 {
                return (
                    job,
                    FramesUrlAction::Reply(
                        json_reply(400, "timestamps array is required and must not be empty"),
                    ),
                );
            }
            if request.timestamps.len() > MAX_TIMESTAMPS {
                return (
                    job,
                    FramesUrlAction::Reply(
                        json_reply(422, "exceeded maximum of 60 timestamps per request"),
                    ),
                );
            }
            let fetch = authorize(request.video_url, request.access_token.as_str());
            (
                FramesUrlJob { timestamps: request.timestamps, received: 0 },
                FramesUrlAction::Fetch(fetch),
            )
        },
        FramesUrlEvent::Drive(event) => {
            let (received, action) = fetch_video(job.received, event);
            match action {
                DriveAction::Store => (
                    FramesUrlJob { timestamps: job.timestamps, received },
                    FramesUrlAction::StoreVideo,
                ),
                DriveAction::Write => (
                    FramesUrlJob { timestamps: job.timestamps, received },
                    FramesUrlAction::WriteChunk,
                ),
                DriveAction::Complete => {
                    let plans = plan_frames(
                        job.timestamps,
                        "Invalid timestamp format, must be seconds or MM:SS or HH:MM:SS",
                    );
                    let rest = FramesUrlJob { timestamps: Vec::new(), received };
                    assert(rest@.timestamps =~= Seq::empty());
                    (rest, FramesUrlAction::ExtractAll(plans))
                },
                DriveAction::Reply(reply) => (
                    FramesUrlJob { timestamps: job.timestamps, received },
                    FramesUrlAction::Reply(reply),
                ),
            }
        },
        FramesUrlEvent::Finished(outcomes) => {
            let reply = match pack_url_archive(outcomes) {
                Ok(archive) => zip_reply(archive),
                Err(PackFault::NameTooLong) => json_reply(500, "internal error"),
                Err(PackFault::Message(text)) => json_reply(500, text.as_str()),
            };
            (job, FramesUrlAction::Reply(reply))
        },
        FramesUrlEvent::PackingLost => (
            job,
            FramesUrlAction::Reply(json_reply(500, "internal error")),
        ),
    }
}

/// How many bytes a download has taken in after events, from its start.
pub open spec fn received_after(events: Seq<DriveEventView>) -> u64
    decreases events.len(),
{
    if events.len() == 0 {
        0
    } else {
        drive_step(received_after(events.drop_last()), events.last()).0
    }
}

/// How many bytes the chunks have that a download writes.
pub open spec fn written_after(events: Seq<DriveEventView>) -> int
    decreases events.len(),
{
    if events.len() == 0 {
        0
    } else {
        let before = events.drop_last();
        written_after(before) + match events.last() {
            DriveEventView::Chunk(length) => if drive_step(received_after(before), events.last()).1
                == DriveActionView::Write {
                length as int
            } else {
                0
            },
            _ => 0,
        }
    }
}

/// A download counts exactly what it writes, and never writes more than the limit.
pub proof fn law_download_stays_within_the_limit(events: Seq<DriveEventView>)
    ensures
        received_after(events) == written_after(events),
        written_after(events) <= MAX_VIDEO_BYTES,
    decreases events.len(),
{
    if events.len() > 0 {
        law_download_stays_within_the_limit(events.drop_last());
    }
}

/// A chunk is written if the video stays within the limit with it, and is answered with
/// 413 if not.
pub proof fn law_chunk_beyond_the_limit_is_refused(events: Seq<DriveEventView>, length: usize)
    ensures
        written_after(events) + length <= MAX_VIDEO_BYTES ==> drive_step(
            received_after(events),
            DriveEventView::Chunk(length),
        ).1 == DriveActionView::Write,
        written_after(events) + length > MAX_VIDEO_BYTES ==> drive_step(
            received_after(events),
            DriveEventView::Chunk(length),
        ).1 == DriveActionView::Reply(too_large()),
{
    law_download_stays_within_the_limit(events);
}

/// The statuses of the errors that answer a request with a URL.
pub open spec fn url_errors() -> Set<u16> {
    set![400u16, 401u16, 403u16, 404u16, 413u16, 422u16, 500u16]
}

/// Whatever happens to a request for one frame, it is answered with a JPEG, or with an
/// error of a documented status and its message in JSON.
pub proof fn law_frame_url_replies_are_documented(job: FrameUrlJob, event: FrameUrlEventView)
    ensures
        frame_url_step(job, event).1 matches FrameUrlActionView::Reply(reply) ==> is_jpeg(reply) || is_error(
            reply,
            url_errors(),
        ),
{
}

/// Whatever happens to a request for many frames, it is answered with a ZIP archive, or
/// with an error of a documented status and its message in JSON.
pub proof fn law_frames_url_replies_are_documented(job: FramesUrlJobView, event: FramesUrlEventView)
    ensures
        frames_url_step(job, event).1 matches FramesUrlActionView::Reply(reply) ==> reply == zip_archive(
            reply.body->Bytes_0,
        ) || is_error(reply, url_errors()),
{
}

/// Drive is asked for a video only on behalf of a request that passed every check, with
/// the token of that request, and the frame is then looked for at its position.
pub proof fn law_only_a_checked_request_is_fetched(job: FrameUrlJob, event: FrameUrlEventView)
    requires
        frame_url_step(job, event).1 is Fetch,
    ensures
        event matches FrameUrlEventView::Body(Ok(request)) && {
            &&& request.video_url.len() > 0
            &&& request.access_token.len() > 0
            &&& request.second <= 59
            &&& frame_url_step(job, event).1->Fetch_0.url == request.video_url
            &&& frame_url_step(job, event).1->Fetch_0.authorization == "Bearer "@ + request.access_token
            &&& frame_url_step(job, event).0.seek_secs == position(request.minute, request.second)
        },
{
}

/// How far a request for one frame is after its download went on with these events.
pub open spec fn frame_url_after(job: FrameUrlJob, events: Seq<DriveEventView>) -> FrameUrlJob
    decreases events.len(),
{
    if events.len() == 0 {
        job
    } else {
        frame_url_step(
            frame_url_after(job, events.drop_last()),
            FrameUrlEventView::Drive(events.last()),
        ).0
    }
}

/// However the download goes, the frame that is extracted from a complete video is the
/// one at the position that the request gave.
pub proof fn law_frame_url_keeps_its_position(
    job: FrameUrlJob,
    request: FrameUrlRequestView,
    events: Seq<DriveEventView>,
)
    requires
        frame_url_refusal(request) is None,
    ensures
        ({
            let fetched = frame_url_step(job, FrameUrlEventView::Body(Ok(request))).0;
            let end = FrameUrlEventView::Drive(DriveEventView::Ended);
            frame_url_step(frame_url_after(fetched, events), end).1 == FrameUrlActionView::Extract(
                extraction(
                    numeral(position(request.minute, request.second) as nat),
                    FRAME_TIMEOUT_SECS,
                ),
            )
        }),
{
    lemma_seek_is_kept(frame_url_step(job, FrameUrlEventView::Body(Ok(request))).0, events);
}

/// A download does not change the position of the frame.
proof fn lemma_seek_is_kept(job: FrameUrlJob, events: Seq<DriveEventView>)
    ensures
        frame_url_after(job, events).seek_secs == job.seek_secs,
    decreases events.len(),
{
    if events.len() > 0 {
        lemma_seek_is_kept(job, events.drop_last());
    }
}

/// How far a request for many frames is after its download went on with these events.
pub open spec fn frames_url_after(job: FramesUrlJobView, events: Seq<DriveEventView>) -> FramesUrlJobView
    decreases events.len(),
{
    if events.len() == 0 {
        job
    } else {
        frames_url_step(
            frames_url_after(job, events.drop_last()),
            FramesUrlEventView::Drive(events.last()),
        ).0
    }
}

/// As long as a download goes on, a request keeps its timestamps.
proof fn lemma_timestamps_are_kept(job: FramesUrlJobView, events: Seq<DriveEventView>)
    requires
        forall|i: int| 0 <= i < events.len() ==> #[trigger] events[i] != DriveEventView::Ended,
    ensures
        frames_url_after(job, events).timestamps == job.timestamps,
    decreases events.len(),
{
    if events.len() > 0 {
        let before = events.drop_last();
        assert forall|i: int| 0 <= i < before.len() implies #[trigger] before[i] != DriveEventView::Ended by {
            assert(before[i] == events[i]);
        }
        lemma_timestamps_are_kept(job, before);
        assert(events[events.len() - 1] != DriveEventView::Ended);
    }
}

/// A request for many frames on whose behalf Drive is asked for a video has at least one
/// timestamp and no more than the limit; and however the download goes, once the video
/// is complete every one of them is planned.
pub proof fn law_every_timestamp_of_a_request_is_planned(
    job: FramesUrlJobView,
    request: FramesUrlRequestView,
    events: Seq<DriveEventView>,
)
    requires
        frames_url_step(job, FramesUrlEventView::Body(Ok(request))).1 is Fetch,
        forall|i: int| 0 <= i < events.len() ==> #[trigger] events[i] != DriveEventView::Ended,
    ensures
        1 <= request.timestamps.len() <= MAX_TIMESTAMPS,
        ({
            let fetched = frames_url_step(job, FramesUrlEventView::Body(Ok(request))).0;
            let end = FramesUrlEventView::Drive(DriveEventView::Ended);
            frames_url_step(frames_url_after(fetched, events), end).1 == FramesUrlActionView::ExtractAll(
                request.timestamps.map_values(
                    |timestamp: Seq<char>| planned(timestamp, url_timestamp_refusal()),
                ),
            )
        }),
{
    lemma_timestamps_are_kept(frames_url_step(job, FramesUrlEventView::Body(Ok(request))).0, events);
}

/// Whether an event changes nothing in a download of so many bytes and is answered with
/// this error.
pub open spec fn drive_refuses(received: u64, event: DriveEventView, status: u16, message: Seq<char>) -> bool {
    &&& drive_step(received, event).0 == received
    &&& drive_step(received, event).1 matches DriveActionView::Reply(reply) && says(reply, status, message)
}

/// An answer of Drive is taken only with the status of success, and only if it announces
/// no more than 2 GB; any other status is passed on in a message of its own or, if it is
/// none of those, by its number.
pub proof fn law_answers_of_drive_are_taken_by_their_status(
    received: u64,
    status: u16,
    content_length: Option<u64>,
)
    ensures
        ({
            let event = DriveEventView::Answered { status, content_length };
            if status == 200 {
                if content_length is Some && content_length->Some_0 > 2147483648 {
                    drive_refuses(received, event, 413, "video exceeds 2 GB server limit"@)
                } else {
                    drive_step(received, event) == (received, DriveActionView::Store)
                }
            } else if status == 401 {
                drive_refuses(received, event, 401, "Drive returned 401: expired or invalid token"@)
            } else if status == 403 {
                drive_refuses(received, event, 403, "Drive returned 403: no permission for this file"@)
            } else if status == 404 {
                drive_refuses(received, event, 404, "Drive returned 404: file not found"@)
            } else {
                exists|digits: Seq<char>|
                    is_digits(digits) && number(digits) == status && #[trigger] drive_refuses(
                        received,
                        event,
                        500,
                        "Drive returned unexpected status "@ + digits,
                    )
            }
        }),
{
    let digits = numeral(status as nat);
    law_numeral_denotes_its_number(status as nat);
    assert forall|i: int| 0 <= i < digits.len() implies '0' <= #[trigger] digits[i] <= '9' by {
        assert(is_digit(digits[i]));
    }
    if status != 200 && status != 401 && status != 403 && status != 404 {
        assert(drive_refuses(
            received,
            DriveEventView::Answered { status, content_length },
            500,
            "Drive returned unexpected status "@ + digits,
        ));
    }
}

/// A download takes in each chunk in full as long as it stays within 2 GB, and is complete
/// at the end of the stream; what goes wrong is answered with 500 and says what it is.
pub proof fn law_download_goes_by_its_events(received: u64, length: usize, reason: Seq<char>)
    ensures
        received + length <= 2147483648 ==> drive_step(received, DriveEventView::Chunk(length)) == (
            (received + length) as u64,
            DriveActionView::Write,
        ),
        received + length > 2147483648 ==> drive_refuses(
            received,
            DriveEventView::Chunk(length),
            413,
            "video exceeds 2 GB server limit"@,
        ),
        drive_step(received, DriveEventView::Ended) == (received, DriveActionView::Complete),
        drive_refuses(received, DriveEventView::NoClient, 500, "internal error"@),
        drive_refuses(received, DriveEventView::StorageFailed, 500, "internal error"@),
        drive_refuses(received, DriveEventView::StreamFailed, 500, "stream read error"@),
        drive_refuses(received, DriveEventView::FetchFailed(reason), 500, "Drive fetch failed: "@ + reason),
{
}

/// Whether an event changes nothing in a request for one frame and is answered with this
/// error.
pub open spec fn frame_url_refuses(
    job: FrameUrlJob,
    event: FrameUrlEventView,
    status: u16,
    message: Seq<char>,
) -> bool {
    &&& frame_url_step(job, event).0 == job
    &&& frame_url_step(job, event).1 matches FrameUrlActionView::Reply(reply) && says(reply, status, message)
}

/// A request for one frame is fetched just if it gives a URL, a token and a second below
/// sixty. What is fetched is its URL, character for character, with its token behind
/// `Bearer `; and what is missing is said, the URL before the token and that before the
/// second.
pub proof fn law_frame_url_is_fetched_as_given(job: FrameUrlJob, request: FrameUrlRequestView, reason: Seq<char>)
    ensures
        ({
            let event = FrameUrlEventView::Body(Ok(request));
            if request.video_url.len() == 0 {
                frame_url_refuses(job, event, 400, "video_url is required"@)
            } else if request.access_token.len() == 0 {
                frame_url_refuses(job, event, 400, "access_token is required"@)
            } else if request.second >= 60 {
                frame_url_refuses(job, event, 400, "second must be 0-59"@)
            } else {
                &&& frame_url_step(job, event).0.seek_secs == 60 * request.minute + request.second
                &&& frame_url_step(job, event).0.received == 0
                &&& frame_url_step(job, event).1 matches FrameUrlActionView::Fetch(fetch) && fetch.url
                    == request.video_url && fetch.authorization == "Bearer "@ + request.access_token
            }
        }),
        frame_url_refuses(job, FrameUrlEventView::Body(Err(reason)), 422, reason),
{
}

/// The download of a request for one frame keeps its position and counts its bytes; once
/// the video is complete, the frame is taken at that number of seconds, within 55 seconds.
pub proof fn law_frame_url_goes_by_its_download(job: FrameUrlJob, event: DriveEventView)
    ensures
        frame_url_step(job, FrameUrlEventView::Drive(event)).0 == (FrameUrlJob {
            seek_secs: job.seek_secs,
            received: drive_step(job.received, event).0,
        }),
        ({
            let action = frame_url_step(job, FrameUrlEventView::Drive(event)).1;
            match drive_step(job.received, event).1 {
                DriveActionView::Store => action == FrameUrlActionView::StoreVideo,
                DriveActionView::Write => action == FrameUrlActionView::WriteChunk,
                DriveActionView::Reply(reply) => action == FrameUrlActionView::Reply(reply),
                DriveActionView::Complete => action matches FrameUrlActionView::Extract(command) && {
                    let seek = command.arguments[1]->Text_0;
                    takes_one_frame(command, seek, 55) && is_digits(seek) && number(seek) == job.seek_secs
                },
            }
        }),
{
    let seek = numeral(job.seek_secs as nat);
    law_numeral_denotes_its_number(job.seek_secs as nat);
    assert forall|i: int| 0 <= i < seek.len() implies '0' <= #[trigger] seek[i] <= '9' by {
        assert(is_digit(seek[i]));
    }
}

/// The end of a run is answered as the run calls for, with all that a successful run wrote.
pub proof fn law_frame_url_is_answered_with_the_frame(job: FrameUrlJob, run: RunView)
    ensures
        frame_url_step(job, FrameUrlEventView::Finished(run)).0 == job,
        frame_url_step(job, FrameUrlEventView::Finished(run)).1 == FrameUrlActionView::Reply(frame_answer(run)),
        run matches RunView::Exited { success, stdout, stderr } ==> success && stdout.len() > 0 ==> (
        frame_url_step(job, FrameUrlEventView::Finished(run)).1 matches FrameUrlActionView::Reply(reply)
            && hands_out(reply, "image/jpeg"@, stdout)),
{
}

/// Whether an event changes nothing in a request for many frames and is answered with this
/// error.
pub open spec fn frames_url_refuses(
    job: FramesUrlJobView,
    event: FramesUrlEventView,
    status: u16,
    message: Seq<char>,
) -> bool {
    &&& frames_url_step(job, event).0 == job
    &&& frames_url_step(job, event).1 matches FramesUrlActionView::Reply(reply) && says(reply, status, message)
}

/// A request for many frames is fetched just if it gives a URL, a token and one to sixty
/// timestamps, which are kept as they are. What is fetched is its URL, character for
/// character, with its token behind `Bearer `; and what is wrong is said.
pub proof fn law_frames_url_is_fetched_as_given(
    job: FramesUrlJobView,
    request: FramesUrlRequestView,
    reason: Seq<char>,
)
    ensures
        ({
            let event = FramesUrlEventView::Body(Ok(request));
            if request.video_url.len() == 0 {
                frames_url_refuses(job, event, 400, "video_url is required"@)
            } else if request.access_token.len() == 0 {
                frames_url_refuses(job, event, 400, "access_token is required"@)
            } else if request.timestamps.len() == 0 {
                frames_url_refuses(job, event, 400, "timestamps array is required and must not be empty"@)
            } else if request.timestamps.len() > 60 {
                frames_url_refuses(job, event, 422, "exceeded maximum of 60 timestamps per request"@)
            } else {
                &&& frames_url_step(job, event).0.timestamps == request.timestamps
                &&& frames_url_step(job, event).0.received == 0
                &&& frames_url_step(job, event).1 matches FramesUrlActionView::Fetch(fetch) && fetch.url
                    == request.video_url && fetch.authorization == "Bearer "@ + request.access_token
            }
        }),
        frames_url_refuses(job, FramesUrlEventView::Body(Err(reason)), 422, reason),
{
}

/// The download of a request for many frames keeps its timestamps and counts its bytes;
/// once the video is complete, there is a plan for each of them, in order.
pub proof fn law_frames_url_goes_by_its_download(job: FramesUrlJobView, event: DriveEventView, i: int)
    ensures
        ({
            let (next, action) = frames_url_step(job, FramesUrlEventView::Drive(event));
            &&& next.received == drive_step(job.received, event).0
            &&& match drive_step(job.received, event).1 {
                DriveActionView::Store => next.timestamps == job.timestamps && action
                    == FramesUrlActionView::StoreVideo,
                DriveActionView::Write => next.timestamps == job.timestamps && action
                    == FramesUrlActionView::WriteChunk,
                DriveActionView::Reply(reply) => next.timestamps == job.timestamps && action
                    == FramesUrlActionView::Reply(reply),
                DriveActionView::Complete => action matches FramesUrlActionView::ExtractAll(plans) && {
                    &&& plans.len() == job.timestamps.len()
                    &&& 0 <= i < plans.len() ==> plans[i] == planned(
                        job.timestamps[i],
                        "Invalid timestamp format, must be seconds or MM:SS or HH:MM:SS"@,
                    )
                },
            }
        }),
{
}

/// The outcomes of a batch are answered with the archive of just these outcomes, as a ZIP,
/// or with 500 and the reason why there is none.
pub proof fn law_frames_url_is_answered_with_its_archive(job: FramesUrlJobView, outcomes: Seq<OutcomeView>)
    ensures
        frames_url_step(job, FramesUrlEventView::Finished(outcomes)).0 == job,
        match url_archive(outcomes) {
            Ok(archive) => frames_url_step(
                job,
                FramesUrlEventView::Finished(outcomes),
            ).1 matches FramesUrlActionView::Reply(reply) && hands_out(reply, "application/zip"@, archive)
                && reply.headers.len() == 1,
            Err(PackFaultView::NameTooLong) => frames_url_refuses(
                job,
                FramesUrlEventView::Finished(outcomes),
                500,
                "internal error"@,
            ),
            Err(PackFaultView::Message(text)) => frames_url_refuses(
                job,
                FramesUrlEventView::Finished(outcomes),
                500,
                text,
            ),
        },
        frames_url_refuses(job, FramesUrlEventView::PackingLost, 500, "internal error"@),
{
}

/// What is stated of requests and downloads is stated of their own fields.
pub proof fn law_downloads_are_seen_as_they_are(
    fetch: DriveRequest,
    event: DriveEvent,
    one: ExtractFrameUrlRequest,
    many: ExtractFramesUrlRequest,
    job: FramesUrlJob,
    i: int,
)
    ensures
        fetch@.url == fetch.url@,
        fetch@.authorization == fetch.authorization@,
        match event {
            DriveEvent::NoClient => event@ == DriveEventView::NoClient,
            DriveEvent::FetchFailed(reason) => event@ == DriveEventView::FetchFailed(reason@),
            DriveEvent::Answered { status, content_length } => event@ == (DriveEventView::Answered {
                status,
                content_length,
            }),
            DriveEvent::StorageFailed => event@ == DriveEventView::StorageFailed,
            DriveEvent::Chunk(length) => event@ == DriveEventView::Chunk(length),
            DriveEvent::StreamFailed => event@ == DriveEventView::StreamFailed,
            DriveEvent::Ended => event@ == DriveEventView::Ended,
        },
        one@.video_url == one.video_url@,
        one@.access_token == one.access_token@,
        one@.minute == one.minute,
        one@.second == one.second,
        many@.video_url == many.video_url@,
        many@.access_token == many.access_token@,
        many@.timestamps.len() == many.timestamps@.len(),
        0 <= i < many.timestamps@.len() ==> many@.timestamps[i] == many.timestamps@[i]@,
        job@.received == job.received,
        job@.timestamps.len() == job.timestamps@.len(),
        0 <= i < job.timestamps@.len() ==> job@.timestamps[i] == job.timestamps@[i]@,
{
}

/// What is stated of events and actions is stated of what they carry.
pub proof fn law_url_steps_are_seen_as_they_are(
    one: FrameUrlEvent,
    many: FramesUrlEvent,
    act: FrameUrlAction,
    acts: FramesUrlAction,
)
    ensures
        match one {
            FrameUrlEvent::Body(Ok(request)) => one@ == FrameUrlEventView::Body(Ok(request@)),
            FrameUrlEvent::Body(Err(reason)) => one@ == FrameUrlEventView::Body(Err(reason@)),
            FrameUrlEvent::Drive(event) => one@ == FrameUrlEventView::Drive(event@),
            FrameUrlEvent::Finished(run) => one@ == FrameUrlEventView::Finished(run@),
        },
        match many {
            FramesUrlEvent::Body(Ok(request)) => many@ == FramesUrlEventView::Body(Ok(request@)),
            FramesUrlEvent::Body(Err(reason)) => many@ == FramesUrlEventView::Body(Err(reason@)),
            FramesUrlEvent::Drive(event) => many@ == FramesUrlEventView::Drive(event@),
            FramesUrlEvent::Finished(outcomes) => many@ == FramesUrlEventView::Finished(outcome_views(outcomes@)),
            FramesUrlEvent::PackingLost => many@ == FramesUrlEventView::PackingLost,
        },
        match act {
            FrameUrlAction::Fetch(request) => act@ == FrameUrlActionView::Fetch(request@),
            FrameUrlAction::StoreVideo => act@ == FrameUrlActionView::StoreVideo,
            FrameUrlAction::WriteChunk => act@ == FrameUrlActionView::WriteChunk,
            FrameUrlAction::Extract(command) => act@ == FrameUrlActionView::Extract(command@),
            FrameUrlAction::Reply(reply) => act@ == FrameUrlActionView::Reply(reply@),
        },
        match acts {
            FramesUrlAction::Fetch(request) => acts@ == FramesUrlActionView::Fetch(request@),
            FramesUrlAction::StoreVideo => acts@ == FramesUrlActionView::StoreVideo,
            FramesUrlAction::WriteChunk => acts@ == FramesUrlActionView::WriteChunk,
            FramesUrlAction::ExtractAll(plans) => acts@ == FramesUrlActionView::ExtractAll(plan_views(plans@)),
            FramesUrlAction::Reply(reply) => acts@ == FramesUrlActionView::Reply(reply@),
        },
{
}

} // verus!
