//! Requests that carry the video: the forms for one frame and for many, read field
//! by field. Each function here takes what a form holds so far and what happened,
//! and gives what it holds then and what is to be done.
use crate::batch::{
    download_archive, download_reads_back, outcome_views, pack_download, plan_frames, plan_views, planned,
    FrameOutcome, FramePlan, OutcomeView, PlanView,
};
use crate::ffmpeg::{
    answer_frame, extraction, frame_answer, frame_command, reads_as_encoded, takes_one_frame, Command,
    CommandView, Run, RunView, FRAME_TIMEOUT_SECS,
};
use crate::number::{
    is_digit, is_digits, law_numeral_denotes_its_number, number, numeral, parse_u32, spelled_u32,
};
use crate::reply::{
    hands_out, is_error, is_jpeg, json_error, json_reply, says, zip_download, zip_download_reply, Reply, ReplyView,
};
use crate::text::{optional_text, same_text, texts};
use crate::timestamp::{
    listed_timestamps, position, seek_seconds, split_timestamps, MAX_TIMESTAMPS,
};
use vstd::prelude::*;

verus! {

/// The fields of the form for one frame.
#[derive(Debug, PartialEq, Eq)]
pub struct ExtractFrameRequest {
    /// The video file to process.
    pub video: String,
    /// The minute of the timestamp.
    pub minute: u32,
    /// The second of the timestamp.
    pub second: u32,
}

/// The fields of the form for many frames.
#[derive(Debug, PartialEq, Eq)]
pub struct ExtractFramesRequest {
    /// The video file to process.
    pub video: String,
    /// Comma-separated list of formatted timestamps (e.g., '10,90,01:30').
    pub timestamps: String,
}

/// A text field of the form for one frame.
#[derive(Debug, Clone, Copy, PartialEq, Eq)]
pub enum TextField {
    Minute,
    Second,
}

/// What the form for one frame holds so far.
#[derive(Debug, Clone, Copy, PartialEq, Eq)]
pub struct FrameForm {
    pub has_video: bool,
    pub minute: Option<u32>,
    pub second: Option<u32>,
}

/// What can happen while the form for one frame is read and served.
#[derive(Debug, PartialEq, Eq)]
pub enum FrameEvent {
    /// The form goes on with a field of this name, if it has one.
    Field(Option<String>),
    /// The text of a field was read, or could not be.
    Text(TextField, Option<String>),
    /// The video is stored.
    VideoStored,
    /// The form could not be read.
    FormUnreadable,
    /// The video could not be read from the form.
    VideoUnreadable,
    /// There is no place to store the video, or it could not be written there.
    StorageFailed,
    /// The form is at its end.
    End,
    /// The run that was asked for ended.
    Finished(Run),
}

/// What is to be done next for the form for one frame.
#[derive(Debug, PartialEq, Eq)]
pub enum FrameAction {
    /// Read on to the next field.
    NextField,
    /// Store the field as the video, in place of one that is stored already.
    StoreVideo,
    /// Read the field as this text.
    ReadText(TextField),
    /// Run the command on the stored video.
    Extract(Command),
    /// Answer the request.
    Reply(Reply),
}

/// What can happen to the form for one frame, as mathematical values.
pub enum FrameEventView {
    Field(Option<Seq<char>>),
    Text(TextField, Option<Seq<char>>),
    VideoStored,
    FormUnreadable,
    VideoUnreadable,
    StorageFailed,
    End,
    Finished(RunView),
}

/// What is to be done for the form for one frame, as mathematical values.
pub enum FrameActionView {
    NextField,
    StoreVideo,
    ReadText(TextField),
    Extract(CommandView),
    Reply(ReplyView),
}

impl View for FrameEvent {
    type V = FrameEventView;

    open spec fn view(&self) -> FrameEventView {
        match *self {
            FrameEvent::Field(name) => FrameEventView::Field(optional_text(name)),
            FrameEvent::Text(field, text) => FrameEventView::Text(field, optional_text(text)),
            FrameEvent::VideoStored => FrameEventView::VideoStored,
            FrameEvent::FormUnreadable => FrameEventView::FormUnreadable,
            FrameEvent::VideoUnreadable => FrameEventView::VideoUnreadable,
            FrameEvent::StorageFailed => FrameEventView::StorageFailed,
            FrameEvent::End => FrameEventView::End,
            FrameEvent::Finished(run) => FrameEventView::Finished(run@),
        }
    }
}

impl View for FrameAction {
    type V = FrameActionView;

    open spec fn view(&self) -> FrameActionView {
        match *self {
            FrameAction::NextField => FrameActionView::NextField,
            FrameAction::StoreVideo => FrameActionView::StoreVideo,
            FrameAction::ReadText(field) => FrameActionView::ReadText(field),
            FrameAction::Extract(command) => FrameActionView::Extract(command@),
            FrameAction::Reply(reply) => FrameActionView::Reply(reply@),
        }
    }
}

/// What is to be done with a field of this name in the form for one frame. Fields
/// that the form does not know are passed over.
pub open spec fn frame_field(name: Option<Seq<char>>) -> FrameActionView {
    if name == Some("video"@) {
        FrameActionView::StoreVideo
    } else if name == Some("minute"@) {
        FrameActionView::ReadText(TextField::Minute)
    } else if name == Some("second"@) {
        FrameActionView::ReadText(TextField::Second)
    } else {
        FrameActionView::NextField
    }
}

/// The seek position that a form asks for, in seconds; what it leaves out is zero.
pub open spec fn form_position(form: FrameForm) -> int {
    position(
        match form.minute {
            Some(minute) => minute,
            None => 0,
        },
        match form.second {
            Some(second) => second,
            None => 0,
        },
    )
}

/// The reply to a field of the form for one frame that holds no number.
pub open spec fn not_a_number(field: TextField) -> ReplyView {
    match field {
        TextField::Minute => json_error(400, "minute must be a whole number"@),
        TextField::Second => json_error(400, "second must be a whole number"@),
    }
}

/// The reply to a form that could not be read.
pub open spec fn unreadable_form() -> ReplyView {
    json_error(400, "multipart form could not be read"@)
}

/// The reply to a form whose video could not be read.
pub open spec fn unreadable_video() -> ReplyView {
    json_error(400, "video could not be read"@)
}

/// The reply to a form without a video.
pub open spec fn no_video() -> ReplyView {
    json_error(400, "video is required"@)
}

/// The reply when the video could not be stored.
pub open spec fn not_stored() -> ReplyView {
    json_error(500, "internal error"@)
}

/// What a form holds after an event, and what is to be done then.
pub open spec fn frame_step(form: FrameForm, event: FrameEventView) -> (FrameForm, FrameActionView) {
    match event {
        FrameEventView::Field(name) => (form, frame_field(name)),
        FrameEventView::Text(field, text) => match text {
            Some(digits) => match (spelled_u32(digits), field) {
                (Some(n), TextField::Minute) => (
                    FrameForm { minute: Some(n), ..form },
                    FrameActionView::NextField,
                ),
                (Some(n), TextField::Second) => (
                    FrameForm { second: Some(n), ..form },
                    FrameActionView::NextField,
                ),
                (None, _) => (form, FrameActionView::Reply(not_a_number(field))),
            },
            None => (form, FrameActionView::Reply(not_a_number(field))),
        },
        FrameEventView::VideoStored => (
            FrameForm { has_video: true, ..form },
            FrameActionView::NextField,
        ),
        FrameEventView::FormUnreadable => (form, FrameActionView::Reply(unreadable_form())),
        FrameEventView::VideoUnreadable => (form, FrameActionView::Reply(unreadable_video())),
        FrameEventView::StorageFailed => (form, FrameActionView::Reply(not_stored())),
        FrameEventView::End => if form.has_video {
            (
                form,
                FrameActionView::Extract(
                    extraction(numeral(form_position(form) as nat), FRAME_TIMEOUT_SECS),
                ),
            )
        } else {
            (form, FrameActionView::Reply(no_video()))
        },
        FrameEventView::Finished(run) => (form, FrameActionView::Reply(frame_answer(run))),
    }
}

impl FrameForm {
    /// A form of which nothing has been read.
    pub fn new() -> (form: FrameForm)
        ensures
            form == (FrameForm { has_video: false, minute: None, second: None }),
    {
        FrameForm { has_video: false, minute: None, second: None }
    }
}

/// Extract a frame from a video segment.
///
/// The form holds a video file and the time coordinates (`minute` and `second`) of
/// the frame. The reply is `image/jpeg` binary data on success.
pub fn extract_frame(form: FrameForm, event: FrameEvent) -> (next: (FrameForm, FrameAction))
    ensures
        (next.0, next.1@) == frame_step(form, event@),
        event@ matches FrameEventView::Finished(run) ==> reads_as_encoded(run),
{
    match event {
        FrameEvent::Field(name) => {
            let action = match name {
                Some(name) => {
                    if same_text(name.as_str(), "video") {
                        FrameAction::StoreVideo
                    } else if same_text(name.as_str(), "minute") {
                        FrameAction::ReadText(TextField::Minute)
                    } else if same_text(name.as_str(), "second") {
                        FrameAction::ReadText(TextField::Second)
                    } else {
                        FrameAction::NextField
                    }
                },
                None => FrameAction::NextField,
            };
            (form, action)
        },
        FrameEvent::Text(field, text) => {
            let value = match text {
                Some(text) => parse_u32(text.as_str()),
                None => None,
            };
            match value {
                Some(n) => {
                    let mut form = form;
                    match field {
                        TextField::Minute => {
                            form.minute = Some(n);
                        },
                        TextField::Second => {
                            form.second = Some(n);
                        },
                    }
                    (form, FrameAction::NextField)
                },
                None => {
                    let reply = match field {
                        TextField::Minute => json_reply(400, "minute must be a whole number"),
                        TextField::Second => json_reply(400, "second must be a whole number"),
                    };
                    (form, FrameAction::Reply(reply))
                },
            }
        },
        FrameEvent::VideoStored => {
            let mut form = form;
            form.has_video = true;
            (form, FrameAction::NextField)
        },
        FrameEvent::FormUnreadable => (
            form,
            FrameAction::Reply(json_reply(400, "multipart form could not be read")),
        ),
        FrameEvent::VideoUnreadable => (
            form,
            FrameAction::Reply(json_reply(400, "video could not be read")),
        ),
        FrameEvent::StorageFailed => (
            form,
            FrameAction::Reply(json_reply(500, "internal error")),
        ),
        FrameEvent::End => {
            if !form.has_video {
                return (form, FrameAction::Reply(json_reply(400, "video is required")));
            }
            let minute: u32 = form.minute.unwrap_or(0);
            let second: u32 = form.second.unwrap_or(0);
            let seek_secs = seek_seconds(minute, second);
            (form, FrameAction::Extract(frame_command(seek_secs)))
        },
        FrameEvent::Finished(run) => (form, FrameAction::Reply(answer_frame(run))),
    }
}

/// What the form for many frames holds so far.
#[derive(Debug, PartialEq, Eq)]
pub struct FramesForm {
    pub has_video: bool,
    pub timestamps: Option<String>,
}

/// What the form for many frames holds, as mathematical values.
pub struct FramesFormView {
    pub has_video: bool,
    pub timestamps: Option<Seq<char>>,
}

impl View for FramesForm {
    type V = FramesFormView;

    open spec fn view(&self) -> FramesFormView {
        FramesFormView { has_video: self.has_video, timestamps: optional_text(self.timestamps) }
    }
}

/// What can happen while the form for many frames is read and served.
#[derive(Debug, PartialEq, Eq)]
pub enum FramesEvent {
    /// The form goes on with a field of this name, if it has one.
    Field(Option<String>),
    /// The text of the timestamps was read, or could not be.
    Text(Option<String>),
    /// The video is stored.
    VideoStored,
    /// The form could not be read.
    FormUnreadable,
    /// The video could not be read from the form.
    VideoUnreadable,
    /// There is no place to store the video, or it could not be written there.
    StorageFailed,
    /// The form is at its end.
    End,
    /// All plans were carried out, with these outcomes in the order that they came in.
    Finished(Vec<FrameOutcome>),
    /// The task that was to pack the frames did not come to its end.
    PackingLost,
}

/// What is to be done next for the form for many frames.
#[derive(Debug, PartialEq, Eq)]
pub enum FramesAction {
    /// Read on to the next field.
    NextField,
    /// Store the field as the video, in place of one that is stored already.
    StoreVideo,
    /// Read the field as the timestamps.
    ReadText,
    /// Carry out the plans on the stored video.
    ExtractAll(Vec<FramePlan>),
    /// Answer the request.
    Reply(Reply),
}

/// What can happen to the form for many frames, as mathematical values.
pub enum FramesEventView {
    Field(Option<Seq<char>>),
    Text(Option<Seq<char>>),
    VideoStored,
    FormUnreadable,
    VideoUnreadable,
    StorageFailed,
    End,
    Finished(Seq<OutcomeView>),
    PackingLost,
}

/// What is to be done for the form for many frames, as mathematical values.
pub enum FramesActionView {
    NextField,
    StoreVideo,
    ReadText,
    ExtractAll(Seq<PlanView>),
    Reply(ReplyView),
}

impl View for FramesEvent {
    type V = FramesEventView;

    open spec fn view(&self) -> FramesEventView {
        match *self {
            FramesEvent::Field(name) => FramesEventView::Field(optional_text(name)),
            FramesEvent::Text(text) => FramesEventView::Text(optional_text(text)),
            FramesEvent::VideoStored => FramesEventView::VideoStored,
            FramesEvent::FormUnreadable => FramesEventView::FormUnreadable,
            FramesEvent::VideoUnreadable => FramesEventView::VideoUnreadable,
            FramesEvent::StorageFailed => FramesEventView::StorageFailed,
            FramesEvent::End => FramesEventView::End,
            FramesEvent::Finished(outcomes) => FramesEventView::Finished(outcome_views(outcomes@)),
            FramesEvent::PackingLost => FramesEventView::PackingLost,
        }
    }
}

impl View for FramesAction {
    type V = FramesActionView;

    open spec fn view(&self) -> FramesActionView {
        match *self {
            FramesAction::NextField => FramesActionView::NextField,
            FramesAction::StoreVideo => FramesActionView::StoreVideo,
            FramesAction::ReadText => FramesActionView::ReadText,
            FramesAction::ExtractAll(plans) => FramesActionView::ExtractAll(plan_views(plans@)),
            FramesAction::Reply(reply) => FramesActionView::Reply(reply@),
        }
    }
}

/// What is to be done with a field of this name in the form for many frames.
pub open spec fn frames_field(name: Option<Seq<char>>) -> FramesActionView {
    if name == Some("video"@) {
        FramesActionView::StoreVideo
    } else if name == Some("timestamps"@) {
        FramesActionView::ReadText
    } else {
        FramesActionView::NextField
    }
}

/// What a timestamp of the form is refused with that asks for no position.
pub open spec fn form_refusal() -> Seq<char> {
    "Invalid timestamp format, must be seconds or MM:SS"@
}

/// What is to be done at the end of the form for many frames.
pub open spec fn frames_end(form: FramesFormView) -> FramesActionView {
    match form.timestamps {
        _ if !form.has_video => FramesActionView::Reply(no_video()),
        None => FramesActionView::Reply(json_error(400, "timestamps field is required"@)),
        Some(raw) => {
            let list = listed_timestamps(raw);
            if list.len() == 0 {
                FramesActionView::Reply(json_error(400, "No timestamps provided"@))
            } else if list.len() > MAX_TIMESTAMPS {
                FramesActionView::Reply(
                    json_error(400, "Exceeded maximum of 60 frames per request"@),
                )
            } else {
                FramesActionView::ExtractAll(
                    list.map_values(|timestamp: Seq<char>| planned(timestamp, form_refusal())),
                )
            }
        },
    }
}

/// The reply when there is no archive to hand out.
pub open spec fn no_download() -> ReplyView {
    json_error(500, "Failed to build zip archive"@)
}

/// The reply that hands out the archive of these outcomes, or says that there is none.
pub open spec fn download_answer(outcomes: Seq<OutcomeView>) -> ReplyView {
    match download_archive(outcomes) {
        Some(archive) => zip_download(archive),
        None => no_download(),
    }
}

/// What the form for many frames holds after an event, and what is to be done then.
pub open spec fn frames_step(form: FramesFormView, event: FramesEventView) -> (
    FramesFormView,
    FramesActionView,
) {
    match event {
        FramesEventView::Field(name) => (form, frames_field(name)),
        FramesEventView::Text(text) => match text {
            Some(_) => (FramesFormView { timestamps: text, ..form }, FramesActionView::NextField),
            None => (
                form,
                FramesActionView::Reply(json_error(400, "timestamps could not be read"@)),
            ),
        },
        FramesEventView::VideoStored => (
            FramesFormView { has_video: true, ..form },
            FramesActionView::NextField,
        ),
        FramesEventView::FormUnreadable => (form, FramesActionView::Reply(unreadable_form())),
        FramesEventView::VideoUnreadable => (form, FramesActionView::Reply(unreadable_video())),
        FramesEventView::StorageFailed => (form, FramesActionView::Reply(not_stored())),
        FramesEventView::End => (form, frames_end(form)),
        FramesEventView::Finished(outcomes) => (form, FramesActionView::Reply(download_answer(outcomes))),
        FramesEventView::PackingLost => (form, FramesActionView::Reply(no_download())),
    }
}

impl FramesForm {
    /// A form of which nothing has been read.
    pub fn new() -> (form: FramesForm)
        ensures
            form@ == (FramesFormView { has_video: false, timestamps: None }),
    {
        FramesForm { has_video: false, timestamps: None }
    }
}

/// What is to be done at the end of the form for many frames.
fn end_frames_form(form: &FramesForm) -> (action: FramesAction)
    ensures
        action@ == frames_end(form@),
{
    if !form.has_video {
        return FramesAction::Reply(json_reply(400, "video is required"));
    }
    match &form.timestamps {
        Some(raw) => {
            let list = split_timestamps(raw.as_str());
            assert(texts(list@).len() == list.len());
            if list.len() == 0 {
                FramesAction::Reply(json_reply(400, "No timestamps provided"))
            } else if list.len() > MAX_TIMESTAMPS {
                FramesAction::Reply(json_reply(400, "Exceeded maximum of 60 frames per request"))
            } else {
                let plans = plan_frames(list, "Invalid timestamp format, must be seconds or MM:SS");
                FramesAction::ExtractAll(plans)
            }
        },
        None => FramesAction::Reply(json_reply(400, "timestamps field is required")),
    }
}

/// Extract multiple frames from a single video segment.
///
/// The form holds a video file and a comma-separated list of `timestamps`. The reply
/// is an `application/zip` with the extracted JPEGs and an `extraction_report.json`
/// that describes successes and failures.
pub fn extract_frames(form: FramesForm, event: FramesEvent) -> (next: (FramesForm, FramesAction))
    ensures
        (next.0@, next.1@) == frames_step(form@, event@),
        event@ matches FramesEventView::Finished(outcomes) ==> download_reads_back(outcomes),
{
    match event {
        FramesEvent::Field(name) => {
            let action = match name {
                Some(name) => {
                    if same_text(name.as_str(), "video") {
                        FramesAction::StoreVideo
                    } else if same_text(name.as_str(), "timestamps") {
                        FramesAction::ReadText
                    } else {
                        FramesAction::NextField
                    }
                },
                None => FramesAction::NextField,
            };
            (form, action)
        },
        FramesEvent::Text(text) => match text {
            Some(text) => {
                let mut form = form;
                form.timestamps = Some(text);
                (form, FramesAction::NextField)
            },
            None => (
                form,
                FramesAction::Reply(json_reply(400, "timestamps could not be read")),
            ),
        },
        FramesEvent::VideoStored => {
            let mut form = form;
            form.has_video = true;
            (form, FramesAction::NextField)
        },
        FramesEvent::FormUnreadable => (
            form,
            FramesAction::Reply(json_reply(400, "multipart form could not be read")),
        ),
        FramesEvent::VideoUnreadable => (
            form,
            FramesAction::Reply(json_reply(400, "video could not be read")),
        ),
        FramesEvent::StorageFailed => (
            form,
            FramesAction::Reply(json_reply(500, "internal error")),
        ),
        FramesEvent::End => {
            let action = end_frames_form(&form);
            (form, action)
        },
        FramesEvent::Finished(outcomes) => {
            let reply = match pack_download(outcomes) {
                Some(archive) => zip_download_reply(archive),
                None => json_reply(500, "Failed to build zip archive"),
            };
            (form, FramesAction::Reply(reply))
        },
        FramesEvent::PackingLost => (
            form,
            FramesAction::Reply(json_reply(500, "Failed to build zip archive")),
        ),
    }
}

/// What the form for one frame holds after events, from a form of which nothing has
/// been read.
pub open spec fn frame_form_after(events: Seq<FrameEventView>) -> FrameForm
    decreases events.len(),
{
    if events.len() == 0 {
        FrameForm { has_video: false, minute: None, second: None }
    } else {
        frame_step(frame_form_after(events.drop_last()), events.last()).0
    }
}

/// The number that an event gives for a field, if it gives one.
pub open spec fn given_number(event: FrameEventView, field: TextField) -> Option<u32> {
    match event {
        FrameEventView::Text(of, Some(digits)) => if of == field {
            spelled_u32(digits)
        } else {
            None
        },
        _ => None,
    }
}

/// The last number that events give for a field.
pub open spec fn last_number(events: Seq<FrameEventView>, field: TextField) -> Option<u32>
    decreases events.len(),
{
    if events.len() == 0 {
        None
    } else if given_number(events.last(), field) is Some {
        given_number(events.last(), field)
    } else {
        last_number(events.drop_last(), field)
    }
}

/// A form holds the video once one is stored, and of each text field the last number
/// that was given for it, whatever the order of the fields is.
pub proof fn law_last_number_of_a_field_counts(events: Seq<FrameEventView>)
    ensures
        frame_form_after(events) == (FrameForm {
            has_video: events.contains(FrameEventView::VideoStored),
            minute: last_number(events, TextField::Minute),
            second: last_number(events, TextField::Second),
        }),
    decreases events.len(),
{
    if events.len() > 0 {
        let before = events.drop_last();
        law_last_number_of_a_field_counts(before);
        assert(before.push(events.last()) =~= events);
        assert(events[events.len() - 1] == events.last());
        if before.contains(FrameEventView::VideoStored) {
            let k = choose|k: int| 0 <= k < before.len() && before[k] == FrameEventView::VideoStored;
            assert(events[k] == FrameEventView::VideoStored);
        } else if events.contains(FrameEventView::VideoStored) {
            let k = choose|k: int| 0 <= k < events.len() && events[k] == FrameEventView::VideoStored;
            if k < before.len() {
                assert(before[k] == FrameEventView::VideoStored);
            }
        }
    }
}

/// A form that gave a video, a minute and a second is served with the frame at exactly
/// that position.
pub proof fn law_frame_is_taken_at_its_minute_and_second(
    events: Seq<FrameEventView>,
    request: ExtractFrameRequest,
)
    requires
        events.contains(FrameEventView::VideoStored),
        last_number(events, TextField::Minute) == Some(request.minute),
        last_number(events, TextField::Second) == Some(request.second),
    ensures
        frame_step(frame_form_after(events), FrameEventView::End).1 == FrameActionView::Extract(
            extraction(
                numeral(position(request.minute, request.second) as nat),
                FRAME_TIMEOUT_SECS,
            ),
        ),
{
    law_last_number_of_a_field_counts(events);
}

/// Nothing is run for a form without a video: it is answered with 400.
pub proof fn law_no_frame_without_a_video(events: Seq<FrameEventView>)
    requires
        !events.contains(FrameEventView::VideoStored),
    ensures
        frame_step(frame_form_after(events), FrameEventView::End).1 == FrameActionView::Reply(no_video()),
{
    law_last_number_of_a_field_counts(events);
}

/// The frames that a form asks for are extracted in one batch, which holds a plan for
/// each timestamp of its list, in order, and never more than the limit.
pub proof fn law_batch_of_a_form_is_its_list(form: FramesFormView, request: ExtractFramesRequest)
    requires
        form.has_video,
        form.timestamps == Some(request.timestamps@),
    ensures
        frames_end(form) is ExtractAll <==> 1 <= listed_timestamps(request.timestamps@).len()
            <= MAX_TIMESTAMPS,
        frames_end(form) matches FramesActionView::ExtractAll(plans) ==> plans.len() == listed_timestamps(
            request.timestamps@,
        ).len() && forall|i: int|
            0 <= i < plans.len() ==> #[trigger] plans[i] == planned(
                listed_timestamps(request.timestamps@)[i],
                form_refusal(),
            ),
{
}

/// A form without a video or without timestamps is answered with 400, and nothing is
/// run for it.
pub proof fn law_incomplete_form_is_refused(form: FramesFormView)
    requires
        !form.has_video || form.timestamps is None,
    ensures
        frames_end(form) == FramesActionView::Reply(
            if form.has_video {
                json_error(400, "timestamps field is required"@)
            } else {
                no_video()
            },
        ),
{
}

/// Whatever happens to the form for one frame, it is answered with a JPEG, or with an
/// error of status 400, 422 or 500 and its message in JSON.
pub proof fn law_frame_replies_are_documented(form: FrameForm, event: FrameEventView)
    ensures
        frame_step(form, event).1 matches FrameActionView::Reply(reply) ==> is_jpeg(reply) || is_error(
            reply,
            set![400u16, 422u16, 500u16],
        ),
{
}

/// Whatever happens to the form for many frames, it is answered with a ZIP archive to
/// save, or with an error of status 400 or 500 and its message in JSON.
pub proof fn law_frames_replies_are_documented(form: FramesFormView, event: FramesEventView)
    ensures
        frames_step(form, event).1 matches FramesActionView::Reply(reply) ==> reply == zip_download(
            reply.body->Bytes_0,
        ) || is_error(reply, set![400u16, 500u16]),
{
}

/// A field of the form for one frame is stored if it is called `video`, read if it is
/// called `minute` or `second`, and passed over under any other name and under none. None
/// of it changes what the form holds.
pub proof fn law_frame_field_goes_by_its_name(form: FrameForm, name: Option<Seq<char>>)
    ensures
        frame_step(form, FrameEventView::Field(name)).0 == form,
        ({
            let action = frame_step(form, FrameEventView::Field(name)).1;
            &&& name == Some("video"@) <==> action == FrameActionView::StoreVideo
            &&& name == Some("minute"@) <==> action == FrameActionView::ReadText(TextField::Minute)
            &&& name == Some("second"@) <==> action == FrameActionView::ReadText(TextField::Second)
            &&& name != Some("video"@) && name != Some("minute"@) && name != Some("second"@) <==> action
                == FrameActionView::NextField
        }),
{
    reveal_strlit("video");
    reveal_strlit("minute");
    reveal_strlit("second");
    assert("video"@[0] == 'v' && "minute"@[0] == 'm' && "second"@[0] == 's');
}

/// A number that is read for a field is kept for that field, as it is, and for no other;
/// a text that is no number, or none, is answered with 400 and changes nothing.
pub proof fn law_number_is_kept_for_its_field(form: FrameForm, text: Seq<char>)
    ensures
        match spelled_u32(text) {
            Some(n) => {
                &&& frame_step(form, FrameEventView::Text(TextField::Minute, Some(text))) == (
                    FrameForm { has_video: form.has_video, minute: Some(n), second: form.second },
                    FrameActionView::NextField,
                )
                &&& frame_step(form, FrameEventView::Text(TextField::Second, Some(text))) == (
                    FrameForm { has_video: form.has_video, minute: form.minute, second: Some(n) },
                    FrameActionView::NextField,
                )
            },
            None => {
                &&& frame_refuses(
                    form,
                    FrameEventView::Text(TextField::Minute, Some(text)),
                    400,
                    "minute must be a whole number"@,
                )
                &&& frame_refuses(
                    form,
                    FrameEventView::Text(TextField::Second, Some(text)),
                    400,
                    "second must be a whole number"@,
                )
            },
        },
        frame_refuses(form, FrameEventView::Text(TextField::Minute, None), 400, "minute must be a whole number"@),
        frame_refuses(form, FrameEventView::Text(TextField::Second, None), 400, "second must be a whole number"@),
{
}

/// Whether an event changes nothing in the form for one frame and is answered with this
/// error.
pub open spec fn frame_refuses(form: FrameForm, event: FrameEventView, status: u16, message: Seq<char>) -> bool {
    &&& frame_step(form, event).0 == form
    &&& frame_step(form, event).1 matches FrameActionView::Reply(reply) && says(reply, status, message)
}

/// A form that cannot be read, has no video, or whose video cannot be read or stored, is
/// answered with an error that says so. A video that is stored changes nothing else.
pub proof fn law_frame_form_faults_are_answered(form: FrameForm)
    ensures
        frame_refuses(form, FrameEventView::FormUnreadable, 400, "multipart form could not be read"@),
        frame_refuses(form, FrameEventView::VideoUnreadable, 400, "video could not be read"@),
        frame_refuses(form, FrameEventView::StorageFailed, 500, "internal error"@),
        !form.has_video ==> frame_refuses(form, FrameEventView::End, 400, "video is required"@),
        frame_step(form, FrameEventView::VideoStored) == (
            FrameForm { has_video: true, minute: form.minute, second: form.second },
            FrameActionView::NextField,
        ),
{
}

/// A form with a video is served with the one frame at sixty times its minute plus its
/// second, counted in seconds, within 55 seconds; what it does not give counts as zero.
pub proof fn law_frame_is_looked_for_at_its_second(form: FrameForm)
    requires
        form.has_video,
    ensures
        frame_step(form, FrameEventView::End).0 == form,
        frame_step(form, FrameEventView::End).1 matches FrameActionView::Extract(command) && {
            let seek = command.arguments[1]->Text_0;
            let minute = if form.minute is Some { form.minute->Some_0 as int } else { 0 };
            let second = if form.second is Some { form.second->Some_0 as int } else { 0 };
            &&& takes_one_frame(command, seek, 55)
            &&& is_digits(seek)
            &&& number(seek) == 60 * minute + second
        },
{
    let at = form_position(form) as nat;
    law_numeral_denotes_its_number(at);
    assert forall|i: int| 0 <= i < numeral(at).len() implies '0' <= #[trigger] numeral(at)[i] <= '9' by {
        assert(is_digit(numeral(at)[i]));
    }
}

/// The end of a run is answered as the run calls for, with all that a successful run wrote.
pub proof fn law_form_is_answered_with_the_frame(form: FrameForm, run: RunView)
    ensures
        frame_step(form, FrameEventView::Finished(run)).0 == form,
        frame_step(form, FrameEventView::Finished(run)).1 == FrameActionView::Reply(frame_answer(run)),
        run matches RunView::Exited { success, stdout, stderr } ==> success && stdout.len() > 0 ==> (frame_step(
            form,
            FrameEventView::Finished(run),
        ).1 matches FrameActionView::Reply(reply) && hands_out(reply, "image/jpeg"@, stdout)),
{
}

/// A field of the form for many frames is stored if it is called `video`, read if it is
/// called `timestamps`, and passed over under any other name and under none.
pub proof fn law_frames_field_goes_by_its_name(form: FramesFormView, name: Option<Seq<char>>)
    ensures
        frames_step(form, FramesEventView::Field(name)).0 == form,
        ({
            let action = frames_step(form, FramesEventView::Field(name)).1;
            &&& name == Some("video"@) <==> action == FramesActionView::StoreVideo
            &&& name == Some("timestamps"@) <==> action == FramesActionView::ReadText
            &&& name != Some("video"@) && name != Some("timestamps"@) <==> action == FramesActionView::NextField
        }),
{
    reveal_strlit("video");
    reveal_strlit("timestamps");
    assert("video"@[0] == 'v' && "timestamps"@[0] == 't');
}

/// Whether an event changes nothing in the form for many frames and is answered with this
/// error.
pub open spec fn frames_refuses(
    form: FramesFormView,
    event: FramesEventView,
    status: u16,
    message: Seq<char>,
) -> bool {
    &&& frames_step(form, event).0 == form
    &&& frames_step(form, event).1 matches FramesActionView::Reply(reply) && says(reply, status, message)
}

/// The text of the timestamps that was read last is kept as it is, and a stored video
/// changes nothing else; what goes wrong is answered with an error that says so.
pub proof fn law_frames_form_keeps_what_it_reads(form: FramesFormView, text: Seq<char>)
    ensures
        frames_step(form, FramesEventView::Text(Some(text))) == (
            FramesFormView { has_video: form.has_video, timestamps: Some(text) },
            FramesActionView::NextField,
        ),
        frames_step(form, FramesEventView::VideoStored) == (
            FramesFormView { has_video: true, timestamps: form.timestamps },
            FramesActionView::NextField,
        ),
        frames_refuses(form, FramesEventView::Text(None), 400, "timestamps could not be read"@),
        frames_refuses(form, FramesEventView::FormUnreadable, 400, "multipart form could not be read"@),
        frames_refuses(form, FramesEventView::VideoUnreadable, 400, "video could not be read"@),
        frames_refuses(form, FramesEventView::StorageFailed, 500, "internal error"@),
        frames_refuses(form, FramesEventView::PackingLost, 500, "Failed to build zip archive"@),
        !form.has_video ==> frames_refuses(form, FramesEventView::End, 400, "video is required"@),
        form.has_video && form.timestamps is None ==> frames_refuses(
            form,
            FramesEventView::End,
            400,
            "timestamps field is required"@,
        ),
{
}

/// A form with a video and a list of one to sixty timestamps has a plan for each of them,
/// in order, under its own text; an empty list and a longer one are answered with 400.
pub proof fn law_form_plans_each_timestamp_of_its_list(form: FramesFormView, raw: Seq<char>, i: int)
    requires
        form.has_video,
        form.timestamps == Some(raw),
    ensures
        ({
            let list = listed_timestamps(raw);
            let end = FramesEventView::End;
            if list.len() == 0 {
                frames_refuses(form, end, 400, "No timestamps provided"@)
            } else if list.len() > 60 {
                frames_refuses(form, end, 400, "Exceeded maximum of 60 frames per request"@)
            } else {
                &&& frames_step(form, end).0 == form
                &&& frames_step(form, end).1 matches FramesActionView::ExtractAll(plans) && {
                    &&& plans.len() == list.len()
                    &&& 0 <= i < list.len() ==> plans[i] == planned(
                        list[i],
                        "Invalid timestamp format, must be seconds or MM:SS"@,
                    )
                }
            }
        }),
{
}

/// The outcomes of a batch are answered with the archive of just these outcomes, as a ZIP
/// to save under its name, or with 500 if there is none.
pub proof fn law_form_is_answered_with_its_archive(form: FramesFormView, outcomes: Seq<OutcomeView>)
    ensures
        frames_step(form, FramesEventView::Finished(outcomes)).0 == form,
        match download_archive(outcomes) {
            Some(archive) => frames_step(form, FramesEventView::Finished(outcomes)).1 matches FramesActionView::Reply(
                reply,
            ) && hands_out(reply, "application/zip"@, archive) && reply.headers.len() == 2 && reply.headers[1] == (
                "content-disposition"@,
                "attachment; filename=\"extracted_frames.zip\""@,
            ),
            None => frames_refuses(
                form,
                FramesEventView::Finished(outcomes),
                500,
                "Failed to build zip archive"@,
            ),
        },
{
}

/// What is stated of forms, events and actions is stated of their own fields.
pub proof fn law_uploads_are_seen_as_they_are(
    form: FramesForm,
    one: FrameEvent,
    many: FramesEvent,
    act: FrameAction,
    acts: FramesAction,
)
    ensures
        form@.has_video == form.has_video,
        form@.timestamps is Some == form.timestamps is Some,
        form.timestamps matches Some(text) ==> form@.timestamps == Some(text@),
        match one {
            FrameEvent::Field(Some(name)) => one@ == FrameEventView::Field(Some(name@)),
            FrameEvent::Field(None) => one@ == FrameEventView::Field(None),
            FrameEvent::Text(field, Some(text)) => one@ == FrameEventView::Text(field, Some(text@)),
            FrameEvent::Text(field, None) => one@ == FrameEventView::Text(field, None),
            FrameEvent::VideoStored => one@ == FrameEventView::VideoStored,
            FrameEvent::FormUnreadable => one@ == FrameEventView::FormUnreadable,
            FrameEvent::VideoUnreadable => one@ == FrameEventView::VideoUnreadable,
            FrameEvent::StorageFailed => one@ == FrameEventView::StorageFailed,
            FrameEvent::End => one@ == FrameEventView::End,
            FrameEvent::Finished(run) => one@ == FrameEventView::Finished(run@),
        },
        match many {
            FramesEvent::Field(Some(name)) => many@ == FramesEventView::Field(Some(name@)),
            FramesEvent::Field(None) => many@ == FramesEventView::Field(None),
            FramesEvent::Text(Some(text)) => many@ == FramesEventView::Text(Some(text@)),
            FramesEvent::Text(None) => many@ == FramesEventView::Text(None),
            FramesEvent::VideoStored => many@ == FramesEventView::VideoStored,
            FramesEvent::FormUnreadable => many@ == FramesEventView::FormUnreadable,
            FramesEvent::VideoUnreadable => many@ == FramesEventView::VideoUnreadable,
            FramesEvent::StorageFailed => many@ == FramesEventView::StorageFailed,
            FramesEvent::End => many@ == FramesEventView::End,
            FramesEvent::Finished(outcomes) => many@ == FramesEventView::Finished(outcome_views(outcomes@)),
            FramesEvent::PackingLost => many@ == FramesEventView::PackingLost,
        },
        match act {
            FrameAction::NextField => act@ == FrameActionView::NextField,
            FrameAction::StoreVideo => act@ == FrameActionView::StoreVideo,
            FrameAction::ReadText(field) => act@ == FrameActionView::ReadText(field),
            FrameAction::Extract(command) => act@ == FrameActionView::Extract(command@),
            FrameAction::Reply(reply) => act@ == FrameActionView::Reply(reply@),
        },
        match acts {
            FramesAction::NextField => acts@ == FramesActionView::NextField,
            FramesAction::StoreVideo => acts@ == FramesActionView::StoreVideo,
            FramesAction::ReadText => acts@ == FramesActionView::ReadText,
            FramesAction::ExtractAll(plans) => acts@ == FramesActionView::ExtractAll(plan_views(plans@)),
            FramesAction::Reply(reply) => acts@ == FramesActionView::Reply(reply@),
        },
{
}

} // verus!
