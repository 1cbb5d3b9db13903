use std::io::Cursor;
use trick::batch::{FrameOutcome, FramePlan};
use trick::ffmpeg::{frame_command, Run};
use trick::reply::{Body, ErrorResponse, Header, Reply};
use trick::upload::{
    extract_frame, extract_frames, FrameAction, FrameEvent, FrameForm, FramesAction, FramesEvent,
    FramesForm, TextField,
};

fn json(status: u16, error: &str) -> Reply {
    Reply {
        status,
        headers: vec![],
        body: Body::Json(ErrorResponse { error: error.to_string() }),
    }
}

fn some(text: &str) -> Option<String> {
    Some(text.to_string())
}

#[test]
fn fields_of_the_form_for_one_frame() {
    let form = FrameForm::new();
    assert_eq!(extract_frame(form, FrameEvent::Field(some("video"))), (form, FrameAction::StoreVideo));
    assert_eq!(
        extract_frame(form, FrameEvent::Field(some("minute"))),
        (form, FrameAction::ReadText(TextField::Minute))
    );
    assert_eq!(
        extract_frame(form, FrameEvent::Field(some("second"))),
        (form, FrameAction::ReadText(TextField::Second))
    );
    assert_eq!(extract_frame(form, FrameEvent::Field(some("other"))), (form, FrameAction::NextField));
    assert_eq!(extract_frame(form, FrameEvent::Field(None)), (form, FrameAction::NextField));
}

#[test]
fn frame_at_minute_25_second_40() {
    let mut form = FrameForm::new();
    let events = vec![
        FrameEvent::Field(some("video")),
        FrameEvent::VideoStored,
        FrameEvent::Field(some("minute")),
        FrameEvent::Text(TextField::Minute, some("25")),
        FrameEvent::Field(some("second")),
        FrameEvent::Text(TextField::Second, some("40")),
    ];
    for event in events {
        form = extract_frame(form, event).0;
    }
    let (_, action) = extract_frame(form, FrameEvent::End);
    assert_eq!(action, FrameAction::Extract(frame_command(1540)));
}

#[test]
fn last_number_of_a_field_counts() {
    let mut form = FrameForm::new();
    for text in ["1", "2", "3"] {
        form = extract_frame(form, FrameEvent::Text(TextField::Minute, some(text))).0;
    }
    form = extract_frame(form, FrameEvent::VideoStored).0;
    let (_, action) = extract_frame(form, FrameEvent::End);
    assert_eq!(action, FrameAction::Extract(frame_command(180)));
}

#[test]
fn minute_and_second_default_to_zero() {
    let form = FrameForm { has_video: true, minute: None, second: None };
    assert_eq!(extract_frame(form, FrameEvent::End).1, FrameAction::Extract(frame_command(0)));
}

#[test]
fn seconds_of_the_form_have_no_limit() {
    let form = FrameForm { has_video: true, minute: Some(1), second: Some(100) };
    assert_eq!(extract_frame(form, FrameEvent::End).1, FrameAction::Extract(frame_command(160)));
}

#[test]
fn form_for_one_frame_is_refused() {
    let form = FrameForm::new();
    let refusals = vec![
        (FrameEvent::End, json(400, "video is required")),
        (FrameEvent::FormUnreadable, json(400, "multipart form could not be read")),
        (FrameEvent::VideoUnreadable, json(400, "video could not be read")),
        (FrameEvent::StorageFailed, json(500, "internal error")),
        (FrameEvent::Text(TextField::Minute, None), json(400, "minute must be a whole number")),
        (FrameEvent::Text(TextField::Second, None), json(400, "second must be a whole number")),
        (FrameEvent::Text(TextField::Minute, some("x")), json(400, "minute must be a whole number")),
        (FrameEvent::Text(TextField::Second, some("-1")), json(400, "second must be a whole number")),
    ];
    for (event, reply) in refusals {
        assert_eq!(extract_frame(form, event), (form, FrameAction::Reply(reply)));
    }
}

#[test]
fn frame_is_answered_with_a_jpeg() {
    let run = Run::Exited { success: true, stdout: vec![1, 2, 3], stderr: vec![] };
    let (_, action) = extract_frame(FrameForm::new(), FrameEvent::Finished(run));
    assert_eq!(
        action,
        FrameAction::Reply(Reply {
            status: 200,
            headers: vec![Header {
                name: "content-type".to_string(),
                value: "image/jpeg".to_string()
            }],
            body: Body::Bytes(vec![1, 2, 3]),
        })
    );
}

#[test]
fn empty_frame_is_beyond_the_video() {
    let run = Run::Exited { success: true, stdout: vec![], stderr: b"frame=0".to_vec() };
    let (_, action) = extract_frame(FrameForm::new(), FrameEvent::Finished(run));
    assert_eq!(
        action,
        FrameAction::Reply(json(422, "seek position may exceed video duration"))
    );
}

#[test]
fn failed_run_is_answered_with_its_reason() {
    let (_, action) = extract_frame(FrameForm::new(), FrameEvent::Finished(Run::TimedOut));
    assert!(matches!(action, FrameAction::Reply(Reply { status: 500, .. })));
}

fn frames_form(timestamps: &str) -> FramesForm {
    FramesForm { has_video: true, timestamps: some(timestamps) }
}

#[test]
fn fields_of_the_form_for_many_frames() {
    let (form, action) = extract_frames(FramesForm::new(), FramesEvent::Field(some("video")));
    assert_eq!(action, FramesAction::StoreVideo);
    let (form, action) = extract_frames(form, FramesEvent::VideoStored);
    assert_eq!(action, FramesAction::NextField);
    let (form, action) = extract_frames(form, FramesEvent::Field(some("timestamps")));
    assert_eq!(action, FramesAction::ReadText);
    let (form, action) = extract_frames(form, FramesEvent::Text(some("10, 90")));
    assert_eq!(action, FramesAction::NextField);
    let (form, action) = extract_frames(form, FramesEvent::Field(some("minute")));
    assert_eq!(action, FramesAction::NextField);
    assert_eq!(form, frames_form("10, 90"));
    match extract_frames(form, FramesEvent::End).1 {
        FramesAction::ExtractAll(plans) => {
            assert_eq!(plans.len(), 2);
            assert!(matches!(&plans[1], FramePlan::Run { timestamp, .. } if timestamp == "90"));
        }
        other => panic!("{:?}", other),
    }
}

#[test]
fn form_for_many_frames_is_refused() {
    let refusals = vec![
        (FramesEvent::End, json(400, "video is required")),
        (FramesEvent::FormUnreadable, json(400, "multipart form could not be read")),
        (FramesEvent::VideoUnreadable, json(400, "video could not be read")),
        (FramesEvent::StorageFailed, json(500, "internal error")),
        (FramesEvent::Text(None), json(400, "timestamps could not be read")),
    ];
    for (event, reply) in refusals {
        let (_, action) = extract_frames(FramesForm::new(), event);
        assert_eq!(action, FramesAction::Reply(reply));
    }
    let video_only = FramesForm { has_video: true, timestamps: None };
    assert_eq!(
        extract_frames(video_only, FramesEvent::End).1,
        FramesAction::Reply(json(400, "timestamps field is required"))
    );
    let list_only = FramesForm { has_video: false, timestamps: some("10") };
    assert_eq!(
        extract_frames(list_only, FramesEvent::End).1,
        FramesAction::Reply(json(400, "video is required"))
    );
}

#[test]
fn form_without_a_timestamp() {
    let (_, action) = extract_frames(frames_form(" , "), FramesEvent::End);
    assert_eq!(action, FramesAction::Reply(json(400, "No timestamps provided")));
}

#[test]
fn form_with_too_many_timestamps() {
    let sixty = vec!["1"; 60].join(",");
    match extract_frames(frames_form(&sixty), FramesEvent::End).1 {
        FramesAction::ExtractAll(plans) => assert_eq!(plans.len(), 60),
        other => panic!("{:?}", other),
    }
    let more = vec!["1"; 61].join(",");
    let (_, action) = extract_frames(frames_form(&more), FramesEvent::End);
    assert_eq!(
        action,
        FramesAction::Reply(json(400, "Exceeded maximum of 60 frames per request"))
    );
}

#[test]
fn bad_timestamp_of_a_form_is_reported() {
    match extract_frames(frames_form("soon"), FramesEvent::End).1 {
        FramesAction::ExtractAll(plans) => assert_eq!(
            plans,
            vec![FramePlan::Done(FrameOutcome {
                timestamp: "soon".to_string(),
                frame: Err("Invalid timestamp format, must be seconds or MM:SS".to_string()),
            })]
        ),
        other => panic!("{:?}", other),
    }
}

#[test]
fn frames_are_answered_with_a_download() {
    let outcomes = vec![FrameOutcome { timestamp: "10".to_string(), frame: Ok(vec![7]) }];
    let (_, action) = extract_frames(frames_form("10"), FramesEvent::Finished(outcomes));
    match action {
        FramesAction::Reply(Reply { status, headers, body: Body::Bytes(archive) }) => {
            assert_eq!(status, 200);
            let lines: Vec<(&str, &str)> =
                headers.iter().map(|h| (h.name.as_str(), h.value.as_str())).collect();
            assert_eq!(
                lines,
                vec![
                    ("content-type", "application/zip"),
                    ("content-disposition", "attachment; filename=\"extracted_frames.zip\""),
                ]
            );
            let archive = zip::ZipArchive::new(Cursor::new(archive)).unwrap();
            let mut names: Vec<&str> = archive.file_names().collect();
            names.sort();
            assert_eq!(names, vec!["extraction_report.json", "frame_10.jpg"]);
        }
        other => panic!("{:?}", other),
    }
}

#[test]
fn download_that_cannot_be_packed() {
    let expected = FramesAction::Reply(json(500, "Failed to build zip archive"));
    let outcomes = vec![FrameOutcome { timestamp: ":".repeat(70000), frame: Ok(vec![]) }];
    let (_, action) = extract_frames(frames_form("10"), FramesEvent::Finished(outcomes));
    assert_eq!(action, expected);
    let (_, action) = extract_frames(frames_form("10"), FramesEvent::PackingLost);
    assert_eq!(action, expected);
}
