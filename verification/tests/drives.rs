use std::io::Cursor;
use trick::batch::{FrameOutcome, FramePlan};
use trick::drive::{
    extract_frame_url, extract_frames_url, DriveEvent, DriveRequest, ExtractFrameUrlRequest,
    ExtractFramesUrlRequest, FrameUrlAction, FrameUrlEvent, FrameUrlJob, FramesUrlAction,
    FramesUrlEvent, FramesUrlJob, MAX_VIDEO_BYTES,
};
use trick::ffmpeg::{frame_command, Run};
use trick::reply::{Body, ErrorResponse, Reply};

fn json(status: u16, error: &str) -> Reply {
    Reply {
        status,
        headers: vec![],
        body: Body::Json(ErrorResponse { error: error.to_string() }),
    }
}

fn request(url: &str, token: &str, minute: u32, second: u32) -> FrameUrlEvent {
    FrameUrlEvent::Body(Ok(ExtractFrameUrlRequest {
        video_url: url.to_string(),
        access_token: token.to_string(),
        minute,
        second,
    }))
}

fn step(job: FrameUrlJob, event: DriveEvent) -> (FrameUrlJob, FrameUrlAction) {
    extract_frame_url(job, FrameUrlEvent::Drive(event))
}

fn answered(status: u16, content_length: Option<u64>) -> DriveEvent {
    DriveEvent::Answered { status, content_length }
}

#[test]
fn request_for_one_frame_is_checked() {
    let cases = vec![
        (request("", "t", 0, 0), json(400, "video_url is required")),
        (request("u", "", 0, 0), json(400, "access_token is required")),
        (request("u", "t", 0, 60), json(400, "second must be 0-59")),
        (request("", "", 0, 60), json(400, "video_url is required")),
        (FrameUrlEvent::Body(Err("no minute".to_string())), json(422, "no minute")),
    ];
    for (event, reply) in cases {
        let (_, action) = extract_frame_url(FrameUrlJob::new(), event);
        assert_eq!(action, FrameUrlAction::Reply(reply));
    }
}

#[test]
fn one_frame_from_drive() {
    let (job, action) = extract_frame_url(FrameUrlJob::new(), request("http://v", "tok", 65, 30));
    assert_eq!(
        action,
        FrameUrlAction::Fetch(DriveRequest {
            url: "http://v".to_string(),
            authorization: "Bearer tok".to_string(),
        })
    );
    let (job, action) = step(job, answered(200, Some(15)));
    assert_eq!(action, FrameUrlAction::StoreVideo);
    let (job, action) = step(job, DriveEvent::Chunk(10));
    assert_eq!(action, FrameUrlAction::WriteChunk);
    let (job, action) = step(job, DriveEvent::Chunk(5));
    assert_eq!(action, FrameUrlAction::WriteChunk);
    assert_eq!(job.received, 15);
    let (job, action) = step(job, DriveEvent::Ended);
    assert_eq!(action, FrameUrlAction::Extract(frame_command(3930)));
    let run = Run::Exited { success: true, stdout: vec![9], stderr: vec![] };
    let (_, action) = extract_frame_url(job, FrameUrlEvent::Finished(run));
    match action {
        FrameUrlAction::Reply(reply) => {
            assert_eq!(reply.status, 200);
            assert_eq!(reply.headers[0].value, "image/jpeg");
            assert_eq!(reply.body, Body::Bytes(vec![9]));
        }
        other => panic!("{:?}", other),
    }
}

#[test]
fn run_for_one_frame_from_drive_fails() {
    let run = Run::Exited { success: false, stdout: vec![], stderr: b"moov atom not found".to_vec() };
    let (_, action) = extract_frame_url(FrameUrlJob::new(), FrameUrlEvent::Finished(run));
    assert_eq!(
        action,
        FrameUrlAction::Reply(json(422, "seek position may exceed video duration"))
    );
}

#[test]
fn empty_frame_from_drive_is_beyond_the_video() {
    let run = Run::Exited { success: true, stdout: vec![], stderr: vec![] };
    let (_, action) = extract_frame_url(FrameUrlJob::new(), FrameUrlEvent::Finished(run));
    assert_eq!(
        action,
        FrameUrlAction::Reply(json(422, "seek position may exceed video duration"))
    );
}

#[test]
fn statuses_of_drive() {
    let cases = vec![
        (401, json(401, "Drive returned 401: expired or invalid token")),
        (403, json(403, "Drive returned 403: no permission for this file")),
        (404, json(404, "Drive returned 404: file not found")),
        (500, json(500, "Drive returned unexpected status 500")),
        (206, json(500, "Drive returned unexpected status 206")),
        (0, json(500, "Drive returned unexpected status 0")),
    ];
    for (status, reply) in cases {
        let (_, action) = step(FrameUrlJob::new(), answered(status, Some(u64::MAX)));
        assert_eq!(action, FrameUrlAction::Reply(reply));
    }
    let (_, action) = step(FrameUrlJob::new(), answered(200, None));
    assert_eq!(action, FrameUrlAction::StoreVideo);
}

#[test]
fn faults_of_a_download() {
    let cases = vec![
        (DriveEvent::NoClient, json(500, "internal error")),
        (DriveEvent::FetchFailed("refused".to_string()), json(500, "Drive fetch failed: refused")),
        (DriveEvent::StorageFailed, json(500, "internal error")),
        (DriveEvent::StreamFailed, json(500, "stream read error")),
    ];
    for (event, reply) in cases {
        let (_, action) = step(FrameUrlJob::new(), event);
        assert_eq!(action, FrameUrlAction::Reply(reply));
    }
}

#[test]
fn announced_length_is_limited() {
    assert_eq!(MAX_VIDEO_BYTES, 2147483648);
    let (_, action) = step(FrameUrlJob::new(), answered(200, Some(MAX_VIDEO_BYTES)));
    assert_eq!(action, FrameUrlAction::StoreVideo);
    let (_, action) = step(FrameUrlJob::new(), answered(200, Some(MAX_VIDEO_BYTES + 1)));
    assert_eq!(action, FrameUrlAction::Reply(json(413, "video exceeds 2 GB server limit")));
}

#[test]
fn received_length_is_limited() {
    let job = FrameUrlJob { seek_secs: 0, received: MAX_VIDEO_BYTES - 8 };
    let (job, action) = step(job, DriveEvent::Chunk(8));
    assert_eq!(action, FrameUrlAction::WriteChunk);
    assert_eq!(job.received, MAX_VIDEO_BYTES);
    let (job, action) = step(job, DriveEvent::Chunk(0));
    assert_eq!(action, FrameUrlAction::WriteChunk);
    let (job, action) = step(job, DriveEvent::Chunk(1));
    assert_eq!(action, FrameUrlAction::Reply(json(413, "video exceeds 2 GB server limit")));
    let (job, action) = step(job, DriveEvent::Chunk(usize::MAX));
    assert_eq!(action, FrameUrlAction::Reply(json(413, "video exceeds 2 GB server limit")));
    assert_eq!(job.received, MAX_VIDEO_BYTES);
}

fn many(url: &str, token: &str, timestamps: Vec<&str>) -> FramesUrlEvent {
    FramesUrlEvent::Body(Ok(ExtractFramesUrlRequest {
        video_url: url.to_string(),
        access_token: token.to_string(),
        timestamps: timestamps.into_iter().map(|t| t.to_string()).collect(),
    }))
}

#[test]
fn request_for_many_frames_is_checked() {
    let cases = vec![
        (many("", "t", vec!["1"]), json(400, "video_url is required")),
        (many("u", "", vec!["1"]), json(400, "access_token is required")),
        (
            many("u", "t", vec![]),
            json(400, "timestamps array is required and must not be empty"),
        ),
        (
            many("u", "t", vec!["1"; 61]),
            json(422, "exceeded maximum of 60 timestamps per request"),
        ),
        (FramesUrlEvent::Body(Err("bad JSON".to_string())), json(422, "bad JSON")),
    ];
    for (event, reply) in cases {
        let (_, action) = extract_frames_url(FramesUrlJob::new(), event);
        assert_eq!(action, FramesUrlAction::Reply(reply));
    }
    let (job, action) = extract_frames_url(FramesUrlJob::new(), many("u", "t", vec!["1"; 60]));
    assert!(matches!(action, FramesUrlAction::Fetch(_)));
    assert_eq!(job.timestamps.len(), 60);
}

#[test]
fn many_frames_from_drive() {
    let (job, _) =
        extract_frames_url(FramesUrlJob::new(), many("u", "t", vec!["90", "1:30", "", "late"]));
    let (job, action) = extract_frames_url(job, FramesUrlEvent::Drive(answered(200, None)));
    assert_eq!(action, FramesUrlAction::StoreVideo);
    let (job, action) = extract_frames_url(job, FramesUrlEvent::Drive(DriveEvent::Chunk(3)));
    assert_eq!(action, FramesUrlAction::WriteChunk);
    assert_eq!(job.received, 3);
    let (job, action) = extract_frames_url(job, FramesUrlEvent::Drive(DriveEvent::Ended));
    let plans = match action {
        FramesUrlAction::ExtractAll(plans) => plans,
        other => panic!("{:?}", other),
    };
    assert_eq!(plans.len(), 4);
    assert!(matches!(&plans[0], FramePlan::Run { timestamp, .. } if timestamp == "90"));
    assert!(matches!(&plans[1], FramePlan::Run { timestamp, .. } if timestamp == "1:30"));
    for (plan, timestamp) in [(&plans[2], ""), (&plans[3], "late")] {
        assert_eq!(
            plan,
            &FramePlan::Done(FrameOutcome {
                timestamp: timestamp.to_string(),
                frame: Err(
                    "Invalid timestamp format, must be seconds or MM:SS or HH:MM:SS".to_string()
                ),
            })
        );
    }
    let outcomes = vec![FrameOutcome { timestamp: "90".to_string(), frame: Ok(vec![1]) }];
    let (_, action) = extract_frames_url(job, FramesUrlEvent::Finished(outcomes));
    match action {
        FramesUrlAction::Reply(Reply { status, headers, body: Body::Bytes(archive) }) => {
            assert_eq!(status, 200);
            assert_eq!(headers.len(), 1);
            assert_eq!(headers[0].name, "content-type");
            assert_eq!(headers[0].value, "application/zip");
            let archive = zip::ZipArchive::new(Cursor::new(archive)).unwrap();
            assert_eq!(archive.len(), 2);
            assert_eq!(archive.index_for_name("90.jpg"), Some(0));
        }
        other => panic!("{:?}", other),
    }
}

#[test]
fn download_for_many_frames_is_limited() {
    let job = FramesUrlJob { timestamps: vec!["1".to_string()], received: MAX_VIDEO_BYTES };
    let (job, action) = extract_frames_url(job, FramesUrlEvent::Drive(DriveEvent::Chunk(1)));
    assert_eq!(action, FramesUrlAction::Reply(json(413, "video exceeds 2 GB server limit")));
    assert_eq!(job.timestamps, vec!["1"]);
    let (_, action) = extract_frames_url(job, FramesUrlEvent::Drive(answered(404, None)));
    assert_eq!(action, FramesUrlAction::Reply(json(404, "Drive returned 404: file not found")));
}

#[test]
fn url_archive_that_cannot_be_packed() {
    let twice = vec![
        FrameOutcome { timestamp: "5".to_string(), frame: Ok(vec![]) },
        FrameOutcome { timestamp: "5".to_string(), frame: Ok(vec![]) },
    ];
    let (_, action) = extract_frames_url(FramesUrlJob::new(), FramesUrlEvent::Finished(twice));
    assert_eq!(
        action,
        FramesUrlAction::Reply(json(
            500,
            "ZIP write error: invalid Zip archive: Duplicate filename: 5.jpg"
        ))
    );
    let long = vec![FrameOutcome { timestamp: ":".repeat(70000), frame: Ok(vec![]) }];
    let (_, action) = extract_frames_url(FramesUrlJob::new(), FramesUrlEvent::Finished(long));
    assert_eq!(action, FramesUrlAction::Reply(json(500, "internal error")));
    let (_, action) = extract_frames_url(FramesUrlJob::new(), FramesUrlEvent::PackingLost);
    assert_eq!(action, FramesUrlAction::Reply(json(500, "internal error")));
}
