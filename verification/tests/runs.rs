use trick::ffmpeg::{
    answer_frame, extraction_command, failed_run_reply, frame_command, run_ffmpeg_extract, Argument, Run,
};
use trick::reply::{json_rejection_response, Body, ErrorResponse, Reply};

fn json(status: u16, error: &str) -> Reply {
    Reply {
        status,
        headers: vec![],
        body: Body::Json(ErrorResponse { error: error.to_string() }),
    }
}

fn failed(stderr: &[u8]) -> Run {
    Run::Exited { success: false, stdout: vec![], stderr: stderr.to_vec() }
}

#[test]
fn command_line_for_one_frame() {
    let command = frame_command(1540);
    assert_eq!(command.program, "ffmpeg");
    assert_eq!(command.timeout_secs, 55);
    let words: Vec<&str> = command
        .arguments
        .iter()
        .map(|a| match a {
            Argument::Text(text) => text.as_str(),
            Argument::VideoPath => "<video>",
        })
        .collect();
    assert_eq!(
        words,
        vec![
            "-ss", "1540", "-i", "<video>", "-frames:v", "1", "-f", "image2", "-vcodec", "mjpeg", "-"
        ]
    );
}

#[test]
fn command_line_takes_the_seek_position_as_it_is() {
    let command = extraction_command("01:05:30", 30);
    assert_eq!(command.arguments[1], Argument::Text("01:05:30".to_string()));
    assert_eq!(command.timeout_secs, 30);
}

#[test]
fn successful_run_gives_the_frame() {
    let run = Run::Exited { success: true, stdout: vec![0xff, 0xd8], stderr: b"noise".to_vec() };
    assert_eq!(run_ffmpeg_extract(run), Ok(vec![0xff, 0xd8]));
}

#[test]
fn answer_to_a_run() {
    let run = Run::Exited { success: true, stdout: vec![0xff, 0xd8], stderr: vec![] };
    let reply = answer_frame(run);
    assert_eq!(reply.status, 200);
    assert_eq!(reply.body, Body::Bytes(vec![0xff, 0xd8]));
    let empty = Run::Exited { success: true, stdout: vec![], stderr: vec![] };
    assert_eq!(answer_frame(empty), json(422, "seek position may exceed video duration"));
    assert_eq!(answer_frame(Run::TimedOut), json(500, "video processing timed out"));
    assert_eq!(answer_frame(failed("h\u{e9}".as_bytes())), json(500, "ffmpeg failed: h\u{e9}"));
}

#[test]
fn position_beyond_the_video() {
    let expected = json(422, "seek position may exceed video duration");
    assert_eq!(run_ffmpeg_extract(failed(b"x: Invalid data found")), Err(json(422, "seek position may exceed video duration")));
    assert_eq!(run_ffmpeg_extract(failed(b"moov atom not found")), Err(expected));
}

#[test]
fn other_failure_of_a_run() {
    assert_eq!(
        run_ffmpeg_extract(failed(b"no such codec")),
        Err(json(500, "ffmpeg failed: no such codec"))
    );
}

#[test]
fn error_stream_need_not_be_text() {
    assert_eq!(
        run_ffmpeg_extract(failed(b"bad \xff byte")),
        Err(json(500, "ffmpeg failed: bad \u{fffd} byte"))
    );
}

#[test]
fn run_that_never_started_or_never_ended() {
    assert_eq!(
        run_ffmpeg_extract(Run::NotRun("not found".to_string())),
        Err(json(500, "ffmpeg execution failed"))
    );
    assert_eq!(run_ffmpeg_extract(Run::TimedOut), Err(json(500, "video processing timed out")));
}

#[test]
fn message_of_a_failed_run_decides() {
    assert_eq!(failed_run_reply("Invalid data").status, 422);
    assert_eq!(failed_run_reply("invalid data").status, 500);
    assert_eq!(failed_run_reply(""), json(500, "ffmpeg failed: "));
}

#[test]
fn unreadable_json_body() {
    assert_eq!(
        json_rejection_response("missing field `minute`"),
        json(422, "missing field `minute`")
    );
}
