//! The command lines that FFmpeg is run with, and what the end of a run means.
use crate::number::{numeral, write_number};
use crate::reply::{
    hands_out, jpeg, jpeg_reply, json_error, json_reply, says, BodyView, Reply, ReplyView,
};
use crate::text::{contains_text, has_text, join, law_text_is_found_where_it_stands};
use vstd::prelude::*;
use vstd::utf8::{decode_utf8, valid_utf8};

verus! {

/// How long the extraction of one frame may take, in seconds.
pub const FRAME_TIMEOUT_SECS: u64 = 55;

/// How long each extraction of a batch may take, in seconds.
pub const BATCH_TIMEOUT_SECS: u64 = 30;

/// How many extractions of a batch run at a time, to save memory.
pub const MAX_CONCURRENT_RUNS: usize = 8;

/// One argument of a command line.
#[derive(Debug, PartialEq, Eq)]
pub enum Argument {
    /// The argument itself.
    Text(String),
    /// The path of the stored video.
    VideoPath,
}

/// One argument of a command line as a mathematical value.
pub enum ArgumentView {
    Text(Seq<char>),
    VideoPath,
}

impl View for Argument {
    type V = ArgumentView;

    open spec fn view(&self) -> ArgumentView {
        match self {
            Argument::Text(text) => ArgumentView::Text(text@),
            Argument::VideoPath => ArgumentView::VideoPath,
        }
    }
}

/// A run of a program: its name, its arguments and the time that it may take.
#[derive(Debug, PartialEq, Eq)]
pub struct Command {
    pub program: String,
    pub arguments: Vec<Argument>,
    pub timeout_secs: u64,
}

/// A run of a program as mathematical values.
pub struct CommandView {
    pub program: Seq<char>,
    pub arguments: Seq<ArgumentView>,
    pub timeout_secs: u64,
}

impl View for Command {
    type V = CommandView;

    open spec fn view(&self) -> CommandView {
        CommandView {
            program: self.program@,
            arguments: self.arguments@.map_values(|a: Argument| a@),
            timeout_secs: self.timeout_secs,
        }
    }
}

/// The run that writes the frame at `seek` to standard output as one JPEG.
pub open spec fn extraction(seek: Seq<char>, timeout_secs: u64) -> CommandView {
    CommandView {
        program: "ffmpeg"@,
        arguments: seq![
            ArgumentView::Text("-ss"@),
            ArgumentView::Text(seek),
            ArgumentView::Text("-i"@),
            ArgumentView::VideoPath,
            ArgumentView::Text("-frames:v"@),
            ArgumentView::Text("1"@),
            ArgumentView::Text("-f"@),
            ArgumentView::Text("image2"@),
            ArgumentView::Text("-vcodec"@),
            ArgumentView::Text("mjpeg"@),
            ArgumentView::Text("-"@),
        ],
        timeout_secs,
    }
}

/// An argument that holds this text.
fn argument(text: &str) -> (argument: Argument)
    ensures
        argument@ == ArgumentView::Text(text@),
{
    Argument::Text(text.to_owned())
}

/// The run that writes the frame at `seek` to standard output.
pub fn extraction_command(seek: &str, timeout_secs: u64) -> (command: Command)
    ensures
        command@ == extraction(seek@, timeout_secs),
{
    let command = Command {
        program: "ffmpeg".to_owned(),
        arguments: vec![
            argument("-ss"),
            argument(seek),
            argument("-i"),
            Argument::VideoPath,
            argument("-frames:v"),
            argument("1"),
            argument("-f"),
            argument("image2"),
            argument("-vcodec"),
            argument("mjpeg"),
            argument("-"),
        ],
        timeout_secs,
    };
    assert(command@.arguments =~= extraction(seek@, timeout_secs).arguments);
    command
}

/// The run that extracts the single frame at a number of seconds.
pub fn frame_command(seek_secs: u64) -> (command: Command)
    ensures
        command@ == extraction(numeral(seek_secs as nat), FRAME_TIMEOUT_SECS),
{
    let seek = write_number(seek_secs);
    extraction_command(seek.as_str(), FRAME_TIMEOUT_SECS)
}

/// How a run ended.
#[derive(Debug, PartialEq, Eq)]
pub enum Run {
    /// The program ran to its end and wrote these streams.
    Exited { success: bool, stdout: Vec<u8>, stderr: Vec<u8> },
    /// The program could not be run, for the reason that the text gives.
    NotRun(String),
    /// The program was still running when its time was over.
    TimedOut,
}

/// How a run ended, as mathematical values.
pub enum RunView {
    Exited { success: bool, stdout: Seq<u8>, stderr: Seq<u8> },
    NotRun(Seq<char>),
    TimedOut,
}

impl View for Run {
    type V = RunView;

    open spec fn view(&self) -> RunView {
        match self {
            Run::Exited { success, stdout, stderr } => RunView::Exited {
                success: *success,
                stdout: stdout@,
                stderr: stderr@,
            },
            Run::NotRun(error) => RunView::NotRun(error@),
            Run::TimedOut => RunView::TimedOut,
        }
    }
}

/// What `String::from_utf8_lossy` reads from bytes that need not be UTF-8.
pub uninterp spec fn lossy_text(bytes: Seq<u8>) -> Seq<char>;

/// Calls `String::from_utf8_lossy`. The text depends on the bytes alone, and
/// bytes that are valid UTF-8 come out as the text that they encode.
#[verifier::external_body]
pub(crate) fn read_lossy(bytes: &[u8]) -> (text: String)
    ensures
        text@ == lossy_text(bytes@),
        valid_utf8(bytes@) ==> text@ == decode_utf8(bytes@),
{
    String::from_utf8_lossy(bytes).into_owned()
}

/// Whether FFmpeg's words mean that the position lies beyond the video.
pub open spec fn beyond_video(message: Seq<char>) -> bool {
    contains_text(message, "Invalid data"@) || contains_text(message, "moov atom not found"@)
}

/// The reply when there is no frame at the position.
pub open spec fn no_such_position() -> ReplyView {
    json_error(422, "seek position may exceed video duration"@)
}

/// The reply to a run that failed with this message on its error stream.
pub open spec fn failed_run(message: Seq<char>) -> ReplyView {
    if beyond_video(message) {
        no_such_position()
    } else {
        json_error(500, "ffmpeg failed: "@ + message)
    }
}

/// The reply to a run that failed with this message on its error stream.
pub fn failed_run_reply(message: &str) -> (reply: Reply)
    ensures
        reply@ == failed_run(message@),
{
    if has_text(message, "Invalid data") || has_text(message, "moov atom not found") {
        json_reply(422, "seek position may exceed video duration")
    } else {
        let text = join("ffmpeg failed: ", message);
        json_reply(500, text.as_str())
    }
}

/// The frame that a run of the extraction of one frame made, or the reply that
/// says why there is none.
pub open spec fn run_outcome(run: RunView) -> Result<Seq<u8>, ReplyView> {
    match run {
        RunView::Exited { success, stdout, stderr } => if success {
            Ok(stdout)
        } else {
            Err(failed_run(lossy_text(stderr)))
        },
        RunView::NotRun(_) => Err(json_error(500, "ffmpeg execution failed"@)),
        RunView::TimedOut => Err(json_error(500, "video processing timed out"@)),
    }
}

/// Whether the error stream of a failed run, if it is valid UTF-8, is read as the text
/// that it encodes.
pub open spec fn reads_as_encoded(run: RunView) -> bool {
    run matches RunView::Exited { success, stderr, .. } ==> !success && valid_utf8(stderr) ==> lossy_text(
        stderr,
    ) == decode_utf8(stderr)
}

/// The frame that a run of the extraction of one frame made, or the reply that
/// says why there is none.
pub fn run_ffmpeg_extract(run: Run) -> (frame: Result<Vec<u8>, Reply>)
    ensures
        match run_outcome(run@) {
            Ok(image) => frame matches Ok(bytes) && bytes@ == image,
            Err(refusal) => frame matches Err(reply) && reply@ == refusal,
        },
        reads_as_encoded(run@),
{
    match run {
        Run::Exited { success, stdout, stderr } => {
            if success {
                Ok(stdout)
            } else {
                let message = read_lossy(stderr.as_slice());
                Err(failed_run_reply(message.as_str()))
            }
        },
        Run::NotRun(_) => Err(json_reply(500, "ffmpeg execution failed")),
        Run::TimedOut => Err(json_reply(500, "video processing timed out")),
    }
}

/// The reply to a request for one frame whose run ended so. A run that succeeds and
/// writes nothing found no frame at its position.
pub open spec fn frame_answer(run: RunView) -> ReplyView {
    match run_outcome(run) {
        Ok(image) => if image.len() > 0 {
            jpeg(image)
        } else {
            no_such_position()
        },
        Err(refusal) => refusal,
    }
}

/// No request for one frame is answered with an image that is empty.
pub proof fn law_no_frame_is_empty(run: RunView)
    ensures
        frame_answer(run).status == 200 ==> (frame_answer(run).body matches BodyView::Bytes(image)
            && image.len() > 0),
{
}

/// The reply to a request for one frame whose run ended so.
pub fn answer_frame(run: Run) -> (reply: Reply)
    ensures
        reply@ == frame_answer(run@),
        reads_as_encoded(run@),
{
    match run_ffmpeg_extract(run) {
        Ok(image) => {
            if image.len() > 0 {
                jpeg_reply(image)
            } else {
                json_reply(422, "seek position may exceed video duration")
            }
        },
        Err(refusal) => refusal,
    }
}

/// Whether a command runs FFmpeg for so long at most, on the stored video, from a
/// position on, for one frame, which is written to standard output as a JPEG.
pub open spec fn takes_one_frame(command: CommandView, seek: Seq<char>, timeout_secs: u64) -> bool {
    &&& command.program == "ffmpeg"@
    &&& command.timeout_secs == timeout_secs
    &&& command.arguments.len() == 11
    &&& command.arguments[0] == ArgumentView::Text("-ss"@) && command.arguments[1] == ArgumentView::Text(seek)
    &&& command.arguments[2] == ArgumentView::Text("-i"@) && command.arguments[3] == ArgumentView::VideoPath
    &&& command.arguments[4] == ArgumentView::Text("-frames:v"@)
    &&& command.arguments[5] == ArgumentView::Text("1"@)
    &&& command.arguments[6] == ArgumentView::Text("-f"@)
    &&& command.arguments[7] == ArgumentView::Text("image2"@)
    &&& command.arguments[8] == ArgumentView::Text("-vcodec"@)
    &&& command.arguments[9] == ArgumentView::Text("mjpeg"@)
    &&& command.arguments[10] == ArgumentView::Text("-"@)
}

/// Whatever the position is, FFmpeg is told it as it stands, and nothing else changes
/// with it.
pub proof fn law_extraction_takes_one_frame(seek: Seq<char>, other: Seq<char>, timeout_secs: u64)
    ensures
        takes_one_frame(extraction(seek, timeout_secs), seek, timeout_secs),
        extraction(seek, timeout_secs) == extraction(other, timeout_secs) ==> seek == other,
{
    assert(extraction(seek, timeout_secs).arguments[1] == ArgumentView::Text(seek));
    assert(extraction(other, timeout_secs).arguments[1] == ArgumentView::Text(other));
}

/// A run that succeeds and wrote something is answered with just what it wrote, as a
/// JPEG, whatever is on its error stream.
pub proof fn law_frame_is_all_that_ffmpeg_wrote(stdout: Seq<u8>, stderr: Seq<u8>)
    ensures
        run_outcome(RunView::Exited { success: true, stdout, stderr }) == Ok::<Seq<u8>, ReplyView>(stdout),
        stdout.len() > 0 ==> {
            let reply = frame_answer(RunView::Exited { success: true, stdout, stderr });
            hands_out(reply, "image/jpeg"@, stdout) && reply.headers.len() == 1
        },
        stdout.len() == 0 ==> says(
            frame_answer(RunView::Exited { success: true, stdout, stderr }),
            422,
            "seek position may exceed video duration"@,
        ),
{
}

/// A run that fails is answered by what it says: 422 if the position lies beyond the
/// video, else 500 with all of its words. Nothing that it wrote is handed out.
pub proof fn law_failure_is_answered_by_its_words(stdout: Seq<u8>, stderr: Seq<u8>)
    ensures
        ({
            let words = lossy_text(stderr);
            let reply = frame_answer(RunView::Exited { success: false, stdout, stderr });
            &&& run_outcome(RunView::Exited { success: false, stdout, stderr }) == Err::<Seq<u8>, ReplyView>(reply)
            &&& reply == failed_run(words)
            &&& if contains_text(words, "Invalid data"@) || contains_text(words, "moov atom not found"@) {
                says(reply, 422, "seek position may exceed video duration"@)
            } else {
                says(reply, 500, "ffmpeg failed: "@ + words)
            }
        }),
{
}

/// A message that has the words of a position beyond the video anywhere in it is answered
/// with 422.
pub proof fn law_position_beyond_the_video_is_told_by_the_words(before: Seq<char>, after: Seq<char>)
    ensures
        says(failed_run(before + "Invalid data"@ + after), 422, "seek position may exceed video duration"@),
        says(failed_run(before + "moov atom not found"@ + after), 422, "seek position may exceed video duration"@),
{
    law_text_is_found_where_it_stands(before + "Invalid data"@ + after, "Invalid data"@);
    law_text_is_found_where_it_stands(before + "moov atom not found"@ + after, "moov atom not found"@);
}

/// A run that did not start, or did not end in time, is answered with 500 and says which.
pub proof fn law_run_without_an_end_is_answered(error: Seq<char>)
    ensures
        says(frame_answer(RunView::NotRun(error)), 500, "ffmpeg execution failed"@),
        says(frame_answer(RunView::TimedOut), 500, "video processing timed out"@),
        run_outcome(RunView::NotRun(error)) is Err,
        run_outcome(RunView::TimedOut) is Err,
{
}

/// What is stated of a command and of the end of a run is stated of their own fields.
pub proof fn law_runs_are_seen_as_they_are(command: Command, run: Run, i: int)
    ensures
        command@.program == command.program@,
        command@.timeout_secs == command.timeout_secs,
        command@.arguments.len() == command.arguments@.len(),
        0 <= i < command.arguments@.len() ==> match command.arguments@[i] {
            Argument::Text(text) => command@.arguments[i] == ArgumentView::Text(text@),
            Argument::VideoPath => command@.arguments[i] == ArgumentView::VideoPath,
        },
        match run {
            Run::Exited { success, stdout, stderr } => run@ == (RunView::Exited {
                success,
                stdout: stdout@,
                stderr: stderr@,
            }),
            Run::NotRun(error) => run@ == RunView::NotRun(error@),
            Run::TimedOut => run@ == RunView::TimedOut,
        },
{
}

/// At most eight extractions of a batch are to run at a time; one frame may take 55
/// seconds, and each of a batch 30.
pub proof fn law_runs_are_limited()
    ensures
        MAX_CONCURRENT_RUNS == 8,
        FRAME_TIMEOUT_SECS == 55,
        BATCH_TIMEOUT_SECS == 30,
{
}

} // verus!
