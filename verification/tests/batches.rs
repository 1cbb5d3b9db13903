use std::io::{Cursor, Read};
use trick::batch::{
    finish_frame, pack_download, pack_url_archive, plan_frames, FrameOutcome, FramePlan, PackFault,
};
use trick::ffmpeg::{Argument, Run};
use trick::report::{report_json, sort_failures, ExtractionReport, FailedTimestamp};

fn good(timestamp: &str, frame: &[u8]) -> FrameOutcome {
    FrameOutcome { timestamp: timestamp.to_string(), frame: Ok(frame.to_vec()) }
}

fn bad(timestamp: &str, reason: &str) -> FrameOutcome {
    FrameOutcome { timestamp: timestamp.to_string(), frame: Err(reason.to_string()) }
}

fn failure(timestamp: &str, reason: &str) -> FailedTimestamp {
    FailedTimestamp { timestamp: timestamp.to_string(), reason: reason.to_string() }
}

fn entries(archive: Vec<u8>) -> Vec<(String, Vec<u8>)> {
    let mut archive = zip::ZipArchive::new(Cursor::new(archive)).unwrap();
    let mut found = Vec::new();
    for i in 0..archive.len() {
        let mut file = archive.by_index(i).unwrap();
        assert_eq!(file.compression(), zip::CompressionMethod::Stored);
        let mut bytes = Vec::new();
        file.read_to_end(&mut bytes).unwrap();
        found.push((file.name().to_string(), bytes));
    }
    found
}

fn names(entries: &[(String, Vec<u8>)]) -> Vec<&str> {
    entries.iter().map(|e| e.0.as_str()).collect()
}

fn listed(report: &[u8], field: &str) -> Vec<String> {
    let value: serde_json::Value = serde_json::from_slice(report).unwrap();
    value[field]
        .as_array()
        .unwrap()
        .iter()
        .map(|v| match v {
            serde_json::Value::String(s) => s.clone(),
            other => format!(
                "{}={}",
                other["timestamp"].as_str().unwrap(),
                other["reason"].as_str().unwrap()
            ),
        })
        .collect()
}

#[test]
fn plans_for_timestamps() {
    let list = vec!["90".to_string(), "1:30".to_string(), "abc".to_string()];
    let plans = plan_frames(list, "no");
    assert_eq!(plans.len(), 3);
    match &plans[0] {
        FramePlan::Run { timestamp, command } => {
            assert_eq!(timestamp, "90");
            assert_eq!(command.arguments[1], Argument::Text("00:01:30".to_string()));
            assert_eq!(command.timeout_secs, 30);
        }
        FramePlan::Done(_) => panic!("nothing is run"),
    }
    match &plans[1] {
        FramePlan::Run { command, .. } => {
            assert_eq!(command.arguments[1], Argument::Text("1:30".to_string()))
        }
        FramePlan::Done(_) => panic!("nothing is run"),
    }
    assert_eq!(plans[2], FramePlan::Done(bad("abc", "no")));
}

#[test]
fn outcomes_of_runs() {
    let ok = Run::Exited { success: true, stdout: vec![1, 2], stderr: vec![] };
    assert_eq!(finish_frame("90".to_string(), ok), good("90", &[1, 2]));
    let failed = Run::Exited { success: false, stdout: vec![1], stderr: b"oh \xf0".to_vec() };
    assert_eq!(finish_frame("90".to_string(), failed), bad("90", "FFmpeg failed: oh \u{fffd}"));
    assert_eq!(
        finish_frame("90".to_string(), Run::NotRun("gone".to_string())),
        bad("90", "FFmpeg execution failed: gone")
    );
    assert_eq!(
        finish_frame("90".to_string(), Run::TimedOut),
        bad("90", "FFmpeg execution timed out")
    );
}

#[test]
fn report_is_written_as_json() {
    let report = ExtractionReport {
        successful_timestamps: vec!["1-30".to_string()],
        failed_timestamps: vec![failure("abc", "not \"a\" time\n")],
    };
    let expected = "{\n  \"successful_timestamps\": [\n    \"1-30\"\n  ],\n  \"failed_timestamps\": [\n    {\n      \"timestamp\": \"abc\",\n      \"reason\": \"not \\\"a\\\" time\\n\"\n    }\n  ]\n}";
    assert_eq!(String::from_utf8(report_json(&report)).unwrap(), expected);
}

#[test]
fn empty_report() {
    let report = ExtractionReport { successful_timestamps: vec![], failed_timestamps: vec![] };
    assert_eq!(
        String::from_utf8(report_json(&report)).unwrap(),
        "{\n  \"successful_timestamps\": [],\n  \"failed_timestamps\": []\n}"
    );
}

#[test]
fn failures_are_sorted_stably() {
    let list = vec![
        failure("b", "1"),
        failure("a", "2"),
        failure("b", "0"),
        failure("10", "x"),
        failure("9", "y"),
        failure("a", "1"),
        failure("", "z"),
        failure("\u{e9}", "w"),
    ];
    let mut expected: Vec<(String, String)> =
        list.iter().map(|f| (f.timestamp.clone(), f.reason.clone())).collect();
    expected.sort_by(|a, b| a.0.cmp(&b.0));
    let sorted: Vec<(String, String)> =
        sort_failures(list).into_iter().map(|f| (f.timestamp, f.reason)).collect();
    assert_eq!(sorted, expected);
}

#[test]
fn download_holds_frames_and_report() {
    let archive = pack_download(vec![
        good("1:30", b"jpeg one"),
        bad("zz", "bad"),
        good("90", b""),
        bad("aa", "worse"),
    ])
    .unwrap();
    let entries = entries(archive);
    assert_eq!(names(&entries), vec!["frame_1-30.jpg", "frame_90.jpg", "extraction_report.json"]);
    assert_eq!(entries[0].1, b"jpeg one");
    assert_eq!(entries[1].1, b"");
    assert_eq!(listed(&entries[2].1, "successful_timestamps"), vec!["1-30", "90"]);
    assert_eq!(listed(&entries[2].1, "failed_timestamps"), vec!["zz=bad", "aa=worse"]);
}

#[test]
fn download_passes_over_a_taken_name() {
    let archive = pack_download(vec![
        good("10", b"first"),
        good("10", b"second"),
        good("1:3/0", b"third"),
        good("1:3_0", b"fourth"),
        good("20", b"fifth"),
    ])
    .unwrap();
    let entries = entries(archive);
    assert_eq!(
        names(&entries),
        vec!["frame_10.jpg", "frame_1-3_0.jpg", "frame_20.jpg", "extraction_report.json"]
    );
    assert_eq!(entries[0].1, b"first");
    assert_eq!(entries[1].1, b"third");
    assert_eq!(entries[2].1, b"fifth");
    assert_eq!(listed(&entries[3].1, "successful_timestamps"), vec!["10", "1-3_0", "20"]);
}

#[test]
fn download_of_nothing() {
    let entries = entries(pack_download(vec![]).unwrap());
    assert_eq!(names(&entries), vec!["extraction_report.json"]);
}

#[test]
fn download_with_a_name_outside_ascii() {
    let entries = entries(pack_download(vec![good("\u{e9}:\u{1f600}", b"x")]).unwrap());
    assert_eq!(entries[0].0, "frame_\u{e9}-\u{1f600}.jpg");
}

#[test]
fn download_with_a_name_that_is_too_long() {
    let fits = "1:".repeat(32762) + "1";
    assert_eq!(fits.len() + "frame_.jpg".len(), 65535);
    assert!(pack_download(vec![good(&fits, b"x")]).is_some());
    let too_long = "1:".repeat(32763);
    assert!(pack_download(vec![good(&too_long, b"x")]).is_none());
    assert!(pack_download(vec![bad(&too_long, "x")]).is_some());
}

#[test]
fn url_archive_holds_frames_and_sorted_report() {
    let archive = pack_url_archive(vec![
        bad("zz", "bad"),
        good("1:30", b"jpeg one"),
        bad("aa", "worse"),
        good("90", b"jpeg two"),
    ])
    .unwrap();
    let entries = entries(archive);
    assert_eq!(names(&entries), vec!["1-30.jpg", "90.jpg", "extraction_report.json"]);
    assert_eq!(entries[1].1, b"jpeg two");
    assert_eq!(listed(&entries[2].1, "successful_timestamps"), vec!["1-30", "90"]);
    assert_eq!(listed(&entries[2].1, "failed_timestamps"), vec!["aa=worse", "zz=bad"]);
}

#[test]
fn download_is_flat() {
    let archive = pack_download(vec![
        good("../../a:1", b"first"),
        good("..-..-a-1", b"second"),
        good(".._.._a-1", b"third"),
    ])
    .unwrap();
    let entries = entries(archive);
    assert_eq!(
        names(&entries),
        vec!["frame_.._.._a-1.jpg", "frame_..-..-a-1.jpg", "extraction_report.json"]
    );
    assert_eq!(entries[0].1, b"first");
    assert_eq!(listed(&entries[2].1, "successful_timestamps"), vec![".._.._a-1", "..-..-a-1"]);
}

#[test]
fn order_of_runs_does_not_matter() {
    let outcomes = || vec![good("1", b"a"), bad("9", "x"), good("2", b"b"), bad("10", "y")];
    let mut turned = outcomes();
    turned.reverse();
    let one = entries(pack_url_archive(outcomes()).unwrap());
    let other = entries(pack_url_archive(turned).unwrap());
    let mut frames = one[..2].to_vec();
    let mut others = other[..2].to_vec();
    frames.sort();
    others.sort();
    assert_eq!(frames, others);
    assert_eq!(listed(&one[2].1, "failed_timestamps"), vec!["10=y", "9=x"]);
    assert_eq!(listed(&other[2].1, "failed_timestamps"), vec!["10=y", "9=x"]);
}

#[test]
fn form_and_url_batches_agree() {
    let outcomes = || vec![good("1:30", b"a"), bad("late", "x"), good("2", b"b")];
    let form = entries(pack_download(outcomes()).unwrap());
    let url = entries(pack_url_archive(outcomes()).unwrap());
    for i in 0..2 {
        assert_eq!(form[i].0, format!("frame_{}", url[i].0));
        assert_eq!(form[i].1, url[i].1);
    }
    assert_eq!(form[2], url[2]);
}

#[test]
fn report_is_told_by_the_outcomes() {
    let few = entries(pack_url_archive(vec![good("1", b"a"), bad("2", "x")]).unwrap());
    let more =
        entries(pack_url_archive(vec![bad("3", "y"), bad("2", "x"), good("1", b"a")]).unwrap());
    assert_eq!(listed(&few[1].1, "successful_timestamps"), vec!["1"]);
    assert_eq!(listed(&more[1].1, "successful_timestamps"), vec!["1"]);
    assert_eq!(listed(&few[1].1, "failed_timestamps"), vec!["2=x"]);
    assert_eq!(listed(&more[1].1, "failed_timestamps"), vec!["2=x", "3=y"]);
}

#[test]
fn archives_are_the_same_every_time() {
    let outcomes = || vec![good("1:30", b"a"), bad("late", "x"), good("2", b"b")];
    assert_eq!(pack_download(outcomes()), pack_download(outcomes()));
    assert_eq!(pack_url_archive(outcomes()), pack_url_archive(outcomes()));
    let archive = pack_url_archive(outcomes()).unwrap();
    let mut archive = zip::ZipArchive::new(Cursor::new(archive)).unwrap();
    assert_eq!(archive.by_index(0).unwrap().last_modified(), Some(zip::DateTime::default()));
}

#[test]
fn archives_with_very_many_entries_read_back() {
    for count in [65533usize, 65534, 65535, 65536] {
        let outcomes = (0..count).map(|i| good(&i.to_string(), b"x")).collect();
        let found = entries(pack_url_archive(outcomes).unwrap());
        assert_eq!(found.len(), count + 1);
        assert_eq!(found[0], ("0.jpg".to_string(), b"x".to_vec()));
        assert_eq!(found[count - 1].0, format!("{}.jpg", count - 1));
        assert_eq!(found[count].0, "extraction_report.json");
        assert_eq!(listed(&found[count].1, "successful_timestamps").len(), count);
    }
}

#[test]
fn url_archive_refuses_a_taken_name() {
    let archive = pack_url_archive(vec![good("10", b"a"), good("10", b"b")]);
    assert_eq!(
        archive,
        Err(PackFault::Message(
            "ZIP write error: invalid Zip archive: Duplicate filename: 10.jpg".to_string()
        ))
    );
}

#[test]
fn url_archive_refuses_a_name_that_is_too_long() {
    let fits = "1:".repeat(32765) + "1";
    assert_eq!(fits.len() + ".jpg".len(), 65535);
    assert!(pack_url_archive(vec![good(&fits, b"x")]).is_ok());
    let too_long = "1:".repeat(32766);
    assert_eq!(pack_url_archive(vec![good(&too_long, b"x")]), Err(PackFault::NameTooLong));
}

#[test]
fn url_archive_stops_at_the_first_fault() {
    let too_long = "1:".repeat(40000);
    let first = pack_url_archive(vec![good("1", b""), good("1", b""), good(&too_long, b"")]);
    assert!(matches!(first, Err(PackFault::Message(_))));
    let second = pack_url_archive(vec![good(&too_long, b""), good("1", b""), good("1", b"")]);
    assert_eq!(second, Err(PackFault::NameTooLong));
}
