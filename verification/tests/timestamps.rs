use trick::number::{parse_u32, write_number};
use trick::text::{at_most, has_char, has_text, is_listed, same_text, trim, white_space};
use trick::timestamp::{
    format_timestamp, safe_filename, seek_seconds, split_timestamps, write_clock_time,
};

#[test]
fn list_of_timestamps() {
    assert_eq!(split_timestamps("10,90,01:30"), vec!["10", "90", "01:30"]);
    assert_eq!(split_timestamps(" 10 ,,\t90\n, 01:30 ,"), vec!["10", "90", "01:30"]);
    assert_eq!(split_timestamps("1 2"), vec!["1 2"]);
    assert!(split_timestamps("").is_empty());
    assert!(split_timestamps(" , ,,").is_empty());
}

#[test]
fn list_of_timestamps_reads_back() {
    let list = vec!["0", "1:30", "01:05:30", "x/y"];
    assert_eq!(split_timestamps(&list.join(",")), list);
}

#[test]
fn list_is_split_like_standard_strings() {
    let samples = ["", ",", "a,b", "\u{a0}a\u{2003},\u{3000}", "a,,b, c ,d", "\u{feff}a,b\u{85}"];
    for raw in samples {
        let expected: Vec<String> = raw
            .split(',')
            .map(|s| s.trim().to_string())
            .filter(|s| !s.is_empty())
            .collect();
        assert_eq!(split_timestamps(raw), expected);
        assert_eq!(trim(raw), raw.trim());
    }
}

#[test]
fn white_space_is_that_of_unicode() {
    for code in 0..=0x10ffffu32 {
        if let Some(c) = char::from_u32(code) {
            assert_eq!(white_space(c), c.is_whitespace());
        }
    }
}

#[test]
fn seek_position_in_seconds() {
    assert_eq!(seek_seconds(25, 40), 1540);
    assert_eq!(seek_seconds(0, 0), 0);
    assert_eq!(seek_seconds(65, 59), 3959);
    assert_eq!(seek_seconds(u32::MAX, u32::MAX), 4294967295 * 61);
}

#[test]
fn clock_times() {
    assert_eq!(write_clock_time(0), "00:00:00");
    assert_eq!(write_clock_time(90), "00:01:30");
    assert_eq!(write_clock_time(3930), "01:05:30");
    assert_eq!(write_clock_time(359999), "99:59:59");
    assert_eq!(write_clock_time(360000), "100:00:00");
    assert_eq!(write_clock_time(u32::MAX), "1193046:28:15");
}

#[test]
fn clock_time_is_formatted_like_standard_strings() {
    for seconds in [0, 1, 9, 10, 59, 60, 61, 599, 600, 3599, 3600, 3661, 86399, 4294967295u32] {
        let expected = format!(
            "{:02}:{:02}:{:02}",
            seconds / 3600,
            (seconds % 3600) / 60,
            seconds % 60
        );
        assert_eq!(write_clock_time(seconds), expected);
    }
}

#[test]
fn timestamps_of_every_form() {
    assert_eq!(format_timestamp("90"), Some("00:01:30".to_string()));
    assert_eq!(format_timestamp("+90"), Some("00:01:30".to_string()));
    assert_eq!(format_timestamp("1:30"), Some("1:30".to_string()));
    assert_eq!(format_timestamp("01:05:30"), Some("01:05:30".to_string()));
    assert_eq!(format_timestamp("any:thing"), Some("any:thing".to_string()));
    assert_eq!(format_timestamp("abc"), None);
    assert_eq!(format_timestamp("1.5"), None);
    assert_eq!(format_timestamp("-1"), None);
    assert_eq!(format_timestamp(""), None);
    assert_eq!(format_timestamp("4294967296"), None);
}

#[test]
fn seconds_and_clock_time_ask_for_the_same_position() {
    let clock = format_timestamp("3930").unwrap();
    assert_eq!(format_timestamp(&clock), Some(clock.clone()));
    assert_eq!(clock, "01:05:30");
}

#[test]
fn filenames_are_safe() {
    assert_eq!(safe_filename("01:05:30"), "01-05-30");
    assert_eq!(safe_filename("a/b:c"), "a_b-c");
    assert_eq!(safe_filename("90"), "90");
    assert_eq!(safe_filename(""), "");
    let awkward = "../:/\u{e9}";
    assert_eq!(safe_filename(awkward), awkward.replace(':', "-").replace('/', "_"));
}

#[test]
fn numbers_are_read_like_standard_strings() {
    let samples = [
        "", "+", "-", "0", "+0", "-0", "00012", "4294967295", "4294967296", "99999999999999999999",
        "00000000000000000000000000000000000001", "1 ", " 1", "1_0", "++1", "+-1", "0x1", "\u{661}", "12a",
    ];
    for text in samples {
        assert_eq!(parse_u32(text), text.parse::<u32>().ok());
    }
}

#[test]
fn written_numbers_read_back() {
    for n in [0u32, 7, 10, 99, 100, 1000000007, u32::MAX] {
        assert_eq!(parse_u32(&write_number(n as u64)), Some(n));
        assert_eq!(write_number(n as u64), n.to_string());
    }
    assert_eq!(write_number(u64::MAX), u64::MAX.to_string());
}

#[test]
fn texts_are_compared_and_searched() {
    assert!(same_text("video", "video"));
    assert!(!same_text("video", "Video"));
    assert!(has_text("xx moov atom not found", "moov atom not found"));
    assert!(has_text("abc", ""));
    assert!(!has_text("Invalid dat", "Invalid data"));
    assert!(has_char("1:30", ':'));
    assert!(!has_char("130", ':'));
    let list = vec!["10.jpg".to_string(), "20.jpg".to_string()];
    assert!(is_listed(&list, "20.jpg"));
    assert!(!is_listed(&list, "2"));
    for (a, b) in [("", ""), ("a", ""), ("", "a"), ("10", "9"), ("1:30", "1:3"), ("\u{e9}", "z"), ("\u{1f600}", "\u{ffff}")] {
        assert_eq!(at_most(a, b), a <= b);
    }
}
