//! Timestamps: where in a video a frame is taken from, how a list of them is
//! written in a form field, and what the files made from them are called.
use crate::number::{
    is_digit, is_digits, law_digits_are_read_as_their_number, law_numeral_denotes_its_number,
    law_numeral_has_no_needless_zero, number, numeral, parse_u32, spelled_u32, unsigned_digits, write_number,
};
use crate::text::{
    chars_of, has_char, pieces, text_between, texts, trim, trimmed, trimmed_end, trimmed_start,
    is_white_space, without_path_marks,
};
use vstd::prelude::*;

verus! {

/// How many frames one request may ask for.
pub const MAX_TIMESTAMPS: usize = 60;

/// The position in seconds that a minute and a second stand for.
pub open spec fn position(minute: u32, second: u32) -> int {
    minute * 60 + second
}

/// The seek position of a frame, in seconds.
pub fn seek_seconds(minute: u32, second: u32) -> (seconds: u64)
    ensures
        seconds == position(minute, second),
{
    (minute as u64) * 60 + (second as u64)
}

/// A numeral of at least two digits.
pub open spec fn two_digits(n: nat) -> Seq<char> {
    if n < 10 {
        seq!['0'] + numeral(n)
    } else {
        numeral(n)
    }
}

/// `seconds` as hours, minutes and seconds, with colons between.
pub open spec fn clock_time(seconds: u32) -> Seq<char> {
    two_digits((seconds / 3600) as nat) + seq![':'] + two_digits(((seconds % 3600) / 60) as nat) + seq![
        ':',
    ] + two_digits((seconds % 60) as nat)
}

/// Appends `n` with at least two digits.
fn push_two_digits(text: &mut String, n: u32)
    ensures
        final(text)@ == old(text)@ + two_digits(n as nat),
{
    if n < 10 {
        text.push('0');
    }
    let digits = write_number(n as u64);
    text.append(digits.as_str());
    assert(text@ =~= old(text)@ + two_digits(n as nat));
}

/// `seconds` written as a clock time.
pub fn write_clock_time(seconds: u32) -> (text: String)
    ensures
        text@ == clock_time(seconds),
{
    let mut text = String::new();
    push_two_digits(&mut text, seconds / 3600);
    text.push(':');
    push_two_digits(&mut text, (seconds % 3600) / 60);
    text.push(':');
    push_two_digits(&mut text, seconds % 60);
    assert(text@ =~= clock_time(seconds));
    text
}

/// The seek position that a timestamp asks for: one with a colon is taken as it
/// stands, a plain number is a count of seconds, and anything else asks for none.
pub open spec fn seek_time(timestamp: Seq<char>) -> Option<Seq<char>> {
    if timestamp.contains(':') {
        Some(timestamp)
    } else {
        match spelled_u32(timestamp) {
            Some(seconds) => Some(clock_time(seconds)),
            None => None,
        }
    }
}

/// The seek position of `timestamp` in the form that the extractor is given.
pub fn format_timestamp(timestamp: &str) -> (seek: Option<String>)
    ensures
        seek is Some == seek_time(timestamp@) is Some,
        seek matches Some(text) ==> Some(text@) == seek_time(timestamp@),
{
    if has_char(timestamp, ':') {
        return Some(timestamp.to_owned());
    }
    match parse_u32(timestamp) {
        Some(seconds) => Some(write_clock_time(seconds)),
        None => None,
    }
}

/// `timestamp` with the characters replaced that a file name must not hold.
pub fn safe_filename(timestamp: &str) -> (name: String)
    ensures
        name@ == without_path_marks(timestamp@),
{
    let chars = chars_of(timestamp);
    let mut name = String::new();
    let mut i: usize = 0;
    while i < chars.len()
        invariant
            i <= chars.len(),
            chars@ == timestamp@,
            name@ == without_path_marks(timestamp@.take(i as int)),
        decreases chars.len() - i,
    {
        let c = chars[i];
        if c == ':' {
            name.push('-');
        } else if c == '/' {
            name.push('_');
        } else {
            name.push(c);
        }
        i = i + 1;
        assert(name@ =~= without_path_marks(timestamp@.take(i as int)));
    }
    assert(timestamp@.take(i as int) =~= timestamp@);
    name
}

/// The pieces that are left once each is trimmed and the empty ones are dropped.
pub open spec fn kept_pieces(list: Seq<Seq<char>>) -> Seq<Seq<char>> {
    list.map_values(|piece: Seq<char>| trimmed(piece)).filter(|piece: Seq<char>| piece.len() > 0)
}

/// The timestamps of a comma-separated list.
pub open spec fn listed_timestamps(raw: Seq<char>) -> Seq<Seq<char>> {
    kept_pieces(pieces(raw, ','))
}

/// Keeping pieces goes piece by piece.
proof fn lemma_kept_push(list: Seq<Seq<char>>, piece: Seq<char>)
    ensures
        kept_pieces(list.push(piece)) == if trimmed(piece).len() > 0 {
            kept_pieces(list).push(trimmed(piece))
        } else {
            kept_pieces(list)
        },
{
    reveal(Seq::filter);
    let trim_all = |p: Seq<char>| trimmed(p);
    let all = list.push(piece).map_values(trim_all);
    assert(all.drop_last() =~= list.map_values(trim_all));
    assert(all.last() == trimmed(piece));
}

/// Splitting gives at least one piece.
proof fn lemma_some_piece(s: Seq<char>, separator: char)
    ensures
        pieces(s, separator).len() > 0,
    decreases s.len(),
{
    if s.len() > 0 {
        lemma_some_piece(s.drop_last(), separator);
    }
}

/// Appends the trimmed piece to the list unless nothing is left of it.
fn keep_piece(list: &mut Vec<String>, piece: &str, before: Ghost<Seq<Seq<char>>>)
    requires
        texts(old(list)@) == kept_pieces(before@),
    ensures
        texts(final(list)@) == kept_pieces(before@.push(piece@)),
{
    let kept = trim(piece);
    proof {
        lemma_kept_push(before@, piece@);
    }
    if !kept.as_str().is_empty() {
        list.push(kept);
    }
    assert(texts(list@) =~= kept_pieces(before@.push(piece@)));
}

/// The timestamps of a comma-separated list, in order: white space around a
/// timestamp does not count, and neither do empty places in the list.
pub fn split_timestamps(raw: &str) -> (list: Vec<String>)
    ensures
        texts(list@) == listed_timestamps(raw@),
{
    let chars = chars_of(raw);
    let mut list: Vec<String> = Vec::new();
    let mut start: usize = 0;
    let mut i: usize = 0;
    let ghost mut done: Seq<Seq<char>> = Seq::empty();
    proof {
        reveal(Seq::filter);
        assert(texts(list@) =~= kept_pieces(done));
        assert(raw@.take(0) =~= Seq::empty());
        assert(pieces(raw@.take(0), ',') =~= done.push(raw@.subrange(0, 0)));
    }
    while i < chars.len()
        invariant
            start <= i <= chars.len(),
            chars@ == raw@,
            pieces(raw@.take(i as int), ',') == done.push(raw@.subrange(start as int, i as int)),
            texts(list@) == kept_pieces(done),
        decreases chars.len() - i,
    {
        let ghost current = raw@.subrange(start as int, i as int);
        proof {
            assert(raw@.take(i + 1).drop_last() =~= raw@.take(i as int));
            assert(raw@.take(i + 1).last() == raw@[i as int]);
            assert(done.push(current).drop_last() =~= done);
        }
        if chars[i] == ',' {
            let piece = text_between(&chars, start, i);
            keep_piece(&mut list, piece.as_str(), Ghost(done));
            start = i + 1;
            proof {
                done = done.push(current);
                assert(raw@.subrange(start as int, i + 1) =~= Seq::empty());
            }
        } else {
            assert(raw@.subrange(start as int, i + 1) =~= current.push(raw@[i as int]));
        }
        i = i + 1;
    }
    assert(raw@.take(i as int) =~= raw@);
    let piece = text_between(&chars, start, i);
    keep_piece(&mut list, piece.as_str(), Ghost(done));
    list
}

/// Two digits denote the number that they were written from.
proof fn lemma_two_digits_denote(n: nat)
    ensures
        number(two_digits(n)) == n,
{
    law_numeral_denotes_its_number(n);
    if n < 10 {
        reveal_with_fuel(number, 3);
        assert(two_digits(n).drop_last() =~= seq!['0']);
        assert(seq!['0'].drop_last() =~= Seq::<char>::empty());
        assert(numeral(n).drop_last() =~= Seq::<char>::empty());
        assert(two_digits(n).last() == numeral(n).last());
    }
}

/// A clock time names the second that it was made from: its three numbers are hours,
/// minutes and seconds that add up to it, with less than sixty minutes and seconds.
pub proof fn law_clock_time_names_its_second(seconds: u32)
    ensures
        ({
            let hours = number(two_digits((seconds / 3600) as nat));
            let minutes = number(two_digits(((seconds % 3600) / 60) as nat));
            let rest = number(two_digits((seconds % 60) as nat));
            &&& hours * 3600 + minutes * 60 + rest == seconds
            &&& minutes < 60
            &&& rest < 60
        }),
{
    lemma_two_digits_denote((seconds / 3600) as nat);
    lemma_two_digits_denote(((seconds % 3600) / 60) as nat);
    lemma_two_digits_denote((seconds % 60) as nat);
}

/// A number of seconds and the clock time of that number ask for the same position.
pub proof fn law_seconds_and_clock_time_agree(timestamp: Seq<char>, seconds: u32)
    requires
        spelled_u32(timestamp) == Some(seconds),
    ensures
        seek_time(timestamp) == Some(clock_time(seconds)),
        seek_time(clock_time(seconds)) == Some(clock_time(seconds)),
{
    if timestamp.contains(':') {
        let at = choose|i: int| 0 <= i < timestamp.len() && timestamp[i] == ':';
        let digits = unsigned_digits(timestamp);
        if digits.len() == timestamp.len() {
            assert(is_digit(digits[at]));
        } else {
            assert(at > 0);
            assert(is_digit(digits[at - 1]));
        }
    }
    let hours = two_digits((seconds / 3600) as nat);
    assert(clock_time(seconds)[hours.len() as int] == ':');
}

/// A file name made from a timestamp is as long as it and has no character that
/// separates directories or drives.
pub proof fn law_filename_is_safe(timestamp: Seq<char>)
    ensures
        without_path_marks(timestamp).len() == timestamp.len(),
        !without_path_marks(timestamp).contains(':'),
        !without_path_marks(timestamp).contains('/'),
{
}

/// No piece holds the separator.
proof fn lemma_pieces_hold_no_separator(s: Seq<char>, separator: char)
    ensures
        pieces(s, separator).len() > 0,
        forall|i: int| 0 <= i < pieces(s, separator).len() ==> !(#[trigger] pieces(s, separator)[i]).contains(
            separator,
        ),
    decreases s.len(),
{
    if s.len() > 0 {
        lemma_pieces_hold_no_separator(s.drop_last(), separator);
        let before = pieces(s.drop_last(), separator);
        let after = pieces(s, separator);
        assert forall|i: int| 0 <= i < after.len() implies !(#[trigger] after[i]).contains(separator) by {
            if i < after.len() - 1 || s.last() == separator {
                if i < before.len() {
                    assert(after[i] == before[i]);
                }
            } else {
                assert(after[i] == before.last().push(s.last()));
                assert(!before[before.len() - 1].contains(separator));
                if after[i].contains(separator) {
                    let k = choose|k: int| 0 <= k < after[i].len() && after[i][k] == separator;
                    assert(before.last()[k] == separator);
                }
            }
        }
    }
}

/// Trimming only takes off white space at the ends.
proof fn lemma_trimmed(s: Seq<char>)
    ensures
        forall|c: char| trimmed(s).contains(c) ==> s.contains(c),
        trimmed(s).len() > 0 ==> !is_white_space(trimmed(s)[0]) && !is_white_space(trimmed(s).last()),
{
    lemma_trimmed_start(s);
    lemma_trimmed_end(trimmed_start(s));
}

/// Trimming the start leaves an end of the text.
proof fn lemma_trimmed_start(s: Seq<char>)
    ensures
        forall|c: char| trimmed_start(s).contains(c) ==> s.contains(c),
        trimmed_start(s).len() > 0 ==> !is_white_space(trimmed_start(s)[0]),
    decreases s.len(),
{
    if s.len() > 0 && is_white_space(s[0]) {
        lemma_trimmed_start(s.skip(1));
        assert forall|c: char| s.skip(1).contains(c) implies s.contains(c) by {
            let k = choose|k: int| 0 <= k < s.skip(1).len() && s.skip(1)[k] == c;
            assert(s[k + 1] == c);
        }
    }
}

/// Trimming the end leaves a start of the text.
proof fn lemma_trimmed_end(s: Seq<char>)
    ensures
        forall|c: char| trimmed_end(s).contains(c) ==> s.contains(c),
        trimmed_end(s).len() > 0 ==> !is_white_space(trimmed_end(s).last()) && trimmed_end(s)[0] == s[0],
    decreases s.len(),
{
    if s.len() > 0 && is_white_space(s.last()) {
        lemma_trimmed_end(s.drop_last());
        assert forall|c: char| s.drop_last().contains(c) implies s.contains(c) by {
            let k = choose|k: int| 0 <= k < s.drop_last().len() && s.drop_last()[k] == c;
            assert(s[k] == c);
        }
    }
}

/// Whether a timestamp can stand in a list as it is: it is not empty, has no white
/// space at its ends and no comma.
pub open spec fn is_list_entry(timestamp: Seq<char>) -> bool {
    &&& timestamp.len() > 0
    &&& !is_white_space(timestamp[0])
    &&& !is_white_space(timestamp.last())
    &&& !timestamp.contains(',')
}

/// Whatever the list is, the timestamps that are read from it are not empty, have no
/// white space at their ends and no comma.
pub proof fn law_listed_timestamps_are_clean(raw: Seq<char>)
    ensures
        forall|i: int| 0 <= i < listed_timestamps(raw).len() ==> is_list_entry(
            #[trigger] listed_timestamps(raw)[i],
        ),
{
    lemma_pieces_hold_no_separator(raw, ',');
    let all = pieces(raw, ',');
    assert forall|i: int| 0 <= i < all.len() implies !(#[trigger] all[i]).contains(',') by {
        assert(!pieces(raw, ',')[i].contains(','));
    }
    lemma_kept_are_clean(all);
}

/// The pieces that are kept are clean.
proof fn lemma_kept_are_clean(list: Seq<Seq<char>>)
    requires
        forall|i: int| 0 <= i < list.len() ==> !(#[trigger] list[i]).contains(','),
    ensures
        forall|i: int| 0 <= i < kept_pieces(list).len() ==> is_list_entry(#[trigger] kept_pieces(list)[i]),
    decreases list.len(),
{
    if list.len() == 0 {
        reveal(Seq::filter);
    } else {
        let before = list.drop_last();
        assert forall|i: int| 0 <= i < before.len() implies !(#[trigger] before[i]).contains(',') by {
            assert(before[i] == list[i]);
        }
        lemma_kept_are_clean(before);
        lemma_kept_push(before, list.last());
        assert(before.push(list.last()) =~= list);
        lemma_trimmed(list.last());
        assert forall|i: int| 0 <= i < kept_pieces(list).len() implies is_list_entry(
            #[trigger] kept_pieces(list)[i],
        ) by {
            if i < kept_pieces(before).len() {
                assert(kept_pieces(list)[i] == kept_pieces(before)[i]);
            } else {
                assert(!list[list.len() - 1].contains(','));
            }
        }
    }
}

/// Timestamps with commas between.
pub open spec fn comma_separated(list: Seq<Seq<char>>) -> Seq<char>
    decreases list.len(),
{
    if list.len() == 0 {
        Seq::empty()
    } else if list.len() == 1 {
        list[0]
    } else {
        comma_separated(list.drop_last()) + seq![','] + list.last()
    }
}

/// A text without the separator lengthens the last piece.
proof fn lemma_pieces_extend(s: Seq<char>, more: Seq<char>, separator: char)
    requires
        !more.contains(separator),
    ensures
        pieces(s, separator).len() > 0,
        pieces(s + more, separator) == pieces(s, separator).drop_last().push(
            pieces(s, separator).last() + more,
        ),
    decreases more.len(),
{
    lemma_some_piece(s, separator);
    let before = pieces(s, separator);
    if more.len() == 0 {
        assert(s + more =~= s);
        assert(before.last() + more =~= before.last());
        assert(before.drop_last().push(before.last()) =~= before);
    } else {
        let shorter = more.drop_last();
        assert(!shorter.contains(separator)) by {
            if shorter.contains(separator) {
                let k = choose|k: int| 0 <= k < shorter.len() && shorter[k] == separator;
                assert(more[k] == separator);
            }
        }
        lemma_pieces_extend(s, shorter, separator);
        assert((s + more).drop_last() =~= s + shorter);
        assert(more[more.len() - 1] == more.last());
        let middle = pieces(s + shorter, separator);
        assert(middle.drop_last() =~= before.drop_last());
        assert((before.last() + shorter).push(more.last()) =~= before.last() + more);
    }
}

/// A list of timestamps reads back from the text that it makes with commas between.
pub proof fn law_list_of_timestamps_reads_back(list: Seq<Seq<char>>)
    requires
        forall|i: int| 0 <= i < list.len() ==> is_list_entry(#[trigger] list[i]),
    ensures
        listed_timestamps(comma_separated(list)) == list,
{
    if list.len() == 0 {
        lemma_kept_push(Seq::empty(), Seq::empty());
        assert(pieces(Seq::empty(), ',') =~= Seq::<Seq<char>>::empty().push(Seq::empty()));
        reveal(Seq::filter);
        assert(kept_pieces(Seq::empty()) =~= Seq::empty());
        assert(listed_timestamps(comma_separated(list)) =~= list);
    } else {
        lemma_comma_separated(list);
        lemma_kept_of_clean(list);
    }
}

/// The pieces of a list with commas between are its timestamps.
proof fn lemma_comma_separated(list: Seq<Seq<char>>)
    requires
        list.len() > 0,
        forall|i: int| 0 <= i < list.len() ==> is_list_entry(#[trigger] list[i]),
    ensures
        pieces(comma_separated(list), ',') == list,
    decreases list.len(),
{
    let entry = list.last();
    assert(is_list_entry(list[list.len() - 1]));
    if list.len() == 1 {
        let nothing = Seq::<char>::empty();
        lemma_pieces_extend(nothing, entry, ',');
        assert(nothing + entry =~= entry);
        assert(pieces(entry, ',') =~= list);
    } else {
        let before = list.drop_last();
        assert forall|i: int| 0 <= i < before.len() implies is_list_entry(#[trigger] before[i]) by {
            assert(before[i] == list[i]);
        }
        lemma_comma_separated(before);
        let start = comma_separated(before) + seq![','];
        assert(start.drop_last() =~= comma_separated(before));
        assert(pieces(start, ',') == before.push(Seq::empty()));
        lemma_pieces_extend(start, entry, ',');
        assert(before.push(Seq::<char>::empty()).drop_last() =~= before);
        assert(Seq::<char>::empty() + entry =~= entry);
        assert(before.push(entry) =~= list);
    }
}

/// Clean pieces are all kept as they are.
proof fn lemma_kept_of_clean(list: Seq<Seq<char>>)
    requires
        forall|i: int| 0 <= i < list.len() ==> is_list_entry(#[trigger] list[i]),
    ensures
        kept_pieces(list) == list,
    decreases list.len(),
{
    if list.len() == 0 {
        reveal(Seq::filter);
        assert(kept_pieces(list) =~= list);
    } else {
        let before = list.drop_last();
        assert forall|i: int| 0 <= i < before.len() implies is_list_entry(#[trigger] before[i]) by {
            assert(before[i] == list[i]);
        }
        lemma_kept_of_clean(before);
        lemma_kept_push(before, list.last());
        assert(is_list_entry(list[list.len() - 1]));
        assert(trimmed(list.last()) == list.last());
        assert(before.push(list.last()) =~= list);
    }
}

/// A position moves by sixty seconds with each minute and by one with each second.
pub proof fn law_position_counts_minutes_and_seconds(minute: u32, second: u32)
    ensures
        position(0, 0) == 0,
        minute < 4294967295 ==> position((minute + 1) as u32, second) == position(minute, second) + 60,
        second < 4294967295 ==> position(minute, (second + 1) as u32) == position(minute, second) + 1,
        position(minute, second) == 60 * minute + second,
{
}

/// Whether a text is hours, minutes and seconds with colons between, the minutes and
/// seconds of two digits and below sixty, the hours of two digits or as many as they need.
pub open spec fn is_clock(text: Seq<char>, hours: Seq<char>, minutes: Seq<char>, seconds: Seq<char>) -> bool {
    &&& text == hours + seq![':'] + minutes + seq![':'] + seconds
    &&& is_digits(hours) && is_digits(minutes) && is_digits(seconds)
    &&& hours.len() >= 2 && minutes.len() == 2 && seconds.len() == 2
    &&& hours.len() > 2 ==> hours[0] != '0'
    &&& number(minutes) < 60 && number(seconds) < 60
}

/// Whether a text, read as hours, minutes and seconds, is so many seconds.
pub open spec fn reads_as_seconds(text: Seq<char>, total: int) -> bool {
    exists|hours: Seq<char>, minutes: Seq<char>, seconds: Seq<char>| #[trigger]
        is_clock(text, hours, minutes, seconds) && number(hours) * 3600 + number(minutes) * 60 + number(seconds)
            == total
}

/// How long two digits are.
proof fn lemma_two_digits(n: nat)
    ensures
        is_digits(two_digits(n)),
        number(two_digits(n)) == n,
        two_digits(n).len() >= 2,
        n < 100 ==> two_digits(n).len() == 2,
        two_digits(n).len() > 2 ==> two_digits(n)[0] != '0',
{
    lemma_two_digits_denote(n);
    law_numeral_denotes_its_number(n);
    law_numeral_has_no_needless_zero(n);
    let text = two_digits(n);
    assert forall|i: int| 0 <= i < text.len() implies '0' <= #[trigger] text[i] <= '9' by {
        if n < 10 {
            if i > 0 {
                assert(is_digit(numeral(n)[i - 1]));
            }
        } else {
            assert(is_digit(numeral(n)[i]));
        }
    }
    if n >= 10 {
        law_numeral_denotes_its_number(n / 10);
        law_numeral_has_no_needless_zero(n / 10);
    }
}

/// The text of a clock time, read as hours, minutes and seconds, is the number of seconds
/// that it was made from.
pub proof fn law_clock_time_reads_as_its_seconds(seconds: u32)
    ensures
        reads_as_seconds(clock_time(seconds), seconds as int),
{
    let hours = two_digits((seconds / 3600) as nat);
    let minutes = two_digits(((seconds % 3600) / 60) as nat);
    let rest = two_digits((seconds % 60) as nat);
    lemma_two_digits((seconds / 3600) as nat);
    lemma_two_digits(((seconds % 3600) / 60) as nat);
    lemma_two_digits((seconds % 60) as nat);
    assert(clock_time(seconds) =~= hours + seq![':'] + minutes + seq![':'] + rest);
    assert(is_clock(clock_time(seconds), hours, minutes, rest));
}

/// A timestamp with a colon anywhere asks for the position that it names, character for
/// character.
pub proof fn law_timestamp_with_a_colon_is_its_own_position(before: Seq<char>, after: Seq<char>)
    ensures
        seek_time(before + seq![':'] + after) == Some(before + seq![':'] + after),
{
    let timestamp = before + seq![':'] + after;
    assert(timestamp[before.len() as int] == ':');
}

/// A timestamp without a colon that is a number asks for a position that reads as that
/// many seconds; one that is no number asks for none.
pub proof fn law_plain_seconds_ask_for_that_second(timestamp: Seq<char>)
    requires
        !timestamp.contains(':'),
    ensures
        is_digits(timestamp) && number(timestamp) <= 4294967295 ==> {
            &&& seek_time(timestamp) matches Some(seek) && reads_as_seconds(seek, number(timestamp) as int)
            &&& seek_time(seq!['+'] + timestamp) == seek_time(timestamp)
        },
        is_digits(timestamp) && number(timestamp) > 4294967295 ==> seek_time(timestamp) is None,
        !is_digits(timestamp) && (timestamp.len() == 0 || timestamp[0] != '+') ==> seek_time(timestamp) is None,
        !is_digits(timestamp) ==> seek_time(seq!['+'] + timestamp) is None,
{
    law_digits_are_read_as_their_number(timestamp);
    if is_digits(timestamp) && number(timestamp) <= 4294967295 {
        law_clock_time_reads_as_its_seconds(number(timestamp) as u32);
    }
    let signed = seq!['+'] + timestamp;
    if signed.contains(':') {
        let at = choose|at: int| 0 <= at < signed.len() && signed[at] == ':';
        assert(timestamp[at - 1] == ':');
    }
}

/// Splitting goes part by part.
proof fn lemma_pieces_of_parts(a: Seq<char>, b: Seq<char>, separator: char)
    ensures
        pieces(a + seq![separator] + b, separator) == pieces(a, separator) + pieces(b, separator),
    decreases b.len(),
{
    let all = a + seq![separator] + b;
    lemma_some_piece(b, separator);
    if b.len() == 0 {
        assert(all.drop_last() =~= a);
        assert(all.last() == separator);
        assert(pieces(all, separator) =~= pieces(a, separator) + pieces(b, separator));
    } else {
        let shorter = b.drop_last();
        lemma_pieces_of_parts(a, shorter, separator);
        lemma_some_piece(shorter, separator);
        assert(all.drop_last() =~= a + seq![separator] + shorter);
        assert(all.last() == b.last());
        let (x, y) = (pieces(a, separator), pieces(shorter, separator));
        assert((x + y).last() == y.last());
        assert((x + y).drop_last() =~= x + y.drop_last());
        assert(pieces(all, separator) =~= x + pieces(b, separator));
    }
}

/// Pieces are kept part by part.
proof fn lemma_kept_of_parts(a: Seq<Seq<char>>, b: Seq<Seq<char>>)
    ensures
        kept_pieces(a + b) == kept_pieces(a) + kept_pieces(b),
    decreases b.len(),
{
    if b.len() == 0 {
        reveal(Seq::filter);
        assert(a + b =~= a);
        assert(kept_pieces(b) =~= Seq::empty());
        assert(kept_pieces(a) + kept_pieces(b) =~= kept_pieces(a));
    } else {
        let shorter = b.drop_last();
        lemma_kept_of_parts(a, shorter);
        lemma_kept_push(a + shorter, b.last());
        lemma_kept_push(shorter, b.last());
        assert(a + b =~= (a + shorter).push(b.last()));
        assert(b =~= shorter.push(b.last()));
        assert(kept_pieces(a + b) =~= kept_pieces(a) + kept_pieces(b));
    }
}

/// The timestamps of a list are those before a comma and then those after it.
pub proof fn law_list_is_read_part_by_part(a: Seq<char>, b: Seq<char>)
    ensures
        listed_timestamps(a + seq![','] + b) == listed_timestamps(a) + listed_timestamps(b),
{
    lemma_pieces_of_parts(a, b, ',');
    lemma_kept_of_parts(pieces(a, ','), pieces(b, ','));
}

/// A list without a comma is one timestamp, without the white space around it, or none if
/// nothing is left.
pub proof fn law_list_without_a_comma_is_one_timestamp(raw: Seq<char>)
    requires
        !raw.contains(','),
    ensures
        trimmed(raw).len() > 0 ==> listed_timestamps(raw) == seq![trimmed(raw)],
        trimmed(raw).len() == 0 ==> listed_timestamps(raw) == Seq::<Seq<char>>::empty(),
{
    let nothing = Seq::<char>::empty();
    lemma_pieces_extend(nothing, raw, ',');
    assert(nothing + raw =~= raw);
    assert(pieces(nothing, ',') =~= seq![nothing]);
    let none = Seq::<Seq<char>>::empty();
    assert(pieces(raw, ',') =~= none.push(raw));
    lemma_kept_push(none, raw);
    reveal(Seq::filter);
    assert(kept_pieces(none) =~= none);
    assert(none.push(trimmed(raw)) =~= seq![trimmed(raw)]);
}

} // verus!
