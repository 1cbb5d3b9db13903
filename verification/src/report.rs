//! The report that goes into an archive of frames.
use crate::json::{
    is_plain, json_fields, json_list, json_object, json_pretty, json_read, json_text, json_texts, json_tree,
    json_trees, write_json_pretty, JsonTree,
};
use crate::text::{
    at_most, lemma_text_le_antisymmetric, lemma_text_le_total, lemma_text_le_transitive, text_le, texts,
};
use vstd::prelude::*;

verus! {

/// Which frames were extracted, and which were not.
#[derive(Debug, PartialEq, Eq)]
pub struct ExtractionReport {
    pub successful_timestamps: Vec<String>,
    pub failed_timestamps: Vec<FailedTimestamp>,
}

/// A timestamp without a frame, and why there is none.
#[derive(Debug, PartialEq, Eq)]
pub struct FailedTimestamp {
    pub timestamp: String,
    pub reason: String,
}

/// A report as mathematical values; a failure is a timestamp with its reason.
pub struct ReportView {
    pub successful: Seq<Seq<char>>,
    pub failed: Seq<(Seq<char>, Seq<char>)>,
}

impl View for FailedTimestamp {
    type V = (Seq<char>, Seq<char>);

    open spec fn view(&self) -> (Seq<char>, Seq<char>) {
        (self.timestamp@, self.reason@)
    }
}

/// The failures of a list.
pub open spec fn failures(list: Seq<FailedTimestamp>) -> Seq<(Seq<char>, Seq<char>)> {
    list.map_values(|f: FailedTimestamp| f@)
}

impl View for ExtractionReport {
    type V = ReportView;

    open spec fn view(&self) -> ReportView {
        ReportView {
            successful: texts(self.successful_timestamps@),
            failed: failures(self.failed_timestamps@),
        }
    }
}

/// A failure as it stands in the report.
pub open spec fn failure_tree(failure: (Seq<char>, Seq<char>)) -> JsonTree {
    JsonTree::Object(
        seq![("timestamp"@, JsonTree::Text(failure.0)), ("reason"@, JsonTree::Text(failure.1))],
    )
}

/// A report as a JSON object.
pub open spec fn report_tree(report: ReportView) -> JsonTree {
    JsonTree::Object(
        seq![
            (
                "successful_timestamps"@,
                JsonTree::List(report.successful.map_values(|text: Seq<char>| JsonTree::Text(text))),
            ),
            (
                "failed_timestamps"@,
                JsonTree::List(
                    report.failed.map_values(|failure: (Seq<char>, Seq<char>)| failure_tree(failure)),
                ),
            ),
        ],
    )
}

/// The JSON object of one failure.
fn failure_value(failure: &FailedTimestamp) -> (value: serde_json::Value)
    ensures
        json_tree(value) == failure_tree(failure@),
{
    let fields = vec![
        ("timestamp".to_owned(), json_text(failure.timestamp.as_str())),
        ("reason".to_owned(), json_text(failure.reason.as_str())),
    ];
    proof {
        reveal_strlit("timestamp");
        reveal_strlit("reason");
        assert(fields[0].0@.len() == 9 && fields[1].0@.len() == 6);
        assert(json_fields(fields@) =~= seq![
            ("timestamp"@, JsonTree::Text(failure.timestamp@)),
            ("reason"@, JsonTree::Text(failure.reason@)),
        ]);
    }
    json_object(fields)
}

/// The JSON text of a report.
pub fn report_json(report: &ExtractionReport) -> (bytes: Vec<u8>)
    ensures
        bytes@ == json_pretty(report_tree(report@)),
        report_reads_back(report@),
{
    let mut failed: Vec<serde_json::Value> = Vec::new();
    let mut i: usize = 0;
    while i < report.failed_timestamps.len()
        invariant
            i <= report.failed_timestamps.len(),
            failed.len() == i,
            forall|j: int|
                0 <= j < i ==> json_tree(#[trigger] failed[j]) == failure_tree(report.failed_timestamps[j]@),
        decreases report.failed_timestamps.len() - i,
    {
        failed.push(failure_value(&report.failed_timestamps[i]));
        i = i + 1;
    }
    assert(json_trees(failed@) =~= report@.failed.map_values(
        |failure: (Seq<char>, Seq<char>)| failure_tree(failure),
    ));
    let fields = vec![
        ("successful_timestamps".to_owned(), json_texts(&report.successful_timestamps)),
        ("failed_timestamps".to_owned(), json_list(failed)),
    ];
    proof {
        reveal_strlit("successful_timestamps");
        reveal_strlit("failed_timestamps");
        assert(fields[0].0@.len() == 21 && fields[1].0@.len() == 17);
        assert(JsonTree::Object(json_fields(fields@)) == report_tree(report@)) by {
            assert(json_fields(fields@) =~= (report_tree(report@)->Object_0));
        }
        lemma_report_is_plain(report@);
    }
    let value = json_object(fields);
    match write_json_pretty(&value) {
        Ok(bytes) => bytes,
        Err(_) => Vec::new(),
    }
}

/// A report nests no deeper than its failures, and its names are its own.
proof fn lemma_report_is_plain(report: ReportView)
    ensures
        is_plain(report_tree(report), 127),
{
    reveal_strlit("$serde_json::private::RawValue");
    reveal_strlit("$serde_json::private::Number");
    reveal_strlit("timestamp");
    reveal_strlit("successful_timestamps");
    assert("timestamp"@.len() == 9 && "successful_timestamps"@.len() == 21);
    let successful = report.successful.map_values(|text: Seq<char>| JsonTree::Text(text));
    let failed = report.failed.map_values(|failure: (Seq<char>, Seq<char>)| failure_tree(failure));
    assert forall|i: int| 0 <= i < successful.len() implies is_plain(#[trigger] successful[i], 125) by {
    }
    assert forall|i: int| 0 <= i < failed.len() implies is_plain(#[trigger] failed[i], 125) by {
        let fields = failure_tree(report.failed[i])->Object_0;
        assert(fields[0].0 == "timestamp"@);
        assert forall|j: int| 0 <= j < fields.len() implies is_plain((#[trigger] fields[j]).1, 124) by {
        }
    }
    let fields = report_tree(report)->Object_0;
    assert(fields[0].0 == "successful_timestamps"@);
    assert forall|j: int| 0 <= j < fields.len() implies is_plain((#[trigger] fields[j]).1, 126) by {
        assert(is_plain(JsonTree::List(successful), 126));
        assert(is_plain(JsonTree::List(failed), 126));
    }
}

/// Whether the failures stand in the order of their timestamps.
pub open spec fn in_order(list: Seq<(Seq<char>, Seq<char>)>) -> bool {
    forall|i: int, j: int| 0 <= i <= j < list.len() ==> text_le((#[trigger] list[i]).0, (#[trigger] list[j]).0)
}

/// The failures of one timestamp, in the order of the list.
pub open spec fn of_timestamp(list: Seq<(Seq<char>, Seq<char>)>, timestamp: Seq<char>) -> Seq<
    (Seq<char>, Seq<char>),
> {
    list.filter(|failure: (Seq<char>, Seq<char>)| failure.0 == timestamp)
}

/// Whether `sorted` holds the failures of `list` in the order of their timestamps,
/// those of one timestamp in the order that they had.
pub open spec fn sorted_from(sorted: Seq<(Seq<char>, Seq<char>)>, list: Seq<(Seq<char>, Seq<char>)>) -> bool {
    &&& in_order(sorted)
    &&& sorted.to_multiset() == list.to_multiset()
    &&& forall|timestamp: Seq<char>| #[trigger]
        of_timestamp(sorted, timestamp) == of_timestamp(list, timestamp)
}

/// A failure put before those that it does not exceed, and after the others, makes
/// a sorted list of the longer list.
proof fn lemma_sorted_insert(
    sorted: Seq<(Seq<char>, Seq<char>)>,
    list: Seq<(Seq<char>, Seq<char>)>,
    failure: (Seq<char>, Seq<char>),
    at: int,
)
    requires
        sorted_from(sorted, list),
        0 <= at <= sorted.len(),
        forall|j: int| 0 <= j < at ==> !text_le(failure.0, (#[trigger] sorted[j]).0),
        at < sorted.len() ==> text_le(failure.0, sorted[at].0),
    ensures
        sorted_from(sorted.insert(at, failure), seq![failure] + list),
{
    broadcast use vstd::seq_lib::group_to_multiset_ensures;

    let result = sorted.insert(at, failure);
    let before = sorted.take(at);
    let after = sorted.skip(at);
    assert(sorted =~= before + after);
    assert(result =~= before + (seq![failure] + after));
    assert(in_order(result)) by {
        assert forall|i: int, j: int| 0 <= i <= j < result.len() implies text_le(
            (#[trigger] result[i]).0,
            (#[trigger] result[j]).0,
        ) by {
            lemma_text_le_total(result[i].0, result[j].0);
            if i < at && j < at {
                assert(text_le(sorted[i].0, sorted[j].0));
            } else if i < at && j == at {
                lemma_text_le_total(failure.0, sorted[i].0);
            } else if i < at {
                assert(text_le(sorted[i].0, sorted[j - 1].0));
            } else if i == at && j > at {
                assert(text_le(sorted[at].0, sorted[j - 1].0));
                lemma_text_le_transitive(failure.0, sorted[at].0, sorted[j - 1].0);
            } else if i > at {
                assert(text_le(sorted[i - 1].0, sorted[j - 1].0));
            }
        }
    }
    assert(result.to_multiset() =~= (seq![failure] + list).to_multiset()) by {
        assert(result.remove(at) =~= sorted);
        assert((seq![failure] + list).remove(0) =~= list);
        assert(result[at] == failure);
        vstd::seq_lib::to_multiset_remove(result, at);
        vstd::seq_lib::to_multiset_remove(seq![failure] + list, 0);
        assert(result.contains(failure));
        assert((seq![failure] + list)[0] == failure);
        assert((seq![failure] + list).contains(failure));
    }
    assert forall|timestamp: Seq<char>| #[trigger]
        of_timestamp(result, timestamp) == of_timestamp(seq![failure] + list, timestamp) by {
        let same = |f: (Seq<char>, Seq<char>)| f.0 == timestamp;
        Seq::filter_distributes_over_add(before, seq![failure] + after, same);
        Seq::filter_distributes_over_add(seq![failure], after, same);
        Seq::filter_distributes_over_add(before, after, same);
        Seq::filter_distributes_over_add(seq![failure], list, same);
        assert(of_timestamp(sorted, timestamp) == of_timestamp(list, timestamp));
        reveal(Seq::filter);
        if failure.0 == timestamp {
            before.lemma_filter_len(same);
            assert(before.filter(same).len() == 0) by {
                if before.filter(same).len() > 0 {
                    before.lemma_filter_pred(same, 0);
                    lemma_filter_keeps(before, same, 0);
                    let j = choose|j: int| 0 <= j < before.len() && before[j] == before.filter(same)[0];
                    lemma_text_le_total(failure.0, failure.0);
                    assert(before[j] == sorted[j]);
                }
            }
            assert(before.filter(same) =~= Seq::empty());
            assert(result.filter(same) =~= seq![failure].filter(same) + after.filter(same));
        } else {
            assert(seq![failure].filter(same) =~= Seq::empty()) by {
                reveal_with_fuel(Seq::filter, 2);
                assert(seq![failure].drop_last() =~= Seq::empty());
            }
            assert(result.filter(same) =~= before.filter(same) + after.filter(same));
            assert((seq![failure] + list).filter(same) =~= list.filter(same));
        }
    }
}

/// What a filter keeps was there before.
proof fn lemma_filter_keeps<A>(list: Seq<A>, pred: spec_fn(A) -> bool, i: int)
    requires
        0 <= i < list.filter(pred).len(),
    ensures
        exists|j: int| 0 <= j < list.len() && list[j] == list.filter(pred)[i],
    decreases list.len(),
{
    reveal(Seq::filter);
    if list.len() > 0 {
        let shorter = list.drop_last();
        if i < shorter.filter(pred).len() {
            lemma_filter_keeps(shorter, pred, i);
            let j = choose|j: int| 0 <= j < shorter.len() && shorter[j] == shorter.filter(pred)[i];
            assert(list[j] == list.filter(pred)[i]);
        } else {
            assert(list[list.len() - 1] == list.filter(pred)[i]);
        }
    }
}

/// `failure` in its place among failures that stand in order: before the first that
/// it does not exceed.
pub open spec fn placed(sorted: Seq<(Seq<char>, Seq<char>)>, failure: (Seq<char>, Seq<char>)) -> Seq<
    (Seq<char>, Seq<char>),
>
    decreases sorted.len(),
{
    if sorted.len() == 0 || text_le(failure.0, sorted[0].0) {
        seq![failure] + sorted
    } else {
        seq![sorted[0]] + placed(sorted.skip(1), failure)
    }
}

/// The failures of a list in the order of their timestamps, those of one timestamp
/// in the order that they had.
pub open spec fn sorted_failures(list: Seq<(Seq<char>, Seq<char>)>) -> Seq<(Seq<char>, Seq<char>)>
    decreases list.len(),
{
    if list.len() == 0 {
        list
    } else {
        placed(sorted_failures(list.skip(1)), list[0])
    }
}

/// Where the place of a failure is.
proof fn lemma_placed(sorted: Seq<(Seq<char>, Seq<char>)>, failure: (Seq<char>, Seq<char>), at: int)
    requires
        0 <= at <= sorted.len(),
        forall|j: int| 0 <= j < at ==> !text_le(failure.0, (#[trigger] sorted[j]).0),
        at < sorted.len() ==> text_le(failure.0, sorted[at].0),
    ensures
        placed(sorted, failure) == sorted.insert(at, failure),
    decreases sorted.len(),
{
    if at == 0 {
        assert(seq![failure] + sorted =~= sorted.insert(at, failure));
    } else {
        let rest = sorted.skip(1);
        assert(!text_le(failure.0, sorted[0].0));
        assert forall|j: int| 0 <= j < at - 1 implies !text_le(failure.0, (#[trigger] rest[j]).0) by {
            assert(rest[j] == sorted[j + 1]);
        }
        lemma_placed(rest, failure, at - 1);
        assert(seq![sorted[0]] + rest.insert(at - 1, failure) =~= sorted.insert(at, failure));
    }
}

/// The failures in the order of their timestamps; those of one timestamp keep
/// their order.
pub fn sort_failures(list: Vec<FailedTimestamp>) -> (sorted: Vec<FailedTimestamp>)
    ensures
        failures(sorted@) == sorted_failures(failures(list@)),
        sorted_from(failures(sorted@), failures(list@)),
{
    let ghost all = failures(list@);
    let mut list = list;
    let mut sorted: Vec<FailedTimestamp> = Vec::new();
    assert(failures(sorted@) =~= all.skip(list.len() as int));
    while list.len() > 0
        invariant
            list.len() <= all.len(),
            failures(list@) == all.take(list.len() as int),
            failures(sorted@) == sorted_failures(all.skip(list.len() as int)),
            sorted_from(failures(sorted@), all.skip(list.len() as int)),
        decreases list.len(),
    {
        let ghost left = list.len() - 1;
        let ghost before = failures(sorted@);
        let ghost unsorted = list@;
        match list.pop() {
            Some(failure) => {
                assert(failures(unsorted)[left] == failure@);
                let mut at: usize = 0;
                while at < sorted.len() && !at_most(
                    failure.timestamp.as_str(),
                    sorted[at].timestamp.as_str(),
                )
                    invariant
                        at <= sorted.len(),
                        before == failures(sorted@),
                        forall|j: int| 0 <= j < at ==> !text_le(failure@.0, (#[trigger] before[j]).0),
                    decreases sorted.len() - at,
                {
                    assert(before[at as int] == sorted[at as int]@);
                    at = at + 1;
                }
                proof {
                    if at < sorted.len() {
                        assert(before[at as int] == sorted[at as int]@);
                    }
                    lemma_sorted_insert(before, all.skip(left + 1), failure@, at as int);
                    lemma_placed(before, failure@, at as int);
                    assert(all.skip(left).skip(1) =~= all.skip(left + 1));
                }
                sorted.insert(at, failure);
                assert(failures(sorted@) =~= before.insert(at as int, failure@));
                assert(seq![failure@] + all.skip(left + 1) =~= all.skip(left));
                assert(failures(list@) =~= all.take(left));
            },
            None => {},
        }
    }
    assert(all.skip(0) =~= all);
    sorted
}

/// Every failure has a place among failures that stand in order.
proof fn lemma_place_exists(sorted: Seq<(Seq<char>, Seq<char>)>, failure: (Seq<char>, Seq<char>)) -> (at: int)
    ensures
        0 <= at <= sorted.len(),
        forall|j: int| 0 <= j < at ==> !text_le(failure.0, (#[trigger] sorted[j]).0),
        at < sorted.len() ==> text_le(failure.0, sorted[at].0),
    decreases sorted.len(),
{
    if sorted.len() == 0 || text_le(failure.0, sorted[0].0) {
        0
    } else {
        let rest = sorted.skip(1);
        let at = lemma_place_exists(rest, failure);
        assert forall|j: int| 0 <= j < at + 1 implies !text_le(failure.0, (#[trigger] sorted[j]).0) by {
            if j > 0 {
                assert(rest[j - 1] == sorted[j]);
            }
        }
        at + 1
    }
}

/// The sorted failures are those of the list, in the order of their timestamps, and
/// those of one timestamp keep their order.
pub proof fn law_sorted_failures_are_the_failures(list: Seq<(Seq<char>, Seq<char>)>)
    ensures
        sorted_from(sorted_failures(list), list),
        forall|i: int, j: int|
            0 <= i <= j < sorted_failures(list).len() ==> text_le(
                (#[trigger] sorted_failures(list)[i]).0,
                (#[trigger] sorted_failures(list)[j]).0,
            ),
        sorted_failures(list).to_multiset() == list.to_multiset(),
    decreases list.len(),
{
    if list.len() > 0 {
        let rest = list.skip(1);
        law_sorted_failures_are_the_failures(rest);
        let at = lemma_place_exists(sorted_failures(rest), list[0]);
        lemma_sorted_insert(sorted_failures(rest), rest, list[0], at);
        lemma_placed(sorted_failures(rest), list[0], at);
        assert(seq![list[0]] + rest =~= list);
    }
}

/// The failures of one timestamp, by whatever words they are picked out.
proof fn lemma_of_timestamp(
    list: Seq<(Seq<char>, Seq<char>)>,
    timestamp: Seq<char>,
    of_it: spec_fn((Seq<char>, Seq<char>)) -> bool,
)
    requires
        forall|failure: (Seq<char>, Seq<char>)| #[trigger] of_it(failure) == (failure.0 == timestamp),
    ensures
        of_timestamp(list, timestamp) == list.filter(of_it),
    decreases list.len(),
{
    reveal(Seq::filter);
    if list.len() > 0 {
        lemma_of_timestamp(list.drop_last(), timestamp, of_it);
        assert(of_it(list.last()) == (list.last().0 == timestamp));
    }
}

/// The failures of one timestamp keep their order when failures are sorted.
pub proof fn law_failures_of_one_timestamp_keep_their_order(
    list: Seq<(Seq<char>, Seq<char>)>,
    timestamp: Seq<char>,
    of_it: spec_fn((Seq<char>, Seq<char>)) -> bool,
)
    requires
        forall|failure: (Seq<char>, Seq<char>)| #[trigger] of_it(failure) == (failure.0 == timestamp),
    ensures
        sorted_failures(list).filter(of_it) == list.filter(of_it),
{
    law_sorted_failures_are_the_failures(list);
    assert(of_timestamp(sorted_failures(list), timestamp) == of_timestamp(list, timestamp));
    lemma_of_timestamp(sorted_failures(list), timestamp, of_it);
    lemma_of_timestamp(list, timestamp, of_it);
}

/// Whether no timestamp failed for two reasons.
pub open spec fn one_reason_each(list: Seq<(Seq<char>, Seq<char>)>) -> bool {
    forall|i: int, j: int|
        0 <= i < list.len() && 0 <= j < list.len() && (#[trigger] list[i]).0 == (#[trigger] list[j]).0 ==> list[i]
            == list[j]
}

/// There is one way only to put failures in order.
proof fn lemma_order_is_unique(a: Seq<(Seq<char>, Seq<char>)>, b: Seq<(Seq<char>, Seq<char>)>)
    requires
        in_order(a),
        in_order(b),
        a.to_multiset() == b.to_multiset(),
        one_reason_each(a),
    ensures
        a == b,
    decreases a.len(),
{
    broadcast use vstd::seq_lib::group_to_multiset_ensures;

    vstd::seq_lib::to_multiset_len(a);
    vstd::seq_lib::to_multiset_len(b);
    if a.len() == 0 {
        assert(a =~= b);
    } else {
        assert(a.contains(a[0]) && b.contains(b[0]));
        assert(b.to_multiset().count(a[0]) > 0 && a.to_multiset().count(b[0]) > 0);
        let k = choose|k: int| 0 <= k < b.len() && b[k] == a[0];
        let j = choose|j: int| 0 <= j < a.len() && a[j] == b[0];
        assert(text_le(b[0].0, b[k].0) && text_le(a[0].0, a[j].0));
        lemma_text_le_antisymmetric(a[0].0, b[0].0);
        assert(a[0] == a[j]);
        let rest_a = a.remove(0);
        let rest_b = b.remove(0);
        assert(in_order(rest_a)) by {
            assert forall|i: int, j: int| 0 <= i <= j < rest_a.len() implies text_le(
                (#[trigger] rest_a[i]).0,
                (#[trigger] rest_a[j]).0,
            ) by {
                assert(text_le(a[i + 1].0, a[j + 1].0));
            }
        }
        assert(in_order(rest_b)) by {
            assert forall|i: int, j: int| 0 <= i <= j < rest_b.len() implies text_le(
                (#[trigger] rest_b[i]).0,
                (#[trigger] rest_b[j]).0,
            ) by {
                assert(text_le(b[i + 1].0, b[j + 1].0));
            }
        }
        assert(one_reason_each(rest_a)) by {
            assert forall|i: int, j: int|
                0 <= i < rest_a.len() && 0 <= j < rest_a.len() && (#[trigger] rest_a[i]).0 == (
                #[trigger] rest_a[j]).0 implies rest_a[i] == rest_a[j] by {
                assert(a[i + 1] == a[j + 1]);
            }
        }
        lemma_order_is_unique(rest_a, rest_b);
        assert(a =~= seq![a[0]] + rest_a);
        assert(b =~= seq![b[0]] + rest_b);
    }
}

/// In whatever order failures come in, they are sorted into the same list, as long as
/// no timestamp failed for two reasons.
pub proof fn law_sorted_failures_do_not_depend_on_order(
    a: Seq<(Seq<char>, Seq<char>)>,
    b: Seq<(Seq<char>, Seq<char>)>,
)
    requires
        a.to_multiset() == b.to_multiset(),
        one_reason_each(a),
    ensures
        sorted_failures(a) == sorted_failures(b),
{
    broadcast use vstd::seq_lib::group_to_multiset_ensures;

    law_sorted_failures_are_the_failures(a);
    law_sorted_failures_are_the_failures(b);
    let sorted = sorted_failures(a);
    assert forall|i: int, j: int|
        0 <= i < sorted.len() && 0 <= j < sorted.len() && (#[trigger] sorted[i]).0 == (
        #[trigger] sorted[j]).0 implies sorted[i] == sorted[j] by {
        assert(sorted.contains(sorted[i]) && sorted.contains(sorted[j]));
        assert(a.to_multiset().count(sorted[i]) > 0 && a.to_multiset().count(sorted[j]) > 0);
        let k = choose|k: int| 0 <= k < a.len() && a[k] == sorted[i];
        let l = choose|l: int| 0 <= l < a.len() && a[l] == sorted[j];
        assert(a[k] == a[l]);
    }
    lemma_order_is_unique(sorted, sorted_failures(b));
}

/// Whether the JSON text of a report reads back as the report.
pub open spec fn report_reads_back(report: ReportView) -> bool {
    json_read(json_pretty(report_tree(report))) == Some(report_tree(report))
}

/// A report as JSON is one object: the successful timestamps under their name, one text
/// each, and then the failed ones under theirs, one object each with the timestamp and the
/// reason. Nothing is left out, added or changed.
pub proof fn law_report_tells_everything_in_json(report: ReportView, i: int)
    ensures
        report_tree(report) matches JsonTree::Object(fields) && {
            &&& fields.len() == 2
            &&& fields[0].0 == "successful_timestamps"@
            &&& fields[1].0 == "failed_timestamps"@
            &&& fields[0].1 matches JsonTree::List(successes) && {
                &&& successes.len() == report.successful.len()
                &&& 0 <= i < successes.len() ==> successes[i] == JsonTree::Text(report.successful[i])
            }
            &&& fields[1].1 matches JsonTree::List(failures) && {
                &&& failures.len() == report.failed.len()
                &&& 0 <= i < failures.len() ==> failures[i] == JsonTree::Object(
                    seq![
                        ("timestamp"@, JsonTree::Text(report.failed[i].0)),
                        ("reason"@, JsonTree::Text(report.failed[i].1)),
                    ],
                )
            }
        },
{
}

/// What is stated of a report and of failures is stated of their own fields.
pub proof fn law_reports_are_seen_as_they_are(
    report: ExtractionReport,
    failure: FailedTimestamp,
    list: Seq<FailedTimestamp>,
    i: int,
)
    ensures
        failure@ == (failure.timestamp@, failure.reason@),
        failures(list).len() == list.len(),
        0 <= i < list.len() ==> failures(list)[i] == (list[i].timestamp@, list[i].reason@),
        report@.successful.len() == report.successful_timestamps@.len(),
        0 <= i < report.successful_timestamps@.len() ==> report@.successful[i]
            == report.successful_timestamps@[i]@,
        report@.failed.len() == report.failed_timestamps@.len(),
        0 <= i < report.failed_timestamps@.len() ==> report@.failed[i] == (
            report.failed_timestamps@[i].timestamp@,
            report.failed_timestamps@[i].reason@,
        ),
{
}

} // verus!
