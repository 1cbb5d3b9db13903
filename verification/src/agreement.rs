//! What holds of batches whatever order their runs end in, and of the two kinds of batch:
//! the one that a form asks for and the one that a request with a URL asks for.
use crate::archive::{
    has_entry, is_readable, stored_methods, zip_contents, zip_methods, MAX_ENTRY_BYTES,
};
use crate::batch::{
    download_archive, download_entries, download_frames, download_name, download_reads_back,
    download_report, extracted, filenames, frame_name, is_extracted, is_failure,
    law_different_frames_are_all_packed, law_every_outcome_is_collected, law_url_archive_holds_every_frame,
    law_url_archive_holds_frames_and_report, law_url_report_tells_of_all, lemma_collect_push,
    lemma_collected_are_outcomes, lemma_names_are_injective, lemma_packed_names, lemma_report_name_is_free,
    names_differ, not_extracted, packed, packed_strictly, planned, report_name, run_frame, sizes_fit,
    too_long, url_archive_reads_back, url_entries, url_frames, url_report, OutcomeView, PlanView,
};
use crate::drive::{
    archive_answer, frames_url_step, url_timestamp_refusal, DriveEventView, FramesUrlActionView,
    FramesUrlEventView, FramesUrlJobView,
};
use crate::ffmpeg::RunView;
use crate::json::{json_pretty, json_read};
use crate::reply::{zip_archive, zip_download};
use crate::report::{
    law_sorted_failures_are_the_failures, law_sorted_failures_do_not_depend_on_order, report_tree,
    sorted_failures, ReportView,
};
use crate::text::without_path_marks;
use crate::timestamp::{
    comma_separated, is_list_entry, law_filename_is_safe, law_list_of_timestamps_reads_back, MAX_TIMESTAMPS,
};
use crate::upload::{download_answer, form_refusal, frames_end, FramesActionView, FramesFormView};
use vstd::prelude::*;
use vstd::utf8::encode_utf8;

verus! {

/// What is kept of a list, each item made into something else.
spec fn kept<A, B>(list: Seq<A>, keep: spec_fn(A) -> bool, make: spec_fn(A) -> B) -> Seq<B> {
    list.filter(keep).map_values(make)
}

/// An item that is put back where it was is kept or not, on its own.
proof fn lemma_kept_without<A, B>(list: Seq<A>, k: int, keep: spec_fn(A) -> bool, make: spec_fn(A) -> B)
    requires
        0 <= k < list.len(),
    ensures
        kept(list, keep, make).to_multiset() == if keep(list[k]) {
            kept(list.remove(k), keep, make).to_multiset().insert(make(list[k]))
        } else {
            kept(list.remove(k), keep, make).to_multiset()
        },
{
    broadcast use vstd::seq_lib::group_to_multiset_ensures;
    broadcast use vstd::multiset::group_multiset_axioms;

    let item = list[k];
    let before = list.take(k);
    let after = list.skip(k + 1);
    assert(list =~= before.push(item) + after);
    assert(list.remove(k) =~= before + after);
    Seq::filter_distributes_over_add(before.push(item), after, keep);
    Seq::filter_distributes_over_add(before, after, keep);
    reveal(Seq::filter);
    assert(before.push(item).drop_last() =~= before);
    let kept_before = kept(before, keep, make);
    let kept_after = kept(after, keep, make);
    assert(kept(list.remove(k), keep, make) =~= kept_before + kept_after);
    vstd::seq_lib::lemma_multiset_commutative(kept_before, kept_after);
    if keep(item) {
        assert(kept(list, keep, make) =~= kept_before.push(make(item)) + kept_after);
        vstd::seq_lib::lemma_multiset_commutative(kept_before.push(make(item)), kept_after);
        assert(kept(list, keep, make).to_multiset() =~= (kept_before + kept_after).to_multiset().insert(
            make(item),
        ));
    } else {
        assert(kept(list, keep, make) =~= kept_before + kept_after);
    }
}

/// What is kept of a list does not depend on its order.
proof fn lemma_kept_permutes<A, B>(a: Seq<A>, b: Seq<A>, keep: spec_fn(A) -> bool, make: spec_fn(A) -> B)
    requires
        a.to_multiset() == b.to_multiset(),
    ensures
        kept(a, keep, make).to_multiset() == kept(b, keep, make).to_multiset(),
    decreases a.len(),
{
    broadcast use vstd::seq_lib::group_to_multiset_ensures;

    vstd::seq_lib::to_multiset_len(a);
    vstd::seq_lib::to_multiset_len(b);
    if a.len() == 0 {
        assert(a =~= b);
    } else {
        let last = a.len() - 1;
        assert(a.contains(a[last]));
        assert(b.to_multiset().count(a[last]) > 0);
        let k = choose|k: int| 0 <= k < b.len() && b[k] == a[last];
        lemma_kept_permutes(a.remove(last), b.remove(k), keep, make);
        lemma_kept_without(a, last, keep, make);
        lemma_kept_without(b, k, keep, make);
    }
}

/// What each item of a list is made into does not depend on its order.
proof fn lemma_made_permutes<A, B>(a: Seq<A>, b: Seq<A>, make: spec_fn(A) -> B)
    requires
        a.to_multiset() == b.to_multiset(),
    ensures
        a.map_values(make).to_multiset() == b.map_values(make).to_multiset(),
{
    let all = |item: A| true;
    lemma_kept_permutes(a, b, all, make);
    lemma_all_are_kept(a);
    lemma_all_are_kept(b);
}

/// Nothing is lost where everything is kept.
proof fn lemma_all_are_kept<A>(list: Seq<A>)
    ensures
        list.filter(|item: A| true) == list,
    decreases list.len(),
{
    reveal(Seq::filter);
    if list.len() > 0 {
        lemma_all_are_kept(list.drop_last());
        assert(list =~= list.drop_last().push(list.last()));
    } else {
        assert(list.filter(|item: A| true) =~= list);
    }
}

/// Two lists of the same items have the same items.
proof fn lemma_same_items<A>(a: Seq<A>, b: Seq<A>, item: A)
    requires
        a.to_multiset() == b.to_multiset(),
    ensures
        a.contains(item) == b.contains(item),
        a.len() == b.len(),
{
    broadcast use vstd::seq_lib::group_to_multiset_ensures;

    assert(a.contains(item) == (a.to_multiset().count(item) > 0));
    vstd::seq_lib::to_multiset_len(a);
    vstd::seq_lib::to_multiset_len(b);
}

/// Frames have different names if their list of names has no name twice.
proof fn lemma_names_differ(frames: Seq<(Seq<char>, Seq<u8>)>)
    ensures
        names_differ(frames) == filenames(frames).no_duplicates(),
{
    let names = filenames(frames);
    if names_differ(frames) {
        assert forall|i: int, j: int| 0 <= i < names.len() && 0 <= j < names.len() && i != j implies names[i]
            != names[j] by {
            assert(names[i] == frames[i].0 && names[j] == frames[j].0);
        }
    }
    if names.no_duplicates() {
        assert forall|i: int, j: int| 0 <= i < j < frames.len() implies (#[trigger] frames[i]).0 != (
        #[trigger] frames[j]).0 by {
            assert(names[i] != names[j]);
        }
    }
}

/// Whether frames have different names does not depend on their order.
proof fn lemma_names_differ_permutes(a: Seq<(Seq<char>, Seq<u8>)>, b: Seq<(Seq<char>, Seq<u8>)>)
    requires
        a.to_multiset() == b.to_multiset(),
        names_differ(a),
    ensures
        names_differ(b),
{
    let name_of = |frame: (Seq<char>, Seq<u8>)| frame.0;
    lemma_made_permutes(a, b, name_of);
    lemma_names_differ(a);
    lemma_names_differ(b);
    assert(filenames(a) =~= a.map_values(name_of));
    assert(filenames(b) =~= b.map_values(name_of));
    filenames(a).lemma_multiset_has_no_duplicates();
    filenames(b).lemma_multiset_has_no_duplicates_conv();
}

/// The frames and the failures among outcomes do not depend on their order.
proof fn lemma_collected_permutes(a: Seq<OutcomeView>, b: Seq<OutcomeView>)
    requires
        a.to_multiset() == b.to_multiset(),
    ensures
        extracted(a).to_multiset() == extracted(b).to_multiset(),
        not_extracted(a).to_multiset() == not_extracted(b).to_multiset(),
{
    lemma_kept_permutes(
        a,
        b,
        |outcome: OutcomeView| outcome.frame is Ok,
        |outcome: OutcomeView|
            (without_path_marks(outcome.timestamp), outcome.frame->Ok_0),
    );
    lemma_kept_permutes(
        a,
        b,
        |outcome: OutcomeView| outcome.frame is Err,
        |outcome: OutcomeView| (outcome.timestamp, outcome.frame->Err_0),
    );
}

/// The frames of a batch that answers a URL, the names that its report lists, and
/// whether they can be packed, do not depend on the order in which the runs end.
pub proof fn law_order_of_runs_keeps_the_frames(a: Seq<OutcomeView>, b: Seq<OutcomeView>)
    requires
        a.to_multiset() == b.to_multiset(),
    ensures
        extracted(a).to_multiset() == extracted(b).to_multiset(),
        url_report(a).successful.to_multiset() == url_report(b).successful.to_multiset(),
        packed_strictly(extracted(a)) is Ok <==> packed_strictly(extracted(b)) is Ok,
        packed_strictly(extracted(a)) matches Ok(entries) ==> entries.to_multiset() == packed_strictly(
            extracted(b),
        )->Ok_0.to_multiset(),
{
    lemma_collected_permutes(a, b);
    let (x, y) = (extracted(a), extracted(b));
    let name_of = |frame: (Seq<char>, Seq<u8>)| frame.0;
    lemma_made_permutes(x, y, name_of);
    assert(url_report(a).successful =~= x.map_values(name_of));
    assert(url_report(b).successful =~= y.map_values(name_of));
    if packed_strictly(x) is Ok {
        lemma_packable_permutes(x, y);
    }
    if packed_strictly(y) is Ok {
        lemma_packable_permutes(y, x);
    }
    law_url_archive_holds_every_frame(x);
    law_url_archive_holds_every_frame(y);
    let entry_of = |frame: (Seq<char>, Seq<u8>)| (frame_name(frame.0), frame.1);
    lemma_made_permutes(x, y, entry_of);
    assert(url_frames(x) =~= x.map_values(entry_of));
    assert(url_frames(y) =~= y.map_values(entry_of));
}

/// Frames that can be packed can be packed in any order.
proof fn lemma_packable_permutes(a: Seq<(Seq<char>, Seq<u8>)>, b: Seq<(Seq<char>, Seq<u8>)>)
    requires
        a.to_multiset() == b.to_multiset(),
        packed_strictly(a) is Ok,
    ensures
        packed_strictly(b) is Ok,
{
    law_url_archive_holds_every_frame(a);
    law_url_archive_holds_every_frame(b);
    lemma_names_differ_permutes(a, b);
    assert forall|i: int| 0 <= i < b.len() implies (#[trigger] b[i]).1.len() <= MAX_ENTRY_BYTES
        && !too_long(frame_name(b[i].0)) by {
        assert(b.contains(b[i]));
        lemma_same_items(a, b, b[i]);
        let k = choose|k: int| 0 <= k < a.len() && a[k] == b[i];
        assert(a[k].1.len() <= MAX_ENTRY_BYTES && !too_long(frame_name(a[k].0)));
    }
}

/// Whether each timestamp has one outcome, however often it was asked for.
pub open spec fn one_outcome_each(outcomes: Seq<OutcomeView>) -> bool {
    forall|i: int, j: int|
        0 <= i < outcomes.len() && 0 <= j < outcomes.len() && (#[trigger] outcomes[i]).timestamp == (
        #[trigger] outcomes[j]).timestamp ==> outcomes[i] == outcomes[j]
}

/// The failures that the report of a batch that answers a URL lists, and their order, do
/// not depend on the order in which the runs end.
pub proof fn law_order_of_runs_keeps_the_failures(a: Seq<OutcomeView>, b: Seq<OutcomeView>)
    requires
        a.to_multiset() == b.to_multiset(),
        one_outcome_each(a),
    ensures
        url_report(a).failed == url_report(b).failed,
{
    lemma_collected_permutes(a, b);
    let failed = not_extracted(a);
    lemma_collected_are_outcomes(a);
    assert forall|i: int, j: int|
        0 <= i < failed.len() && 0 <= j < failed.len() && (#[trigger] failed[i]).0 == (
        #[trigger] failed[j]).0 implies failed[i] == failed[j] by {
        assert(is_failure(a, failed[i]) && is_failure(a, failed[j]));
    }
    law_sorted_failures_do_not_depend_on_order(failed, not_extracted(b));
}

/// Whatever order the runs end in, a batch that answers a URL is answered with an archive
/// or not, and the archive holds the same set of frames. The report lists its successes in
/// the order of the runs, so that it is not too large is asked for each order.
pub proof fn law_order_of_runs_keeps_the_archive(
    a: Seq<OutcomeView>,
    b: Seq<OutcomeView>,
    entry: (Seq<char>, Seq<u8>),
)
    requires
        a.to_multiset() == b.to_multiset(),
        url_entries(a) is Ok,
        json_pretty(report_tree(url_report(b))).len() <= MAX_ENTRY_BYTES,
    ensures
        url_entries(b) is Ok,
        url_entries(a)->Ok_0.drop_last().contains(entry) == url_entries(b)->Ok_0.drop_last().contains(entry),
        url_entries(a)->Ok_0.len() == url_entries(b)->Ok_0.len(),
{
    law_order_of_runs_keeps_the_frames(a, b);
    let (x, y) = (packed_strictly(extracted(a))->Ok_0, packed_strictly(extracted(b))->Ok_0);
    assert(url_entries(a)->Ok_0.drop_last() =~= x);
    assert(url_entries(b)->Ok_0.drop_last() =~= y);
    lemma_same_items(x, y, entry);
}

/// Whether a report tells of an outcome: of a frame by its file name, of a failure by
/// its timestamp and reason.
pub open spec fn tells_of(report: ReportView, outcome: OutcomeView) -> bool {
    match outcome.frame {
        Ok(_) => report.successful.contains(without_path_marks(outcome.timestamp)),
        Err(reason) => report.failed.contains((outcome.timestamp, reason)),
    }
}

/// What is reported of one timestamp depends on its own outcome alone: whatever else two
/// batches hold, an outcome that both have is reported in both, as the success or the
/// failure that it is, and neither report tells of anything that is no outcome.
pub proof fn law_outcomes_do_not_change_each_other(a: Seq<OutcomeView>, b: Seq<OutcomeView>, i: int, j: int)
    requires
        0 <= i < a.len(),
        0 <= j < b.len(),
        a[i] == b[j],
    ensures
        tells_of(url_report(a), a[i]),
        tells_of(url_report(b), a[i]),
        tells_of(download_report(a), a[i]),
        tells_of(download_report(b), a[i]),
        forall|name: Seq<char>| #[trigger]
            url_report(a).successful.contains(name) == is_extracted(a, name),
        forall|name: Seq<char>| #[trigger]
            download_report(a).successful.contains(name) == is_extracted(a, name),
        forall|failure: (Seq<char>, Seq<char>)| #[trigger]
            url_report(a).failed.contains(failure) == is_failure(a, failure),
        forall|failure: (Seq<char>, Seq<char>)| #[trigger]
            download_report(a).failed.contains(failure) == is_failure(a, failure),
{
    lemma_url_report_is_exact(a);
    lemma_url_report_is_exact(b);
    lemma_download_report_is_exact(a);
    lemma_download_report_is_exact(b);
    match a[i].frame {
        Ok(_) => {
            let name = without_path_marks(a[i].timestamp);
            assert(is_extracted(a, name) && is_extracted(b, name));
        },
        Err(reason) => {
            let failure = (a[i].timestamp, reason);
            assert(is_failure(a, failure) && is_failure(b, failure));
        },
    }
}

/// The report of a batch that answers a URL tells just the outcomes.
proof fn lemma_url_report_is_exact(outcomes: Seq<OutcomeView>)
    ensures
        forall|name: Seq<char>| #[trigger]
            url_report(outcomes).successful.contains(name) == is_extracted(outcomes, name),
        forall|failure: (Seq<char>, Seq<char>)| #[trigger]
            url_report(outcomes).failed.contains(failure) == is_failure(outcomes, failure),
{
    law_url_report_tells_of_all(outcomes);
    let report = url_report(outcomes);
    assert forall|name: Seq<char>| #[trigger] report.successful.contains(name) == is_extracted(
        outcomes,
        name,
    ) by {
        if report.successful.contains(name) {
            let k = choose|k: int| 0 <= k < report.successful.len() && report.successful[k] == name;
            assert(is_extracted(outcomes, report.successful[k]));
        }
    }
    assert forall|failure: (Seq<char>, Seq<char>)| #[trigger] report.failed.contains(failure) == is_failure(
        outcomes,
        failure,
    ) by {
        if report.failed.contains(failure) {
            let k = choose|k: int| 0 <= k < report.failed.len() && report.failed[k] == failure;
            assert(is_failure(outcomes, report.failed[k]));
        }
    }
}

/// The report of a download tells just the outcomes.
proof fn lemma_download_report_is_exact(outcomes: Seq<OutcomeView>)
    ensures
        forall|name: Seq<char>| #[trigger]
            download_report(outcomes).successful.contains(name) == is_extracted(outcomes, name),
        forall|failure: (Seq<char>, Seq<char>)| #[trigger]
            download_report(outcomes).failed.contains(failure) == is_failure(outcomes, failure),
{
    lemma_listed_are_extracted(outcomes);
    law_every_outcome_is_collected(outcomes);
    lemma_collected_are_outcomes(outcomes);
    let failed = not_extracted(outcomes);
    assert forall|failure: (Seq<char>, Seq<char>)| #[trigger] failed.contains(failure) == is_failure(
        outcomes,
        failure,
    ) by {
        if failed.contains(failure) {
            let k = choose|k: int| 0 <= k < failed.len() && failed[k] == failure;
            assert(is_failure(outcomes, failed[k]));
        }
    }
}

/// What is listed of a download are the names of its frames.
proof fn lemma_listed_are_extracted(outcomes: Seq<OutcomeView>)
    ensures
        forall|name: Seq<char>| #[trigger]
            packed(extracted(outcomes)).listed.contains(name) == is_extracted(outcomes, name),
        forall|i: int|
            0 <= i < packed(extracted(outcomes)).entries.len() ==> exists|name: Seq<char>|
                (#[trigger] packed(extracted(outcomes)).entries[i]).0 == #[trigger] download_name(name)
                    && packed(extracted(outcomes)).listed.contains(name),
    decreases outcomes.len(),
{
    if outcomes.len() == 0 {
        reveal(Seq::filter);
    } else {
        let before = outcomes.drop_last();
        let last = outcomes.last();
        lemma_listed_are_extracted(before);
        lemma_collect_push(before, last);
        assert(before.push(last) =~= outcomes);
        let old_pack = packed(extracted(before));
        let new_pack = packed(extracted(outcomes));
        let added = without_path_marks(last.timestamp);
        if last.frame is Ok {
            assert(extracted(outcomes).drop_last() =~= extracted(before));
            if has_entry(old_pack.entries, download_name(added)) {
                let i = choose|i: int|
                    0 <= i < old_pack.entries.len() && (#[trigger] old_pack.entries[i]).0 == download_name(added);
                let name = choose|name: Seq<char>|
                    old_pack.entries[i].0 == #[trigger] download_name(name) && old_pack.listed.contains(name);
                lemma_names_are_injective(name, added);
                assert(new_pack == old_pack);
            } else {
                assert(new_pack.listed == old_pack.listed.push(added));
                assert(new_pack.listed[old_pack.listed.len() as int] == added);
            }
        }
        assert forall|name: Seq<char>| #[trigger] new_pack.listed.contains(name) == is_extracted(
            outcomes,
            name,
        ) by {
            assert(old_pack.listed.contains(name) == is_extracted(before, name));
            if old_pack.listed.contains(name) {
                let k = choose|k: int| 0 <= k < old_pack.listed.len() && old_pack.listed[k] == name;
                assert(new_pack.listed[k] == name);
                let i = choose|i: int|
                    0 <= i < before.len() && (#[trigger] before[i]).frame is Ok && without_path_marks(
                        before[i].timestamp,
                    ) == name;
                assert(outcomes[i] == before[i]);
            }
            assert(outcomes[before.len() as int] == last);
            if new_pack.listed.contains(name) && !old_pack.listed.contains(name) {
                let k = choose|k: int| 0 <= k < new_pack.listed.len() && new_pack.listed[k] == name;
                if k < old_pack.listed.len() {
                    assert(old_pack.listed[k] == name);
                }
            }
            if is_extracted(outcomes, name) && !is_extracted(before, name) {
                let i = choose|i: int|
                    0 <= i < outcomes.len() && (#[trigger] outcomes[i]).frame is Ok && without_path_marks(
                        outcomes[i].timestamp,
                    ) == name;
                if i < before.len() {
                    assert(before[i] == outcomes[i]);
                }
            }
        }
        assert forall|i: int| 0 <= i < new_pack.entries.len() implies exists|name: Seq<char>|
            (#[trigger] new_pack.entries[i]).0 == #[trigger] download_name(name) && new_pack.listed.contains(
                name,
            ) by {
            if i < old_pack.entries.len() {
                assert(new_pack.entries[i] == old_pack.entries[i]);
                let name = choose|name: Seq<char>|
                    old_pack.entries[i].0 == #[trigger] download_name(name) && old_pack.listed.contains(name);
                let k = choose|k: int| 0 <= k < old_pack.listed.len() && old_pack.listed[k] == name;
                assert(new_pack.listed[k] == name);
            } else {
                assert(new_pack.entries[i].0 == download_name(added));
                assert(new_pack.listed[old_pack.listed.len() as int] == added);
            }
        }
    }
}

/// Whether `bytes` is the frame of the first outcome with this file name.
pub open spec fn is_first_frame(outcomes: Seq<OutcomeView>, name: Seq<char>, bytes: Seq<u8>) -> bool {
    exists|m: int|
        {
            &&& 0 <= m < outcomes.len()
            &&& (#[trigger] outcomes[m]).frame == Ok::<Seq<u8>, Seq<char>>(bytes)
            &&& without_path_marks(outcomes[m].timestamp) == name
            &&& forall|j: int|
                0 <= j < m && (#[trigger] outcomes[j]).frame is Ok ==> without_path_marks(outcomes[j].timestamp)
                    != name
        }
}

/// Whatever the timestamps are, a download is flat: no entry has a name with a mark that
/// separates directories or drives, and no two entries have the same name.
pub proof fn law_download_is_flat(outcomes: Seq<OutcomeView>)
    ensures
        forall|i: int|
            0 <= i < download_entries(outcomes).len() ==> !(#[trigger] download_entries(outcomes)[i]).0.contains('/')
                && !download_entries(outcomes)[i].0.contains(':'),
        forall|i: int, j: int|
            0 <= i < j < download_entries(outcomes).len() ==> (#[trigger] download_entries(outcomes)[i]).0 != (
            #[trigger] download_entries(outcomes)[j]).0,
{
    let frames = packed(extracted(outcomes)).entries;
    let entries = download_entries(outcomes);
    lemma_packed_names_differ(extracted(outcomes));
    lemma_listed_are_extracted(outcomes);
    lemma_packed_names(extracted(outcomes));
    assert forall|i: int| 0 <= i < entries.len() implies !(#[trigger] entries[i]).0.contains('/')
        && !entries[i].0.contains(':') by {
        if i < frames.len() {
            assert(entries[i] == frames[i]);
            let name = choose|name: Seq<char>|
                frames[i].0 == #[trigger] download_name(name) && packed(extracted(outcomes)).listed.contains(name);
            assert(is_extracted(outcomes, name));
            let m = choose|m: int|
                0 <= m < outcomes.len() && (#[trigger] outcomes[m]).frame is Ok && without_path_marks(
                    outcomes[m].timestamp,
                ) == name;
            law_filename_is_safe(outcomes[m].timestamp);
            lemma_flat_name(name);
        } else {
            lemma_flat_report_name();
        }
    }
    assert forall|i: int, j: int| 0 <= i < j < entries.len() implies (#[trigger] entries[i]).0 != (
    #[trigger] entries[j]).0 by {
        assert(entries[i] == frames[i]);
        if j < frames.len() {
            assert(entries[j] == frames[j]);
        } else {
            assert(!has_entry(frames, report_name()));
        }
    }
}

/// The name of an entry has no mark that its file name has not.
proof fn lemma_flat_name(name: Seq<char>)
    requires
        !name.contains('/'),
        !name.contains(':'),
    ensures
        !download_name(name).contains('/'),
        !download_name(name).contains(':'),
{
    reveal_strlit("frame_");
    reveal_strlit(".jpg");
    let full = download_name(name);
    assert forall|k: int| 0 <= k < full.len() implies full[k] != '/' && full[k] != ':' by {
        if 6 <= k < 6 + name.len() {
            assert(full[k] == name[k - 6]);
            assert(name.contains(name[k - 6]));
        }
    }
}

/// The name of the report has no mark that separates directories or drives.
proof fn lemma_flat_report_name()
    ensures
        !report_name().contains('/'),
        !report_name().contains(':'),
{
    reveal_strlit("extraction_report.json");
}

/// No two packed frames have the same name.
proof fn lemma_packed_names_differ(frames: Seq<(Seq<char>, Seq<u8>)>)
    ensures
        forall|i: int, j: int|
            0 <= i < j < packed(frames).entries.len() ==> (#[trigger] packed(frames).entries[i]).0 != (
            #[trigger] packed(frames).entries[j]).0,
    decreases frames.len(),
{
    if frames.len() > 0 {
        lemma_packed_names_differ(frames.drop_last());
        let before = packed(frames.drop_last()).entries;
        let after = packed(frames).entries;
        assert forall|i: int, j: int| 0 <= i < j < after.len() implies (#[trigger] after[i]).0 != (
        #[trigger] after[j]).0 by {
            assert(after[i] == before[i]);
            if j < before.len() {
                assert(after[j] == before[j]);
            } else {
                assert(!has_entry(before, after[j].0));
            }
        }
    }
}

/// Whatever the timestamps are, as long as nothing is too large, the entries of a
/// download are the frames that its report lists, in that order, and the report at the
/// end. Each holds what the first run with its file name made.
pub proof fn law_download_is_what_its_report_lists(outcomes: Seq<OutcomeView>)
    requires
        sizes_fit(extracted(outcomes)),
        json_pretty(report_tree(download_report(outcomes))).len() <= MAX_ENTRY_BYTES,
    ensures
        download_entries(outcomes).len() == download_report(outcomes).successful.len() + 1,
        forall|i: int|
            0 <= i < download_report(outcomes).successful.len() ==> (#[trigger] download_entries(outcomes)[i]).0
                == download_name(download_report(outcomes).successful[i]) && is_first_frame(
                outcomes,
                download_report(outcomes).successful[i],
                download_entries(outcomes)[i].1,
            ),
        download_entries(outcomes).last() == (
            report_name(),
            json_pretty(report_tree(download_report(outcomes))),
        ),
{
    lemma_packed_is_listed(outcomes);
    let pack = packed(extracted(outcomes));
    let entries = download_entries(outcomes);
    assert forall|i: int| 0 <= i < pack.listed.len() implies (#[trigger] entries[i]).0 == download_name(
        pack.listed[i],
    ) && is_first_frame(outcomes, pack.listed[i], entries[i].1) by {
        assert(entries[i] == pack.entries[i]);
    }
}

/// Packed frames are listed one by one.
proof fn lemma_packed_is_listed(outcomes: Seq<OutcomeView>)
    requires
        sizes_fit(extracted(outcomes)),
    ensures
        packed(extracted(outcomes)).entries.len() == packed(extracted(outcomes)).listed.len(),
        forall|i: int|
            0 <= i < packed(extracted(outcomes)).entries.len() ==> (#[trigger] packed(
                extracted(outcomes),
            ).entries[i]).0 == download_name(packed(extracted(outcomes)).listed[i]) && is_first_frame(
                outcomes,
                packed(extracted(outcomes)).listed[i],
                packed(extracted(outcomes)).entries[i].1,
            ),
    decreases outcomes.len(),
{
    if outcomes.len() == 0 {
        reveal(Seq::filter);
    } else {
        let before = outcomes.drop_last();
        let last = outcomes.last();
        lemma_collect_push(before, last);
        assert(before.push(last) =~= outcomes);
        assert(outcomes[before.len() as int] == last);
        let frames = extracted(outcomes);
        assert(sizes_fit(extracted(before))) by {
            assert forall|i: int| 0 <= i < extracted(before).len() implies (#[trigger] extracted(
                before,
            )[i]).1.len() <= MAX_ENTRY_BYTES by {
                assert(frames[i] == extracted(before)[i]);
            }
        }
        lemma_packed_is_listed(before);
        lemma_listed_are_extracted(before);
        let old_pack = packed(extracted(before));
        let new_pack = packed(frames);
        let added = without_path_marks(last.timestamp);
        if last.frame is Ok {
            assert(frames.drop_last() =~= extracted(before));
            assert(frames[frames.len() - 1].1 == last.frame->Ok_0);
        }
        assert forall|i: int| 0 <= i < new_pack.entries.len() implies (#[trigger] new_pack.entries[i]).0
            == download_name(new_pack.listed[i]) && is_first_frame(
            outcomes,
            new_pack.listed[i],
            new_pack.entries[i].1,
        ) by {
            if i < old_pack.entries.len() {
                assert(new_pack.entries[i] == old_pack.entries[i]);
                assert(new_pack.listed[i] == old_pack.listed[i]);
                let (name, bytes) = (old_pack.listed[i], old_pack.entries[i].1);
                assert(is_first_frame(before, name, bytes));
                let m = choose|m: int|
                    {
                        &&& 0 <= m < before.len()
                        &&& (#[trigger] before[m]).frame == Ok::<Seq<u8>, Seq<char>>(bytes)
                        &&& without_path_marks(before[m].timestamp) == name
                        &&& forall|j: int|
                            0 <= j < m && (#[trigger] before[j]).frame is Ok ==> without_path_marks(
                                before[j].timestamp,
                            ) != name
                    };
                assert(outcomes[m] == before[m]);
                assert forall|j: int| 0 <= j < m && (#[trigger] outcomes[j]).frame is Ok implies without_path_marks(
                    outcomes[j].timestamp,
                ) != name by {
                    assert(before[j] == outcomes[j]);
                }
            } else {
                let m = before.len() as int;
                assert(outcomes[m].frame == Ok::<Seq<u8>, Seq<char>>(new_pack.entries[i].1));
                assert forall|j: int| 0 <= j < m && (#[trigger] outcomes[j]).frame is Ok implies without_path_marks(
                    outcomes[j].timestamp,
                ) != added by {
                    assert(before[j] == outcomes[j]);
                    let name = without_path_marks(before[j].timestamp);
                    assert(is_extracted(before, name));
                    assert(old_pack.listed.contains(name));
                    let k = choose|k: int| 0 <= k < old_pack.listed.len() && old_pack.listed[k] == name;
                    assert(old_pack.entries[k].0 == download_name(name));
                }
            }
        }
    }
}

/// What is to be done for each timestamp of a list.
pub open spec fn plans_of(list: Seq<Seq<char>>, refusal: Seq<char>) -> Seq<PlanView> {
    list.map_values(|timestamp: Seq<char>| planned(timestamp, refusal))
}

/// The position that a plan runs FFmpeg at.
pub open spec fn seek_of(plan: PlanView) -> Seq<char> {
    plan->Run_command.arguments[1]->Text_0
}

/// The positions that plans run FFmpeg at, in order.
pub open spec fn seeks(plans: Seq<PlanView>) -> Seq<Seq<char>> {
    plans.filter(|plan: PlanView| plan is Run).map_values(|plan: PlanView| seek_of(plan))
}

/// What comes of a plan, where the end of a run depends on its position alone.
pub open spec fn outcome_of(plan: PlanView, ffmpeg: spec_fn(Seq<char>) -> RunView) -> OutcomeView {
    match plan {
        PlanView::Run { timestamp, command } => OutcomeView {
            timestamp,
            frame: run_frame(ffmpeg(command.arguments[1]->Text_0)),
        },
        PlanView::Done(outcome) => outcome,
    }
}

/// What comes of plans, one by one.
pub open spec fn outcomes_of(plans: Seq<PlanView>, ffmpeg: spec_fn(Seq<char>) -> RunView) -> Seq<OutcomeView> {
    plans.map_values(|plan: PlanView| outcome_of(plan, ffmpeg))
}

/// The timestamps of failures.
pub open spec fn failed_timestamps(failed: Seq<(Seq<char>, Seq<char>)>) -> Seq<Seq<char>> {
    failed.map_values(|failure: (Seq<char>, Seq<char>)| failure.0)
}

/// A form and a request with a URL that ask for the same timestamps make plans for just
/// these, and run FFmpeg at the same positions.
pub proof fn law_form_and_url_run_the_same(list: Seq<Seq<char>>, received: u64)
    requires
        1 <= list.len() <= MAX_TIMESTAMPS,
        forall|i: int| 0 <= i < list.len() ==> is_list_entry(#[trigger] list[i]),
    ensures
        frames_end(FramesFormView { has_video: true, timestamps: Some(comma_separated(list)) })
            == FramesActionView::ExtractAll(plans_of(list, form_refusal())),
        frames_url_step(
            FramesUrlJobView { timestamps: list, received },
            FramesUrlEventView::Drive(DriveEventView::Ended),
        ).1 == FramesUrlActionView::ExtractAll(plans_of(list, url_timestamp_refusal())),
        seeks(plans_of(list, form_refusal())) == seeks(plans_of(list, url_timestamp_refusal())),
{
    law_list_of_timestamps_reads_back(list);
    lemma_seeks_agree(list, form_refusal(), url_timestamp_refusal());
}

/// Where FFmpeg is run does not depend on how timestamps are refused.
proof fn lemma_seeks_agree(list: Seq<Seq<char>>, one: Seq<char>, other: Seq<char>)
    ensures
        seeks(plans_of(list, one)) == seeks(plans_of(list, other)),
    decreases list.len(),
{
    reveal(Seq::filter);
    let (x, y) = (plans_of(list, one), plans_of(list, other));
    if list.len() == 0 {
        assert(seeks(x) =~= seeks(y));
    } else {
        let before = list.drop_last();
        lemma_seeks_agree(before, one, other);
        assert(x.drop_last() =~= plans_of(before, one));
        assert(y.drop_last() =~= plans_of(before, other));
        assert(x.last() == planned(list.last(), one));
        assert(y.last() == planned(list.last(), other));
        if x.last() is Run {
            assert(seeks(x) =~= seeks(x.drop_last()).push(seek_of(x.last())));
            assert(seeks(y) =~= seeks(y.drop_last()).push(seek_of(y.last())));
        } else {
            assert(seeks(x) =~= seeks(x.drop_last()));
            assert(seeks(y) =~= seeks(y.drop_last()));
        }
    }
}

/// What is extracted does not depend on how timestamps are refused.
proof fn lemma_outcomes_agree(
    list: Seq<Seq<char>>,
    one: Seq<char>,
    other: Seq<char>,
    ffmpeg: spec_fn(Seq<char>) -> RunView,
)
    ensures
        extracted(outcomes_of(plans_of(list, one), ffmpeg)) == extracted(
            outcomes_of(plans_of(list, other), ffmpeg),
        ),
        failed_timestamps(not_extracted(outcomes_of(plans_of(list, one), ffmpeg))) == failed_timestamps(
            not_extracted(outcomes_of(plans_of(list, other), ffmpeg)),
        ),
    decreases list.len(),
{
    let x = outcomes_of(plans_of(list, one), ffmpeg);
    let y = outcomes_of(plans_of(list, other), ffmpeg);
    if list.len() == 0 {
        assert(x =~= y);
    } else {
        let before = list.drop_last();
        lemma_outcomes_agree(before, one, other, ffmpeg);
        let (p, q) = (x.drop_last(), y.drop_last());
        assert(p =~= outcomes_of(plans_of(before, one), ffmpeg));
        assert(q =~= outcomes_of(plans_of(before, other), ffmpeg));
        assert(x =~= p.push(x.last()) && y =~= q.push(y.last()));
        assert(x.last() == outcome_of(planned(list.last(), one), ffmpeg));
        assert(y.last() == outcome_of(planned(list.last(), other), ffmpeg));
        lemma_collect_push(p, x.last());
        lemma_collect_push(q, y.last());
        if x.last().frame is Err {
            let (f, g) = (not_extracted(p), not_extracted(q));
            assert(failed_timestamps(not_extracted(x)) =~= failed_timestamps(f).push(x.last().timestamp));
            assert(failed_timestamps(not_extracted(y)) =~= failed_timestamps(g).push(y.last().timestamp));
        }
    }
}

/// A form and a request with a URL that ask for the same timestamps of the same video
/// come to the same: where the end of a run depends on its position alone, and whatever
/// order the runs end in, their reports list the same successes and the same failed
/// timestamps, and their archives hold the same frames under the names that each uses.
pub proof fn law_form_and_url_batches_agree(
    list: Seq<Seq<char>>,
    ffmpeg: spec_fn(Seq<char>) -> RunView,
    form: Seq<OutcomeView>,
    url: Seq<OutcomeView>,
)
    requires
        form.to_multiset() == outcomes_of(plans_of(list, form_refusal()), ffmpeg).to_multiset(),
        url.to_multiset() == outcomes_of(plans_of(list, url_timestamp_refusal()), ffmpeg).to_multiset(),
        url_entries(url) is Ok,
    ensures
        download_report(form).successful.to_multiset() == url_report(url).successful.to_multiset(),
        failed_timestamps(download_report(form).failed).to_multiset() == failed_timestamps(
            url_report(url).failed,
        ).to_multiset(),
        forall|name: Seq<char>, bytes: Seq<u8>|
            #[trigger] download_entries(form).contains((download_name(name), bytes)) == url_entries(
                url,
            )->Ok_0.contains((frame_name(name), bytes)),
{
    let planned_form = outcomes_of(plans_of(list, form_refusal()), ffmpeg);
    let planned_url = outcomes_of(plans_of(list, url_timestamp_refusal()), ffmpeg);
    lemma_outcomes_agree(list, form_refusal(), url_timestamp_refusal(), ffmpeg);
    lemma_collected_permutes(form, planned_form);
    lemma_collected_permutes(url, planned_url);
    let (x, y) = (extracted(form), extracted(url));
    law_url_archive_holds_every_frame(y);
    lemma_packable_permutes(y, x);
    law_url_archive_holds_every_frame(x);
    law_different_frames_are_all_packed(x);
    law_url_archive_holds_frames_and_report(url);
    let name_of = |frame: (Seq<char>, Seq<u8>)| frame.0;
    lemma_made_permutes(x, y, name_of);
    assert(download_report(form).successful =~= x.map_values(name_of));
    assert(url_report(url).successful =~= y.map_values(name_of));
    let timestamp_of = |failure: (Seq<char>, Seq<char>)| failure.0;
    law_sorted_failures_are_the_failures(not_extracted(url));
    lemma_made_permutes(not_extracted(form), not_extracted(planned_form), timestamp_of);
    lemma_made_permutes(sorted_failures(not_extracted(url)), not_extracted(planned_url), timestamp_of);
    assert forall|name: Seq<char>, bytes: Seq<u8>|
        #[trigger] download_entries(form).contains((download_name(name), bytes)) == url_entries(
            url,
        )->Ok_0.contains((frame_name(name), bytes)) by {
        lemma_download_contains(form, name, bytes);
        lemma_url_archive_contains(url, name, bytes);
        lemma_same_items(x, y, (name, bytes));
    }
}

/// Which frames a download holds.
proof fn lemma_download_contains(outcomes: Seq<OutcomeView>, name: Seq<char>, bytes: Seq<u8>)
    requires
        names_differ(extracted(outcomes)),
        sizes_fit(extracted(outcomes)),
    ensures
        download_entries(outcomes).contains((download_name(name), bytes)) == extracted(outcomes).contains(
            (name, bytes),
        ),
{
    let frames = extracted(outcomes);
    let entries = download_entries(outcomes);
    let entry = (download_name(name), bytes);
    law_different_frames_are_all_packed(frames);
    assert(download_name(name) != report_name()) by {
        lemma_report_name_is_free("frame_"@ + name);
    }
    if frames.contains((name, bytes)) {
        let k = choose|k: int| 0 <= k < frames.len() && frames[k] == (name, bytes);
        assert(entries[k] == entry);
    }
    if entries.contains(entry) {
        let k = choose|k: int| 0 <= k < entries.len() && entries[k] == entry;
        assert(k < frames.len());
        assert(entries[k] == download_frames(frames)[k]);
        lemma_names_are_injective(frames[k].0, name);
        assert(frames[k] == (name, bytes));
    }
}

/// Which frames an archive that answers a URL holds.
proof fn lemma_url_archive_contains(outcomes: Seq<OutcomeView>, name: Seq<char>, bytes: Seq<u8>)
    requires
        url_entries(outcomes) is Ok,
    ensures
        url_entries(outcomes)->Ok_0.contains((frame_name(name), bytes)) == extracted(outcomes).contains(
            (name, bytes),
        ),
{
    let frames = extracted(outcomes);
    let entries = url_entries(outcomes)->Ok_0;
    let entry = (frame_name(name), bytes);
    law_url_archive_holds_frames_and_report(outcomes);
    lemma_report_name_is_free(name);
    if frames.contains((name, bytes)) {
        let k = choose|k: int| 0 <= k < frames.len() && frames[k] == (name, bytes);
        assert(entries[k] == entry);
    }
    if entries.contains(entry) {
        let k = choose|k: int| 0 <= k < entries.len() && entries[k] == entry;
        assert(k < frames.len());
        assert(entries[k] == url_frames(frames)[k]);
        lemma_names_are_injective(frames[k].0, name);
        assert(frames[k] == (name, bytes));
    }
}

/// An archive that ends with the report can be read as it was written, unless one of its
/// files is of the very largest size.
pub proof fn law_archive_with_a_report_is_readable(entries: Seq<(Seq<char>, Seq<u8>)>)
    requires
        entries.len() > 0,
        entries.last().0 == report_name(),
        forall|i: int| 0 <= i < entries.len() ==> (#[trigger] entries[i]).1.len() < MAX_ENTRY_BYTES,
    ensures
        is_readable(entries),
{
    reveal_strlit("extraction_report.json");
    vstd::utf8::is_ascii_chars_encode_utf8(report_name());
    let bytes = encode_utf8(report_name());
    assert forall|k: int| 0 <= k < bytes.len() implies #[trigger] bytes[k] != 7 by {
        assert(report_name()[k] as u8 == bytes[k]);
    }
}

/// What a batch that answers a URL is answered with, wherever it can be read as it was
/// written, is what the report in it lists: the frames under the listed names, in that
/// order, each as its run made it, and the report at the end, all stored as they are.
pub proof fn law_url_archive_is_what_its_report_lists(outcomes: Seq<OutcomeView>)
    requires
        url_entries(outcomes) is Ok,
        is_readable(url_entries(outcomes)->Ok_0),
        url_archive_reads_back(outcomes),
    ensures
        archive_answer(outcomes) == zip_archive(archive_answer(outcomes).body->Bytes_0),
        ({
            let archive = archive_answer(outcomes).body->Bytes_0;
            let read = zip_contents(archive);
            let report = url_report(outcomes);
            &&& read.len() == report.successful.len() + 1
            &&& forall|i: int|
                0 <= i < report.successful.len() ==> (#[trigger] read[i]).0 == frame_name(report.successful[i])
                    && is_first_frame(outcomes, report.successful[i], read[i].1)
            &&& read.last().0 == report_name()
            &&& json_read(read.last().1) == Some(report_tree(report))
            &&& zip_methods(archive) == stored_methods(read.len())
        }),
{
    law_url_archive_holds_frames_and_report(outcomes);
    law_url_archive_holds_every_frame(extracted(outcomes));
    let frames = extracted(outcomes);
    let entries = url_entries(outcomes)->Ok_0;
    let listed = url_report(outcomes).successful;
    assert forall|i: int| 0 <= i < listed.len() implies (#[trigger] entries[i]).0 == frame_name(listed[i])
        && is_first_frame(outcomes, listed[i], entries[i].1) by {
        assert(entries[i] == url_frames(frames)[i]);
        lemma_only_frame_is_first(outcomes, i);
    }
}

/// Where no two frames have the same name, each is the first with its name.
proof fn lemma_only_frame_is_first(outcomes: Seq<OutcomeView>, k: int)
    requires
        names_differ(extracted(outcomes)),
        0 <= k < extracted(outcomes).len(),
    ensures
        is_first_frame(outcomes, extracted(outcomes)[k].0, extracted(outcomes)[k].1),
    decreases outcomes.len(),
{
    let frames = extracted(outcomes);
    let (name, bytes) = frames[k];
    if outcomes.len() == 0 {
        reveal(Seq::filter);
    } else {
        let before = outcomes.drop_last();
        let last = outcomes.last();
        lemma_collect_push(before, last);
        assert(before.push(last) =~= outcomes);
        assert(outcomes[before.len() as int] == last);
        let shorter = extracted(before);
        assert forall|i: int, j: int| 0 <= i < j < shorter.len() implies (#[trigger] shorter[i]).0 != (
        #[trigger] shorter[j]).0 by {
            assert(frames[i] == shorter[i] && frames[j] == shorter[j]);
        }
        if k < shorter.len() {
            lemma_only_frame_is_first(before, k);
            assert(shorter[k] == (name, bytes));
            let m = choose|m: int|
                {
                    &&& 0 <= m < before.len()
                    &&& (#[trigger] before[m]).frame == Ok::<Seq<u8>, Seq<char>>(bytes)
                    &&& without_path_marks(before[m].timestamp) == name
                    &&& forall|j: int|
                        0 <= j < m && (#[trigger] before[j]).frame is Ok ==> without_path_marks(
                            before[j].timestamp,
                        ) != name
                };
            assert(outcomes[m] == before[m]);
            assert forall|j: int| 0 <= j < m && (#[trigger] outcomes[j]).frame is Ok implies without_path_marks(
                outcomes[j].timestamp,
            ) != name by {
                assert(before[j] == outcomes[j]);
            }
        } else {
            let m = before.len() as int;
            assert(outcomes[m].frame == Ok::<Seq<u8>, Seq<char>>(bytes));
            assert forall|j: int| 0 <= j < m && (#[trigger] outcomes[j]).frame is Ok implies without_path_marks(
                outcomes[j].timestamp,
            ) != name by {
                assert(before[j] == outcomes[j]);
                law_every_outcome_is_collected(before);
                let frame = (without_path_marks(before[j].timestamp), before[j].frame->Ok_0);
                assert(shorter.contains(frame));
                let i = choose|i: int| 0 <= i < shorter.len() && shorter[i] == frame;
                assert(frames[i] == shorter[i]);
                assert(frames[i].0 != frames[k].0);
            }
        }
    }
}

/// What the form for many frames is answered with, wherever it can be read as it was
/// written and nothing is too large, is flat and is what the report in it lists: the
/// frames under the listed names, in that order, each as the first run with its file name
/// made it, and the report at the end, all stored as they are.
pub proof fn law_download_is_flat_and_what_its_report_lists(outcomes: Seq<OutcomeView>)
    requires
        download_archive(outcomes) is Some,
        sizes_fit(extracted(outcomes)),
        json_pretty(report_tree(download_report(outcomes))).len() <= MAX_ENTRY_BYTES,
        is_readable(download_entries(outcomes)),
        download_reads_back(outcomes),
    ensures
        download_answer(outcomes) == zip_download(download_answer(outcomes).body->Bytes_0),
        ({
            let archive = download_answer(outcomes).body->Bytes_0;
            let read = zip_contents(archive);
            let report = download_report(outcomes);
            &&& read.len() == report.successful.len() + 1
            &&& forall|i: int|
                0 <= i < report.successful.len() ==> (#[trigger] read[i]).0 == download_name(report.successful[i])
                    && is_first_frame(outcomes, report.successful[i], read[i].1)
            &&& read.last().0 == report_name()
            &&& json_read(read.last().1) == Some(report_tree(report))
            &&& forall|i: int|
                0 <= i < read.len() ==> !(#[trigger] read[i]).0.contains('/') && !read[i].0.contains(':')
            &&& forall|i: int, j: int|
                0 <= i < j < read.len() ==> (#[trigger] read[i]).0 != (#[trigger] read[j]).0
            &&& zip_methods(archive) == stored_methods(read.len())
        }),
{
    law_download_is_what_its_report_lists(outcomes);
    law_download_is_flat(outcomes);
}

/// A form and a request with a URL that ask for the same timestamps of the same video are
/// answered with archives that, wherever they can be read as they were written, read as
/// the same frames under the names that each uses.
pub proof fn law_form_and_url_archives_agree(
    list: Seq<Seq<char>>,
    ffmpeg: spec_fn(Seq<char>) -> RunView,
    form: Seq<OutcomeView>,
    url: Seq<OutcomeView>,
    name: Seq<char>,
    bytes: Seq<u8>,
)
    requires
        form.to_multiset() == outcomes_of(plans_of(list, form_refusal()), ffmpeg).to_multiset(),
        url.to_multiset() == outcomes_of(plans_of(list, url_timestamp_refusal()), ffmpeg).to_multiset(),
        download_archive(form) is Some,
        url_entries(url) is Ok,
        is_readable(download_entries(form)),
        is_readable(url_entries(url)->Ok_0),
        download_reads_back(form),
        url_archive_reads_back(url),
    ensures
        zip_contents(download_answer(form).body->Bytes_0).contains((download_name(name), bytes)) == zip_contents(
            archive_answer(url).body->Bytes_0,
        ).contains((frame_name(name), bytes)),
{
    law_form_and_url_batches_agree(list, ffmpeg, form, url);
    assert(download_entries(form).contains((download_name(name), bytes)) == url_entries(url)->Ok_0.contains(
        (frame_name(name), bytes),
    ));
}

/// Whatever order the runs end in, a request for many frames with a URL is answered with
/// an archive that, wherever it can be read as it was written, reads as the same set of
/// frames, and whose report lists the same failures in the same order.
pub proof fn law_order_of_runs_keeps_what_is_read(
    a: Seq<OutcomeView>,
    b: Seq<OutcomeView>,
    entry: (Seq<char>, Seq<u8>),
)
    requires
        a.to_multiset() == b.to_multiset(),
        one_outcome_each(a),
        url_entries(a) is Ok,
        json_pretty(report_tree(url_report(b))).len() <= MAX_ENTRY_BYTES,
        is_readable(url_entries(a)->Ok_0),
        is_readable(url_entries(b)->Ok_0),
        url_archive_reads_back(a),
        url_archive_reads_back(b),
    ensures
        archive_answer(b).status == 200,
        zip_contents(archive_answer(a).body->Bytes_0).drop_last().contains(entry) == zip_contents(
            archive_answer(b).body->Bytes_0,
        ).drop_last().contains(entry),
        url_report(a).failed == url_report(b).failed,
        json_read(zip_contents(archive_answer(a).body->Bytes_0).last().1) == Some(report_tree(url_report(a))),
        json_read(zip_contents(archive_answer(b).body->Bytes_0).last().1) == Some(report_tree(url_report(b))),
{
    law_order_of_runs_keeps_the_archive(a, b, entry);
    law_order_of_runs_keeps_the_failures(a, b);
    law_url_archive_is_what_its_report_lists(a);
    law_url_archive_is_what_its_report_lists(b);
}

} // verus!
