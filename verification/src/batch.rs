//! Many frames of one video: what is run for each timestamp, what came of it, and
//! the archive that the frames and the report are packed into.
use crate::archive::{
    archive_entries, archive_methods, archive_of, finish_archive, has_entry, new_archive, reads_back,
    start_entry, stored_methods, write_entry, zip_bytes, ArchiveWriter, MAX_ENTRY_BYTES, MAX_NAME_BYTES, STORED,
};
use crate::ffmpeg::{
    extraction, extraction_command, lossy_text, read_lossy, reads_as_encoded, takes_one_frame, Command, CommandView, Run,
    RunView, BATCH_TIMEOUT_SECS,
};
use crate::json::json_pretty;
use crate::report::{
    failures, in_order, law_sorted_failures_are_the_failures, report_json, report_reads_back, report_tree,
    sort_failures, sorted_failures, sorted_from, ExtractionReport, FailedTimestamp, ReportView,
};
use crate::text::{is_listed, join, texts, without_path_marks};
use crate::number::spelled_u32;
use crate::timestamp::{
    format_timestamp, law_clock_time_reads_as_its_seconds, reads_as_seconds, safe_filename, seek_time,
};
use vstd::prelude::*;
use vstd::utf8::encode_utf8;

verus! {

/// What came of one timestamp: the frame, or the reason why there is none.
#[derive(Debug, PartialEq, Eq)]
pub struct FrameOutcome {
    pub timestamp: String,
    pub frame: Result<Vec<u8>, String>,
}

/// What came of one timestamp, as mathematical values.
pub struct OutcomeView {
    pub timestamp: Seq<char>,
    pub frame: Result<Seq<u8>, Seq<char>>,
}

impl View for FrameOutcome {
    type V = OutcomeView;

    open spec fn view(&self) -> OutcomeView {
        OutcomeView {
            timestamp: self.timestamp@,
            frame: match self.frame {
                Ok(bytes) => Ok(bytes@),
                Err(reason) => Err(reason@),
            },
        }
    }
}

/// The outcomes of a list.
pub open spec fn outcome_views(list: Seq<FrameOutcome>) -> Seq<OutcomeView> {
    list.map_values(|outcome: FrameOutcome| outcome@)
}

/// What is to be done for one timestamp.
#[derive(Debug, PartialEq, Eq)]
pub enum FramePlan {
    /// The command is to be run.
    Run { timestamp: String, command: Command },
    /// Nothing is to be run: this is what came of it.
    Done(FrameOutcome),
}

/// What is to be done for one timestamp, as mathematical values.
pub enum PlanView {
    Run { timestamp: Seq<char>, command: CommandView },
    Done(OutcomeView),
}

impl View for FramePlan {
    type V = PlanView;

    open spec fn view(&self) -> PlanView {
        match self {
            FramePlan::Run { timestamp, command } => PlanView::Run {
                timestamp: timestamp@,
                command: command@,
            },
            FramePlan::Done(outcome) => PlanView::Done(outcome@),
        }
    }
}

/// The plans of a list.
pub open spec fn plan_views(list: Seq<FramePlan>) -> Seq<PlanView> {
    list.map_values(|plan: FramePlan| plan@)
}

/// What is to be done for a timestamp: the frame at its position is extracted, or,
/// where it asks for no position, it is refused in these words.
pub open spec fn planned(timestamp: Seq<char>, refusal: Seq<char>) -> PlanView {
    match seek_time(timestamp) {
        Some(seek) => PlanView::Run { timestamp, command: extraction(seek, BATCH_TIMEOUT_SECS) },
        None => PlanView::Done(OutcomeView { timestamp, frame: Err(refusal) }),
    }
}

/// What is to be done for one timestamp.
pub fn plan_frame(timestamp: String, refusal: &str) -> (plan: FramePlan)
    ensures
        plan@ == planned(timestamp@, refusal@),
{
    match format_timestamp(timestamp.as_str()) {
        Some(seek) => {
            let command = extraction_command(seek.as_str(), BATCH_TIMEOUT_SECS);
            FramePlan::Run { timestamp, command }
        },
        None => FramePlan::Done(FrameOutcome { timestamp, frame: Err(refusal.to_owned()) }),
    }
}

/// What is to be done for each timestamp of a list.
pub fn plan_frames(list: Vec<String>, refusal: &str) -> (plans: Vec<FramePlan>)
    ensures
        plan_views(plans@) == texts(list@).map_values(
            |timestamp: Seq<char>| planned(timestamp, refusal@),
        ),
{
    let ghost all = list@;
    let mut plans: Vec<FramePlan> = Vec::new();
    for timestamp in it: list
        invariant
            it.seq() == all,
            plans.len() == it.index(),
            forall|j: int| 0 <= j < it.index() ==> (#[trigger] plans[j])@ == planned(all[j]@, refusal@),
    {
        plans.push(plan_frame(timestamp, refusal));
    }
    assert(plan_views(plans@) =~= texts(all).map_values(
        |timestamp: Seq<char>| planned(timestamp, refusal@),
    ));
    plans
}

/// What the end of a run means for the frame that it was to extract.
pub open spec fn run_frame(run: RunView) -> Result<Seq<u8>, Seq<char>> {
    match run {
        RunView::Exited { success, stdout, stderr } => if success {
            Ok(stdout)
        } else {
            Err("FFmpeg failed: "@ + lossy_text(stderr))
        },
        RunView::NotRun(error) => Err("FFmpeg execution failed: "@ + error),
        RunView::TimedOut => Err("FFmpeg execution timed out"@),
    }
}

/// What came of a timestamp whose run failed with this message.
pub fn failed_frame(timestamp: String, message: &str) -> (outcome: FrameOutcome)
    ensures
        outcome@ == (OutcomeView { timestamp: timestamp@, frame: Err("FFmpeg failed: "@ + message@) }),
{
    FrameOutcome { timestamp, frame: Err(join("FFmpeg failed: ", message)) }
}

/// What came of a timestamp whose run ended so.
pub fn finish_frame(timestamp: String, run: Run) -> (outcome: FrameOutcome)
    ensures
        outcome@ == (OutcomeView { timestamp: timestamp@, frame: run_frame(run@) }),
        reads_as_encoded(run@),
{
    match run {
        Run::Exited { success, stdout, stderr } => {
            if success {
                FrameOutcome { timestamp, frame: Ok(stdout) }
            } else {
                let message = read_lossy(stderr.as_slice());
                failed_frame(timestamp, message.as_str())
            }
        },
        Run::NotRun(error) => FrameOutcome {
            timestamp,
            frame: Err(join("FFmpeg execution failed: ", error.as_str())),
        },
        Run::TimedOut => FrameOutcome {
            timestamp,
            frame: Err("FFmpeg execution timed out".to_owned()),
        },
    }
}

/// The frames among the outcomes, each under the file name made from its timestamp.
pub open spec fn extracted(outcomes: Seq<OutcomeView>) -> Seq<(Seq<char>, Seq<u8>)> {
    outcomes.filter(|outcome: OutcomeView| outcome.frame is Ok).map_values(
        |outcome: OutcomeView| (without_path_marks(outcome.timestamp), outcome.frame->Ok_0),
    )
}

/// The failures among the outcomes.
pub open spec fn not_extracted(outcomes: Seq<OutcomeView>) -> Seq<(Seq<char>, Seq<char>)> {
    outcomes.filter(|outcome: OutcomeView| outcome.frame is Err).map_values(
        |outcome: OutcomeView| (outcome.timestamp, outcome.frame->Err_0),
    )
}

/// A frame and the file name made from its timestamp.
struct Frame {
    filename: String,
    bytes: Vec<u8>,
}

impl View for Frame {
    type V = (Seq<char>, Seq<u8>);

    closed spec fn view(&self) -> (Seq<char>, Seq<u8>) {
        (self.filename@, self.bytes@)
    }
}

/// The frames of a list.
spec fn frame_views(list: Seq<Frame>) -> Seq<(Seq<char>, Seq<u8>)> {
    list.map_values(|frame: Frame| frame@)
}

/// One outcome more is one frame more or one failure more.
pub proof fn lemma_collect_push(outcomes: Seq<OutcomeView>, outcome: OutcomeView)
    ensures
        extracted(outcomes.push(outcome)) == match outcome.frame {
            Ok(bytes) => extracted(outcomes).push((without_path_marks(outcome.timestamp), bytes)),
            Err(_) => extracted(outcomes),
        },
        not_extracted(outcomes.push(outcome)) == match outcome.frame {
            Ok(_) => not_extracted(outcomes),
            Err(reason) => not_extracted(outcomes).push((outcome.timestamp, reason)),
        },
{
    reveal(Seq::filter);
    let all = outcomes.push(outcome);
    assert(all.drop_last() =~= outcomes);
    match outcome.frame {
        Ok(bytes) => {
            assert(extracted(all) =~= extracted(outcomes).push(
                (without_path_marks(outcome.timestamp), bytes),
            ));
        },
        Err(reason) => {
            assert(not_extracted(all) =~= not_extracted(outcomes).push((outcome.timestamp, reason)));
        },
    }
}

/// Sorts the outcomes into frames and failures, both in the order that they came in.
fn collect(outcomes: Vec<FrameOutcome>) -> (collected: (Vec<Frame>, Vec<FailedTimestamp>))
    ensures
        frame_views(collected.0@) == extracted(outcome_views(outcomes@)),
        failures(collected.1@) == not_extracted(outcome_views(outcomes@)),
{
    let ghost all = outcome_views(outcomes@);
    let mut frames: Vec<Frame> = Vec::new();
    let mut failed: Vec<FailedTimestamp> = Vec::new();
    proof {
        reveal(Seq::filter);
        assert(frame_views(frames@) =~= extracted(all.take(0)));
        assert(failures(failed@) =~= not_extracted(all.take(0)));
    }
    for outcome in it: outcomes
        invariant
            outcome_views(it.seq()) == all,
            frame_views(frames@) == extracted(all.take(it.index())),
            failures(failed@) == not_extracted(all.take(it.index())),
    {
        proof {
            assert(all[it.index()] == outcome@);
            assert(all.take(it.index() + 1) =~= all.take(it.index()).push(outcome@));
            lemma_collect_push(all.take(it.index()), outcome@);
        }
        match outcome.frame {
            Ok(bytes) => {
                let filename = safe_filename(outcome.timestamp.as_str());
                frames.push(Frame { filename, bytes });
            },
            Err(reason) => {
                failed.push(FailedTimestamp { timestamp: outcome.timestamp, reason });
            },
        }
        assert(frame_views(frames@) =~= extracted(all.take(it.index() + 1)));
        assert(failures(failed@) =~= not_extracted(all.take(it.index() + 1)));
    }
    assert(all.take(all.len() as int) =~= all);
    (frames, failed)
}

/// Whether a name is too long for an entry of an archive.
pub open spec fn too_long(name: Seq<char>) -> bool {
    encode_utf8(name).len() > MAX_NAME_BYTES
}

/// Entries with one more at their end, unless it is too large for an archive.
pub open spec fn stored(entries: Seq<(Seq<char>, Seq<u8>)>, name: Seq<char>, bytes: Seq<u8>) -> Seq<
    (Seq<char>, Seq<u8>),
> {
    if bytes.len() <= MAX_ENTRY_BYTES {
        entries.push((name, bytes))
    } else {
        entries
    }
}

/// Why a file did not get into an archive.
enum AddFault {
    /// Its name is taken.
    NotStarted(String),
    /// It is too large.
    NotWritten(String),
}

/// The names of entries.
spec fn entry_names(entries: Seq<(Seq<char>, Seq<u8>)>) -> Seq<Seq<char>> {
    entries.map_values(|entry: (Seq<char>, Seq<u8>)| entry.0)
}

/// An entry is there if its name is.
proof fn lemma_entry_names(entries: Seq<(Seq<char>, Seq<u8>)>, name: Seq<char>)
    ensures
        has_entry(entries, name) == entry_names(entries).contains(name),
{
    let names = entry_names(entries);
    if has_entry(entries, name) {
        let i = choose|i: int| 0 <= i < entries.len() && (#[trigger] entries[i]).0 == name;
        assert(names[i] == name);
    }
    if names.contains(name) {
        let i = choose|i: int| 0 <= i < names.len() && names[i] == name;
        assert(entries[i].0 == name);
    }
}

/// An archive that is being packed, and the names of its entries.
struct Pack {
    archive: ArchiveWriter,
    names: Vec<String>,
}

impl Pack {
    /// The entries that are packed so far.
    spec fn entries(&self) -> Seq<(Seq<char>, Seq<u8>)> {
        archive_entries(self.archive)
    }

    /// Whether the names are those of the entries, and all entries are stored as they are.
    spec fn well_formed(&self) -> bool {
        &&& texts(self.names@) == entry_names(self.entries())
        &&& archive_methods(self.archive) == stored_methods(self.entries().len())
    }

    /// An archive with nothing in it.
    fn new() -> (pack: Pack)
        ensures
            pack.well_formed(),
            pack.entries() == Seq::<(Seq<char>, Seq<u8>)>::empty(),
    {
        let pack = Pack { archive: new_archive(), names: Vec::new() };
        assert(texts(pack.names@) =~= entry_names(pack.entries()));
        assert(archive_methods(pack.archive) =~= stored_methods(0));
        pack
    }

    /// Adds a file. One that is too large is kept away from the archive: the writer would
    /// refuse it with just these words and take the entry out again, but the bytes that
    /// are left over then trip an assertion of the writer when the archive is finished or
    /// dropped, where such assertions are on.
    fn add_file(&mut self, name: String, bytes: &Vec<u8>) -> (added: Result<(), AddFault>)
        requires
            old(self).well_formed(),
            !too_long(name@),
        ensures
            final(self).well_formed(),
            match added {
                Ok(_) => {
                    &&& !has_entry(old(self).entries(), name@)
                    &&& bytes@.len() <= MAX_ENTRY_BYTES
                    &&& final(self).entries() == old(self).entries().push((name@, bytes@))
                },
                Err(AddFault::NotStarted(message)) => {
                    &&& has_entry(old(self).entries(), name@)
                    &&& message@ == "invalid Zip archive: Duplicate filename: "@ + name@
                    &&& final(self).entries() == old(self).entries()
                },
                Err(AddFault::NotWritten(message)) => {
                    &&& !has_entry(old(self).entries(), name@)
                    &&& bytes@.len() > MAX_ENTRY_BYTES
                    &&& message@ == "Large file option has not been set"@
                    &&& final(self).entries() == old(self).entries()
                },
            },
    {
        let ghost before = self.entries();
        proof {
            lemma_entry_names(before, name@);
        }
        if bytes.len() as u64 > MAX_ENTRY_BYTES && !is_listed(&self.names, name.as_str()) {
            return Err(AddFault::NotWritten("Large file option has not been set".to_owned()));
        }
        match start_entry(&mut self.archive, name.as_str(), STORED) {
            Ok(_) => {},
            Err(message) => {
                return Err(AddFault::NotStarted(message));
            },
        }
        proof {
            assert(before.push((name@, Seq::<u8>::empty())).drop_last() =~= before);
            assert(Seq::<u8>::empty() + bytes@ =~= bytes@);
        }
        match write_entry(&mut self.archive, bytes.as_slice()) {
            Ok(_) => {
                let ghost names = texts(self.names@);
                self.names.push(name);
                assert(texts(self.names@) =~= names.push(name@));
                assert(entry_names(before.push((name@, bytes@))) =~= names.push(name@));
                assert(archive_methods(self.archive) =~= stored_methods(before.len() + 1));
                Ok(())
            },
            Err(message) => Err(AddFault::NotWritten(message)),
        }
    }

    /// The bytes of the archive.
    fn finish(self) -> (finished: Result<Vec<u8>, String>)
        requires
            self.well_formed(),
        ensures
            finished is Ok,
            finished->Ok_0@ == archive_of(self.entries()),
            reads_back(self.entries()),
    {
        finish_archive(self.archive)
    }
}

/// The name of the entry that holds the report.
pub open spec fn report_name() -> Seq<char> {
    "extraction_report.json"@
}

/// The name of the entry that holds a frame, in an archive that is downloaded.
pub open spec fn download_name(filename: Seq<char>) -> Seq<char> {
    "frame_"@ + filename + ".jpg"@
}

/// The name of the entry that holds a frame, in an archive that answers a URL.
pub open spec fn frame_name(filename: Seq<char>) -> Seq<char> {
    filename + ".jpg"@
}

/// Frames packed one after the other: the entries that they make, and the file
/// names that the report lists.
pub struct Packed {
    pub entries: Seq<(Seq<char>, Seq<u8>)>,
    pub listed: Seq<Seq<char>>,
}

/// Frames packed for a download. A frame whose name is taken is passed over; one
/// that is too large leaves no entry and is listed nevertheless.
pub open spec fn packed(frames: Seq<(Seq<char>, Seq<u8>)>) -> Packed
    decreases frames.len(),
{
    if frames.len() == 0 {
        Packed { entries: Seq::empty(), listed: Seq::empty() }
    } else {
        let before = packed(frames.drop_last());
        let (filename, bytes) = frames.last();
        if has_entry(before.entries, download_name(filename)) {
            before
        } else {
            Packed {
                entries: stored(before.entries, download_name(filename), bytes),
                listed: before.listed.push(filename),
            }
        }
    }
}

/// Whether every frame has a name that fits an entry of a download.
pub open spec fn all_names_fit(frames: Seq<(Seq<char>, Seq<u8>)>) -> bool {
    forall|i: int| 0 <= i < frames.len() ==> !too_long(download_name((#[trigger] frames[i]).0))
}

/// The report on a batch that is downloaded.
pub open spec fn download_report(outcomes: Seq<OutcomeView>) -> ReportView {
    ReportView {
        successful: packed(extracted(outcomes)).listed,
        failed: not_extracted(outcomes),
    }
}

/// The entries of the archive that is downloaded: the frames, and the report on
/// them at the end.
pub open spec fn download_entries(outcomes: Seq<OutcomeView>) -> Seq<(Seq<char>, Seq<u8>)> {
    stored(
        packed(extracted(outcomes)).entries,
        report_name(),
        json_pretty(report_tree(download_report(outcomes))),
    )
}

/// The archive that is downloaded. There is none if the name of a frame is too long.
pub open spec fn download_archive(outcomes: Seq<OutcomeView>) -> Option<Seq<u8>> {
    if all_names_fit(extracted(outcomes)) {
        Some(archive_of(download_entries(outcomes)))
    } else {
        None
    }
}

/// Whether the archive that is downloaded, if there is one, reads back as its entries,
/// and the report in it as the report.
pub open spec fn download_reads_back(outcomes: Seq<OutcomeView>) -> bool {
    download_archive(outcomes) is Some ==> reads_back(download_entries(outcomes)) && report_reads_back(
        download_report(outcomes),
    )
}

/// No frame has the name of the report.
pub proof fn lemma_report_name_is_free(name: Seq<char>)
    ensures
        name + ".jpg"@ != report_name(),
{
    reveal_strlit(".jpg");
    reveal_strlit("extraction_report.json");
    let frame = name + ".jpg"@;
    if frame == report_name() {
        assert(frame[frame.len() - 1] == 'g');
    }
}

/// The name of the report is short enough.
proof fn lemma_report_name_fits()
    ensures
        !too_long(report_name()),
{
    reveal_strlit("extraction_report.json");
    vstd::utf8::is_ascii_chars_encode_utf8(report_name());
}

/// The entries of packed frames all have names of frames.
pub proof fn lemma_packed_names(frames: Seq<(Seq<char>, Seq<u8>)>)
    ensures
        !has_entry(packed(frames).entries, report_name()),
    decreases frames.len(),
{
    if frames.len() > 0 {
        lemma_packed_names(frames.drop_last());
        lemma_report_name_is_free("frame_"@ + frames.last().0);
        let before = packed(frames.drop_last()).entries;
        let after = packed(frames).entries;
        assert forall|i: int| 0 <= i < after.len() implies (#[trigger] after[i]).0 != report_name() by {
            if i < before.len() {
                assert(after[i] == before[i]);
            }
        }
    }
}

/// Whether `name` is short enough for an entry of an archive.
fn name_fits(name: &str) -> (fits: bool)
    ensures
        fits == !too_long(name@),
{
    name.as_bytes().len() <= MAX_NAME_BYTES
}

/// Packs frames and the report on them into the archive that is downloaded. There
/// is none if the name of a frame is too long for an archive.
pub fn pack_download(outcomes: Vec<FrameOutcome>) -> (archive: Option<Vec<u8>>)
    ensures
        match download_archive(outcome_views(outcomes@)) {
            Some(bytes) => archive matches Some(packed) && packed@ == bytes,
            None => archive is None,
        },
        download_reads_back(outcome_views(outcomes@)),
{
    let ghost all = outcome_views(outcomes@);
    let (frames, failed) = collect(outcomes);
    let ghost views = extracted(all);
    let mut pack = Pack::new();
    let mut listed: Vec<String> = Vec::new();
    assert(texts(listed@) =~= packed(views.take(0)).listed);
    for frame in it: frames
        invariant
            all == outcome_views(outcomes@),
            views == extracted(all),
            frame_views(it.seq()) == views,
            pack.well_formed(),
            pack.entries() == packed(views.take(it.index())).entries,
            texts(listed@) == packed(views.take(it.index())).listed,
            all_names_fit(views.take(it.index())),
    {
        let ghost before = views.take(it.index());
        let ghost after = views.take(it.index() + 1);
        proof {
            assert(views[it.index()] == frame@);
            assert(after.drop_last() =~= before);
            assert(after.last() == frame@);
        }
        let prefixed = join("frame_", frame.filename.as_str());
        let name = join(prefixed.as_str(), ".jpg");
        assert(name@ == download_name(frame@.0));
        if !name_fits(name.as_str()) {
            assert(too_long(download_name(views[it.index()].0)));
            return None;
        }
        assert(all_names_fit(after)) by {
            assert forall|i: int| 0 <= i < after.len() implies !too_long(
                download_name((#[trigger] after[i]).0),
            ) by {
                if i < before.len() {
                    assert(after[i] == before[i]);
                }
            }
        }
        let ghost names = texts(listed@);
        match pack.add_file(name, &frame.bytes) {
            Err(AddFault::NotStarted(_)) => {},
            _ => {
                listed.push(frame.filename);
                assert(texts(listed@) =~= names.push(frame@.0));
            },
        }
    }
    assert(views.take(views.len() as int) =~= views);
    let report = ExtractionReport { successful_timestamps: listed, failed_timestamps: failed };
    let json = report_json(&report);
    assert(report@ == download_report(all));
    proof {
        lemma_report_name_fits();
        lemma_packed_names(views);
    }
    let _ = pack.add_file("extraction_report.json".to_owned(), &json);
    match pack.finish() {
        Ok(bytes) => Some(bytes),
        Err(_) => None,
    }
}

/// Why there is no archive.
#[derive(Debug, PartialEq, Eq)]
pub enum PackFault {
    /// The name of a frame is too long for an archive.
    NameTooLong,
    /// A file could not be added, as the text says.
    Message(String),
}

/// Why there is no archive, as mathematical values.
pub enum PackFaultView {
    NameTooLong,
    Message(Seq<char>),
}

impl View for PackFault {
    type V = PackFaultView;

    open spec fn view(&self) -> PackFaultView {
        match self {
            PackFault::NameTooLong => PackFaultView::NameTooLong,
            PackFault::Message(text) => PackFaultView::Message(text@),
        }
    }
}

/// The entries of frames that are packed one after the other until one cannot be:
/// because its name is too long or taken, or because it is too large.
pub open spec fn packed_strictly(frames: Seq<(Seq<char>, Seq<u8>)>) -> Result<
    Seq<(Seq<char>, Seq<u8>)>,
    PackFaultView,
>
    decreases frames.len(),
{
    if frames.len() == 0 {
        Ok(Seq::empty())
    } else {
        match packed_strictly(frames.drop_last()) {
            Err(fault) => Err(fault),
            Ok(before) => {
                let (filename, bytes) = frames.last();
                let name = frame_name(filename);
                if too_long(name) {
                    Err(PackFaultView::NameTooLong)
                } else if has_entry(before, name) {
                    Err(
                        PackFaultView::Message(
                            "ZIP write error: "@ + ("invalid Zip archive: Duplicate filename: "@ + name),
                        ),
                    )
                } else if bytes.len() > MAX_ENTRY_BYTES {
                    Err(
                        PackFaultView::Message(
                            "ZIP data write error: "@ + "Large file option has not been set"@,
                        ),
                    )
                } else {
                    Ok(before.push((name, bytes)))
                }
            },
        }
    }
}

/// The report on a batch that answers a URL.
pub open spec fn url_report(outcomes: Seq<OutcomeView>) -> ReportView {
    ReportView {
        successful: extracted(outcomes).map_values(|frame: (Seq<char>, Seq<u8>)| frame.0),
        failed: sorted_failures(not_extracted(outcomes)),
    }
}

/// The entries of the archive that answers a URL: the frames, and the report on
/// them at the end.
pub open spec fn url_entries(outcomes: Seq<OutcomeView>) -> Result<
    Seq<(Seq<char>, Seq<u8>)>,
    PackFaultView,
> {
    match packed_strictly(extracted(outcomes)) {
        Err(fault) => Err(fault),
        Ok(entries) => {
            let json = json_pretty(report_tree(url_report(outcomes)));
            if json.len() > MAX_ENTRY_BYTES {
                Err(
                    PackFaultView::Message(
                        "ZIP report write error: "@ + "Large file option has not been set"@,
                    ),
                )
            } else {
                Ok(entries.push((report_name(), json)))
            }
        },
    }
}

/// The archive that answers a URL, or why there is none.
pub open spec fn url_archive(outcomes: Seq<OutcomeView>) -> Result<Seq<u8>, PackFaultView> {
    match url_entries(outcomes) {
        Ok(entries) => Ok(archive_of(entries)),
        Err(fault) => Err(fault),
    }
}

/// Whether the archive that answers a URL, if there is one, reads back as its entries,
/// and the report in it as the report.
pub open spec fn url_archive_reads_back(outcomes: Seq<OutcomeView>) -> bool {
    url_entries(outcomes) matches Ok(entries) ==> reads_back(entries) && report_reads_back(url_report(outcomes))
}

/// A frame that cannot be packed ends the packing, whatever follows it.
proof fn lemma_packing_ends(frames: Seq<(Seq<char>, Seq<u8>)>, k: int)
    requires
        0 <= k <= frames.len(),
        packed_strictly(frames.take(k)) is Err,
    ensures
        packed_strictly(frames) == packed_strictly(frames.take(k)),
    decreases frames.len(),
{
    if k == frames.len() {
        assert(frames.take(k) =~= frames);
    } else {
        assert(frames.drop_last().take(k) =~= frames.take(k));
        lemma_packing_ends(frames.drop_last(), k);
    }
}

/// The entries of strictly packed frames all have names of frames.
proof fn lemma_strictly_packed_names(frames: Seq<(Seq<char>, Seq<u8>)>)
    ensures
        packed_strictly(frames) matches Ok(entries) ==> !has_entry(entries, report_name()),
    decreases frames.len(),
{
    if frames.len() > 0 && packed_strictly(frames) is Ok {
        lemma_strictly_packed_names(frames.drop_last());
        lemma_report_name_is_free(frames.last().0);
        let before = packed_strictly(frames.drop_last())->Ok_0;
        let after = packed_strictly(frames)->Ok_0;
        assert forall|i: int| 0 <= i < after.len() implies (#[trigger] after[i]).0 != report_name() by {
            if i < before.len() {
                assert(after[i] == before[i]);
            }
        }
    }
}

/// Packs frames and the report on them into the archive that answers a URL.
pub fn pack_url_archive(outcomes: Vec<FrameOutcome>) -> (archive: Result<Vec<u8>, PackFault>)
    ensures
        match url_archive(outcome_views(outcomes@)) {
            Ok(bytes) => archive matches Ok(packed) && packed@ == bytes,
            Err(fault) => archive matches Err(cause) && cause@ == fault,
        },
        url_archive_reads_back(outcome_views(outcomes@)),
{
    let ghost all = outcome_views(outcomes@);
    let (frames, failed) = collect(outcomes);
    let failed = sort_failures(failed);
    let ghost views = extracted(all);
    let mut pack = Pack::new();
    let mut listed: Vec<String> = Vec::new();
    let ghost filename_of = |frame: (Seq<char>, Seq<u8>)| frame.0;
    assert(texts(listed@) =~= views.take(0).map_values(filename_of));
    for frame in it: frames
        invariant
            all == outcome_views(outcomes@),
            views == extracted(all),
            filename_of == (|frame: (Seq<char>, Seq<u8>)| frame.0),
            frame_views(it.seq()) == views,
            pack.well_formed(),
            packed_strictly(views.take(it.index())) == Ok::<_, PackFaultView>(pack.entries()),
            texts(listed@) == views.take(it.index()).map_values(filename_of),
    {
        let ghost before = views.take(it.index());
        let ghost after = views.take(it.index() + 1);
        proof {
            assert(views[it.index()] == frame@);
            assert(after.drop_last() =~= before);
            assert(after.last() == frame@);
            if packed_strictly(after) is Err {
                lemma_packing_ends(views, it.index() + 1);
            }
        }
        let name = join(frame.filename.as_str(), ".jpg");
        assert(name@ == frame_name(frame@.0));
        if !name_fits(name.as_str()) {
            return Err(PackFault::NameTooLong);
        }
        match pack.add_file(name, &frame.bytes) {
            Ok(_) => {},
            Err(AddFault::NotStarted(message)) => {
                return Err(PackFault::Message(join("ZIP write error: ", message.as_str())));
            },
            Err(AddFault::NotWritten(message)) => {
                return Err(PackFault::Message(join("ZIP data write error: ", message.as_str())));
            },
        }
        let ghost names = texts(listed@);
        listed.push(frame.filename);
        assert(texts(listed@) =~= names.push(frame@.0));
        assert(after.map_values(filename_of) =~= names.push(frame@.0));
    }
    assert(views.take(views.len() as int) =~= views);
    let report = ExtractionReport { successful_timestamps: listed, failed_timestamps: failed };
    let json = report_json(&report);
    assert(report@ == url_report(all));
    proof {
        lemma_report_name_fits();
        lemma_strictly_packed_names(views);
    }
    match pack.add_file("extraction_report.json".to_owned(), &json) {
        Ok(_) => {},
        Err(AddFault::NotStarted(message)) => {
            return Err(PackFault::Message(join("ZIP report error: ", message.as_str())));
        },
        Err(AddFault::NotWritten(message)) => {
            return Err(PackFault::Message(join("ZIP report write error: ", message.as_str())));
        },
    }
    match pack.finish() {
        Ok(bytes) => Ok(bytes),
        Err(message) => Err(PackFault::Message(join("ZIP finish error: ", message.as_str()))),
    }
}

/// Whether no two frames have the same file name.
pub open spec fn names_differ(frames: Seq<(Seq<char>, Seq<u8>)>) -> bool {
    forall|i: int, j: int| 0 <= i < j < frames.len() ==> (#[trigger] frames[i]).0 != (#[trigger] frames[j]).0
}

/// Whether every frame is small enough for an archive.
pub open spec fn sizes_fit(frames: Seq<(Seq<char>, Seq<u8>)>) -> bool {
    forall|i: int| 0 <= i < frames.len() ==> (#[trigger] frames[i]).1.len() <= MAX_ENTRY_BYTES
}

/// The file names of frames.
pub open spec fn filenames(frames: Seq<(Seq<char>, Seq<u8>)>) -> Seq<Seq<char>> {
    frames.map_values(|frame: (Seq<char>, Seq<u8>)| frame.0)
}

/// One entry for each frame of a download.
pub open spec fn download_frames(frames: Seq<(Seq<char>, Seq<u8>)>) -> Seq<(Seq<char>, Seq<u8>)> {
    frames.map_values(|frame: (Seq<char>, Seq<u8>)| (download_name(frame.0), frame.1))
}

/// One entry for each frame of an archive that answers a URL.
pub open spec fn url_frames(frames: Seq<(Seq<char>, Seq<u8>)>) -> Seq<(Seq<char>, Seq<u8>)> {
    frames.map_values(|frame: (Seq<char>, Seq<u8>)| (frame_name(frame.0), frame.1))
}

/// Entries of different frames have different names.
pub proof fn lemma_names_are_injective(a: Seq<char>, b: Seq<char>)
    ensures
        download_name(a) == download_name(b) ==> a == b,
        frame_name(a) == frame_name(b) ==> a == b,
{
    let prefix = "frame_"@;
    let suffix = ".jpg"@;
    if download_name(a) == download_name(b) {
        assert(download_name(a).len() == prefix.len() + a.len() + suffix.len());
        assert(download_name(b).len() == prefix.len() + b.len() + suffix.len());
        assert(download_name(a).subrange(prefix.len() as int, (prefix.len() + a.len()) as int) =~= a);
        assert(download_name(b).subrange(prefix.len() as int, (prefix.len() + b.len()) as int) =~= b);
    }
    if frame_name(a) == frame_name(b) {
        assert(frame_name(a).take(a.len() as int) =~= a);
        assert(frame_name(b).take(b.len() as int) =~= b);
    }
}

/// When the file names differ and no frame is too large, a download holds every frame,
/// unchanged and in order, and the report lists them all.
pub proof fn law_different_frames_are_all_packed(frames: Seq<(Seq<char>, Seq<u8>)>)
    requires
        names_differ(frames),
        sizes_fit(frames),
    ensures
        packed(frames).entries == download_frames(frames),
        packed(frames).listed == filenames(frames),
    decreases frames.len(),
{
    if frames.len() == 0 {
        assert(packed(frames).entries =~= download_frames(frames));
        assert(packed(frames).listed =~= filenames(frames));
    } else {
        let before = frames.drop_last();
        let last = frames.last();
        assert(last == frames[frames.len() - 1]);
        assert(names_differ(before));
        assert(sizes_fit(before));
        law_different_frames_are_all_packed(before);
        let entries = packed(before).entries;
        assert(!has_entry(entries, download_name(last.0))) by {
            assert forall|i: int| 0 <= i < entries.len() implies (#[trigger] entries[i]).0 != download_name(
                last.0,
            ) by {
                assert(before[i] == frames[i]);
                lemma_names_are_injective(frames[i].0, last.0);
            }
        }
        assert(packed(frames).entries =~= download_frames(frames));
        assert(packed(frames).listed =~= filenames(frames));
    }
}

/// An archive that answers a URL can be packed exactly when the names of the frames
/// differ and are short enough and no frame is too large; it then holds every frame,
/// unchanged and in order.
pub proof fn law_url_archive_holds_every_frame(frames: Seq<(Seq<char>, Seq<u8>)>)
    ensures
        packed_strictly(frames) is Ok <==> names_differ(frames) && sizes_fit(frames) && forall|i: int|
            0 <= i < frames.len() ==> !too_long(frame_name((#[trigger] frames[i]).0)),
        packed_strictly(frames) is Ok ==> packed_strictly(frames)->Ok_0 == url_frames(frames),
    decreases frames.len(),
{
    if frames.len() == 0 {
        assert(packed_strictly(frames)->Ok_0 =~= url_frames(frames));
    } else {
        let before = frames.drop_last();
        let last = frames.last();
        assert(last == frames[frames.len() - 1]);
        law_url_archive_holds_every_frame(before);
        if packed_strictly(before) is Ok {
            let entries = packed_strictly(before)->Ok_0;
            if has_entry(entries, frame_name(last.0)) {
                let i = choose|i: int|
                    0 <= i < entries.len() && (#[trigger] entries[i]).0 == frame_name(last.0);
                assert(before[i] == frames[i]);
                lemma_names_are_injective(frames[i].0, last.0);
                assert(!names_differ(frames));
            } else {
                assert forall|i: int, j: int| 0 <= i < j < frames.len() implies (#[trigger] frames[i]).0 != (
                #[trigger] frames[j]).0 by {
                    assert(before[i] == frames[i]);
                    if j == frames.len() - 1 {
                        assert(entries[i].0 == frame_name(frames[i].0));
                    } else {
                        assert(before[j] == frames[j]);
                    }
                }
                if packed_strictly(frames) is Ok {
                    assert(packed_strictly(frames)->Ok_0 =~= url_frames(frames));
                    assert forall|i: int| 0 <= i < frames.len() implies !too_long(
                        frame_name((#[trigger] frames[i]).0),
                    ) by {
                        if i < before.len() {
                            assert(before[i] == frames[i]);
                        }
                    }
                    assert forall|i: int| 0 <= i < frames.len() implies (#[trigger] frames[i]).1.len()
                        <= MAX_ENTRY_BYTES by {
                        if i < before.len() {
                            assert(before[i] == frames[i]);
                        }
                    }
                }
            }
        } else {
            if names_differ(frames) && sizes_fit(frames) && (forall|i: int|
                0 <= i < frames.len() ==> !too_long(frame_name((#[trigger] frames[i]).0))) {
                assert forall|i: int, j: int| 0 <= i < j < before.len() implies (#[trigger] before[i]).0 != (
                #[trigger] before[j]).0 by {
                    assert(before[i] == frames[i] && before[j] == frames[j]);
                }
                assert forall|i: int| 0 <= i < before.len() implies (#[trigger] before[i]).1.len()
                    <= MAX_ENTRY_BYTES by {
                    assert(before[i] == frames[i]);
                }
                assert forall|i: int| 0 <= i < before.len() implies !too_long(
                    frame_name((#[trigger] before[i]).0),
                ) by {
                    assert(before[i] == frames[i]);
                }
            }
        }
    }
}

/// Every outcome is a frame or a failure, and none is both.
pub proof fn law_every_outcome_is_collected(outcomes: Seq<OutcomeView>)
    ensures
        extracted(outcomes).len() + not_extracted(outcomes).len() == outcomes.len(),
        forall|i: int| 0 <= i < outcomes.len() ==> match (#[trigger] outcomes[i]).frame {
            Ok(bytes) => extracted(outcomes).contains((without_path_marks(outcomes[i].timestamp), bytes)),
            Err(reason) => not_extracted(outcomes).contains((outcomes[i].timestamp, reason)),
        },
    decreases outcomes.len(),
{
    if outcomes.len() == 0 {
        reveal(Seq::filter);
    } else {
        let before = outcomes.drop_last();
        let last = outcomes.last();
        law_every_outcome_is_collected(before);
        lemma_collect_push(before, last);
        assert(before.push(last) =~= outcomes);
        assert forall|i: int| 0 <= i < outcomes.len() implies match (#[trigger] outcomes[i]).frame {
            Ok(bytes) => extracted(outcomes).contains((without_path_marks(outcomes[i].timestamp), bytes)),
            Err(reason) => not_extracted(outcomes).contains((outcomes[i].timestamp, reason)),
        } by {
            if i < before.len() {
                assert(before[i] == outcomes[i]);
                match outcomes[i].frame {
                    Ok(bytes) => {
                        let frame = (without_path_marks(outcomes[i].timestamp), bytes);
                        let k = choose|k: int| 0 <= k < extracted(before).len() && extracted(before)[k] == frame;
                        assert(extracted(outcomes)[k] == frame);
                    },
                    Err(reason) => {
                        let failure = (outcomes[i].timestamp, reason);
                        let k = choose|k: int|
                            0 <= k < not_extracted(before).len() && not_extracted(before)[k] == failure;
                        assert(not_extracted(outcomes)[k] == failure);
                    },
                }
            } else {
                match last.frame {
                    Ok(bytes) => {
                        assert(extracted(outcomes)[extracted(before).len() as int] == (
                            without_path_marks(last.timestamp),
                            bytes,
                        ));
                    },
                    Err(reason) => {
                        assert(not_extracted(outcomes)[not_extracted(before).len() as int] == (
                            last.timestamp,
                            reason,
                        ));
                    },
                }
            }
        }
    }
}

/// Whether a report tells of every outcome, and of nothing else: a frame by its file
/// name, a failure by its timestamp and reason.
pub open spec fn tells_of_all(report: ReportView, outcomes: Seq<OutcomeView>) -> bool {
    &&& report.successful.len() + report.failed.len() == outcomes.len()
    &&& forall|i: int| 0 <= i < outcomes.len() ==> match (#[trigger] outcomes[i]).frame {
        Ok(_) => report.successful.contains(without_path_marks(outcomes[i].timestamp)),
        Err(reason) => report.failed.contains((outcomes[i].timestamp, reason)),
    }
    &&& forall|k: int| 0 <= k < report.successful.len() ==> is_extracted(outcomes, #[trigger] report.successful[k])
    &&& forall|k: int| 0 <= k < report.failed.len() ==> is_failure(outcomes, #[trigger] report.failed[k])
}

/// Whether one of the outcomes is a frame of this file name.
pub open spec fn is_extracted(outcomes: Seq<OutcomeView>, filename: Seq<char>) -> bool {
    exists|i: int|
        0 <= i < outcomes.len() && (#[trigger] outcomes[i]).frame is Ok && without_path_marks(
            outcomes[i].timestamp,
        ) == filename
}

/// Whether one of the outcomes is this failure.
pub open spec fn is_failure(outcomes: Seq<OutcomeView>, failure: (Seq<char>, Seq<char>)) -> bool {
    exists|i: int|
        0 <= i < outcomes.len() && (#[trigger] outcomes[i]).frame == Err::<Seq<u8>, Seq<char>>(failure.1)
            && outcomes[i].timestamp == failure.0
}

/// What is collected are outcomes.
pub proof fn lemma_collected_are_outcomes(outcomes: Seq<OutcomeView>)
    ensures
        forall|k: int|
            0 <= k < extracted(outcomes).len() ==> is_extracted(outcomes, (#[trigger] extracted(outcomes)[k]).0),
        forall|k: int|
            0 <= k < not_extracted(outcomes).len() ==> is_failure(outcomes, #[trigger] not_extracted(outcomes)[k]),
    decreases outcomes.len(),
{
    if outcomes.len() == 0 {
        reveal(Seq::filter);
    } else {
        let before = outcomes.drop_last();
        let last = outcomes.last();
        lemma_collected_are_outcomes(before);
        lemma_collect_push(before, last);
        assert(before.push(last) =~= outcomes);
        assert(outcomes[outcomes.len() - 1] == last);
        assert forall|k: int| 0 <= k < extracted(outcomes).len() implies is_extracted(
            outcomes,
            (#[trigger] extracted(outcomes)[k]).0,
        ) by {
            if k < extracted(before).len() {
                let frame = extracted(before)[k];
                assert(extracted(outcomes)[k] == frame);
                assert(is_extracted(before, frame.0));
                let i = choose|i: int|
                    0 <= i < before.len() && (#[trigger] before[i]).frame is Ok && without_path_marks(
                        before[i].timestamp,
                    ) == frame.0;
                assert(outcomes[i] == before[i]);
            }
        }
        assert forall|k: int| 0 <= k < not_extracted(outcomes).len() implies is_failure(
            outcomes,
            #[trigger] not_extracted(outcomes)[k],
        ) by {
            if k < not_extracted(before).len() {
                let failure = not_extracted(before)[k];
                assert(not_extracted(outcomes)[k] == failure);
                assert(is_failure(before, failure));
                let i = choose|i: int|
                    0 <= i < before.len() && (#[trigger] before[i]).frame == Err::<Seq<u8>, Seq<char>>(failure.1)
                        && before[i].timestamp == failure.0;
                assert(outcomes[i] == before[i]);
            }
        }
    }
}

/// The file names of collected frames are those of outcomes.
proof fn lemma_filenames_are_extracted(outcomes: Seq<OutcomeView>)
    ensures
        forall|k: int|
            0 <= k < filenames(extracted(outcomes)).len() ==> is_extracted(
                outcomes,
                #[trigger] filenames(extracted(outcomes))[k],
            ),
{
    lemma_collected_are_outcomes(outcomes);
    assert forall|k: int| 0 <= k < filenames(extracted(outcomes)).len() implies is_extracted(
        outcomes,
        #[trigger] filenames(extracted(outcomes))[k],
    ) by {
        assert(filenames(extracted(outcomes))[k] == extracted(outcomes)[k].0);
    }
}

/// The file names of collected frames tell of the frames among the outcomes.
proof fn lemma_filenames_tell(outcomes: Seq<OutcomeView>, i: int)
    requires
        0 <= i < outcomes.len(),
        outcomes[i].frame is Ok,
    ensures
        filenames(extracted(outcomes)).contains(without_path_marks(outcomes[i].timestamp)),
{
    law_every_outcome_is_collected(outcomes);
    let frame = (without_path_marks(outcomes[i].timestamp), outcomes[i].frame->Ok_0);
    assert(extracted(outcomes).contains(frame));
    let k = choose|k: int| 0 <= k < extracted(outcomes).len() && extracted(outcomes)[k] == frame;
    assert(filenames(extracted(outcomes))[k] == frame.0);
}

/// When the file names differ and no frame is too large, the report of a download
/// tells of every timestamp that was asked for.
pub proof fn law_download_report_tells_of_all(outcomes: Seq<OutcomeView>)
    requires
        names_differ(extracted(outcomes)),
        sizes_fit(extracted(outcomes)),
    ensures
        tells_of_all(download_report(outcomes), outcomes),
{
    law_different_frames_are_all_packed(extracted(outcomes));
    law_every_outcome_is_collected(outcomes);
    lemma_collected_are_outcomes(outcomes);
    lemma_filenames_are_extracted(outcomes);
    assert forall|i: int| 0 <= i < outcomes.len() implies match (#[trigger] outcomes[i]).frame {
        Ok(_) => download_report(outcomes).successful.contains(without_path_marks(outcomes[i].timestamp)),
        Err(reason) => download_report(outcomes).failed.contains((outcomes[i].timestamp, reason)),
    } by {
        if outcomes[i].frame is Ok {
            lemma_filenames_tell(outcomes, i);
        }
    }
}

/// The report of an archive that answers a URL tells of every timestamp that was asked
/// for, with the failures in the order of their timestamps.
pub proof fn law_url_report_tells_of_all(outcomes: Seq<OutcomeView>)
    ensures
        tells_of_all(url_report(outcomes), outcomes),
        in_order(url_report(outcomes).failed),
{
    broadcast use vstd::seq_lib::group_to_multiset_ensures;

    let failed = not_extracted(outcomes);
    let sorted = sorted_failures(failed);
    law_every_outcome_is_collected(outcomes);
    law_sorted_failures_are_the_failures(failed);
    assert(sorted.to_multiset().len() == failed.to_multiset().len());
    assert(url_report(outcomes).successful == filenames(extracted(outcomes)));
    lemma_collected_are_outcomes(outcomes);
    lemma_filenames_are_extracted(outcomes);
    assert forall|k: int| 0 <= k < sorted.len() implies is_failure(outcomes, #[trigger] sorted[k]) by {
        let failure = sorted[k];
        assert(sorted.contains(failure));
        assert(sorted.to_multiset().count(failure) > 0);
        assert(failed.to_multiset().count(failure) > 0);
        let at = choose|at: int| 0 <= at < failed.len() && failed[at] == failure;
        assert(is_failure(outcomes, failed[at]));
    }
    assert forall|i: int| 0 <= i < outcomes.len() implies match (#[trigger] outcomes[i]).frame {
        Ok(_) => url_report(outcomes).successful.contains(without_path_marks(outcomes[i].timestamp)),
        Err(reason) => url_report(outcomes).failed.contains((outcomes[i].timestamp, reason)),
    } by {
        match outcomes[i].frame {
            Ok(_) => {
                lemma_filenames_tell(outcomes, i);
            },
            Err(reason) => {
                let failure = (outcomes[i].timestamp, reason);
                assert(failed.contains(failure));
                assert(failed.to_multiset().count(failure) > 0);
                assert(sorted.to_multiset().count(failure) > 0);
            },
        }
    }
}

/// When the file names differ and nothing is too large, a download holds one entry for
/// each frame, in order, and the report at the end.
pub proof fn law_download_holds_frames_and_report(outcomes: Seq<OutcomeView>)
    requires
        names_differ(extracted(outcomes)),
        sizes_fit(extracted(outcomes)),
        json_pretty(report_tree(download_report(outcomes))).len() <= MAX_ENTRY_BYTES,
    ensures
        download_entries(outcomes) == download_frames(extracted(outcomes)).push(
            (report_name(), json_pretty(report_tree(download_report(outcomes)))),
        ),
{
    law_different_frames_are_all_packed(extracted(outcomes));
}

/// An archive that answers a URL holds one entry for each frame, in order, and the
/// report at the end.
pub proof fn law_url_archive_holds_frames_and_report(outcomes: Seq<OutcomeView>)
    ensures
        url_entries(outcomes) matches Ok(entries) ==> entries == url_frames(extracted(outcomes)).push(
            (report_name(), json_pretty(report_tree(url_report(outcomes)))),
        ),
{
    law_url_archive_holds_every_frame(extracted(outcomes));
}

/// A timestamp with a colon is planned at itself, and one that is a number of seconds at a
/// position that reads as that many; each keeps its own text. One that is neither is
/// refused, and nothing is run for it.
pub proof fn law_plan_is_for_the_position_of_its_timestamp(timestamp: Seq<char>, refusal: Seq<char>)
    ensures
        timestamp.contains(':') ==> (planned(timestamp, refusal) matches PlanView::Run { timestamp: kept, command }
            && kept == timestamp && takes_one_frame(command, timestamp, 30)),
        !timestamp.contains(':') ==> match spelled_u32(timestamp) {
            Some(seconds) => planned(timestamp, refusal) matches PlanView::Run { timestamp: kept, command } && {
                let seek = command.arguments[1]->Text_0;
                kept == timestamp && takes_one_frame(command, seek, 30) && reads_as_seconds(seek, seconds as int)
            },
            None => planned(timestamp, refusal) == PlanView::Done(
                OutcomeView { timestamp, frame: Err(refusal) },
            ),
        },
{
    if !timestamp.contains(':') && spelled_u32(timestamp) is Some {
        law_clock_time_reads_as_its_seconds(spelled_u32(timestamp)->Some_0);
    }
}

/// A run that succeeds makes a frame of all that it wrote; any other makes a failure that
/// says what happened, with all the words there are.
pub proof fn law_frame_of_a_run_is_all_that_it_wrote(stdout: Seq<u8>, stderr: Seq<u8>, error: Seq<char>)
    ensures
        run_frame(RunView::Exited { success: true, stdout, stderr }) == Ok::<Seq<u8>, Seq<char>>(stdout),
        run_frame(RunView::Exited { success: false, stdout, stderr }) == Err::<Seq<u8>, Seq<char>>(
            "FFmpeg failed: "@ + lossy_text(stderr),
        ),
        run_frame(RunView::NotRun(error)) == Err::<Seq<u8>, Seq<char>>("FFmpeg execution failed: "@ + error),
        run_frame(RunView::TimedOut) == Err::<Seq<u8>, Seq<char>>("FFmpeg execution timed out"@),
{
}

/// Outcomes are collected part by part, in the order that they come in.
pub proof fn law_outcomes_are_collected_part_by_part(a: Seq<OutcomeView>, b: Seq<OutcomeView>)
    ensures
        extracted(a + b) == extracted(a) + extracted(b),
        not_extracted(a + b) == not_extracted(a) + not_extracted(b),
    decreases b.len(),
{
    if b.len() == 0 {
        reveal(Seq::filter);
        assert(a + b =~= a);
        assert(extracted(a) + extracted(b) =~= extracted(a));
        assert(not_extracted(a) + not_extracted(b) =~= not_extracted(a));
    } else {
        let shorter = b.drop_last();
        law_outcomes_are_collected_part_by_part(a, shorter);
        lemma_collect_push(a + shorter, b.last());
        lemma_collect_push(shorter, b.last());
        assert(a + b =~= (a + shorter).push(b.last()));
        assert(b =~= shorter.push(b.last()));
        assert(extracted(a + b) =~= extracted(a) + extracted(b));
        assert(not_extracted(a + b) =~= not_extracted(a) + not_extracted(b));
    }
}

/// One outcome is one frame, with all of its bytes under the file name of its timestamp,
/// or one failure, with its timestamp and its reason.
pub proof fn law_outcome_is_one_frame_or_one_failure(timestamp: Seq<char>, bytes: Seq<u8>, reason: Seq<char>)
    ensures
        extracted(seq![OutcomeView { timestamp, frame: Ok(bytes) }]) == seq![
            (without_path_marks(timestamp), bytes),
        ],
        not_extracted(seq![OutcomeView { timestamp, frame: Ok(bytes) }]).len() == 0,
        extracted(seq![OutcomeView { timestamp, frame: Err(reason) }]).len() == 0,
        not_extracted(seq![OutcomeView { timestamp, frame: Err(reason) }]) == seq![(timestamp, reason)],
{
    let none = Seq::<OutcomeView>::empty();
    let good = OutcomeView { timestamp, frame: Ok(bytes) };
    let bad = OutcomeView { timestamp, frame: Err(reason) };
    lemma_collect_push(none, good);
    lemma_collect_push(none, bad);
    assert(none.push(good) =~= seq![good] && none.push(bad) =~= seq![bad]);
    reveal(Seq::filter);
    assert(extracted(none) =~= Seq::empty() && not_extracted(none) =~= Seq::empty());
    assert(extracted(seq![good]) =~= seq![(without_path_marks(timestamp), bytes)]);
    assert(not_extracted(seq![bad]) =~= seq![(timestamp, reason)]);
}

/// A frame of a download comes after those before it, with all of its bytes, under its
/// file name between `frame_` and `.jpg`, unless that name is taken; it is listed then.
/// Only one beyond four gigabytes is listed without an entry.
pub proof fn law_frame_of_a_download_comes_after_the_others(
    frames: Seq<(Seq<char>, Seq<u8>)>,
    name: Seq<char>,
    bytes: Seq<u8>,
)
    ensures
        packed(Seq::empty()).entries.len() == 0,
        packed(Seq::empty()).listed.len() == 0,
        ({
            let before = packed(frames);
            let after = packed(frames.push((name, bytes)));
            let entry = "frame_"@ + name + ".jpg"@;
            if exists|i: int| 0 <= i < before.entries.len() && (#[trigger] before.entries[i]).0 == entry {
                after == before
            } else {
                &&& after.listed == before.listed.push(name)
                &&& after.entries == if bytes.len() <= 4294967295 {
                    before.entries.push((entry, bytes))
                } else {
                    before.entries
                }
            }
        }),
{
    assert(frames.push((name, bytes)).drop_last() =~= frames);
}

/// A frame of an archive that answers a URL comes after those before it, with all of its
/// bytes, under its file name before `.jpg`; one that cannot be packed ends the packing,
/// and the message says why.
pub proof fn law_frame_of_a_url_archive_comes_after_the_others(
    frames: Seq<(Seq<char>, Seq<u8>)>,
    name: Seq<char>,
    bytes: Seq<u8>,
)
    ensures
        packed_strictly(Seq::empty()) matches Ok(entries) && entries.len() == 0,
        match packed_strictly(frames) {
            Err(fault) => packed_strictly(frames.push((name, bytes))) == Err::<
                Seq<(Seq<char>, Seq<u8>)>,
                PackFaultView,
            >(fault),
            Ok(before) => {
                let entry = name + ".jpg"@;
                packed_strictly(frames.push((name, bytes))) == if encode_utf8(entry).len() > 65535 {
                    Err::<Seq<(Seq<char>, Seq<u8>)>, PackFaultView>(PackFaultView::NameTooLong)
                } else if exists|i: int| 0 <= i < before.len() && (#[trigger] before[i]).0 == entry {
                    Err(
                        PackFaultView::Message(
                            "ZIP write error: "@ + ("invalid Zip archive: Duplicate filename: "@ + entry),
                        ),
                    )
                } else if bytes.len() > 4294967295 {
                    Err(
                        PackFaultView::Message(
                            "ZIP data write error: "@ + "Large file option has not been set"@,
                        ),
                    )
                } else {
                    Ok(before.push((entry, bytes)))
                }
            },
        },
{
    assert(frames.push((name, bytes)).drop_last() =~= frames);
}

/// The report comes last in an archive, under its name and with all of its JSON text. The
/// report of a download lists what was packed and what failed, as it came in; that of an
/// archive that answers a URL lists every frame as it came in, and what failed in order.
pub proof fn law_report_comes_last(outcomes: Seq<OutcomeView>, i: int)
    ensures
        download_report(outcomes).successful == packed(extracted(outcomes)).listed,
        download_report(outcomes).failed == not_extracted(outcomes),
        ({
            let json = json_pretty(report_tree(download_report(outcomes)));
            let frames = packed(extracted(outcomes)).entries;
            download_entries(outcomes) == if json.len() <= 4294967295 {
                frames.push(("extraction_report.json"@, json))
            } else {
                frames
            }
        }),
        url_report(outcomes).successful.len() == extracted(outcomes).len(),
        0 <= i < extracted(outcomes).len() ==> url_report(outcomes).successful[i] == extracted(outcomes)[i].0,
        sorted_from(url_report(outcomes).failed, not_extracted(outcomes)),
        match packed_strictly(extracted(outcomes)) {
            Err(fault) => url_entries(outcomes) == Err::<Seq<(Seq<char>, Seq<u8>)>, PackFaultView>(fault),
            Ok(frames) => {
                let json = json_pretty(report_tree(url_report(outcomes)));
                url_entries(outcomes) == if json.len() <= 4294967295 {
                    Ok::<Seq<(Seq<char>, Seq<u8>)>, PackFaultView>(
                        frames.push(("extraction_report.json"@, json)),
                    )
                } else {
                    Err(
                        PackFaultView::Message(
                            "ZIP report write error: "@ + "Large file option has not been set"@,
                        ),
                    )
                }
            },
        },
{
    law_sorted_failures_are_the_failures(not_extracted(outcomes));
}

/// What is handed out is what the zip writer makes of the entries, each of the method that
/// stores a file as it is. A download is refused just if the name of some frame takes more
/// than 65535 bytes.
pub proof fn law_archive_is_made_of_its_entries(outcomes: Seq<OutcomeView>)
    ensures
        download_archive(outcomes) is None <==> exists|i: int|
            0 <= i < extracted(outcomes).len() && encode_utf8(
                "frame_"@ + (#[trigger] extracted(outcomes)[i]).0 + ".jpg"@,
            ).len() > 65535,
        download_archive(outcomes) is Some ==> download_archive(outcomes) == Some(
            zip_bytes(
                download_entries(outcomes),
                Seq::new(download_entries(outcomes).len(), |i: int| 0u16),
            ),
        ),
        match url_entries(outcomes) {
            Ok(entries) => url_archive(outcomes) == Ok::<Seq<u8>, PackFaultView>(
                zip_bytes(entries, Seq::new(entries.len(), |i: int| 0u16)),
            ),
            Err(fault) => url_archive(outcomes) == Err::<Seq<u8>, PackFaultView>(fault),
        },
{
    let frames = extracted(outcomes);
    if !all_names_fit(frames) {
        let i = choose|i: int| 0 <= i < frames.len() && too_long(download_name((#[trigger] frames[i]).0));
        assert(encode_utf8("frame_"@ + frames[i].0 + ".jpg"@).len() > 65535);
    }
    assert(stored_methods(download_entries(outcomes).len()) =~= Seq::new(
        download_entries(outcomes).len(),
        |i: int| 0u16,
    ));
    if url_entries(outcomes) is Ok {
        let entries = url_entries(outcomes)->Ok_0;
        assert(stored_methods(entries.len()) =~= Seq::new(entries.len(), |i: int| 0u16));
    }
}

/// What is stated of outcomes, plans and faults is stated of their own fields.
pub proof fn law_batches_are_seen_as_they_are(
    outcome: FrameOutcome,
    plan: FramePlan,
    fault: PackFault,
    outcomes: Seq<FrameOutcome>,
    plans: Seq<FramePlan>,
    i: int,
)
    ensures
        outcome@.timestamp == outcome.timestamp@,
        match outcome.frame {
            Ok(bytes) => outcome@.frame == Ok::<Seq<u8>, Seq<char>>(bytes@),
            Err(reason) => outcome@.frame == Err::<Seq<u8>, Seq<char>>(reason@),
        },
        match plan {
            FramePlan::Run { timestamp, command } => plan@ == (PlanView::Run {
                timestamp: timestamp@,
                command: command@,
            }),
            FramePlan::Done(outcome) => plan@ == PlanView::Done(outcome@),
        },
        match fault {
            PackFault::NameTooLong => fault@ == PackFaultView::NameTooLong,
            PackFault::Message(text) => fault@ == PackFaultView::Message(text@),
        },
        outcome_views(outcomes).len() == outcomes.len(),
        0 <= i < outcomes.len() ==> outcome_views(outcomes)[i] == outcomes[i]@,
        plan_views(plans).len() == plans.len(),
        0 <= i < plans.len() ==> plan_views(plans)[i] == plans[i]@,
{
}

} // verus!
