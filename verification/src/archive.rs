//! ZIP archives in memory, written by the `zip` crate.
use std::io::Write;
use vstd::prelude::*;
use vstd::utf8::encode_utf8;

verus! {

/// The longest name that an entry may have, in bytes.
pub const MAX_NAME_BYTES: usize = 65535;

/// The largest file that an entry may hold, in bytes.
pub const MAX_ENTRY_BYTES: u64 = 4294967295;

/// An archive that is being written: a `zip::ZipWriter` over a buffer in memory.
#[verifier::external_body]
pub struct ArchiveWriter {
    writer: zip::ZipWriter<std::io::Cursor<Vec<u8>>>,
}

/// The entries that an archive holds so far, in order, each with its name and its
/// contents.
pub uninterp spec fn archive_entries(archive: ArchiveWriter) -> Seq<(Seq<char>, Seq<u8>)>;

/// The compression method of each entry that an archive holds so far, in order, by its
/// number in the ZIP format.
pub uninterp spec fn archive_methods(archive: ArchiveWriter) -> Seq<u16>;

/// Whether the last entry of an archive can still be written to.
pub uninterp spec fn entry_is_open(archive: ArchiveWriter) -> bool;

/// The names and contents that `zip::ZipArchive` reads from the bytes of an
/// archive, in the order of its directory.
pub uninterp spec fn zip_contents(archive: Seq<u8>) -> Seq<(Seq<char>, Seq<u8>)>;

/// The compression methods that `zip::ZipArchive` reads for the entries of an archive,
/// in the order of its directory.
pub uninterp spec fn zip_methods(archive: Seq<u8>) -> Seq<u16>;

/// The number of the method that stores a file as it is.
pub const STORED: u16 = 0;

/// The bytes that `zip::ZipWriter::finish` gives for an archive with these entries and
/// methods.
pub uninterp spec fn zip_bytes(entries: Seq<(Seq<char>, Seq<u8>)>, methods: Seq<u16>) -> Seq<u8>;

/// The methods of entries that are all stored as they are.
pub open spec fn stored_methods(count: nat) -> Seq<u16> {
    Seq::new(count, |i: int| STORED)
}

/// The archive that holds these entries, each stored as it is.
pub open spec fn archive_of(entries: Seq<(Seq<char>, Seq<u8>)>) -> Seq<u8> {
    zip_bytes(entries, stored_methods(entries.len()))
}

/// Whether bytes read back as an archive with just these entries, each stored as it is.
pub open spec fn is_archive_of(archive: Seq<u8>, entries: Seq<(Seq<char>, Seq<u8>)>) -> bool {
    &&& zip_contents(archive) == entries
    &&& zip_methods(archive) == stored_methods(entries.len())
}

/// Whether there is an entry of this name.
pub open spec fn has_entry(entries: Seq<(Seq<char>, Seq<u8>)>, name: Seq<char>) -> bool {
    exists|i: int| 0 <= i < entries.len() && (#[trigger] entries[i]).0 == name
}

/// The bytes that a header takes for the offset of an entry that starts this far into an
/// archive: none, unless the offset is too large for the header itself.
pub open spec fn offset_field(start: nat) -> nat {
    if start >= MAX_ENTRY_BYTES {
        12
    } else {
        0
    }
}

/// How far into an archive its directory starts, and so would another entry: each entry
/// takes a header, its name and its contents.
pub open spec fn directory_start(entries: Seq<(Seq<char>, Seq<u8>)>) -> nat
    decreases entries.len(),
{
    if entries.len() == 0 {
        0
    } else {
        let start = directory_start(entries.drop_last());
        start + 30 + encode_utf8(entries.last().0).len() + offset_field(start) + entries.last().1.len()
    }
}

/// The bytes that the directory of an archive takes.
pub open spec fn directory_size(entries: Seq<(Seq<char>, Seq<u8>)>) -> nat
    decreases entries.len(),
{
    if entries.len() == 0 {
        0
    } else {
        let before = entries.drop_last();
        directory_size(before) + 46 + encode_utf8(entries.last().0).len() + offset_field(
            directory_start(before),
        )
    }
}

/// Whether an archive ends with the footer for large archives: there are too many
/// entries, or its directory starts too far in or takes too much.
pub open spec fn has_large_footer(entries: Seq<(Seq<char>, Seq<u8>)>) -> bool {
    entries.len() > 65535 || directory_start(entries) > MAX_ENTRY_BYTES || directory_size(entries)
        > MAX_ENTRY_BYTES
}

/// Whether a directory that ends with this name does not look like the footer for large
/// archives: the name is as long as the part of the footer that stands last, and has no
/// byte 7, with which the signature of that part ends.
pub open spec fn is_plain_end(name: Seq<char>) -> bool {
    encode_utf8(name).len() >= 20 && forall|k: int|
        0 <= k < encode_utf8(name).len() ==> #[trigger] encode_utf8(name)[k] != 7
}

/// Whether `zip::ZipArchive` reads an archive with these entries as it was written. An
/// entry of the largest size that starts beyond the largest plain offset is misread: its
/// offset is taken for its size. Where an archive without the footer for large archives
/// has the count or the offset that stands for one, the name of its last entry must not
/// look like that footer.
pub open spec fn is_readable(entries: Seq<(Seq<char>, Seq<u8>)>) -> bool {
    &&& forall|i: int|
        0 <= i < entries.len() && (#[trigger] entries[i]).1.len() == MAX_ENTRY_BYTES ==> directory_start(
            entries.take(i),
        ) < MAX_ENTRY_BYTES
    &&& (entries.len() == 65535 || directory_start(entries) == MAX_ENTRY_BYTES) && !has_large_footer(entries)
        ==> is_plain_end(entries.last().0)
}

/// Whether the archive of these entries reads back as them, if it can be read as it was
/// written.
pub open spec fn reads_back(entries: Seq<(Seq<char>, Seq<u8>)>) -> bool {
    is_readable(entries) ==> is_archive_of(archive_of(entries), entries)
}

/// Calls `zip::ZipWriter::new` on an empty buffer: an archive without entries.
#[verifier::external_body]
pub(crate) fn new_archive() -> (archive: ArchiveWriter)
    ensures
        archive_entries(archive) == Seq::<(Seq<char>, Seq<u8>)>::empty(),
        archive_methods(archive) == Seq::<u16>::empty(),
        !entry_is_open(archive),
{
    ArchiveWriter { writer: zip::ZipWriter::new(std::io::Cursor::new(Vec::new())) }
}

/// Calls `zip::ZipWriter::start_file` for a file of this compression method. It starts an
/// empty entry at the end; a name that is taken is refused, in the words of the error, and
/// no entry is open then. A name that is too long would panic, and of the methods only the
/// one that stores a file as it is can be had.
#[verifier::external_body]
#[allow(deprecated)]
pub(crate) fn start_entry(archive: &mut ArchiveWriter, name: &str, method: u16) -> (started: Result<(), String>)
    requires
        encode_utf8(name@).len() <= MAX_NAME_BYTES,
        method == STORED,
    ensures
        match started {
            Ok(_) => {
                &&& !has_entry(archive_entries(*old(archive)), name@)
                &&& archive_entries(*final(archive)) == archive_entries(*old(archive)).push(
                    (name@, Seq::<u8>::empty()),
                )
                &&& archive_methods(*final(archive)) == archive_methods(*old(archive)).push(method)
                &&& entry_is_open(*final(archive))
            },
            Err(message) => {
                &&& has_entry(archive_entries(*old(archive)), name@)
                &&& message@ == "invalid Zip archive: Duplicate filename: "@ + name@
                &&& archive_entries(*final(archive)) == archive_entries(*old(archive))
                &&& archive_methods(*final(archive)) == archive_methods(*old(archive))
                &&& !entry_is_open(*final(archive))
            },
        },
{
    let method = zip::CompressionMethod::from_u16(method);
    let options = zip::write::SimpleFileOptions::default().compression_method(method);
    archive.writer.start_file(name, options).map_err(|e| e.to_string())
}

/// Calls `write_all` of `zip::ZipWriter` on the open entry, which gets the bytes at its
/// end. The call cannot fail on a buffer in memory as long as the entry does not become
/// too large.
#[verifier::external_body]
pub(crate) fn write_entry(archive: &mut ArchiveWriter, bytes: &[u8]) -> (written: Result<(), String>)
    requires
        entry_is_open(*old(archive)),
        archive_entries(*old(archive)).len() > 0,
        archive_entries(*old(archive)).last().1.len() + bytes@.len() <= MAX_ENTRY_BYTES,
    ensures
        written is Ok,
        archive_entries(*final(archive)) == archive_entries(*old(archive)).drop_last().push(
            (
                archive_entries(*old(archive)).last().0,
                archive_entries(*old(archive)).last().1 + bytes@,
            ),
        ),
        archive_methods(*final(archive)) == archive_methods(*old(archive)),
        entry_is_open(*final(archive)),
{
    archive.writer.write_all(bytes).map_err(|e| e.to_string())
}

/// Calls `zip::ZipWriter::finish`, which cannot fail on a buffer in memory. The bytes
/// depend on the entries and their methods alone; without the crate feature `time` the
/// date in them is a fixed one. `zip::ZipArchive` reads the same entries and methods back
/// wherever it can read the archive as it was written.
#[verifier::external_body]
pub(crate) fn finish_archive(archive: ArchiveWriter) -> (finished: Result<Vec<u8>, String>)
    ensures
        finished is Ok,
        finished->Ok_0@ == zip_bytes(archive_entries(archive), archive_methods(archive)),
        is_readable(archive_entries(archive)) ==> zip_contents(finished->Ok_0@) == archive_entries(archive),
        is_readable(archive_entries(archive)) ==> zip_methods(finished->Ok_0@) == archive_methods(archive),
{
    archive.writer.finish().map(|buffer| buffer.into_inner()).map_err(|e| e.to_string())
}

} // verus!
