//! Opened archives and bounded reads of their entries.

use std::collections::BTreeMap;

use vstd::prelude::*;

use crate::archive::entries::{
    entry_views, unsafe_path, zip_entry, ArchiveEntryMetadata, ArchiveFormat, EntryKind, EntryView, ZipMember,
};
use crate::archive::error::ArchiveError;
use crate::archive::tar_index::{tar_entry, TarMember};
use crate::file_snapshot::{self, ensure_snapshot_fresh, snapshot_stale, FileFingerprint, Observation};
use crate::text::{self, contains_text};

verus! {

pub const MAX_READ_OFFSET: u64 = 67_108_864;

pub const MAX_READ_BYTES: usize = 1_048_576;

pub const IO_CHUNK_BYTES: usize = 65_536;

pub const MAX_PAGE_ENTRIES: usize = 10_000;

/// An archive whose members have been indexed.
pub struct ArchiveHandle {
    pub fingerprint: FileFingerprint,
    pub format: ArchiveFormat,
    pub entries: Vec<ArchiveEntryMetadata>,
    pub zip_patches: BTreeMap<u64, u8>,
    pub closed: bool,
}

/// How an attempt to open an archive failed.
#[derive(Clone, Copy, Debug, PartialEq, Eq, Structural)]
pub enum OpenFailure {
    Cancelled,
    Stale,
    Error,
}

/// How an error met while opening an archive is reported.
pub open spec fn open_failure_of(message: Seq<char>, cancelled: bool) -> OpenFailure {
    if cancelled || text::occurs_in(message, "operation cancelled"@) {
        OpenFailure::Cancelled
    } else if text::occurs_in(message, "changed"@) {
        OpenFailure::Stale
    } else {
        OpenFailure::Error
    }
}

/// How an error met while opening an archive is reported.
pub fn open_failure(message: &str, cancelled: bool) -> (out: OpenFailure)
    ensures
        out == open_failure_of(message@, cancelled),
{
    if cancelled || contains_text(message, "operation cancelled") {
        OpenFailure::Cancelled
    } else if contains_text(message, "changed") {
        OpenFailure::Stale
    } else {
        OpenFailure::Error
    }
}

/// Whether indexing may go on.
pub fn check_index_progress(fingerprint: &FileFingerprint, seen: &Observation, cancelled: bool) -> (out: Result<
    (),
    ArchiveError,
>)
    ensures
        out == (if cancelled {
            Err::<(), ArchiveError>(ArchiveError::Cancelled)
        } else if file_snapshot::stale(*fingerprint, *seen, false) {
            Err::<(), ArchiveError>(ArchiveError::Changed)
        } else {
            Ok::<(), ArchiveError>(())
        }),
{
    if cancelled {
        return Err(ArchiveError::Cancelled);
    }
    if snapshot_stale(fingerprint, seen, false) {
        return Err(ArchiveError::Changed);
    }
    Ok(())
}

/// Why an entry is not read.
#[derive(Clone, Copy, Debug, PartialEq, Eq, Structural)]
pub enum ReadRefusal {
    Cancelled,
    Stale,
    OffsetLimit,
    LengthLimit,
    IndexOutOfRange,
    Encrypted,
    MetadataOnly(EntryKind),
    OffsetPastEnd,
    RawPosition,
    EndedEarly,
    EntryGone,
    NotCompressedTar,
}

impl ReadRefusal {
    pub open spec fn text(self) -> Seq<char> {
        match self {
            ReadRefusal::Cancelled => "cancelled"@,
            ReadRefusal::Stale => "stale"@,
            ReadRefusal::OffsetLimit => "archive entry offsets are limited to 67108864 bytes"@,
            ReadRefusal::LengthLimit => "archive entry reads are limited to 1048576 bytes"@,
            ReadRefusal::IndexOutOfRange => "archive entry index is out of range"@,
            ReadRefusal::Encrypted => "encrypted archive entries are metadata-only"@,
            ReadRefusal::MetadataOnly(kind) => "archive "@ + kind.name() + " entries are metadata-only"@,
            ReadRefusal::OffsetPastEnd => "archive entry offset exceeds its uncompressed size"@,
            ReadRefusal::RawPosition => "invalid raw TAR entry position"@,
            ReadRefusal::EndedEarly => "archive entry ended before the requested offset"@,
            ReadRefusal::EntryGone => "archive entry index is no longer present"@,
            ReadRefusal::NotCompressedTar => "archive is not a compressed TAR"@,
        }
    }

    pub fn message(self) -> (out: String)
        ensures
            out@ == self.text(),
    {
        match self {
            ReadRefusal::Cancelled => "cancelled".to_owned(),
            ReadRefusal::Stale => "stale".to_owned(),
            ReadRefusal::OffsetLimit => "archive entry offsets are limited to 67108864 bytes".to_owned(),
            ReadRefusal::LengthLimit => "archive entry reads are limited to 1048576 bytes".to_owned(),
            ReadRefusal::IndexOutOfRange => "archive entry index is out of range".to_owned(),
            ReadRefusal::Encrypted => "encrypted archive entries are metadata-only".to_owned(),
            ReadRefusal::MetadataOnly(kind) => "archive ".to_owned().concat(kind.label()).concat(
                " entries are metadata-only",
            ),
            ReadRefusal::OffsetPastEnd => "archive entry offset exceeds its uncompressed size".to_owned(),
            ReadRefusal::RawPosition => "invalid raw TAR entry position".to_owned(),
            ReadRefusal::EndedEarly => "archive entry ended before the requested offset".to_owned(),
            ReadRefusal::EntryGone => "archive entry index is no longer present".to_owned(),
            ReadRefusal::NotCompressedTar => "archive is not a compressed TAR".to_owned(),
        }
    }
}

/// Where the bytes of an entry come from.
#[derive(Clone, Copy, Debug, PartialEq, Eq, Structural)]
pub enum ReadSource {
    /// The decompressed ZIP member of the entry's index.
    ZipMember,
    /// The archive file itself, from this position on.
    File { position: u64 },
    /// The member of the entry's index in the decompressed TAR stream.
    TarMember(ArchiveFormat),
}

/// A read that was accepted.
#[derive(Clone, Copy, Debug, PartialEq, Eq, Structural)]
pub struct ReadPlan {
    pub source: ReadSource,
    /// How many bytes of the source to skip.
    pub skip: u64,
    /// How many bytes to read then.
    pub wanted: usize,
    /// Whether bytes of the entry follow the ones read.
    pub truncated: bool,
}

/// What is read of an entry, from which `length` bytes from `offset` on are asked for.
pub open spec fn plan_for(
    format: ArchiveFormat,
    entries: Seq<EntryView>,
    index: int,
    offset: u64,
    length: usize,
) -> Result<ReadPlan, ReadRefusal> {
    if offset > MAX_READ_OFFSET {
        Err(ReadRefusal::OffsetLimit)
    } else if length > MAX_READ_BYTES {
        Err(ReadRefusal::LengthLimit)
    } else if index >= entries.len() {
        Err(ReadRefusal::IndexOutOfRange)
    } else if entries[index].encrypted {
        Err(ReadRefusal::Encrypted)
    } else if !entries[index].readable {
        Err(ReadRefusal::MetadataOnly(entries[index].kind))
    } else if offset > entries[index].size {
        Err(ReadRefusal::OffsetPastEnd)
    } else {
        let left = entries[index].size - offset;
        let wanted = if left < length {
            left as usize
        } else {
            length
        };
        let truncated = offset + wanted < entries[index].size;
        match format {
            ArchiveFormat::Zip | ArchiveFormat::Jar | ArchiveFormat::Wheel => Ok(
                ReadPlan { source: ReadSource::ZipMember, skip: offset, wanted, truncated },
            ),
            ArchiveFormat::Tar => match entries[index].raw_file_position {
                Some(position) if position + offset <= u64::MAX => Ok(
                    ReadPlan {
                        source: ReadSource::File { position: (position + offset) as u64 },
                        skip: 0,
                        wanted,
                        truncated,
                    },
                ),
                _ => Err(ReadRefusal::RawPosition),
            },
            _ => Ok(ReadPlan { source: ReadSource::TarMember(format), skip: offset, wanted, truncated }),
        }
    }
}

impl ArchiveHandle {
    /// A freshly opened archive.
    pub fn new(
        fingerprint: FileFingerprint,
        format: ArchiveFormat,
        entries: Vec<ArchiveEntryMetadata>,
        zip_patches: BTreeMap<u64, u8>,
    ) -> (out: ArchiveHandle)
        ensures
            out == (ArchiveHandle { fingerprint, format, entries, zip_patches, closed: false }),
    {
        ArchiveHandle { fingerprint, format, entries, zip_patches, closed: false }
    }

    /// Whether the archive is closed or no longer what was indexed.
    pub open spec fn is_stale(&self, seen: Observation) -> bool {
        file_snapshot::stale(self.fingerprint, seen, self.closed)
    }

    /// Closes the archive and says whether it was open.
    pub fn archive_close(&mut self) -> (out: bool)
        ensures
            *final(self) == (ArchiveHandle { closed: true, ..*old(self) }),
            out == !old(self).closed,
    {
        let was = self.closed;
        self.closed = true;
        !was
    }

    pub fn archive_closed(&self) -> (out: bool)
        ensures
            out == self.closed,
    {
        self.closed
    }

    pub fn archive_stale(&self, seen: &Observation) -> (out: bool)
        ensures
            out == self.is_stale(*seen),
    {
        snapshot_stale(&self.fingerprint, seen, self.closed)
    }

    pub fn archive_format(&self) -> (out: String)
        ensures
            out@ == self.format.name(),
    {
        self.format.label().to_owned()
    }

    pub fn archive_fingerprint(&self) -> (out: (String, u64))
        ensures
            out.0@ == self.fingerprint.identity_text(),
            out.1 == self.fingerprint.len,
    {
        (self.fingerprint.identity(), self.fingerprint.len)
    }

    pub fn archive_entry_count(&self) -> (out: usize)
        ensures
            out == self.entries@.len(),
    {
        self.entries.len()
    }

    /// Whether a read may go on.
    pub fn check_read_progress(&self, seen: &Observation, cancelled: bool) -> (out: Result<(), ReadRefusal>)
        ensures
            out == (if cancelled {
                Err::<(), ReadRefusal>(ReadRefusal::Cancelled)
            } else if self.is_stale(*seen) {
                Err::<(), ReadRefusal>(ReadRefusal::Stale)
            } else {
                Ok::<(), ReadRefusal>(())
            }),
    {
        if cancelled {
            return Err(ReadRefusal::Cancelled);
        }
        if self.archive_stale(seen) {
            return Err(ReadRefusal::Stale);
        }
        Ok(())
    }

    /// The first and the last index, exclusive, of a page of entries.
    pub fn archive_entries_page(&self, seen: &Observation, start: usize, count: usize) -> (out: Result<
        (usize, usize),
        String,
    >)
        ensures
            out is Ok <==> !self.is_stale(*seen) && count <= MAX_PAGE_ENTRIES && start <= self.entries@.len(),
            out matches Ok(page) ==> page.0 == start && page.1 == (if start + count < self.entries@.len() {
                start + count
            } else {
                self.entries@.len() as int
            }),
            out matches Err(text) ==> text@ == (if self.closed {
                "archive"@ + " handle is closed"@
            } else if self.is_stale(*seen) {
                "archive"@ + " file changed on disk; "@ + "refresh the archive explorer"@
            } else if count > MAX_PAGE_ENTRIES {
                "archive metadata pages are limited to 10000 entries"@
            } else {
                "archive metadata page starts past the entry count"@
            }),
    {
        ensure_snapshot_fresh(&self.fingerprint, seen, self.closed, "archive", "refresh the archive explorer")?;
        if count > MAX_PAGE_ENTRIES {
            return Err("archive metadata pages are limited to 10000 entries".to_owned());
        }
        if start > self.entries.len() {
            return Err("archive metadata page starts past the entry count".to_owned());
        }
        let end: usize = start.saturating_add(count);
        if end < self.entries.len() {
            Ok((start, end))
        } else {
            Ok((start, self.entries.len()))
        }
    }

    /// Decides whether and how `length` bytes from `offset` on are read of an entry.
    pub fn read_archive_entry(&self, index: usize, offset: u64, length: usize) -> (out: Result<ReadPlan, ReadRefusal>)
        ensures
            out == plan_for(self.format, entry_views(self.entries@), index as int, offset, length),
    {
        if offset > MAX_READ_OFFSET {
            return Err(ReadRefusal::OffsetLimit);
        }
        if length > MAX_READ_BYTES {
            return Err(ReadRefusal::LengthLimit);
        }
        if index >= self.entries.len() {
            return Err(ReadRefusal::IndexOutOfRange);
        }
        let entry = &self.entries[index];
        proof {
            assert(entry_views(self.entries@)[index as int] == entry@);
        }
        if entry.encrypted {
            return Err(ReadRefusal::Encrypted);
        }
        if !entry.readable {
            return Err(ReadRefusal::MetadataOnly(entry.kind));
        }
        if offset > entry.size {
            return Err(ReadRefusal::OffsetPastEnd);
        }
        let left: u64 = entry.size - offset;
        let wanted: usize = if left < length as u64 {
            left as usize
        } else {
            length
        };
        let truncated = offset + (wanted as u64) < entry.size;
        match self.format {
            ArchiveFormat::Zip | ArchiveFormat::Jar | ArchiveFormat::Wheel => Ok(
                ReadPlan { source: ReadSource::ZipMember, skip: offset, wanted, truncated },
            ),
            ArchiveFormat::Tar => match entry.raw_file_position {
                Some(position) => match position.checked_add(offset) {
                    Some(position) => Ok(
                        ReadPlan { source: ReadSource::File { position }, skip: 0, wanted, truncated },
                    ),
                    None => Err(ReadRefusal::RawPosition),
                },
                None => Err(ReadRefusal::RawPosition),
            },
            _ => Ok(ReadPlan { source: ReadSource::TarMember(self.format), skip: offset, wanted, truncated }),
        }
    }
}

/// A read of a range of a stream, chunk by chunk.
pub struct RangeRead {
    offset: u64,
    wanted: usize,
    skipped: u64,
    result: Vec<u8>,
    ended: bool,
}

impl RangeRead {
    pub closed spec fn wf(&self) -> bool {
        &&& self.skipped <= self.offset
        &&& self.result@.len() <= self.wanted
        &&& self.skipped < self.offset ==> self.result@.len() == 0
    }

    /// The offset of the range in the stream.
    pub closed spec fn first(&self) -> int {
        self.offset as int
    }

    /// The length of the range.
    pub closed spec fn length(&self) -> int {
        self.wanted as int
    }

    /// How many bytes of the stream were taken.
    pub closed spec fn taken(&self) -> int {
        self.skipped + self.result@.len()
    }

    /// The bytes of the range read so far.
    pub closed spec fn read(&self) -> Seq<u8> {
        self.result@
    }

    /// Whether the stream was found to end.
    pub closed spec fn at_end(&self) -> bool {
        self.ended
    }

    /// Whether nothing is left to read.
    pub open spec fn done(&self) -> bool {
        self.taken() >= self.first() && (self.at_end() || self.read().len() == self.length())
    }

    pub fn new(offset: u64, wanted: usize) -> (out: RangeRead)
        ensures
            out.wf(),
            out.first() == offset,
            out.length() == wanted,
            out.taken() == 0,
            out.read() == Seq::<u8>::empty(),
            !out.at_end(),
    {
        RangeRead { offset, wanted, skipped: 0, result: Vec::new(), ended: false }
    }

    /// How many bytes to read next from the stream, at most; `None` when the
    /// range is complete.
    pub fn amount(&self) -> (out: Option<usize>)
        requires
            self.wf(),
        ensures
            out is None <==> self.done(),
            out matches Some(amount) ==> 0 < amount <= IO_CHUNK_BYTES && amount == (if self.taken() < self.first() {
                if self.first() - self.taken() < IO_CHUNK_BYTES {
                    self.first() - self.taken()
                } else {
                    IO_CHUNK_BYTES as int
                }
            } else if self.length() - self.read().len() < IO_CHUNK_BYTES {
                self.length() - self.read().len()
            } else {
                IO_CHUNK_BYTES as int
            }),
    {
        if self.skipped < self.offset {
            let left: u64 = self.offset - self.skipped;
            return if left < IO_CHUNK_BYTES as u64 {
                Some(left as usize)
            } else {
                Some(IO_CHUNK_BYTES)
            };
        }
        if self.ended || self.result.len() == self.wanted {
            return None;
        }
        let left: usize = self.wanted - self.result.len();
        if left < IO_CHUNK_BYTES {
            Some(left)
        } else {
            Some(IO_CHUNK_BYTES)
        }
    }

    /// Takes the bytes that the stream gave; none of them means that it ended.
    pub fn supply(&mut self, bytes: &[u8]) -> (out: Result<(), ReadRefusal>)
        requires
            old(self).wf(),
            !old(self).done(),
            old(self).taken() < old(self).first() ==> old(self).taken() + bytes.len() <= old(self).first(),
            old(self).taken() >= old(self).first() ==> old(self).read().len() + bytes.len() <= old(self).length(),
        ensures
            final(self).wf(),
            final(self).first() == old(self).first(),
            final(self).length() == old(self).length(),
            final(self).taken() == old(self).taken() + bytes.len(),
            final(self).read() == (if old(self).taken() < old(self).first() {
                old(self).read()
            } else {
                old(self).read() + bytes@
            }),
            old(self).taken() < old(self).first() ==> final(self).at_end() == old(self).at_end(),
            old(self).taken() >= old(self).first() ==> final(self).at_end() == (bytes.len() == 0),
            out == (if old(self).taken() < old(self).first() && bytes.len() == 0 {
                Err::<(), ReadRefusal>(ReadRefusal::EndedEarly)
            } else {
                Ok::<(), ReadRefusal>(())
            }),
    {
        if self.skipped < self.offset {
            if bytes.len() == 0 {
                return Err(ReadRefusal::EndedEarly);
            }
            self.skipped = self.skipped + bytes.len() as u64;
            return Ok(());
        }
        if bytes.len() == 0 {
            self.ended = true;
            proof {
                assert(self.result@ + bytes@ =~= self.result@);
            }
            return Ok(());
        }
        let ghost before = self.result@;
        let mut i: usize = 0;
        while i < bytes.len()
            invariant
                i <= bytes.len(),
                self.offset == old(self).offset,
                self.wanted == old(self).wanted,
                self.skipped == old(self).skipped,
                self.ended == old(self).ended,
                before == old(self).result@,
                self.result@ == before + bytes@.subrange(0, i as int),
            decreases bytes.len() - i,
        {
            self.result.push(bytes[i]);
            i += 1;
            proof {
                assert(self.result@ =~= before + bytes@.subrange(0, i as int));
            }
        }
        proof {
            assert(bytes@.subrange(0, bytes@.len() as int) =~= bytes@);
        }
        Ok(())
    }

    /// The bytes that were read.
    pub fn finish(self) -> (out: Vec<u8>)
        ensures
            out@ == self.read(),
    {
        self.result
    }
}

/// The bytes of a range of a stream, as far as the stream goes.
pub open spec fn range_of(stream: Seq<u8>, offset: int, wanted: int) -> Seq<u8> {
    if offset + wanted <= stream.len() {
        stream.subrange(offset, offset + wanted)
    } else {
        stream.subrange(offset, stream.len() as int)
    }
}

/// Reads a range of a stream that is held in memory.
pub fn read_stream_range(stream: &[u8], offset: u64, wanted: usize) -> (out: Result<Vec<u8>, ReadRefusal>)
    ensures
        offset <= stream.len() ==> out is Ok && out->Ok_0@ == range_of(stream@, offset as int, wanted as int),
        offset > stream.len() ==> out == Err::<Vec<u8>, ReadRefusal>(ReadRefusal::EndedEarly),
{
    let mut range = RangeRead::new(offset, wanted);
    let mut position: usize = 0;
    loop
        invariant
            range.wf(),
            range.first() == offset,
            range.length() == wanted,
            range.taken() == position,
            position <= stream.len(),
            range.at_end() ==> position == stream.len() && position >= offset,
            position < offset ==> range.read() == Seq::<u8>::empty(),
            position >= offset ==> range.read() == stream@.subrange(offset as int, position as int),
        decreases stream.len() - position + (if range.at_end() { 0int } else { 1int }),
    {
        match range.amount() {
            None => {
                return Ok(range.finish());
            },
            Some(amount) => {
                let end: usize = if stream.len() - position < amount {
                    stream.len()
                } else {
                    position + amount
                };
                let chunk = vstd::slice::slice_subrange(stream, position, end);
                range.supply(chunk)?;
                proof {
                    if position >= offset {
                        assert(stream@.subrange(offset as int, position as int) + chunk@ =~= stream@.subrange(
                            offset as int,
                            end as int,
                        ));
                    } else if end == offset {
                        assert(stream@.subrange(offset as int, offset as int) =~= Seq::<u8>::empty());
                    }
                }
                position = end;
            },
        }
    }
}

/// Members with a hostile path and encrypted members are listed, never read.
pub proof fn law_hostile_zip_members_are_not_read(
    format: ArchiveFormat,
    entries: Seq<EntryView>,
    index: int,
    name: Seq<u8>,
    member: ZipMember,
    offset: u64,
    length: usize,
)
    requires
        0 <= index < entries.len(),
        zip_entry(index as nat, name, member) == Ok::<EntryView, ArchiveError>(entries[index]),
        unsafe_path(name) || member.encrypted,
    ensures
        plan_for(format, entries, index, offset, length) is Err,
{
}

/// Members with a hostile path, links and special members are listed, never read.
pub proof fn law_hostile_tar_members_are_not_read(
    format: ArchiveFormat,
    entries: Seq<EntryView>,
    index: int,
    member: TarMember,
    offset: u64,
    length: usize,
)
    requires
        0 <= index < entries.len(),
        tar_entry(index as nat, format, member) == Ok::<EntryView, ArchiveError>(entries[index]),
        unsafe_path(member.path@) || !(member.entry_type.kind() is File),
    ensures
        plan_for(format, entries, index, offset, length) is Err,
{
}

/// A read never asks for bytes outside the entry, nor for more than the limits.
pub proof fn law_reads_are_bounded(
    format: ArchiveFormat,
    entries: Seq<EntryView>,
    index: int,
    offset: u64,
    length: usize,
)
    requires
        0 <= index,
        plan_for(format, entries, index, offset, length) is Ok,
    ensures
        plan_for(format, entries, index, offset, length)->Ok_0.wanted <= length <= MAX_READ_BYTES,
        offset <= MAX_READ_OFFSET,
        offset + plan_for(format, entries, index, offset, length)->Ok_0.wanted <= entries[index].size,
        plan_for(format, entries, index, offset, length)->Ok_0.truncated <==> offset
            + plan_for(format, entries, index, offset, length)->Ok_0.wanted < entries[index].size,
{
}

} // verus!
