//! What archive indexes and reads promise, in terms of bytes and members.

use vstd::prelude::*;

use super::entries::{budgeted, metadata_weight, total_weight, unsafe_path, ArchiveFormat, EntryKind, EntryView};
use super::error::ArchiveError;
use super::read::{plan_for, range_of, ReadPlan, ReadRefusal, ReadSource};
use super::tar_index::{container, law_tar_index_keeps_every_member, tar_entries, tar_entry, Container, TarEntryType, TarMember};
use super::zip_directory::{
    end_record, end_record_location, last_signature, le16, le32, le64, locator_offset, name_spans, patched, record_error, scan_at,
    scanned, zip64_location, DirectoryLocation, DirectoryScan,
};
use crate::text::{decimal_text, lossy_text};

verus! {

broadcast use vstd::string::group_string_axioms;

/// A read of a file that is neither encrypted nor only listed starts at its
/// offset and takes all that was asked for, or all that is left.
pub proof fn law_reads_take_what_is_asked_for(
    format: ArchiveFormat,
    entries: Seq<EntryView>,
    index: int,
    offset: u64,
    length: usize,
)
    requires
        0 <= index < entries.len(),
        plan_for(format, entries, index, offset, length) is Ok,
    ensures
        ({
            let plan = plan_for(format, entries, index, offset, length)->Ok_0;
            let entry = entries[index];
            &&& !entry.encrypted && entry.readable
            &&& plan.wanted == length || plan.wanted < length && offset + plan.wanted == entry.size
            &&& plan.truncated <==> offset + plan.wanted < entry.size
            &&& match plan.source {
                ReadSource::ZipMember => format is Zip || format is Jar || format is Wheel,
                ReadSource::File { position } => format is Tar && entry.raw_file_position is Some && position
                    == entry.raw_file_position->0 + offset,
                ReadSource::TarMember(inner) => inner == format && !(format is Tar || format is Zip || format is Jar || format is Wheel),
            }
            &&& plan.skip == (if plan.source is File { 0u64 } else { offset })
        }),
{
}

/// A read is refused only for a reason: an offset or a length over the limits,
/// no entry of that index, an encrypted entry, one that is only listed, an
/// offset past its end, or, in a plain archive, no place in the file.
pub proof fn law_reads_are_refused_for_a_reason(
    format: ArchiveFormat,
    entries: Seq<EntryView>,
    index: int,
    offset: u64,
    length: usize,
)
    requires
        0 <= index,
    ensures
        plan_for(format, entries, index, offset, length) is Ok <==> {
            &&& offset <= 67_108_864
            &&& length <= 1_048_576
            &&& index < entries.len()
            &&& !entries[index].encrypted
            &&& entries[index].readable
            &&& offset <= entries[index].size
            &&& format is Tar ==> entries[index].raw_file_position is Some && entries[index].raw_file_position->0 + offset <= u64::MAX
        },
        offset > 67_108_864 ==> plan_for(format, entries, index, offset, length) == Err::<ReadPlan, ReadRefusal>(
            ReadRefusal::OffsetLimit,
        ),
        offset <= 67_108_864 && length > 1_048_576 ==> plan_for(format, entries, index, offset, length) == Err::<
            ReadPlan,
            ReadRefusal,
        >(ReadRefusal::LengthLimit),
        offset <= 67_108_864 && length <= 1_048_576 && index < entries.len() && entries[index].encrypted ==> plan_for(
            format,
            entries,
            index,
            offset,
            length,
        ) == Err::<ReadPlan, ReadRefusal>(ReadRefusal::Encrypted),
{
}

/// What two reads in a row give is what one read of both lengths gives.
pub proof fn law_reads_in_a_row_join(stream: Seq<u8>, offset: int, first: int, second: int)
    requires
        0 <= offset,
        0 <= first,
        0 <= second,
        offset + first <= stream.len(),
    ensures
        range_of(stream, offset, first) + range_of(stream, offset + first, second) == range_of(stream, offset, first + second),
        range_of(stream, offset, first).len() == first,
        forall|i: int| 0 <= i < first ==> #[trigger] range_of(stream, offset, first)[i] == stream[offset + i],
{
    assert(range_of(stream, offset, first) + range_of(stream, offset + first, second) =~= range_of(stream, offset, first + second));
}

/// An entry says of its member what its header says: the size, the mode, the
/// time, the target of its link, and in a plain archive its place in the file.
/// It can be read exactly where it is a file with a safe path.
pub proof fn law_tar_entries_say_what_the_header_says(index: nat, format: ArchiveFormat, member: TarMember)
    requires
        tar_entry(index, format, member) is Ok,
    ensures
        ({
            let entry = tar_entry(index, format, member)->Ok_0;
            &&& entry.index == index
            &&& entry.size == member.size
            &&& entry.compressed_size is None
            &&& entry.mode == member.mode
            &&& !entry.encrypted
            &&& entry.display_path == lossy_text(member.path@)
            &&& entry.link_target is Some <==> member.link_name is Some
            &&& member.link_name matches Some(name) ==> entry.link_target == Some(lossy_text(name@))
            &&& entry.timestamp is Some <==> member.mtime is Some
            &&& member.mtime matches Some(time) ==> entry.timestamp == Some(decimal_text(time as nat))
            &&& format is Tar ==> entry.raw_file_position == Some(member.raw_file_position) && entry.compression == "tar"@
            &&& format is TarGzip ==> entry.raw_file_position is None && entry.compression == "tar-gzip"@
            &&& format is TarBzip2 ==> entry.raw_file_position is None && entry.compression == "tar-bzip2"@
            &&& format is TarXz ==> entry.raw_file_position is None && entry.compression == "tar-xz"@
            &&& format is TarZstd ==> entry.raw_file_position is None && entry.compression == "tar-zstd"@
            &&& unsafe_path(member.path@) <==> entry.kind == EntryKind::UnsafePath
            &&& entry.readable <==> entry.kind == EntryKind::File
            &&& !unsafe_path(member.path@) ==> match member.entry_type {
                TarEntryType::Regular | TarEntryType::Contiguous => entry.kind == EntryKind::File,
                TarEntryType::Directory => entry.kind == EntryKind::Directory,
                TarEntryType::Symlink => entry.kind == EntryKind::Symlink,
                TarEntryType::HardLink => entry.kind == EntryKind::HardLink,
                TarEntryType::GnuSparse => entry.kind == EntryKind::Sparse,
                TarEntryType::Other => entry.kind == EntryKind::Special,
            }
        }),
{
}

/// A member becomes an entry exactly where the index has room for it and its
/// path and the name of its link fit into 32768 bytes.
pub proof fn law_tar_members_are_refused_only_for_size(index: nat, format: ArchiveFormat, member: TarMember)
    ensures
        tar_entry(index, format, member) is Ok <==> index < 100_000 && member.path@.len() <= 32_768 && (member.link_name is Some
            ==> member.link_name->0@.len() <= 32_768),
        tar_entry(index, format, member) == Err::<EntryView, ArchiveError>(ArchiveError::TooManyEntries) <==> index >= 100_000,
{
}

/// Entry `i` of a TAR index has the size of member `i`.
pub proof fn law_a_tar_index_has_the_sizes_of_its_members(format: ArchiveFormat, members: Seq<TarMember>, i: int)
    requires
        tar_entries(format, members, Seq::empty()) is Ok,
        0 <= i < members.len(),
    ensures
        ({
            let entries = tar_entries(format, members, Seq::empty())->Ok_0;
            &&& entries.len() == members.len() <= 100_000
            &&& entries[i].index == i
            &&& entries[i].size == members[i].size
            &&& entries[i].display_path == lossy_text(members[i].path@)
        }),
{
    law_tar_index_keeps_every_member(format, members, Seq::empty());
    let entries = tar_entries(format, members, Seq::empty())->Ok_0;
    assert(tar_entry(i as nat, format, members[i]) == Ok::<EntryView, ArchiveError>(entries[i]));
    let last = members.len() - 1;
    assert(tar_entry(last as nat, format, members[last]) == Ok::<EntryView, ArchiveError>(entries[last]));
}

/// How a file is indexed is told by its first bytes alone.
pub proof fn law_archives_are_told_by_their_first_bytes(prefix: Seq<u8>)
    requires
        prefix.len() >= 8,
    ensures
        ({
            let pk = prefix[0] == 0x50 && prefix[1] == 0x4b;
            let zip = pk && (prefix[2] == 3 && prefix[3] == 4 || prefix[2] == 5 && prefix[3] == 6 || prefix[2] == 6 && prefix[3] == 6);
            let split = pk && prefix[2] == 7 && prefix[3] == 8;
            let gzip = prefix[0] == 0x1f && prefix[1] == 0x8b;
            let bzip2 = prefix[0] == 0x42 && prefix[1] == 0x5a && prefix[2] == 0x68;
            let xz = prefix[0] == 0xfd && prefix[1] == 0x37 && prefix[2] == 0x7a && prefix[3] == 0x58 && prefix[4] == 0x5a && prefix[5] == 0;
            let zstd = prefix[0] == 0x28 && prefix[1] == 0xb5 && prefix[2] == 0x2f && prefix[3] == 0xfd;
            &&& zip <==> container(prefix) == Ok::<Container, ArchiveError>(Container::Zip)
            &&& split <==> container(prefix) == Err::<Container, ArchiveError>(ArchiveError::MultiDisk)
            &&& split <==> container(prefix) is Err
            &&& gzip <==> container(prefix) == Ok::<Container, ArchiveError>(Container::Tar(ArchiveFormat::TarGzip))
            &&& bzip2 <==> container(prefix) == Ok::<Container, ArchiveError>(Container::Tar(ArchiveFormat::TarBzip2))
            &&& xz <==> container(prefix) == Ok::<Container, ArchiveError>(Container::Tar(ArchiveFormat::TarXz))
            &&& zstd <==> container(prefix) == Ok::<Container, ArchiveError>(Container::Tar(ArchiveFormat::TarZstd))
        }),
{
    lemma_starts(prefix, seq![0x50u8, 0x4b, 3, 4]);
    lemma_starts(prefix, seq![0x50u8, 0x4b, 5, 6]);
    lemma_starts(prefix, seq![0x50u8, 0x4b, 6, 6]);
    lemma_starts(prefix, seq![0x50u8, 0x4b, 7, 8]);
    lemma_starts(prefix, seq![0x1fu8, 0x8b]);
    lemma_starts(prefix, seq![0x42u8, 0x5a, 0x68]);
    lemma_starts(prefix, seq![0xfdu8, 0x37, 0x7a, 0x58, 0x5a, 0]);
    lemma_starts(prefix, seq![0x28u8, 0xb5, 0x2f, 0xfd]);
}

proof fn lemma_starts(bytes: Seq<u8>, with: Seq<u8>)
    requires
        with.len() <= bytes.len(),
    ensures
        super::tar_index::starts(bytes, with) <==> forall|i: int| 0 <= i < with.len() ==> bytes[i] == #[trigger] with[i],
{
    let start = bytes.subrange(0, with.len() as int);
    if forall|i: int| 0 <= i < with.len() ==> bytes[i] == #[trigger] with[i] {
        assert(start =~= with);
    } else {
        let i = choose|i: int| 0 <= i < with.len() && bytes[i] != #[trigger] with[i];
        assert(start[i] != with[i]);
    }
}

proof fn lemma_last_signature(bytes: Seq<u8>, signature: u32, from: int)
    ensures
        match last_signature(bytes, signature, from) {
            Some(at) => 0 <= at <= from && le32(bytes, at) == signature && forall|k: int|
                at < k <= from ==> #[trigger] le32(bytes, k) != signature,
            None => forall|k: int| 0 <= k <= from ==> #[trigger] le32(bytes, k) != signature,
        },
    decreases from + 1,
{
    if from >= 0 && le32(bytes, from) != signature {
        lemma_last_signature(bytes, signature, from - 1);
    }
}

/// The numbers of a directory are written with the lowest byte first.
pub proof fn law_numbers_have_the_lowest_byte_first(bytes: Seq<u8>, at: int)
    ensures
        le16(bytes, at) == bytes[at] + 256 * bytes[at + 1],
        le32(bytes, at) == bytes[at] + 256 * bytes[at + 1] + 65_536 * bytes[at + 2] + 16_777_216 * bytes[at + 3],
        le64(bytes, at) == le32(bytes, at) + 4_294_967_296 * le32(bytes, at + 4),
{
}

/// The end record is the last place that holds its four marking bytes, and its
/// comment fills the file behind it.
pub proof fn law_the_end_record_is_the_last_one(tail: Seq<u8>)
    requires
        end_record(tail) is Ok,
    ensures
        ({
            let at = end_record(tail)->Ok_0;
            &&& 0 <= at && at + 22 <= tail.len()
            &&& tail[at] == 0x50 && tail[at + 1] == 0x4b && tail[at + 2] == 5 && tail[at + 3] == 6
            &&& at + 22 + tail[at + 20] + 256 * tail[at + 21] == tail.len()
            &&& forall|k: int|
                at < k && k + 4 <= tail.len() ==> #[trigger] le32(tail, k) != le32(tail, at)
        }),
{
    lemma_last_signature(tail, super::zip_directory::END_SIGNATURE, tail.len() - 4);
    let at = end_record(tail)->Ok_0;
    lemma_four_bytes(tail, at, 0x50, 0x4b, 5, 6);
}

proof fn lemma_four_bytes(bytes: Seq<u8>, at: int, a: u8, b: u8, c: u8, d: u8)
    requires
        le32(bytes, at) == a + 256 * b + 65_536 * c + 16_777_216 * d,
    ensures
        bytes[at] == a && bytes[at + 1] == b && bytes[at + 2] == c && bytes[at + 3] == d,
{
    let low = bytes[at] + 256 * bytes[at + 1];
    let high = bytes[at + 2] + 256 * bytes[at + 3];
    lemma_digits(low, high, a + 256 * b, c + 256 * d, 65_536);
    lemma_digits(bytes[at] as int, bytes[at + 1] as int, a as int, b as int, 256);
    lemma_digits(bytes[at + 2] as int, bytes[at + 3] as int, c as int, d as int, 256);
}

/// A number has one lower and one upper digit.
proof fn lemma_digits(low: int, high: int, other_low: int, other_high: int, base: int)
    requires
        0 <= low < base,
        0 <= other_low < base,
        low + base * high == other_low + base * other_high,
    ensures
        low == other_low,
        high == other_high,
{
    assert(high == other_high) by (nonlinear_arith)
        requires
            0 <= low < base,
            0 <= other_low < base,
            low + base * high == other_low + base * other_high,
    ;
}

/// The end record places the directory by its count, size and offset; only where
/// one of these is filled with ones does a ZIP64 record say it, and a record that
/// speaks of other disks is refused.
pub proof fn law_the_end_record_places_the_directory(record: Seq<u8>)
    requires
        record.len() >= 22,
    ensures
        ({
            let disks = le16(record, 4) == 0 && le16(record, 6) == 0 && le16(record, 8) == le16(record, 10);
            let full = le16(record, 10) == 65_535 || le32(record, 12) == 4_294_967_295 || le32(record, 16) == 4_294_967_295;
            let out = end_record_location(record);
            &&& out is Ok <==> disks
            &&& !disks ==> out->Err_0 == ArchiveError::MultiDisk
            &&& disks ==> (out->Ok_0 is None <==> full)
            &&& disks && !full ==> out->Ok_0->0.entries == le16(record, 10) && out->Ok_0->0.size == le32(record, 12)
                && out->Ok_0->0.offset == le32(record, 16)
        }),
{
}

/// A ZIP64 record is found by its locator and places the directory in the same
/// way, with wider numbers.
pub proof fn law_the_wide_record_places_the_directory(locator: Seq<u8>, record: Seq<u8>)
    requires
        locator.len() == 20,
        record.len() == 56,
    ensures
        locator_offset(locator) matches Ok(offset) ==> offset == le64(locator, 8) && locator[0] == 0x50 && locator[1] == 0x4b
            && locator[2] == 6 && locator[3] == 7 && le32(locator, 4) == 0 && le32(locator, 16) == 1,
        zip64_location(record) matches Ok(place) ==> place.offset == le64(record, 48) && place.size == le64(record, 40)
            && place.entries == le64(record, 32) && le64(record, 24) == le64(record, 32) && record[0] == 0x50 && record[1] == 0x4b
            && record[2] == 6 && record[3] == 6 && le32(record, 16) == 0 && le32(record, 20) == 0,
{
    if locator_offset(locator) is Ok {
        lemma_four_bytes(locator, 0, 0x50, 0x4b, 6, 7);
    }
    if zip64_location(record) is Ok {
        lemma_four_bytes(record, 0, 0x50, 0x4b, 6, 6);
    }
}

/// Each record of a directory that is accepted starts with its four marking
/// bytes, is on this disk, and has its name behind the 46 bytes of its fixed part;
/// the next one starts behind its name, its extra field and its comment.
pub proof fn law_records_follow_each_other(bytes: Seq<u8>, count: nat, cursor: int)
    requires
        0 <= cursor,
        count > 0,
        name_spans(bytes, count, cursor) is Ok,
    ensures
        ({
            let next = cursor + 46 + le16(bytes, cursor + 28) + le16(bytes, cursor + 30) + le16(bytes, cursor + 32);
            let spans = name_spans(bytes, count, cursor)->Ok_0;
            &&& bytes[cursor] == 0x50 && bytes[cursor + 1] == 0x4b && bytes[cursor + 2] == 1 && bytes[cursor + 3] == 2
            &&& le16(bytes, cursor + 34) == 0 || le16(bytes, cursor + 34) == 65_535
            &&& next <= bytes.len()
            &&& spans.len() > 0
            &&& spans[0] == (cursor + 46, le16(bytes, cursor + 28))
            &&& name_spans(bytes, (count - 1) as nat, next) == Ok::<Seq<(int, int)>, ArchiveError>(spans.drop_first())
        }),
{
    lemma_four_bytes(bytes, cursor, 0x50, 0x4b, 1, 2);
    let next = super::zip_directory::record_end(bytes, cursor);
    let rest = name_spans(bytes, (count - 1) as nat, next)->Ok_0;
    let spans = name_spans(bytes, count, cursor)->Ok_0;
    assert(spans.drop_first() =~= rest);
}

/// A directory of as many records as it says has as many names.
pub proof fn law_every_record_has_a_name(bytes: Seq<u8>, count: nat, cursor: int)
    requires
        name_spans(bytes, count, cursor) is Ok,
    ensures
        name_spans(bytes, count, cursor)->Ok_0.len() == count,
    decreases count,
{
    if count > 0 {
        law_every_record_has_a_name(bytes, (count - 1) as nat, super::zip_directory::record_end(bytes, cursor));
    }
}

/// A record is accepted exactly where it is whole, marked and on this disk.
pub proof fn law_records_are_refused_for_a_reason(bytes: Seq<u8>, cursor: int)
    requires
        0 <= cursor,
    ensures
        record_error(bytes, cursor) is None <==> {
            &&& cursor + 36 <= bytes.len()
            &&& bytes[cursor] == 0x50 && bytes[cursor + 1] == 0x4b && bytes[cursor + 2] == 1 && bytes[cursor + 3] == 2
            &&& le16(bytes, cursor + 34) == 0 || le16(bytes, cursor + 34) == 65_535
            &&& cursor + 46 + le16(bytes, cursor + 28) + le16(bytes, cursor + 30) + le16(bytes, cursor + 32) <= bytes.len()
        },
{
    if le32(bytes, cursor) == super::zip_directory::ENTRY_SIGNATURE {
        lemma_four_bytes(bytes, cursor, 0x50, 0x4b, 1, 2);
    }
}

/// A path is only listed exactly where it is empty, is no text, holds a null byte,
/// starts with a separator or with a drive, or has a part that is two dots.
pub proof fn law_unsafe_paths_lead_out_of_the_archive(path: Seq<u8>, i: int)
    ensures
        path.len() == 0 ==> unsafe_path(path),
        !vstd::utf8::valid_utf8(path) ==> unsafe_path(path),
        0 <= i < path.len() && path[i] == 0 ==> unsafe_path(path),
        path.len() > 0 && (path[0] == 0x2f || path[0] == 0x5c) ==> unsafe_path(path),
        path.len() >= 3 && (0x41 <= path[0] <= 0x5a || 0x61 <= path[0] <= 0x7a) && path[1] == 0x3a && (path[2] == 0x2f || path[2]
            == 0x5c) ==> unsafe_path(path),
        0 <= i && i + 2 <= path.len() && path[i] == 0x2e && path[i + 1] == 0x2e && (i == 0 || path[i - 1] == 0x2f || path[i - 1]
            == 0x5c) && (i + 2 == path.len() || path[i + 2] == 0x2f || path[i + 2] == 0x5c) ==> unsafe_path(path),
        unsafe_path(path) ==> path.len() == 0 || !vstd::utf8::valid_utf8(path) || path.contains(0) || path[0] == 0x2f || path[0]
            == 0x5c || path.len() >= 3 && path[1] == 0x3a || exists|k: int|
            0 <= k && k + 2 <= path.len() && #[trigger] path[k] == 0x2e && path[k + 1] == 0x2e,
{
    if 0 <= i < path.len() && path[i] == 0 {
        assert(path.contains(0));
    }
    if 0 <= i && i + 2 <= path.len() && path[i] == 0x2e && path[i + 1] == 0x2e && (i == 0 || path[i - 1] == 0x2f || path[i - 1]
        == 0x5c) && (i + 2 == path.len() || path[i + 2] == 0x2f || path[i + 2] == 0x5c) {
        assert(super::entries::parent_at(path, i));
    }
    if exists|k: int| super::entries::parent_at(path, k) {
        let k = choose|k: int| super::entries::parent_at(path, k);
        assert(path[k] == 0x2e && path[k + 1] == 0x2e);
    }
}

/// An entry is accepted where it and all before it fit into 33554432 bytes of
/// metadata, and its own error comes before that.
pub proof fn law_the_budget_is_for_all_entries(entry: EntryView, error: ArchiveError, total: int)
    ensures
        budgeted(Err(error), total) == Err::<EntryView, ArchiveError>(error),
        budgeted(Ok(entry), total) == Ok::<EntryView, ArchiveError>(entry) <==> total + metadata_weight(entry) <= 33_554_432,
        budgeted(Ok(entry), total) is Err ==> budgeted(Ok(entry), total)->Err_0 == ArchiveError::MetadataOverBudget,
{
}

/// The entries of an index weigh what each of them weighs.
pub proof fn law_weights_add_up(entries: Seq<EntryView>, entry: EntryView)
    ensures
        total_weight(Seq::<EntryView>::empty()) == 0,
        total_weight(entries.push(entry)) == total_weight(entries) + metadata_weight(entry),
{
    assert(entries.push(entry).drop_last() =~= entries);
    assert(entries.push(entry).last() == entry);
}

/// A directory is read exactly where it has at most 100000 records and 134217728
/// bytes: then just these bytes are.
pub proof fn law_directories_keep_to_the_limits(location: DirectoryLocation)
    requires
        location.size <= usize::MAX,
    ensures
        scan_at(location) is Ok <==> location.entries <= 100_000 && location.size <= 134_217_728,
        scan_at(location) is Ok ==> scan_at(location)->Ok_0 == (DirectoryScan::Entries {
            offset: location.offset,
            length: location.size as usize,
            count: location.entries,
        }),
        scan_at(location) is Ok ==> scan_at(location)->Ok_0.needs() == (location.offset as int, location.size as int),
{
}

/// The end record is looked for in the last 65557 bytes of a file, or in all of a
/// shorter one; the locator in the 20 bytes before it, and the wide record where
/// the locator says.
pub proof fn law_windows_are_where_the_records_are(size: u64, end: u64, offset: u64)
    requires
        end >= 20,
    ensures
        ({
            let (from, length) = (DirectoryScan::EndRecord { size }).needs();
            &&& from + length == size
            &&& length == (if size < 65_557 { size as int } else { 65_557 })
        }),
        (DirectoryScan::Locator { end_record: end }).needs() == (end - 20, 20int),
        (DirectoryScan::Zip64Record { offset }).needs() == (offset as int, 56int),
{
}

/// A scan that succeeds gives the bytes of the image that the end record, or the
/// wide record, places the directory at, and as many records as it says.
pub proof fn law_directories_are_read_where_they_are_placed(image: Seq<u8>, offset: u64, length: usize, count: usize)
    requires
        scanned(image, DirectoryScan::Entries { offset, length, count }) is Ok,
    ensures
        ({
            let (bytes, base, records) = scanned(image, DirectoryScan::Entries { offset, length, count })->Ok_0;
            &&& base == offset
            &&& records == count
            &&& bytes.len() == length
            &&& length > 0 ==> offset + length <= image.len() && bytes == image.subrange(offset as int, offset + length)
        }),
{
}

/// The scan of a file without a wide record goes from the end record straight to
/// the directory.
pub proof fn law_short_records_lead_to_the_directory(image: Seq<u8>, at: int, place: DirectoryLocation)
    requires
        0 < image.len() <= 65_557,
        end_record(image) == Ok::<int, ArchiveError>(at),
        end_record_location(image.subrange(at, image.len() as int)) == Ok::<Option<DirectoryLocation>, ArchiveError>(Some(place)),
        place.entries <= 100_000,
        place.size <= 134_217_728,
    ensures
        scanned(image, DirectoryScan::EndRecord { size: image.len() as u64 }) == scanned(
            image,
            DirectoryScan::Entries { offset: place.offset, length: place.size as usize, count: place.entries },
        ),
{
    assert(image.subrange(0, image.len() as int) =~= image);
    reveal_with_fuel(scanned, 3);
}

/// Patched bytes are those of the patches where there are some, and those of the
/// file elsewhere.
pub proof fn law_patches_replace_their_bytes(bytes: Seq<u8>, start: int, patches: Map<u64, u8>, i: int)
    requires
        0 <= i < bytes.len(),
        0 <= start,
        start + bytes.len() <= u64::MAX,
    ensures
        patched(bytes, start, patches).len() == bytes.len(),
        patches.contains_key((start + i) as u64) ==> patched(bytes, start, patches)[i] == patches[(start + i) as u64],
        !patches.contains_key((start + i) as u64) ==> patched(bytes, start, patches)[i] == bytes[i],
{
}

} // verus!
