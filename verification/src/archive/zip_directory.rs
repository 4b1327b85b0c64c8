//! The central directory of a ZIP archive.
//!
//! A [`DirectoryScan`] asks for one window of the file after the other and
//! ends with the member names and with the bytes to replace so that no two
//! members share a name.

use std::collections::BTreeMap;

use vstd::prelude::*;

use crate::archive::error::ArchiveError;
use crate::archive::name_set::{copy_bytes, NameSet};

verus! {

broadcast use vstd::std_specs::btree::group_btree_axioms;

pub const MAX_ENTRIES: usize = 100_000;

pub const MAX_METADATA_BYTES: usize = 33_554_432;

/// The longest tail of a file that can hold the end record and its comment.
pub const END_WINDOW: u64 = 65_557;

pub const ENTRY_SIGNATURE: u32 = 0x0201_4b50;

pub const END_SIGNATURE: u32 = 0x0605_4b50;

pub const LOCATOR_SIGNATURE: u32 = 0x0706_4b50;

pub const ZIP64_SIGNATURE: u32 = 0x0606_4b50;

/// The little-endian number in two bytes.
pub open spec fn le16(bytes: Seq<u8>, offset: int) -> int {
    bytes[offset] + 256 * bytes[offset + 1]
}

/// The little-endian number in four bytes.
pub open spec fn le32(bytes: Seq<u8>, offset: int) -> int {
    le16(bytes, offset) + 65536 * le16(bytes, offset + 2)
}

/// The little-endian number in eight bytes.
pub open spec fn le64(bytes: Seq<u8>, offset: int) -> int {
    le32(bytes, offset) + 4294967296 * le32(bytes, offset + 4)
}

pub fn u16_at(bytes: &[u8], offset: usize) -> (out: Result<u16, ArchiveError>)
    requires
        offset + 2 <= usize::MAX,
    ensures
        offset + 2 <= bytes.len() ==> out is Ok && out->Ok_0 == le16(bytes@, offset as int),
        offset + 2 > bytes.len() ==> out == Err::<u16, ArchiveError>(ArchiveError::TruncatedMetadata),
{
    if offset + 2 > bytes.len() {
        return Err(ArchiveError::TruncatedMetadata);
    }
    Ok(bytes[offset] as u16 + 256 * (bytes[offset + 1] as u16))
}

pub fn u32_at(bytes: &[u8], offset: usize) -> (out: Result<u32, ArchiveError>)
    requires
        offset + 4 <= usize::MAX,
    ensures
        offset + 4 <= bytes.len() ==> out is Ok && out->Ok_0 == le32(bytes@, offset as int),
        offset + 4 > bytes.len() ==> out == Err::<u32, ArchiveError>(ArchiveError::TruncatedMetadata),
{
    if offset + 4 > bytes.len() {
        return Err(ArchiveError::TruncatedMetadata);
    }
    let low: u32 = bytes[offset] as u32 + 256 * (bytes[offset + 1] as u32);
    let high: u32 = bytes[offset + 2] as u32 + 256 * (bytes[offset + 3] as u32);
    Ok(low + 65536 * high)
}

pub fn u64_at(bytes: &[u8], offset: usize) -> (out: Result<u64, ArchiveError>)
    requires
        offset + 8 <= usize::MAX,
    ensures
        offset + 8 <= bytes.len() ==> out is Ok && out->Ok_0 == le64(bytes@, offset as int),
        offset + 8 > bytes.len() ==> out == Err::<u64, ArchiveError>(ArchiveError::TruncatedMetadata),
{
    if offset + 8 > bytes.len() {
        return Err(ArchiveError::TruncatedMetadata);
    }
    match (u32_at(bytes, offset), u32_at(bytes, offset + 4)) {
        (Ok(low), Ok(high)) => Ok(low as u64 + 4294967296 * (high as u64)),
        _ => Err(ArchiveError::TruncatedMetadata),
    }
}

/// The last place at or before `from` that holds the given signature.
pub open spec fn last_signature(bytes: Seq<u8>, signature: u32, from: int) -> Option<int>
    decreases from + 1,
{
    if from < 0 {
        None
    } else if le32(bytes, from) == signature {
        Some(from)
    } else {
        last_signature(bytes, signature, from - 1)
    }
}

/// Where the end record starts in the tail of the file.
pub open spec fn end_record(tail: Seq<u8>) -> Result<int, ArchiveError> {
    match last_signature(tail, END_SIGNATURE, tail.len() - 4) {
        None => Err(ArchiveError::EndRecordMissing),
        Some(at) => if at + 22 > tail.len() {
            Err(ArchiveError::EndRecordTruncated)
        } else if at + 22 + le16(tail, at + 20) != tail.len() {
            Err(ArchiveError::EndRecordComment)
        } else {
            Ok(at)
        },
    }
}

/// Finds the end record in the tail of the file.
pub fn eocd_position(tail: &[u8]) -> (out: Result<usize, ArchiveError>)
    requires
        tail.len() <= END_WINDOW,
    ensures
        match out {
            Ok(at) => end_record(tail@) == Ok::<int, ArchiveError>(at as int) && at + 22 <= tail.len(),
            Err(e) => end_record(tail@) == Err::<int, ArchiveError>(e),
        },
{
    let mut after: usize = if tail.len() < 4 {
        0
    } else {
        tail.len() - 3
    };
    proof {
        if tail@.len() < 4 {
            assert(last_signature(tail@, END_SIGNATURE, tail@.len() - 4) is None);
        }
    }
    while after > 0
        invariant
            tail.len() <= END_WINDOW,
            after > 0 ==> after + 3 <= tail.len(),
            tail@.len() >= 4 ==> last_signature(tail@, END_SIGNATURE, tail@.len() - 4)
                == last_signature(tail@, END_SIGNATURE, after - 1),
        decreases after,
    {
        let at: usize = after - 1;
        match u32_at(tail, at) {
            Ok(found) => {
                if found == END_SIGNATURE {
                    if at + 22 > tail.len() {
                        return Err(ArchiveError::EndRecordTruncated);
                    }
                    return match u16_at(tail, at + 20) {
                        Ok(comment) => {
                            if at + 22 + comment as usize != tail.len() {
                                Err(ArchiveError::EndRecordComment)
                            } else {
                                Ok(at)
                            }
                        },
                        Err(e) => Err(e),
                    };
                }
            },
            Err(_) => {},
        }
        after = at;
    }
    Err(ArchiveError::EndRecordMissing)
}

/// Where the members of the central directory stand, and how many there are.
#[derive(Clone, Copy, Debug, PartialEq, Eq, Structural)]
pub struct DirectoryLocation {
    pub offset: u64,
    pub size: u64,
    pub entries: usize,
}

/// What the end record says of the central directory: its place, or that a
/// ZIP64 record says it (`None`).
pub open spec fn end_record_location(record: Seq<u8>) -> Result<Option<DirectoryLocation>, ArchiveError> {
    if le16(record, 4) != 0 || le16(record, 6) != 0 || le16(record, 8) != le16(record, 10) {
        Err(ArchiveError::MultiDisk)
    } else if le16(record, 10) != 0xffff && le32(record, 12) != 0xffff_ffff && le32(record, 16) != 0xffff_ffff {
        Ok(
            Some(
                DirectoryLocation {
                    offset: le32(record, 16) as u64,
                    size: le32(record, 12) as u64,
                    entries: le16(record, 10) as usize,
                },
            ),
        )
    } else {
        Ok(None)
    }
}

fn read_end_record(record: &[u8]) -> (out: Result<Option<DirectoryLocation>, ArchiveError>)
    requires
        record.len() >= 22,
    ensures
        out == end_record_location(record@),
{
    let disk = u16_at(record, 4)?;
    let central_disk = u16_at(record, 6)?;
    let entries_on_disk = u16_at(record, 8)?;
    let entries_total = u16_at(record, 10)?;
    let central_size = u32_at(record, 12)?;
    let central_offset = u32_at(record, 16)?;
    if disk != 0 || central_disk != 0 || entries_on_disk != entries_total {
        return Err(ArchiveError::MultiDisk);
    }
    if entries_total != u16::MAX && central_size != u32::MAX && central_offset != u32::MAX {
        return Ok(
            Some(
                DirectoryLocation {
                    offset: central_offset as u64,
                    size: central_size as u64,
                    entries: entries_total as usize,
                },
            ),
        );
    }
    Ok(None)
}

/// The offset of the ZIP64 record that the 20 bytes before the end record name.
pub open spec fn locator_offset(locator: Seq<u8>) -> Result<u64, ArchiveError> {
    if le32(locator, 0) != LOCATOR_SIGNATURE {
        Err(ArchiveError::LocatorMissing)
    } else if le32(locator, 4) != 0 || le32(locator, 16) != 1 {
        Err(ArchiveError::MultiDiskZip64)
    } else {
        Ok(le64(locator, 8) as u64)
    }
}

fn read_locator(locator: &[u8]) -> (out: Result<u64, ArchiveError>)
    requires
        locator.len() == 20,
    ensures
        out == locator_offset(locator@),
{
    if u32_at(locator, 0)? != LOCATOR_SIGNATURE {
        return Err(ArchiveError::LocatorMissing);
    }
    if u32_at(locator, 4)? != 0 || u32_at(locator, 16)? != 1 {
        return Err(ArchiveError::MultiDiskZip64);
    }
    u64_at(locator, 8)
}

/// What the ZIP64 record says of the central directory.
pub open spec fn zip64_location(record: Seq<u8>) -> Result<DirectoryLocation, ArchiveError> {
    if le32(record, 0) != ZIP64_SIGNATURE {
        Err(ArchiveError::Zip64RecordMissing)
    } else if le32(record, 16) != 0 || le32(record, 20) != 0 {
        Err(ArchiveError::MultiDiskZip64)
    } else if le64(record, 24) != le64(record, 32) || le64(record, 32) > usize::MAX {
        Err(ArchiveError::Zip64EntryCount)
    } else {
        Ok(
            DirectoryLocation {
                offset: le64(record, 48) as u64,
                size: le64(record, 40) as u64,
                entries: le64(record, 32) as usize,
            },
        )
    }
}

fn read_zip64_record(record: &[u8]) -> (out: Result<DirectoryLocation, ArchiveError>)
    requires
        record.len() == 56,
    ensures
        out == zip64_location(record@),
{
    if u32_at(record, 0)? != ZIP64_SIGNATURE {
        return Err(ArchiveError::Zip64RecordMissing);
    }
    if u32_at(record, 16)? != 0 || u32_at(record, 20)? != 0 {
        return Err(ArchiveError::MultiDiskZip64);
    }
    let entries_on_disk = u64_at(record, 24)?;
    let entries_total = u64_at(record, 32)?;
    if entries_on_disk != entries_total || entries_total > usize::MAX as u64 {
        return Err(ArchiveError::Zip64EntryCount);
    }
    let offset = u64_at(record, 48)?;
    let size = u64_at(record, 40)?;
    Ok(DirectoryLocation { offset, size, entries: entries_total as usize })
}

/// Where the name of a member stands, relative to the directory's start.
pub struct NameSpan {
    pub start: usize,
    pub length: usize,
}

/// The end of the directory record at `cursor`.
pub open spec fn record_end(bytes: Seq<u8>, cursor: int) -> int {
    cursor + 46 + le16(bytes, cursor + 28) + le16(bytes, cursor + 30) + le16(bytes, cursor + 32)
}

/// Why the directory record at `cursor` is refused, if it is.
pub open spec fn record_error(bytes: Seq<u8>, cursor: int) -> Option<ArchiveError> {
    if cursor + 4 > bytes.len() || le32(bytes, cursor) != ENTRY_SIGNATURE {
        Some(ArchiveError::EntrySignature)
    } else if cursor + 36 > bytes.len() {
        Some(ArchiveError::TruncatedMetadata)
    } else if le16(bytes, cursor + 34) != 0 && le16(bytes, cursor + 34) != 0xffff {
        Some(ArchiveError::MultiDisk)
    } else if record_end(bytes, cursor) > bytes.len() {
        Some(ArchiveError::EntryTruncated)
    } else {
        None
    }
}

/// The name spans, as start and length, of `count` records from `cursor` on.
pub open spec fn name_spans(bytes: Seq<u8>, count: nat, cursor: int) -> Result<Seq<(int, int)>, ArchiveError>
    decreases count,
{
    if count == 0 {
        Ok(Seq::empty())
    } else {
        match record_error(bytes, cursor) {
            Some(e) => Err(e),
            None => match name_spans(bytes, (count - 1) as nat, record_end(bytes, cursor)) {
                Err(e) => Err(e),
                Ok(rest) => Ok(seq![(cursor + 46, le16(bytes, cursor + 28))] + rest),
            },
        }
    }
}

pub open spec fn span_views(spans: Seq<NameSpan>) -> Seq<(int, int)> {
    Seq::new(spans.len(), |i: int| (spans[i].start as int, spans[i].length as int))
}

/// The bytes at each of the spans.
pub open spec fn names_at(bytes: Seq<u8>, spans: Seq<(int, int)>) -> Seq<Seq<u8>> {
    Seq::new(spans.len(), |i: int| bytes.subrange(spans[i].0, spans[i].0 + spans[i].1))
}

spec fn after_prefix(done: Seq<(int, int)>, rest: Result<Seq<(int, int)>, ArchiveError>) -> Result<
    Seq<(int, int)>,
    ArchiveError,
> {
    match rest {
        Err(e) => Err(e),
        Ok(rest) => Ok(done + rest),
    }
}

/// Reads the name spans of the central directory's records.
pub fn read_name_spans(bytes: &[u8], count: usize) -> (out: Result<Vec<NameSpan>, ArchiveError>)
    requires
        bytes.len() <= 4 * MAX_METADATA_BYTES,
    ensures
        match out {
            Ok(spans) => name_spans(bytes@, count as nat, 0) == Ok::<Seq<(int, int)>, ArchiveError>(
                span_views(spans@),
            ) && spans@.len() == count && forall|i: int|
                0 <= i < spans@.len() ==> (#[trigger] spans@[i]).start + spans@[i].length <= bytes.len(),
            Err(e) => name_spans(bytes@, count as nat, 0) == Err::<Seq<(int, int)>, ArchiveError>(e),
        },
{
    let mut spans: Vec<NameSpan> = Vec::new();
    let mut cursor: usize = 0;
    let mut done: usize = 0;
    proof {
        let all = name_spans(bytes@, count as nat, 0);
        assert(span_views(spans@) =~= Seq::<(int, int)>::empty());
        match all {
            Ok(rest) => {
                assert(Seq::<(int, int)>::empty() + rest =~= rest);
            },
            Err(_) => {},
        }
    }
    while done < count
        invariant
            done <= count,
            cursor <= bytes.len(),
            bytes.len() <= 4 * MAX_METADATA_BYTES,
            spans@.len() == done,
            forall|i: int| 0 <= i < spans@.len() ==> (#[trigger] spans@[i]).start + spans@[i].length <= bytes.len(),
            name_spans(bytes@, count as nat, 0) == after_prefix(
                span_views(spans@),
                name_spans(bytes@, (count - done) as nat, cursor as int),
            ),
        decreases count - done,
    {
        match u32_at(bytes, cursor) {
            Ok(signature) => {
                if signature != ENTRY_SIGNATURE {
                    return Err(ArchiveError::EntrySignature);
                }
            },
            Err(_) => {
                return Err(ArchiveError::EntrySignature);
            },
        }
        let name_length = u16_at(bytes, cursor + 28)? as usize;
        let extra_length = u16_at(bytes, cursor + 30)? as usize;
        let comment_length = u16_at(bytes, cursor + 32)? as usize;
        let disk_start = u16_at(bytes, cursor + 34)?;
        if disk_start != 0 && disk_start != u16::MAX {
            return Err(ArchiveError::MultiDisk);
        }
        let name_start: usize = cursor + 46;
        let end: usize = name_start + name_length + extra_length + comment_length;
        if end > bytes.len() {
            return Err(ArchiveError::EntryTruncated);
        }
        let ghost before = span_views(spans@);
        spans.push(NameSpan { start: name_start, length: name_length });
        proof {
            let head = seq![(cursor + 46, le16(bytes@, cursor + 28))];
            assert(span_views(spans@) =~= before + head);
            match name_spans(bytes@, (count - done - 1) as nat, end as int) {
                Ok(rest) => {
                    assert(before + (head + rest) =~= (before + head) + rest);
                },
                Err(_) => {},
            }
        }
        cursor = end;
        done += 1;
    }
    proof {
        assert(span_views(spans@) + Seq::<(int, int)>::empty() =~= span_views(spans@));
    }
    Ok(spans)
}

/// The next byte source of a candidate name.
pub open spec fn mix(seed: u64) -> u64 {
    ((seed >> 7) | (seed << 57)).wrapping_add(0x9e37_79b9_7f4a_7c15)
}

/// The candidate name of the given length that a seed stands for.
pub open spec fn candidate(length: nat, seed: u64) -> Seq<u8>
    decreases length,
{
    if length == 0 {
        Seq::empty()
    } else {
        seq![seed as u8] + candidate((length - 1) as nat, mix(seed))
    }
}

fn build_candidate(length: usize, seed: u64) -> (out: Vec<u8>)
    ensures
        out@ == candidate(length as nat, seed),
{
    let mut out: Vec<u8> = Vec::with_capacity(length);
    let mut value: u64 = seed;
    let mut i: usize = 0;
    proof {
        assert(Seq::<u8>::empty() + candidate(length as nat, seed) =~= candidate(length as nat, seed));
    }
    while i < length
        invariant
            i <= length,
            out@ + candidate((length - i) as nat, value) == candidate(length as nat, seed),
        decreases length - i,
    {
        let ghost done = out@;
        out.push(#[verifier::truncate] (value as u8));
        let ghost was = value;
        value = ((value >> 7) | (value << 57)).wrapping_add(0x9e37_79b9_7f4a_7c15);
        i += 1;
        proof {
            let rest = candidate((length - i) as nat, value);
            assert(done + (seq![was as u8] + rest) =~= done.push(was as u8) + rest);
        }
    }
    proof {
        assert(out@ + Seq::<u8>::empty() =~= out@);
    }
    out
}

/// The first seed, within the given number of attempts, whose candidate is
/// not in use.
pub open spec fn free_seed(length: nat, used: Set<Seq<u8>>, seed: u64, attempts: nat) -> Option<u64>
    decreases attempts,
{
    if attempts == 0 {
        None
    } else if !used.contains(candidate(length, seed)) {
        Some(seed)
    } else {
        free_seed(length, used, seed.wrapping_add(1), (attempts - 1) as nat)
    }
}

/// How many candidates are tried beside that many names.
pub open spec fn attempts_beside(names: nat) -> nat {
    if names + 257 > usize::MAX {
        usize::MAX as nat
    } else {
        names + 257
    }
}

/// Finds a name of the given length that is not in use, and takes it.
pub fn replacement_name(length: usize, used: &mut NameSet, next_candidate: &mut u64) -> (out: Result<
    Vec<u8>,
    ArchiveError,
>)
    requires
        old(used).wf(),
        old(used)@.len() < usize::MAX,
    ensures
        final(used).wf(),
        final(used)@.len() <= old(used)@.len() + 1,
        out is Ok ==> out->Ok_0@.len() == length,
        length == 0 ==> out == Err::<Vec<u8>, ArchiveError>(ArchiveError::DuplicateEmptyName) && final(used)@ == old(used)@
            && *final(next_candidate) == *old(next_candidate),
        length > 0 ==> match free_seed(
            length as nat,
            old(used)@,
            *old(next_candidate),
            attempts_beside(old(used)@.len()),
        ) {
            Some(seed) => {
                &&& out is Ok
                &&& out->Ok_0@ == candidate(length as nat, seed)
                &&& final(used)@ == old(used)@.insert(candidate(length as nat, seed))
                &&& *final(next_candidate) == seed.wrapping_add(1)
            },
            None => {
                &&& out == Err::<Vec<u8>, ArchiveError>(ArchiveError::TooManyDuplicates(length))
                &&& final(used)@ == old(used)@
            },
        },
{
    if length == 0 {
        return Err(ArchiveError::DuplicateEmptyName);
    }
    let attempts: usize = used.len().saturating_add(257);
    let ghost names = used@;
    let ghost first = *next_candidate;
    let mut tried: usize = 0;
    while tried < attempts
        invariant
            tried <= attempts,
            used.wf(),
            used@ == names,
            names == old(used)@,
            first == *old(next_candidate),
            names.len() < usize::MAX,
            attempts == attempts_beside(names.len()),
            length > 0,
            free_seed(length as nat, names, first, attempts as nat) == free_seed(
                length as nat,
                names,
                *next_candidate,
                (attempts - tried) as nat,
            ),
        decreases attempts - tried,
    {
        let seed: u64 = *next_candidate;
        *next_candidate = seed.wrapping_add(1);
        let name = build_candidate(length, seed);
        if !used.contains(name.as_slice()) {
            proof {
                lemma_candidate_length(length as nat, seed);
            }
            used.insert(name.as_slice());
            return Ok(name);
        }
        tried += 1;
    }
    Err(ArchiveError::TooManyDuplicates(length))
}

/// Whether no earlier member has the name of the member at `i`.
pub open spec fn first_of_name(names: Seq<Seq<u8>>, i: int) -> bool {
    forall|j: int| 0 <= j < i ==> names[j] != names[i]
}

/// The names of the members from `i` on after every repeated name was
/// replaced, with `used` taken and candidates tried from `seed` on.
pub open spec fn renaming(names: Seq<Seq<u8>>, i: int, used: Set<Seq<u8>>, seed: u64) -> Result<
    Seq<Seq<u8>>,
    ArchiveError,
>
    decreases names.len() - i,
{
    if i >= names.len() {
        Ok(Seq::empty())
    } else if first_of_name(names, i) {
        match renaming(names, i + 1, used, seed) {
            Err(e) => Err(e),
            Ok(rest) => Ok(seq![names[i]] + rest),
        }
    } else if names[i].len() == 0 {
        Err(ArchiveError::DuplicateEmptyName)
    } else {
        match free_seed(names[i].len(), used, seed, attempts_beside(used.len())) {
            None => Err(ArchiveError::TooManyDuplicates(names[i].len() as usize)),
            Some(found) => match renaming(
                names,
                i + 1,
                used.insert(candidate(names[i].len(), found)),
                found.wrapping_add(1),
            ) {
                Err(e) => Err(e),
                Ok(rest) => Ok(seq![candidate(names[i].len(), found)] + rest),
            },
        }
    }
}

/// The distinct names that the members get.
pub open spec fn renamed(names: Seq<Seq<u8>>) -> Result<Seq<Seq<u8>>, ArchiveError> {
    renaming(names, 0, names.to_set(), 0)
}

/// Whether the file offset `p` is in the name of a member with a repeated name.
pub open spec fn patched_by(names: Seq<Seq<u8>>, spans: Seq<(int, int)>, base: int, i: int, p: int) -> bool {
    &&& 0 <= i < names.len()
    &&& !first_of_name(names, i)
    &&& base + spans[i].0 <= p < base + spans[i].0 + spans[i].1
}

/// Whether `patches` replaces exactly the repeated names among the first
/// `count`, by the names in `new`.
pub open spec fn patches_match(
    patches: Map<u64, u8>,
    names: Seq<Seq<u8>>,
    new: Seq<Seq<u8>>,
    spans: Seq<(int, int)>,
    base: int,
    count: int,
) -> bool {
    &&& forall|p: u64| #[trigger]
        patches.contains_key(p) ==> exists|i: int| 0 <= i < count && #[trigger] patched_by(names, spans, base, i, p as int)
    &&& forall|i: int, p: u64|
        0 <= i < count && #[trigger] patched_by(names, spans, base, i, p as int) ==> patches.contains_key(p)
            && patches[p] == new[i][p - base - spans[i].0]
}

/// Whether the spans lie in the bytes one after the other, each behind the
/// fixed part of its record.
pub open spec fn spans_ordered(spans: Seq<(int, int)>, from: int, to: int) -> bool {
    &&& forall|i: int| 0 <= i < spans.len() ==> from + 46 <= (#[trigger] spans[i]).0 && 0 <= spans[i].1 && spans[i].0 + spans[i].1 <= to
    &&& forall|i: int, j: int|
        0 <= i < j < spans.len() ==> (#[trigger] spans[i]).0 + spans[i].1 + 46 <= (#[trigger] spans[j]).0
}

pub proof fn lemma_name_spans_ordered(bytes: Seq<u8>, count: nat, cursor: int)
    requires
        0 <= cursor,
        name_spans(bytes, count, cursor) is Ok,
    ensures
        name_spans(bytes, count, cursor)->Ok_0.len() == count,
        spans_ordered(name_spans(bytes, count, cursor)->Ok_0, cursor, bytes.len() as int),
    decreases count,
{
    if count > 0 {
        lemma_name_spans_ordered(bytes, (count - 1) as nat, record_end(bytes, cursor));
    }
}

/// The member names of a ZIP archive, and the bytes to replace so that no two
/// members share a name.
pub struct ZipCentralDirectory {
    pub names: Vec<Vec<u8>>,
    pub patches: BTreeMap<u64, u8>,
}

pub open spec fn name_views(names: Seq<Vec<u8>>) -> Seq<Seq<u8>> {
    Seq::new(names.len(), |i: int| names[i]@)
}

/// Why the directory in `bytes` is refused, if it is.
pub open spec fn directory_error(bytes: Seq<u8>, count: nat) -> Option<ArchiveError> {
    match name_spans(bytes, count, 0) {
        Err(e) => Some(e),
        Ok(spans) => match renamed(names_at(bytes, spans)) {
            Err(e) => Some(e),
            Ok(_) => None,
        },
    }
}

impl ZipCentralDirectory {
    /// Whether this is the directory of `count` records in `bytes`, which
    /// start at the file offset `base`.
    pub open spec fn describes(&self, bytes: Seq<u8>, base: int, count: nat) -> bool {
        let spans = name_spans(bytes, count, 0)->Ok_0;
        let names = names_at(bytes, spans);
        &&& directory_error(bytes, count) is None
        &&& name_views(self.names@) == names
        &&& patches_match(self.patches@, names, renamed(names)->Ok_0, spans, base, names.len() as int)
    }
}

spec fn with_prefix(done: Seq<Seq<u8>>, rest: Result<Seq<Seq<u8>>, ArchiveError>) -> Result<
    Seq<Seq<u8>>,
    ArchiveError,
> {
    match rest {
        Err(e) => Err(e),
        Ok(rest) => Ok(done + rest),
    }
}

fn copy_names(bytes: &[u8], spans: &Vec<NameSpan>) -> (out: Vec<Vec<u8>>)
    requires
        forall|i: int| 0 <= i < spans@.len() ==> (#[trigger] spans@[i]).start + spans@[i].length <= bytes.len(),
    ensures
        name_views(out@) == names_at(bytes@, span_views(spans@)),
{
    let mut out: Vec<Vec<u8>> = Vec::new();
    let mut i: usize = 0;
    while i < spans.len()
        invariant
            i <= spans.len(),
            out@.len() == i,
            forall|k: int| 0 <= k < spans@.len() ==> (#[trigger] spans@[k]).start + spans@[k].length <= bytes.len(),
            forall|k: int|
                0 <= k < i ==> (#[trigger] out@[k])@ == bytes@.subrange(
                    spans@[k].start as int,
                    spans@[k].start + spans@[k].length,
                ),
        decreases spans.len() - i,
    {
        let start: usize = spans[i].start;
        let end: usize = start + spans[i].length;
        out.push(copy_bytes(vstd::slice::slice_subrange(bytes, start, end)));
        i += 1;
    }
    proof {
        assert(name_views(out@) =~= names_at(bytes@, span_views(spans@)));
    }
    out
}

fn set_of_names(names: &Vec<Vec<u8>>) -> (out: NameSet)
    requires
        names.len() <= MAX_ENTRIES,
    ensures
        out.wf(),
        out@ == name_views(names@).to_set(),
        out@.len() <= names.len(),
{
    let mut out = NameSet::new();
    let mut i: usize = 0;
    while i < names.len()
        invariant
            i <= names.len(),
            names.len() <= MAX_ENTRIES,
            out.wf(),
            out@.len() <= i,
            forall|x: Seq<u8>| #[trigger] out@.contains(x) <==> exists|k: int| 0 <= k < i && #[trigger] names@[k]@ == x,
        decreases names.len() - i,
    {
        let ghost before = out@;
        out.insert(names[i].as_slice());
        proof {
            assert forall|x: Seq<u8>| #[trigger] out@.contains(x) implies exists|k: int|
                0 <= k < i + 1 && #[trigger] names@[k]@ == x by {
                if x == names@[i as int]@ {
                } else {
                    assert(before.contains(x));
                    let k = choose|k: int| 0 <= k < i && #[trigger] names@[k]@ == x;
                    assert(names@[k]@ == x);
                }
            }
            assert forall|x: Seq<u8>| (exists|k: int| 0 <= k < i + 1 && #[trigger] names@[k]@ == x) implies #[trigger] out@.contains(x) by {
                let k = choose|k: int| 0 <= k < i + 1 && #[trigger] names@[k]@ == x;
                if k < i {
                    assert(before.contains(x));
                }
            }
        }
        i += 1;
    }
    proof {
        let views = name_views(names@);
        assert forall|x: Seq<u8>| #[trigger] out@.contains(x) == views.to_set().contains(x) by {
            if out@.contains(x) {
                let k = choose|k: int| 0 <= k < i && #[trigger] names@[k]@ == x;
                assert(views[k] == x);
            }
            if views.contains(x) {
                let k = choose|k: int| 0 <= k < views.len() && views[k] == x;
                assert(names@[k]@ == x);
            }
        }
        assert(out@ =~= views.to_set());
    }
    out
}

proof fn lemma_candidate_length(length: nat, seed: u64)
    ensures
        candidate(length, seed).len() == length,
    decreases length,
{
    if length > 0 {
        lemma_candidate_length((length - 1) as nat, mix(seed));
    }
}

/// Records that the bytes from the offset `at` on read as `value`.
fn write_patches(patches: &mut BTreeMap<u64, u8>, at: u64, value: &Vec<u8>)
    requires
        at + value.len() <= u64::MAX,
    ensures
        forall|p: u64| #[trigger]
            final(patches)@.contains_key(p) <==> old(patches)@.contains_key(p) || at <= p < at + value.len(),
        forall|p: u64| #[trigger]
            final(patches)@.contains_key(p) ==> final(patches)@[p] == (if at <= p < at + value.len() {
                value@[p - at]
            } else {
                old(patches)@[p]
            }),
{
    let mut i: usize = 0;
    while i < value.len()
        invariant
            i <= value.len(),
            at + value.len() <= u64::MAX,
            forall|p: u64| #[trigger]
                patches@.contains_key(p) <==> old(patches)@.contains_key(p) || at <= p < at + i,
            forall|p: u64| #[trigger]
                patches@.contains_key(p) ==> patches@[p] == (if at <= p < at + i {
                    value@[p - at]
                } else {
                    old(patches)@[p]
                }),
        decreases value.len() - i,
    {
        patches.insert(at + i as u64, value[i]);
        i += 1;
    }
}

/// Indexes the `count` records in `bytes`, which start at the file offset `base`.
pub fn read_directory(bytes: &[u8], base: u64, count: usize) -> (out: Result<ZipCentralDirectory, ArchiveError>)
    requires
        bytes.len() <= 4 * MAX_METADATA_BYTES,
        base + bytes.len() <= u64::MAX,
        count <= MAX_ENTRIES,
    ensures
        match out {
            Ok(directory) => directory.describes(bytes@, base as int, count as nat),
            Err(e) => directory_error(bytes@, count as nat) == Some(e),
        },
{
    let spans = read_name_spans(bytes, count)?;
    proof {
        lemma_name_spans_ordered(bytes@, count as nat, 0);
    }
    let names = copy_names(bytes, &spans);
    let ghost views = name_views(names@);
    let ghost places = span_views(spans@);
    let mut used = set_of_names(&names);
    let mut seen = NameSet::new();
    let mut patches: BTreeMap<u64, u8> = BTreeMap::new();
    let mut next_candidate: u64 = 0;
    let ghost mut done: Seq<Seq<u8>> = Seq::empty();
    let mut i: usize = 0;
    proof {
        match renamed(views) {
            Ok(rest) => {
                assert(done + rest =~= rest);
            },
            Err(_) => {},
        }
    }
    while i < names.len()
        invariant
            i <= names.len(),
            names.len() == count,
            count <= MAX_ENTRIES,
            views == name_views(names@),
            places == span_views(spans@),
            views == names_at(bytes@, places),
            spans@.len() == count,
            spans_ordered(places, 0, bytes.len() as int),
            base + bytes.len() <= u64::MAX,
            used.wf(),
            used@.len() <= count + i,
            seen.wf(),
            seen@.len() <= i,
            forall|x: Seq<u8>| #[trigger] seen@.contains(x) <==> exists|k: int| 0 <= k < i && #[trigger] views[k] == x,
            done.len() == i,
            renamed(views) == with_prefix(done, renaming(views, i as int, used@, next_candidate)),
            name_spans(bytes@, count as nat, 0) == Ok::<Seq<(int, int)>, ArchiveError>(places),
            patches_match(patches@, views, done, places, base as int, i as int),
        decreases names.len() - i,
    {
        let ghost seen_before = seen@;
        let fresh = seen.insert(names[i].as_slice());
        proof {
            assert(views[i as int] == names@[i as int]@);
            assert(fresh == first_of_name(views, i as int)) by {
                if !fresh {
                    let k = choose|k: int| 0 <= k < i && #[trigger] views[k] == views[i as int];
                    assert(views[k] == views[i as int]);
                } else {
                    assert forall|j: int| 0 <= j < i implies views[j] != views[i as int] by {
                        if views[j] == views[i as int] {
                            assert(seen_before.contains(views[i as int]));
                        }
                    }
                }
            }
            assert forall|x: Seq<u8>| #[trigger] seen@.contains(x) <==> exists|k: int| 0 <= k < i + 1 && #[trigger] views[k] == x by {
                if seen@.contains(x) {
                    if seen_before.contains(x) {
                        let k = choose|k: int| 0 <= k < i && #[trigger] views[k] == x;
                        assert(views[k] == x);
                    } else {
                        assert(views[i as int] == x);
                    }
                }
                if exists|k: int| 0 <= k < i + 1 && #[trigger] views[k] == x {
                    let k = choose|k: int| 0 <= k < i + 1 && #[trigger] views[k] == x;
                    if k < i {
                        assert(seen_before.contains(x));
                    }
                }
            }
        }
        let ghost done_before = done;
        if !fresh {
            let ghost used_before = used@;
            let ghost seed_before = next_candidate;
            let replacement = match replacement_name(names[i].len(), &mut used, &mut next_candidate) {
                Ok(name) => name,
                Err(e) => {
                    return Err(e);
                },
            };
            let ghost new_name = replacement@;
            proof {
                assert(used_before.insert(new_name) == used@);
                done = done_before.push(new_name);
                match renaming(views, i + 1, used@, next_candidate) {
                    Ok(rest) => {
                        assert(done_before + (seq![new_name] + rest) =~= done + rest);
                    },
                    Err(_) => {},
                }
            }
            let at: u64 = base + spans[i].start as u64;
            let ghost patches_before = patches@;
            proof {
                assert(places[i as int].1 == views[i as int].len());
                assert(new_name.len() == views[i as int].len());
            }
            write_patches(&mut patches, at, &replacement);
            proof {
                assert forall|p: u64| #[trigger] patches@.contains_key(p) implies exists|k: int|
                    0 <= k < i + 1 && #[trigger] patched_by(views, places, base as int, k, p as int) by {
                    if patches_before.contains_key(p) {
                        let k = choose|k: int| 0 <= k < i && #[trigger] patched_by(views, places, base as int, k, p as int);
                        assert(patched_by(views, places, base as int, k, p as int));
                    } else {
                        assert(patched_by(views, places, base as int, i as int, p as int));
                    }
                }
                assert forall|k: int, p: u64|
                    0 <= k < i + 1 && #[trigger] patched_by(views, places, base as int, k, p as int) implies patches@.contains_key(p)
                    && patches@[p] == done[k][p - base - places[k].0] by {
                    if k < i {
                        assert(places[k].0 + places[k].1 + 46 <= places[i as int].0);
                        assert(patches_before.contains_key(p));
                        assert(done[k] == done_before[k]);
                    } else {
                        assert(at == base + places[i as int].0);
                        assert(done[k] == new_name);
                        assert(patches@.contains_key(p));
                    }
                }
            }
        } else {
            proof {
                done = done_before.push(views[i as int]);
                match renaming(views, i + 1, used@, next_candidate) {
                    Ok(rest) => {
                        assert(done_before + (seq![views[i as int]] + rest) =~= done + rest);
                    },
                    Err(_) => {},
                }
            }
        }
        i += 1;
    }
    proof {
        assert(done + Seq::<Seq<u8>>::empty() =~= done);
    }
    Ok(ZipCentralDirectory { names, patches })
}

/// How far the search for the central directory has come.
#[derive(Clone, Copy, Debug, PartialEq, Eq, Structural)]
pub enum DirectoryScan {
    /// Looks for the end record in the tail of a file of this size.
    EndRecord { size: u64 },
    /// Looks for the ZIP64 locator before the end record at this offset.
    Locator { end_record: u64 },
    /// Reads the ZIP64 record at this offset.
    Zip64Record { offset: u64 },
    /// Reads the directory's records.
    Entries { offset: u64, length: usize, count: usize },
}

pub enum DirectoryStep {
    /// The scan goes on with another window of the file.
    Read(DirectoryScan),
    Done(ZipCentralDirectory),
}

/// The scan of the records at a place, within the limits on a directory.
pub open spec fn scan_at(location: DirectoryLocation) -> Result<DirectoryScan, ArchiveError> {
    if location.entries > MAX_ENTRIES {
        Err(ArchiveError::TooManyEntries)
    } else if location.size > usize::MAX {
        Err(ArchiveError::DirectoryTooLarge)
    } else if location.size > 4 * MAX_METADATA_BYTES {
        Err(ArchiveError::DirectoryOverBudget)
    } else {
        Ok(
            DirectoryScan::Entries {
                offset: location.offset,
                length: location.size as usize,
                count: location.entries,
            },
        )
    }
}

fn begin_entries(location: DirectoryLocation) -> (out: Result<DirectoryScan, ArchiveError>)
    ensures
        out == scan_at(location),
{
    if location.entries > MAX_ENTRIES {
        return Err(ArchiveError::TooManyEntries);
    }
    if location.size > usize::MAX as u64 {
        return Err(ArchiveError::DirectoryTooLarge);
    }
    if location.size > 134_217_728 {
        return Err(ArchiveError::DirectoryOverBudget);
    }
    Ok(
        DirectoryScan::Entries {
            offset: location.offset,
            length: location.size as usize,
            count: location.entries,
        },
    )
}

impl DirectoryScan {
    /// The scan of a file of the given size.
    pub fn begin(size: u64) -> (out: DirectoryScan)
        ensures
            out == (DirectoryScan::EndRecord { size }),
    {
        DirectoryScan::EndRecord { size }
    }

    /// Whether the scan keeps the limits on a directory.
    pub open spec fn wf(self) -> bool {
        match self {
            DirectoryScan::EndRecord { .. } => true,
            DirectoryScan::Locator { end_record } => end_record >= 20,
            DirectoryScan::Zip64Record { .. } => true,
            DirectoryScan::Entries { offset, length, count } => length <= 4 * MAX_METADATA_BYTES && count <= MAX_ENTRIES,
        }
    }

    /// The offset and the length of the window that comes next.
    pub open spec fn needs(self) -> (int, int) {
        match self {
            DirectoryScan::EndRecord { size } => if size <= END_WINDOW {
                (0, size as int)
            } else {
                (size - END_WINDOW, END_WINDOW as int)
            },
            DirectoryScan::Locator { end_record } => (end_record - 20, 20),
            DirectoryScan::Zip64Record { offset } => (offset as int, 56),
            DirectoryScan::Entries { offset, length, count } => (offset as int, length as int),
        }
    }

    /// The offset and the length of the window that comes next.
    pub fn window(&self) -> (out: (u64, usize))
        requires
            self.wf(),
        ensures
            (out.0 as int, out.1 as int) == self.needs(),
    {
        match *self {
            DirectoryScan::EndRecord { size } => if size <= END_WINDOW {
                (0, size as usize)
            } else {
                (size - END_WINDOW, END_WINDOW as usize)
            },
            DirectoryScan::Locator { end_record } => (end_record - 20, 20),
            DirectoryScan::Zip64Record { offset } => (offset, 56),
            DirectoryScan::Entries { offset, length, count } => (offset, length),
        }
    }

    /// How the scan goes on from a window that holds no directory records.
    pub open spec fn next(self, bytes: Seq<u8>) -> Result<DirectoryScan, ArchiveError> {
        match self {
            DirectoryScan::EndRecord { size } => match end_record(bytes) {
                Err(e) => Err(e),
                Ok(at) => match end_record_location(bytes.subrange(at, bytes.len() as int)) {
                    Err(e) => Err(e),
                    Ok(Some(location)) => scan_at(location),
                    Ok(None) => if size - bytes.len() + at < 20 {
                        Err(ArchiveError::LocatorMissing)
                    } else {
                        Ok(DirectoryScan::Locator { end_record: (size - bytes.len() + at) as u64 })
                    },
                },
            },
            DirectoryScan::Locator { end_record } => match locator_offset(bytes) {
                Err(e) => Err(e),
                Ok(offset) => Ok(DirectoryScan::Zip64Record { offset }),
            },
            DirectoryScan::Zip64Record { offset } => match zip64_location(bytes) {
                Err(e) => Err(e),
                Ok(location) => scan_at(location),
            },
            DirectoryScan::Entries { .. } => Ok(self),
        }
    }

    /// Goes on with the bytes of the window that was asked for.
    pub fn supply(self, bytes: &[u8]) -> (out: Result<DirectoryStep, ArchiveError>)
        requires
            self.wf(),
            bytes.len() == self.needs().1,
            self.needs().0 + bytes.len() <= u64::MAX,
        ensures
            match self {
                DirectoryScan::Entries { offset, length, count } => match out {
                    Ok(DirectoryStep::Done(directory)) => directory.describes(bytes@, offset as int, count as nat),
                    Ok(DirectoryStep::Read(_)) => false,
                    Err(e) => directory_error(bytes@, count as nat) == Some(e),
                },
                _ => match self.next(bytes@) {
                    Ok(scan) => out == Ok::<DirectoryStep, ArchiveError>(DirectoryStep::Read(scan)) && scan.wf(),
                    Err(e) => out == Err::<DirectoryStep, ArchiveError>(e),
                },
            },
    {
        match self {
            DirectoryScan::EndRecord { size } => {
                let at = eocd_position(bytes)?;
                match read_end_record(vstd::slice::slice_subrange(bytes, at, bytes.len()))? {
                    Some(location) => Ok(DirectoryStep::Read(begin_entries(location)?)),
                    None => {
                        let end_record: u64 = size - bytes.len() as u64 + at as u64;
                        if end_record < 20 {
                            return Err(ArchiveError::LocatorMissing);
                        }
                        Ok(DirectoryStep::Read(DirectoryScan::Locator { end_record }))
                    },
                }
            },
            DirectoryScan::Locator { end_record } => {
                let offset = read_locator(bytes)?;
                Ok(DirectoryStep::Read(DirectoryScan::Zip64Record { offset }))
            },
            DirectoryScan::Zip64Record { offset } => {
                let location = read_zip64_record(bytes)?;
                Ok(DirectoryStep::Read(begin_entries(location)?))
            },
            DirectoryScan::Entries { offset, length, count } => Ok(
                DirectoryStep::Done(read_directory(bytes, offset, count)?),
            ),
        }
    }

    /// How many windows may still follow.
    pub open spec fn rank(self) -> nat {
        match self {
            DirectoryScan::EndRecord { .. } => 3,
            DirectoryScan::Locator { .. } => 2,
            DirectoryScan::Zip64Record { .. } => 1,
            DirectoryScan::Entries { .. } => 0,
        }
    }
}

/// The bytes of a window, if the image holds all of them.
pub open spec fn image_window(image: Seq<u8>, at: (int, int)) -> Option<Seq<u8>> {
    if at.1 == 0 {
        Some(Seq::empty())
    } else if at.0 + at.1 <= image.len() {
        Some(image.subrange(at.0, at.0 + at.1))
    } else {
        None
    }
}

/// Where a scan of the image finds directory records, and how many: their
/// bytes, the offset of these and the count.
pub open spec fn scanned(image: Seq<u8>, scan: DirectoryScan) -> Result<(Seq<u8>, int, nat), ArchiveError>
    decreases scan.rank(),
{
    match image_window(image, scan.needs()) {
        None => Err(ArchiveError::UnexpectedEnd),
        Some(bytes) => match scan {
            DirectoryScan::Entries { offset, length, count } => match directory_error(bytes, count as nat) {
                Some(e) => Err(e),
                None => Ok((bytes, offset as int, count as nat)),
            },
            _ => match scan.next(bytes) {
                Err(e) => Err(e),
                Ok(next) => scanned(image, next),
            },
        },
    }
}

/// Indexes a ZIP archive that is held in memory.
pub fn zip_central_directory(image: &[u8]) -> (out: Result<ZipCentralDirectory, ArchiveError>)
    ensures
        match scanned(image@, DirectoryScan::EndRecord { size: image.len() as u64 }) {
            Ok((bytes, base, count)) => out is Ok && out->Ok_0.describes(bytes, base, count),
            Err(e) => out == Err::<ZipCentralDirectory, ArchiveError>(e),
        },
{
    let mut scan = DirectoryScan::begin(image.len() as u64);
    let ghost whole = scanned(image@, scan);
    loop
        invariant
            scan.wf(),
            whole == scanned(image@, DirectoryScan::EndRecord { size: image.len() as u64 }),
            whole == scanned(image@, scan),
        decreases scan.rank(),
    {
        let (offset, length) = scan.window();
        let step = if length == 0 {
            let nothing: Vec<u8> = Vec::new();
            proof {
                assert(nothing@ =~= Seq::<u8>::empty());
            }
            scan.supply(nothing.as_slice())
        } else {
            if length > image.len() || offset > (image.len() - length) as u64 {
                return Err(ArchiveError::UnexpectedEnd);
            }
            let start: usize = offset as usize;
            scan.supply(vstd::slice::slice_subrange(image, start, start + length))
        };
        match step {
            Err(e) => {
                return Err(e);
            },
            Ok(DirectoryStep::Done(directory)) => {
                return Ok(directory);
            },
            Ok(DirectoryStep::Read(next)) => {
                scan = next;
            },
        }
    }
}

/// What the bytes from the offset `start` on read as once the patches are applied.
pub open spec fn patched(bytes: Seq<u8>, start: int, patches: Map<u64, u8>) -> Seq<u8> {
    Seq::new(
        bytes.len(),
        |i: int|
            if patches.contains_key((start + i) as u64) {
                patches[(start + i) as u64]
            } else {
                bytes[i]
            },
    )
}

/// Applies the patches to bytes that were read from the offset `start` on.
pub fn apply_patches(patches: &BTreeMap<u64, u8>, start: u64, buffer: &mut [u8])
    requires
        start + old(buffer)@.len() <= u64::MAX,
    ensures
        final(buffer)@ == patched(old(buffer)@, start as int, patches@),
{
    let mut i: usize = 0;
    while i < buffer.len()
        invariant
            i <= buffer.len(),
            buffer@.len() == old(buffer)@.len(),
            start + buffer@.len() <= u64::MAX,
            forall|k: int|
                0 <= k < buffer@.len() ==> #[trigger] buffer@[k] == (if k < i {
                    patched(old(buffer)@, start as int, patches@)[k]
                } else {
                    old(buffer)@[k]
                }),
        decreases buffer.len() - i,
    {
        if let Some(value) = patches.get(&(start + i as u64)) {
            buffer[i] = *value;
        }
        i += 1;
    }
    proof {
        assert(buffer@ =~= patched(old(buffer)@, start as int, patches@));
    }
}

proof fn lemma_free_seed(length: nat, used: Set<Seq<u8>>, seed: u64, attempts: nat)
    ensures
        free_seed(length, used, seed, attempts) matches Some(found) ==> !used.contains(candidate(length, found)),
    decreases attempts,
{
    if attempts > 0 && used.contains(candidate(length, seed)) {
        lemma_free_seed(length, used, seed.wrapping_add(1), (attempts - 1) as nat);
    }
}

proof fn lemma_renaming(names: Seq<Seq<u8>>, i: int, used: Set<Seq<u8>>, seed: u64)
    requires
        0 <= i <= names.len(),
        forall|k: int| 0 <= k < names.len() ==> used.contains(#[trigger] names[k]),
        renaming(names, i, used, seed) is Ok,
    ensures
        ({
            let new = renaming(names, i, used, seed)->Ok_0;
            &&& new.len() == names.len() - i
            &&& new.no_duplicates()
            &&& forall|k: int| 0 <= k < new.len() ==> (#[trigger] new[k]).len() == names[i + k].len()
            &&& forall|k: int| 0 <= k < new.len() && first_of_name(names, i + k) ==> #[trigger] new[k] == names[i + k]
            &&& forall|k: int| 0 <= k < new.len() && !first_of_name(names, i + k) ==> !used.contains(#[trigger] new[k])
        }),
    decreases names.len() - i,
{
    if i < names.len() {
        let new = renaming(names, i, used, seed)->Ok_0;
        if first_of_name(names, i) {
            lemma_renaming(names, i + 1, used, seed);
            let rest = renaming(names, i + 1, used, seed)->Ok_0;
            assert(new =~= seq![names[i]] + rest);
            assert forall|l: int| 0 <= l < rest.len() implies rest[l] != names[i] by {
                if first_of_name(names, i + 1 + l) {
                    assert(names[i] != names[i + 1 + l]);
                } else {
                    assert(used.contains(names[i]));
                }
            }
            lemma_prepend(names, i, new, rest);
        } else {
            let found = free_seed(names[i].len(), used, seed, attempts_beside(used.len()))->0;
            let name = candidate(names[i].len(), found);
            let more = used.insert(name);
            lemma_free_seed(names[i].len(), used, seed, attempts_beside(used.len()));
            lemma_candidate_length(names[i].len(), found);
            lemma_renaming(names, i + 1, more, found.wrapping_add(1));
            let rest = renaming(names, i + 1, more, found.wrapping_add(1))->Ok_0;
            assert(new =~= seq![name] + rest);
            assert forall|l: int| 0 <= l < rest.len() implies rest[l] != name by {
                if first_of_name(names, i + 1 + l) {
                    assert(used.contains(names[i + 1 + l]));
                } else {
                    assert(!more.contains(rest[l]));
                }
            }
            assert forall|l: int| 0 <= l < rest.len() && !first_of_name(names, i + 1 + l) implies !used.contains(
                #[trigger] rest[l],
            ) by {
                assert(!more.contains(rest[l]));
            }
            lemma_prepend(names, i, new, rest);
        }
    }
}

proof fn lemma_prepend(names: Seq<Seq<u8>>, i: int, new: Seq<Seq<u8>>, rest: Seq<Seq<u8>>)
    requires
        0 <= i < names.len(),
        new.len() == rest.len() + 1,
        new == seq![new[0]] + rest,
        rest.no_duplicates(),
        forall|l: int| 0 <= l < rest.len() ==> #[trigger] rest[l] != new[0],
    ensures
        new.no_duplicates(),
        forall|k: int| 0 < k < new.len() ==> #[trigger] new[k] == rest[k - 1],
{
    assert forall|k: int| 0 < k < new.len() implies #[trigger] new[k] == rest[k - 1] by {}
    assert forall|k: int, l: int| 0 <= k < new.len() && 0 <= l < new.len() && k != l implies new[k] != new[l] by {
        if k > 0 && l > 0 {
            assert(rest[k - 1] != rest[l - 1]);
        }
    }
}

/// Replacing repeated names keeps every member and the length of its name,
/// leaves the first member of each name as it is, and leaves no two members
/// with one name.
pub proof fn law_renamed_members_are_distinct(names: Seq<Seq<u8>>)
    requires
        renamed(names) is Ok,
    ensures
        renamed(names)->Ok_0.len() == names.len(),
        renamed(names)->Ok_0.no_duplicates(),
        forall|k: int| 0 <= k < names.len() ==> renamed(names)->Ok_0[k].len() == (#[trigger] names[k]).len(),
        forall|k: int|
            0 <= k < names.len() && #[trigger] first_of_name(names, k) ==> renamed(names)->Ok_0[k] == names[k],
{
    assert forall|k: int| 0 <= k < names.len() implies names.to_set().contains(#[trigger] names[k]) by {
        assert(names.contains(names[k]));
    }
    lemma_renaming(names, 0, names.to_set(), 0);
    let new = renamed(names)->Ok_0;
    assert forall|k: int| 0 <= k < names.len() && #[trigger] first_of_name(names, k) implies new[k] == names[k] by {
        assert(first_of_name(names, 0 + k));
        assert(new[k] == names[0 + k]);
    }
}

/// Whether two byte strings agree outside the given spans.
spec fn same_outside(a: Seq<u8>, b: Seq<u8>, spans: Seq<(int, int)>) -> bool {
    &&& a.len() == b.len()
    &&& forall|p: int|
        0 <= p < a.len() && #[trigger] a[p] != b[p] ==> exists|i: int|
            0 <= i < spans.len() && (#[trigger] spans[i]).0 <= p < spans[i].0 + spans[i].1
}

proof fn lemma_spans_survive(a: Seq<u8>, b: Seq<u8>, all: Seq<(int, int)>, done: int, count: nat, cursor: int)
    requires
        0 <= cursor,
        0 <= done <= all.len(),
        name_spans(a, count, cursor) == Ok::<Seq<(int, int)>, ArchiveError>(all.subrange(done, all.len() as int)),
        spans_ordered(all, 0, a.len() as int),
        done > 0 ==> all[done - 1].0 + all[done - 1].1 <= cursor,
        same_outside(a, b, all),
    ensures
        name_spans(b, count, cursor) == name_spans(a, count, cursor),
    decreases count,
{
    if count > 0 {
        let end = record_end(a, cursor);
        let rest = name_spans(a, (count - 1) as nat, end)->Ok_0;
        let tail = all.subrange(done, all.len() as int);
        lemma_name_spans_ordered(a, count, cursor);
        assert(tail.len() == count);
        assert(tail[0] == all[done]);
        assert(all[done] == (cursor + 46, le16(a, cursor + 28)));
        assert forall|p: int| cursor <= p < cursor + 46 implies #[trigger] a[p] == b[p] by {
            if a[p] != b[p] {
                let i = choose|i: int| 0 <= i < all.len() && (#[trigger] all[i]).0 <= p < all[i].0 + all[i].1;
                if i < done {
                    if i < done - 1 {
                        assert(all[i].0 + all[i].1 + 46 <= all[done - 1].0);
                    }
                } else if i > done {
                    assert(all[done].0 + all[done].1 + 46 <= all[i].0);
                }
            }
        }
        assert(rest =~= all.subrange(done + 1, all.len() as int)) by {
            assert(tail =~= seq![(cursor + 46, le16(a, cursor + 28))] + rest);
            assert forall|k: int| 0 <= k < rest.len() implies rest[k] == all[done + 1 + k] by {
                assert(tail[k + 1] == rest[k]);
            }
        }
        lemma_spans_survive(a, b, all, done + 1, (count - 1) as nat, end);
    }
}

/// A reader that applies the patches sees the same records, each under the
/// distinct name chosen for it.
pub proof fn law_patched_directory_has_distinct_names(
    bytes: Seq<u8>,
    base: int,
    count: nat,
    directory: ZipCentralDirectory,
)
    requires
        0 <= base,
        base + bytes.len() <= u64::MAX,
        directory.describes(bytes, base, count),
    ensures
        name_spans(patched(bytes, base, directory.patches@), count, 0) == name_spans(bytes, count, 0),
        names_at(patched(bytes, base, directory.patches@), name_spans(bytes, count, 0)->Ok_0) == renamed(
            name_views(directory.names@),
        )->Ok_0,
        names_at(patched(bytes, base, directory.patches@), name_spans(bytes, count, 0)->Ok_0).no_duplicates(),
{
    let spans = name_spans(bytes, count, 0)->Ok_0;
    let names = names_at(bytes, spans);
    let new = renamed(names)->Ok_0;
    let after = patched(bytes, base, directory.patches@);
    lemma_name_spans_ordered(bytes, count, 0);
    law_renamed_members_are_distinct(names);
    assert(same_outside(bytes, after, spans)) by {
        assert forall|p: int| 0 <= p < bytes.len() && #[trigger] bytes[p] != after[p] implies exists|i: int|
            0 <= i < spans.len() && (#[trigger] spans[i]).0 <= p < spans[i].0 + spans[i].1 by {
            let q = (base + p) as u64;
            assert(directory.patches@.contains_key(q));
            let i = choose|i: int| 0 <= i < names.len() && #[trigger] patched_by(names, spans, base, i, q as int);
            assert(spans[i].0 <= p < spans[i].0 + spans[i].1);
        }
    }
    assert(spans.subrange(0, spans.len() as int) =~= spans);
    lemma_spans_survive(bytes, after, spans, 0, count, 0);
    assert forall|i: int| 0 <= i < spans.len() implies #[trigger] names_at(after, spans)[i] == new[i] by {
        lemma_patched_name(bytes, base, spans, directory.patches@, i);
    }
    assert(names_at(after, spans) =~= new);
}

proof fn lemma_patched_name(bytes: Seq<u8>, base: int, spans: Seq<(int, int)>, patches: Map<u64, u8>, i: int)
    requires
        0 <= base,
        base + bytes.len() <= u64::MAX,
        spans_ordered(spans, 0, bytes.len() as int),
        renamed(names_at(bytes, spans)) is Ok,
        patches_match(
            patches,
            names_at(bytes, spans),
            renamed(names_at(bytes, spans))->Ok_0,
            spans,
            base,
            spans.len() as int,
        ),
        0 <= i < spans.len(),
    ensures
        names_at(patched(bytes, base, patches), spans)[i] == renamed(names_at(bytes, spans))->Ok_0[i],
{
    let names = names_at(bytes, spans);
    let new = renamed(names)->Ok_0;
    let after = patched(bytes, base, patches);
    let got = names_at(after, spans)[i];
    law_renamed_members_are_distinct(names);
    assert(names[i].len() == spans[i].1);
    assert(new[i].len() == names[i].len());
    assert forall|r: int| 0 <= r < got.len() implies got[r] == new[i][r] by {
        let q = (base + spans[i].0 + r) as u64;
        assert(got[r] == after[spans[i].0 + r]);
        if first_of_name(names, i) {
            if patches.contains_key(q) {
                let k = choose|k: int| 0 <= k < spans.len() && #[trigger] patched_by(names, spans, base, k, q as int);
                if k < i {
                    assert(spans[k].0 + spans[k].1 + 46 <= spans[i].0);
                } else if k > i {
                    assert(spans[i].0 + spans[i].1 + 46 <= spans[k].0);
                }
                assert(false);
            }
            assert(new[i] == names[i]);
            assert(names[i][r] == bytes[spans[i].0 + r]);
        } else {
            assert(patched_by(names, spans, base, i, q as int));
        }
    }
    assert(got =~= new[i]);
}

} // verus!
