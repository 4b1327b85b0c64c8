//! The reasons for which an archive is refused.

use vstd::prelude::*;

use crate::text::{decimal, decimal_text};

verus! {

#[derive(Clone, Copy, Debug, PartialEq, Eq, Structural)]
pub enum ArchiveError {
    /// A window lies past the end of the source.
    UnexpectedEnd,
    TruncatedMetadata,
    EndRecordMissing,
    EndRecordTruncated,
    EndRecordComment,
    MultiDisk,
    LocatorMissing,
    MultiDiskZip64,
    Zip64RecordMissing,
    Zip64EntryCount,
    DuplicateEmptyName,
    /// No free name of this length was found.
    TooManyDuplicates(usize),
    TooManyEntries,
    DirectoryTooLarge,
    DirectoryOverBudget,
    EntrySignature,
    EntryTruncated,
    MemberCount,
    PathTooLong,
    LinkTooLong,
    MetadataOverBudget,
    ScanOverBudget,
    NotTar,
    NotTarFormat,
    Cancelled,
    Changed,
}

impl ArchiveError {
    /// What the user is told.
    pub open spec fn text(self) -> Seq<char> {
        match self {
            ArchiveError::UnexpectedEnd => "failed to fill whole buffer"@,
            ArchiveError::TruncatedMetadata => "truncated ZIP metadata"@,
            ArchiveError::EndRecordMissing => "ZIP end-of-central-directory record is missing"@,
            ArchiveError::EndRecordTruncated => "truncated ZIP end-of-central-directory record"@,
            ArchiveError::EndRecordComment => "invalid ZIP end-of-central-directory comment length"@,
            ArchiveError::MultiDisk => "multi-disk ZIP archives are not supported"@,
            ArchiveError::LocatorMissing => "ZIP64 locator is missing"@,
            ArchiveError::MultiDiskZip64 => "multi-disk ZIP64 archives are not supported"@,
            ArchiveError::Zip64RecordMissing => "ZIP64 end-of-central-directory record is missing"@,
            ArchiveError::Zip64EntryCount => "invalid ZIP64 entry count"@,
            ArchiveError::DuplicateEmptyName => "duplicate empty ZIP member names cannot be indexed"@,
            ArchiveError::TooManyDuplicates(length) => "too many duplicate ZIP names of length "@
                + decimal_text(length as nat),
            ArchiveError::TooManyEntries => "archives are limited to 100000 entries"@,
            ArchiveError::DirectoryTooLarge => "ZIP central directory is too large"@,
            ArchiveError::DirectoryOverBudget => "ZIP central directory exceeds its bounded scan budget"@,
            ArchiveError::EntrySignature => "invalid ZIP central-directory entry signature"@,
            ArchiveError::EntryTruncated => "truncated ZIP central-directory entry"@,
            ArchiveError::MemberCount => "ZIP member index could not preserve every central-directory entry"@,
            ArchiveError::PathTooLong => "archive entry paths are limited to 32768 bytes"@,
            ArchiveError::LinkTooLong => "archive link targets are limited to 32768 bytes"@,
            ArchiveError::MetadataOverBudget => "archive metadata exceeds the 33554432 byte budget"@,
            ArchiveError::ScanOverBudget => "TAR decompressed scan budget exceeded"@,
            ArchiveError::NotTar => "input is not a structurally valid TAR archive"@,
            ArchiveError::NotTarFormat => "not a TAR archive format"@,
            ArchiveError::Cancelled => "archive operation cancelled"@,
            ArchiveError::Changed => "archive file changed on disk; retry opening it"@,
        }
    }

    /// What the user is told.
    pub fn message(self) -> (out: String)
        ensures
            out@ == self.text(),
    {
        match self {
            ArchiveError::UnexpectedEnd => "failed to fill whole buffer".to_owned(),
            ArchiveError::TruncatedMetadata => "truncated ZIP metadata".to_owned(),
            ArchiveError::EndRecordMissing => "ZIP end-of-central-directory record is missing".to_owned(),
            ArchiveError::EndRecordTruncated => "truncated ZIP end-of-central-directory record".to_owned(),
            ArchiveError::EndRecordComment => "invalid ZIP end-of-central-directory comment length".to_owned(),
            ArchiveError::MultiDisk => "multi-disk ZIP archives are not supported".to_owned(),
            ArchiveError::LocatorMissing => "ZIP64 locator is missing".to_owned(),
            ArchiveError::MultiDiskZip64 => "multi-disk ZIP64 archives are not supported".to_owned(),
            ArchiveError::Zip64RecordMissing => "ZIP64 end-of-central-directory record is missing".to_owned(),
            ArchiveError::Zip64EntryCount => "invalid ZIP64 entry count".to_owned(),
            ArchiveError::DuplicateEmptyName => "duplicate empty ZIP member names cannot be indexed".to_owned(),
            ArchiveError::TooManyDuplicates(length) => "too many duplicate ZIP names of length ".to_owned().concat(
                decimal(length as u64).as_str(),
            ),
            ArchiveError::TooManyEntries => "archives are limited to 100000 entries".to_owned(),
            ArchiveError::DirectoryTooLarge => "ZIP central directory is too large".to_owned(),
            ArchiveError::DirectoryOverBudget => "ZIP central directory exceeds its bounded scan budget".to_owned(),
            ArchiveError::EntrySignature => "invalid ZIP central-directory entry signature".to_owned(),
            ArchiveError::EntryTruncated => "truncated ZIP central-directory entry".to_owned(),
            ArchiveError::MemberCount => "ZIP member index could not preserve every central-directory entry".to_owned(),
            ArchiveError::PathTooLong => "archive entry paths are limited to 32768 bytes".to_owned(),
            ArchiveError::LinkTooLong => "archive link targets are limited to 32768 bytes".to_owned(),
            ArchiveError::MetadataOverBudget => "archive metadata exceeds the 33554432 byte budget".to_owned(),
            ArchiveError::ScanOverBudget => "TAR decompressed scan budget exceeded".to_owned(),
            ArchiveError::NotTar => "input is not a structurally valid TAR archive".to_owned(),
            ArchiveError::NotTarFormat => "not a TAR archive format".to_owned(),
            ArchiveError::Cancelled => "archive operation cancelled".to_owned(),
            ArchiveError::Changed => "archive file changed on disk; retry opening it".to_owned(),
        }
    }
}

} // verus!
