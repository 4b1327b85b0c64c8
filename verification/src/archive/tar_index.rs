//! TAR archives: detection, the scan budget and the index of members.

use vstd::prelude::*;

use crate::archive::entries::{
    account_metadata, budgeted, entry_views, path_display, path_is_metadata_only, total_weight, unsafe_path,
    ArchiveEntryMetadata, ArchiveFormat, EntryKind, EntryView, MAX_PATH_BYTES,
};
use crate::archive::error::ArchiveError;
use crate::archive::zip_directory::{MAX_ENTRIES, MAX_METADATA_BYTES};
use crate::text::{decimal, decimal_text, lossy_text};

verus! {

pub const MAX_TAR_SCAN_BYTES: u64 = 536_870_912;

/// The first bytes of a file, with zeros where the file is shorter.
pub const PREFIX_BYTES: usize = 8;

/// Whether the bytes start with the given ones.
pub open spec fn starts(bytes: Seq<u8>, with: Seq<u8>) -> bool {
    with.len() <= bytes.len() && bytes.subrange(0, with.len() as int) == with
}

/// The compression of a TAR archive that starts with these bytes.
pub open spec fn tar_format(prefix: Seq<u8>) -> ArchiveFormat {
    if starts(prefix, seq![0x1fu8, 0x8b]) {
        ArchiveFormat::TarGzip
    } else if starts(prefix, seq![0x42u8, 0x5a, 0x68]) {
        ArchiveFormat::TarBzip2
    } else if starts(prefix, seq![0xfdu8, 0x37, 0x7a, 0x58, 0x5a, 0]) {
        ArchiveFormat::TarXz
    } else if starts(prefix, seq![0x28u8, 0xb5, 0x2f, 0xfd]) {
        ArchiveFormat::TarZstd
    } else {
        ArchiveFormat::Tar
    }
}

fn starts_with_bytes(bytes: &[u8], with: &[u8]) -> (out: bool)
    ensures
        out == starts(bytes@, with@),
{
    if with.len() > bytes.len() {
        return false;
    }
    let mut i: usize = 0;
    while i < with.len()
        invariant
            i <= with.len(),
            with.len() <= bytes.len(),
            forall|k: int| 0 <= k < i ==> bytes@[k] == with@[k],
        decreases with.len() - i,
    {
        if bytes[i] != with[i] {
            proof {
                assert(bytes@.subrange(0, with@.len() as int)[i as int] != with@[i as int]);
            }
            return false;
        }
        i += 1;
    }
    proof {
        assert(bytes@.subrange(0, with@.len() as int) =~= with@);
    }
    true
}

/// The compression of a TAR archive that starts with these bytes.
pub fn detect_tar_format(prefix: &[u8]) -> (out: ArchiveFormat)
    requires
        prefix.len() == PREFIX_BYTES,
    ensures
        out == tar_format(prefix@),
{
    if starts_with_bytes(prefix, &[0x1f, 0x8b]) {
        ArchiveFormat::TarGzip
    } else if starts_with_bytes(prefix, &[0x42, 0x5a, 0x68]) {
        ArchiveFormat::TarBzip2
    } else if starts_with_bytes(prefix, &[0xfd, 0x37, 0x7a, 0x58, 0x5a, 0]) {
        ArchiveFormat::TarXz
    } else if starts_with_bytes(prefix, &[0x28, 0xb5, 0x2f, 0xfd]) {
        ArchiveFormat::TarZstd
    } else {
        ArchiveFormat::Tar
    }
}

/// How an archive is to be indexed.
#[derive(Clone, Copy, Debug, PartialEq, Eq, Structural)]
pub enum Container {
    Zip,
    Tar(ArchiveFormat),
}

/// How a file that starts with these bytes is to be indexed.
pub open spec fn container(prefix: Seq<u8>) -> Result<Container, ArchiveError> {
    if starts(prefix, seq![0x50u8, 0x4b, 3, 4]) || starts(prefix, seq![0x50u8, 0x4b, 5, 6]) || starts(
        prefix,
        seq![0x50u8, 0x4b, 6, 6],
    ) {
        Ok(Container::Zip)
    } else if starts(prefix, seq![0x50u8, 0x4b, 7, 8]) {
        Err(ArchiveError::MultiDisk)
    } else {
        Ok(Container::Tar(tar_format(prefix)))
    }
}

/// How a file that starts with these bytes is to be indexed.
pub fn detect_container(prefix: &[u8]) -> (out: Result<Container, ArchiveError>)
    requires
        prefix.len() == PREFIX_BYTES,
    ensures
        out == container(prefix@),
{
    if starts_with_bytes(prefix, &[0x50, 0x4b, 3, 4]) || starts_with_bytes(prefix, &[0x50, 0x4b, 5, 6])
        || starts_with_bytes(prefix, &[0x50, 0x4b, 6, 6]) {
        Ok(Container::Zip)
    } else if starts_with_bytes(prefix, &[0x50, 0x4b, 7, 8]) {
        Err(ArchiveError::MultiDisk)
    } else {
        Ok(Container::Tar(detect_tar_format(prefix)))
    }
}

/// How many decompressed bytes of a TAR archive may still be scanned.
#[derive(Clone, Copy, Debug, PartialEq, Eq, Structural)]
pub struct ScanBudget {
    pub consumed: u64,
    pub limit: u64,
}

impl ScanBudget {
    pub open spec fn wf(self) -> bool {
        self.consumed <= self.limit
    }

    pub fn new(limit: u64) -> (out: ScanBudget)
        ensures
            out.wf(),
            out.consumed == 0,
            out.limit == limit,
    {
        ScanBudget { consumed: 0, limit }
    }

    /// How many of the wanted bytes the next read may deliver.
    pub fn allowance(&self, wanted: usize, cancelled: bool) -> (out: Result<usize, ArchiveError>)
        requires
            self.wf(),
        ensures
            cancelled ==> out == Err::<usize, ArchiveError>(ArchiveError::Cancelled),
            !cancelled && self.consumed == self.limit ==> out == Err::<usize, ArchiveError>(ArchiveError::ScanOverBudget),
            !cancelled && self.consumed < self.limit ==> out is Ok && out->Ok_0 == (if self.limit - self.consumed < wanted {
                self.limit - self.consumed
            } else {
                wanted as int
            }),
    {
        if cancelled {
            return Err(ArchiveError::Cancelled);
        }
        if self.consumed >= self.limit {
            return Err(ArchiveError::ScanOverBudget);
        }
        let left: u64 = self.limit - self.consumed;
        if left < wanted as u64 {
            Ok(left as usize)
        } else {
            Ok(wanted)
        }
    }

    /// Counts bytes that were read within the allowance.
    pub fn record(&mut self, read: usize)
        requires
            old(self).consumed + read <= old(self).limit,
        ensures
            final(self).wf(),
            final(self).consumed == old(self).consumed + read,
            final(self).limit == old(self).limit,
    {
        self.consumed = self.consumed + read as u64;
    }
}

/// What a TAR header says the member is.
#[derive(Clone, Copy, Debug, PartialEq, Eq, Structural)]
pub enum TarEntryType {
    Regular,
    Contiguous,
    Directory,
    Symlink,
    HardLink,
    GnuSparse,
    Other,
}

impl TarEntryType {
    pub open spec fn kind(self) -> EntryKind {
        match self {
            TarEntryType::Directory => EntryKind::Directory,
            TarEntryType::Symlink => EntryKind::Symlink,
            TarEntryType::HardLink => EntryKind::HardLink,
            TarEntryType::GnuSparse => EntryKind::Sparse,
            TarEntryType::Regular => EntryKind::File,
            TarEntryType::Contiguous => EntryKind::File,
            TarEntryType::Other => EntryKind::Special,
        }
    }
}

/// The kind of a TAR member, and whether such members can be read.
pub fn tar_kind(entry_type: TarEntryType) -> (out: (EntryKind, bool))
    ensures
        out.0 == entry_type.kind(),
        out.1 == (entry_type.kind() is File),
{
    match entry_type {
        TarEntryType::Directory => (EntryKind::Directory, false),
        TarEntryType::Symlink => (EntryKind::Symlink, false),
        TarEntryType::HardLink => (EntryKind::HardLink, false),
        TarEntryType::GnuSparse => (EntryKind::Sparse, false),
        TarEntryType::Regular => (EntryKind::File, true),
        TarEntryType::Contiguous => (EntryKind::File, true),
        TarEntryType::Other => (EntryKind::Special, false),
    }
}

/// What the header says of a TAR member.
#[derive(Debug)]
pub struct TarMember {
    pub path: Vec<u8>,
    pub link_name: Option<Vec<u8>>,
    pub entry_type: TarEntryType,
    pub size: u64,
    pub mode: Option<u32>,
    pub mtime: Option<u64>,
    pub raw_file_position: u64,
}

/// The entry that a TAR member becomes.
pub open spec fn tar_entry(index: nat, format: ArchiveFormat, member: TarMember) -> Result<EntryView, ArchiveError> {
    if index >= MAX_ENTRIES {
        Err(ArchiveError::TooManyEntries)
    } else if member.path@.len() > MAX_PATH_BYTES {
        Err(ArchiveError::PathTooLong)
    } else if member.link_name is Some && member.link_name->0@.len() > MAX_PATH_BYTES {
        Err(ArchiveError::PathTooLong)
    } else {
        Ok(
            EntryView {
                index,
                display_path: lossy_text(member.path@),
                kind: if unsafe_path(member.path@) {
                    EntryKind::UnsafePath
                } else {
                    member.entry_type.kind()
                },
                size: member.size,
                compressed_size: None,
                mode: member.mode,
                timestamp: match member.mtime {
                    Some(time) => Some(decimal_text(time as nat)),
                    None => None,
                },
                link_target: match member.link_name {
                    Some(name) => Some(lossy_text(name@)),
                    None => None,
                },
                compression: format.name(),
                encrypted: false,
                raw_file_position: if format.is_compressed_tar() {
                    None
                } else {
                    Some(member.raw_file_position)
                },
                readable: member.entry_type.kind() is File && !unsafe_path(member.path@),
            },
        )
    }
}

fn describe_tar_member(index: usize, format: ArchiveFormat, member: &TarMember) -> (out: Result<
    ArchiveEntryMetadata,
    ArchiveError,
>)
    ensures
        match tar_entry(index as nat, format, *member) {
            Ok(view) => out is Ok && out->Ok_0@ == view,
            Err(e) => out == Err::<ArchiveEntryMetadata, ArchiveError>(e),
        },
{
    if index >= MAX_ENTRIES {
        return Err(ArchiveError::TooManyEntries);
    }
    let (kind, readable) = tar_kind(member.entry_type);
    let metadata_only_path = path_is_metadata_only(member.path.as_slice());
    let display_path = path_display(member.path.as_slice())?;
    let link_target = match &member.link_name {
        Some(name) => Some(path_display(name.as_slice())?),
        None => None,
    };
    let shown = if metadata_only_path {
        EntryKind::UnsafePath
    } else {
        kind
    };
    let timestamp = match member.mtime {
        Some(time) => Some(decimal(time)),
        None => None,
    };
    let raw_file_position = if format.compressed_tar() {
        None
    } else {
        Some(member.raw_file_position)
    };
    Ok(
        ArchiveEntryMetadata {
            index,
            display_path,
            kind: shown,
            size: member.size,
            compressed_size: None,
            mode: member.mode,
            timestamp,
            link_target,
            compression: format.label().to_owned(),
            encrypted: false,
            raw_file_position,
            readable: readable && !metadata_only_path,
        },
    )
}

/// An index of TAR members that grows member by member.
pub struct TarIndexer {
    format: ArchiveFormat,
    entries: Vec<ArchiveEntryMetadata>,
    metadata_bytes: usize,
}

impl View for TarIndexer {
    type V = Seq<EntryView>;

    closed spec fn view(&self) -> Seq<EntryView> {
        entry_views(self.entries@)
    }
}

impl TarIndexer {
    pub closed spec fn wf(&self) -> bool {
        &&& self.metadata_bytes == total_weight(self@)
        &&& self.metadata_bytes <= MAX_METADATA_BYTES
    }

    pub closed spec fn tar(&self) -> ArchiveFormat {
        self.format
    }

    /// An index of an archive of the given format, which must be a TAR format.
    pub fn new(format: ArchiveFormat) -> (out: Result<TarIndexer, ArchiveError>)
        ensures
            format is Tar || format.is_compressed_tar() ==> out is Ok && out->Ok_0.wf() && out->Ok_0.tar() == format
                && out->Ok_0@ == Seq::<EntryView>::empty(),
            !(format is Tar || format.is_compressed_tar()) ==> out == Err::<TarIndexer, ArchiveError>(
                ArchiveError::NotTarFormat,
            ),
    {
        if format != ArchiveFormat::Tar && !format.compressed_tar() {
            return Err(ArchiveError::NotTarFormat);
        }
        let out = TarIndexer { format, entries: Vec::new(), metadata_bytes: 0 };
        proof {
            assert(out@ =~= Seq::<EntryView>::empty());
        }
        Ok(out)
    }

    /// Adds the next member of the archive.
    pub fn add_member(&mut self, member: &TarMember) -> (out: Result<(), ArchiveError>)
        requires
            old(self).wf(),
        ensures
            final(self).tar() == old(self).tar(),
            match budgeted(
                tar_entry(old(self)@.len(), old(self).tar(), *member),
                total_weight(old(self)@) as int,
            ) {
                Ok(view) => out is Ok && final(self).wf() && final(self)@ == old(self)@.push(view),
                Err(e) => out == Err::<(), ArchiveError>(e) && final(self)@ == old(self)@,
            },
    {
        let ghost before = *self;
        let entry = describe_tar_member(self.entries.len(), self.format, member)?;
        account_metadata(&mut self.metadata_bytes, &entry)?;
        self.entries.push(entry);
        proof {
            assert(self@ =~= before@.push(entry@));
            assert(self@.drop_last() =~= before@);
        }
        Ok(())
    }

    /// The entries, once `consumed` decompressed bytes were scanned.
    pub fn finish(self, consumed: u64) -> (out: Result<Vec<ArchiveEntryMetadata>, ArchiveError>)
        ensures
            consumed == 0 ==> out == Err::<Vec<ArchiveEntryMetadata>, ArchiveError>(ArchiveError::NotTar),
            consumed > 0 ==> out is Ok && entry_views(out->Ok_0@) == self@,
    {
        if consumed == 0 {
            return Err(ArchiveError::NotTar);
        }
        Ok(self.entries)
    }
}

/// The entries of the members from the one after `done` on.
pub open spec fn tar_entries(format: ArchiveFormat, members: Seq<TarMember>, done: Seq<EntryView>) -> Result<
    Seq<EntryView>,
    ArchiveError,
>
    decreases members.len() - done.len(),
{
    let i = done.len();
    if i >= members.len() {
        Ok(done)
    } else {
        match budgeted(tar_entry(i, format, members[i as int]), total_weight(done) as int) {
            Err(e) => Err(e),
            Ok(view) => tar_entries(format, members, done.push(view)),
        }
    }
}

/// Indexes all the members of a TAR archive, of which `consumed`
/// decompressed bytes were scanned.
pub fn index_tar(format: ArchiveFormat, members: &Vec<TarMember>, consumed: u64) -> (out: Result<
    Vec<ArchiveEntryMetadata>,
    ArchiveError,
>)
    ensures
        !(format is Tar || format.is_compressed_tar()) ==> out == Err::<Vec<ArchiveEntryMetadata>, ArchiveError>(
            ArchiveError::NotTarFormat,
        ),
        format is Tar || format.is_compressed_tar() ==> match tar_entries(format, members@, Seq::empty()) {
            Ok(views) => if consumed == 0 {
                out == Err::<Vec<ArchiveEntryMetadata>, ArchiveError>(ArchiveError::NotTar)
            } else {
                out is Ok && entry_views(out->Ok_0@) == views
            },
            Err(e) => out == Err::<Vec<ArchiveEntryMetadata>, ArchiveError>(e),
        },
{
    let mut indexer = TarIndexer::new(format)?;
    let mut i: usize = 0;
    while i < members.len()
        invariant
            i <= members.len(),
            format is Tar || format.is_compressed_tar(),
            indexer.wf(),
            indexer.tar() == format,
            indexer@.len() == i,
            tar_entries(format, members@, Seq::empty()) == tar_entries(format, members@, indexer@),
        decreases members.len() - i,
    {
        match indexer.add_member(&members[i]) {
            Ok(()) => {},
            Err(e) => {
                return Err(e);
            },
        }
        i += 1;
    }
    indexer.finish(consumed)
}

/// A TAR index keeps every member, duplicates too, at its own index.
pub proof fn law_tar_index_keeps_every_member(format: ArchiveFormat, members: Seq<TarMember>, done: Seq<EntryView>)
    requires
        done.len() <= members.len(),
        forall|i: int| 0 <= i < done.len() ==> tar_entry(i as nat, format, members[i]) == Ok::<EntryView, ArchiveError>(#[trigger] done[i]),
        tar_entries(format, members, done) is Ok,
    ensures
        tar_entries(format, members, done)->Ok_0.len() == members.len(),
        forall|i: int|
            0 <= i < members.len() ==> tar_entry(i as nat, format, members[i]) == Ok::<EntryView, ArchiveError>(#[trigger] tar_entries(format, members, done)->Ok_0[i]),
    decreases members.len() - done.len(),
{
    let i = done.len();
    if i < members.len() {
        let view = tar_entry(i, format, members[i as int])->Ok_0;
        law_tar_index_keeps_every_member(format, members, done.push(view));
    }
}

} // verus!
