//! The members of an archive and how they are indexed.

use vstd::prelude::*;
use vstd::utf8::valid_utf8;

use crate::archive::error::ArchiveError;
use crate::archive::zip_directory::MAX_METADATA_BYTES;
use crate::text::{
    ascii_lowercase, byte_length, ends_text, ends_with, from_utf8_lossy, is_utf8, lossy_text, lower_text,
    optional_text, same_text, text_bytes,
};

verus! {

pub const MAX_PATH_BYTES: usize = 32_768;

#[derive(Clone, Copy, Debug, PartialEq, Eq, Structural)]
pub enum ArchiveFormat {
    Zip,
    Jar,
    Wheel,
    Tar,
    TarGzip,
    TarBzip2,
    TarXz,
    TarZstd,
}

impl ArchiveFormat {
    pub open spec fn name(self) -> Seq<char> {
        match self {
            ArchiveFormat::Zip => "zip"@,
            ArchiveFormat::Jar => "jar"@,
            ArchiveFormat::Wheel => "wheel"@,
            ArchiveFormat::Tar => "tar"@,
            ArchiveFormat::TarGzip => "tar-gzip"@,
            ArchiveFormat::TarBzip2 => "tar-bzip2"@,
            ArchiveFormat::TarXz => "tar-xz"@,
            ArchiveFormat::TarZstd => "tar-zstd"@,
        }
    }

    pub fn label(self) -> (out: &'static str)
        ensures
            out@ == self.name(),
    {
        match self {
            ArchiveFormat::Zip => "zip",
            ArchiveFormat::Jar => "jar",
            ArchiveFormat::Wheel => "wheel",
            ArchiveFormat::Tar => "tar",
            ArchiveFormat::TarGzip => "tar-gzip",
            ArchiveFormat::TarBzip2 => "tar-bzip2",
            ArchiveFormat::TarXz => "tar-xz",
            ArchiveFormat::TarZstd => "tar-zstd",
        }
    }

    pub open spec fn is_compressed_tar(self) -> bool {
        self is TarGzip || self is TarBzip2 || self is TarXz || self is TarZstd
    }

    pub fn compressed_tar(self) -> (out: bool)
        ensures
            out == self.is_compressed_tar(),
    {
        matches!(
            self,
            ArchiveFormat::TarGzip | ArchiveFormat::TarBzip2 | ArchiveFormat::TarXz | ArchiveFormat::TarZstd
        )
    }
}

#[derive(Clone, Copy, Debug, PartialEq, Eq, Structural)]
pub enum EntryKind {
    File,
    Directory,
    Symlink,
    HardLink,
    Sparse,
    Special,
    /// The path is absolute, leaves the archive or cannot be shown as it is.
    UnsafePath,
}

impl EntryKind {
    pub open spec fn name(self) -> Seq<char> {
        match self {
            EntryKind::File => "file"@,
            EntryKind::Directory => "directory"@,
            EntryKind::Symlink => "symlink"@,
            EntryKind::HardLink => "hard-link"@,
            EntryKind::Sparse => "sparse"@,
            EntryKind::Special => "special"@,
            EntryKind::UnsafePath => "unsafe-path"@,
        }
    }

    pub fn label(self) -> (out: &'static str)
        ensures
            out@ == self.name(),
    {
        match self {
            EntryKind::File => "file",
            EntryKind::Directory => "directory",
            EntryKind::Symlink => "symlink",
            EntryKind::HardLink => "hard-link",
            EntryKind::Sparse => "sparse",
            EntryKind::Special => "special",
            EntryKind::UnsafePath => "unsafe-path",
        }
    }
}

#[derive(Debug)]
pub struct ArchiveEntryMetadata {
    pub index: usize,
    pub display_path: String,
    pub kind: EntryKind,
    pub size: u64,
    pub compressed_size: Option<u64>,
    pub mode: Option<u32>,
    pub timestamp: Option<String>,
    pub link_target: Option<String>,
    pub compression: String,
    pub encrypted: bool,
    pub raw_file_position: Option<u64>,
    pub readable: bool,
}

/// The contents of an [`ArchiveEntryMetadata`].
pub struct EntryView {
    pub index: nat,
    pub display_path: Seq<char>,
    pub kind: EntryKind,
    pub size: u64,
    pub compressed_size: Option<u64>,
    pub mode: Option<u32>,
    pub timestamp: Option<Seq<char>>,
    pub link_target: Option<Seq<char>>,
    pub compression: Seq<char>,
    pub encrypted: bool,
    pub raw_file_position: Option<u64>,
    pub readable: bool,
}

impl View for ArchiveEntryMetadata {
    type V = EntryView;

    open spec fn view(&self) -> EntryView {
        EntryView {
            index: self.index as nat,
            display_path: self.display_path@,
            kind: self.kind,
            size: self.size,
            compressed_size: self.compressed_size,
            mode: self.mode,
            timestamp: optional_text(self.timestamp),
            link_target: optional_text(self.link_target),
            compression: self.compression@,
            encrypted: self.encrypted,
            raw_file_position: self.raw_file_position,
            readable: self.readable,
        }
    }
}

pub open spec fn entry_views(entries: Seq<ArchiveEntryMetadata>) -> Seq<EntryView> {
    Seq::new(entries.len(), |i: int| entries[i]@)
}

pub open spec fn optional_length(text: Option<Seq<char>>) -> nat {
    match text {
        Some(text) => byte_length(text),
        None => 0,
    }
}

/// The bytes of the metadata budget that an entry takes.
pub open spec fn metadata_weight(entry: EntryView) -> nat {
    byte_length(entry.display_path) + optional_length(entry.link_target) + byte_length(entry.compression)
        + optional_length(entry.timestamp) + 96
}

fn optional_bytes(text: &Option<String>) -> (out: usize)
    ensures
        out == optional_length(optional_text(*text)),
{
    match text {
        Some(text) => text_bytes(text.as_str()),
        None => 0,
    }
}

/// Adds an entry to the metadata total and refuses a total over the budget.
pub fn account_metadata(total: &mut usize, entry: &ArchiveEntryMetadata) -> (out: Result<(), ArchiveError>)
    ensures
        *final(total) == (if *old(total) + metadata_weight(entry@) > usize::MAX {
            usize::MAX as int
        } else {
            *old(total) + metadata_weight(entry@)
        }),
        out == (if *old(total) + metadata_weight(entry@) > MAX_METADATA_BYTES {
            Err::<(), ArchiveError>(ArchiveError::MetadataOverBudget)
        } else {
            Ok::<(), ArchiveError>(())
        }),
{
    let added: usize = text_bytes(entry.display_path.as_str()).saturating_add(
        optional_bytes(&entry.link_target),
    ).saturating_add(text_bytes(entry.compression.as_str())).saturating_add(
        optional_bytes(&entry.timestamp),
    ).saturating_add(96);
    *total = total.saturating_add(added);
    if *total > MAX_METADATA_BYTES {
        return Err(ArchiveError::MetadataOverBudget);
    }
    Ok(())
}

/// The path as it is shown, if it is not too long.
pub fn path_display(bytes: &[u8]) -> (out: Result<String, ArchiveError>)
    ensures
        match out {
            Ok(text) => bytes.len() <= MAX_PATH_BYTES && text@ == lossy_text(bytes@),
            Err(e) => bytes.len() > MAX_PATH_BYTES && e == ArchiveError::PathTooLong,
        },
{
    if bytes.len() > MAX_PATH_BYTES {
        return Err(ArchiveError::PathTooLong);
    }
    Ok(from_utf8_lossy(bytes))
}

/// Whether the byte separates the components of a path.
pub open spec fn separator(byte: u8) -> bool {
    byte == 0x2f || byte == 0x5c
}

/// Whether the byte is an ASCII letter.
pub open spec fn letter(byte: u8) -> bool {
    0x41 <= byte <= 0x5a || 0x61 <= byte <= 0x7a
}

/// Whether the component of the path that starts at `i` is `..`.
pub open spec fn parent_at(bytes: Seq<u8>, i: int) -> bool {
    &&& 0 <= i
    &&& i + 2 <= bytes.len()
    &&& bytes[i] == 0x2e
    &&& bytes[i + 1] == 0x2e
    &&& i == 0 || separator(bytes[i - 1])
    &&& i + 2 == bytes.len() || separator(bytes[i + 2])
}

/// Whether a path is only listed, never read.
pub open spec fn unsafe_path(bytes: Seq<u8>) -> bool {
    ||| bytes.len() == 0
    ||| !valid_utf8(bytes)
    ||| bytes.contains(0)
    ||| separator(bytes[0])
    ||| bytes.len() >= 3 && letter(bytes[0]) && bytes[1] == 0x3a && separator(bytes[2])
    ||| exists|i: int| parent_at(bytes, i)
}

fn is_separator(byte: u8) -> (out: bool)
    ensures
        out == separator(byte),
{
    byte == 0x2f || byte == 0x5c
}

/// Whether a path is only listed, never read.
pub fn path_is_metadata_only(bytes: &[u8]) -> (out: bool)
    ensures
        out == unsafe_path(bytes@),
{
    if bytes.len() == 0 || !is_utf8(bytes) || is_separator(bytes[0]) {
        return true;
    }
    if bytes.len() >= 3 && ((0x41 <= bytes[0] && bytes[0] <= 0x5a) || (0x61 <= bytes[0] && bytes[0] <= 0x7a)) && bytes[1]
        == 0x3a && is_separator(bytes[2]) {
        return true;
    }
    let mut i: usize = 0;
    while i < bytes.len()
        invariant
            i <= bytes.len(),
            forall|k: int| 0 <= k < i ==> bytes@[k] != 0,
            forall|k: int| 0 <= k < i ==> !parent_at(bytes@, k),
        decreases bytes.len() - i,
    {
        if bytes[i] == 0 {
            proof {
                assert(bytes@[i as int] == 0);
            }
            return true;
        }
        if bytes[i] == 0x2e && bytes.len() - i >= 2 && bytes[i + 1] == 0x2e && (i == 0 || is_separator(bytes[i - 1])) && (
        bytes.len() - i == 2 || is_separator(bytes[i + 2])) {
            proof {
                assert(parent_at(bytes@, i as int));
            }
            return true;
        }
        i += 1;
    }
    false
}

/// What the directory says of a ZIP member.
#[derive(Debug)]
pub struct ZipMember {
    pub is_dir: bool,
    pub is_symlink: bool,
    pub is_file: bool,
    pub encrypted: bool,
    pub size: u64,
    pub compressed_size: u64,
    pub mode: Option<u32>,
    pub timestamp: Option<String>,
    /// The name of the compression method.
    pub compression: String,
    /// The contents of a symbolic link.
    pub link: Vec<u8>,
}

impl ZipMember {
    pub open spec fn kind(&self) -> EntryKind {
        if self.is_dir {
            EntryKind::Directory
        } else if self.is_symlink {
            EntryKind::Symlink
        } else if self.is_file {
            EntryKind::File
        } else {
            EntryKind::Special
        }
    }

    /// Whether the member's contents name the target of a link.
    pub open spec fn is_link(&self) -> bool {
        self.kind() is Symlink && !self.encrypted
    }
}

/// The kind of a ZIP member, and whether such members can be read.
pub fn zip_kind(member: &ZipMember) -> (out: (EntryKind, bool))
    ensures
        out.0 == member.kind(),
        out.1 == (member.kind() is File),
{
    if member.is_dir {
        (EntryKind::Directory, false)
    } else if member.is_symlink {
        (EntryKind::Symlink, false)
    } else if member.is_file {
        (EntryKind::File, true)
    } else {
        (EntryKind::Special, false)
    }
}

/// Why a member's link target is not read, if it is too long.
pub open spec fn zip_refusal(name: Seq<u8>, member: ZipMember) -> Option<ArchiveError> {
    if name.len() > MAX_PATH_BYTES {
        Some(ArchiveError::PathTooLong)
    } else if member.is_link() && member.size > MAX_PATH_BYTES {
        Some(ArchiveError::LinkTooLong)
    } else {
        None
    }
}

/// Says whether the contents of the member are to be read as a link target.
pub fn link_wanted(name: &[u8], member: &ZipMember) -> (out: Result<bool, ArchiveError>)
    ensures
        match zip_refusal(name@, *member) {
            Some(e) => out == Err::<bool, ArchiveError>(e),
            None => out == Ok::<bool, ArchiveError>(member.is_link()),
        },
{
    if name.len() > MAX_PATH_BYTES {
        return Err(ArchiveError::PathTooLong);
    }
    let (kind, _) = zip_kind(member);
    let wanted = kind == EntryKind::Symlink && !member.encrypted;
    if wanted && member.size > MAX_PATH_BYTES as u64 {
        return Err(ArchiveError::LinkTooLong);
    }
    Ok(wanted)
}

/// The entry that a ZIP member becomes.
pub open spec fn zip_entry(index: nat, name: Seq<u8>, member: ZipMember) -> Result<EntryView, ArchiveError> {
    if zip_refusal(name, member) is Some {
        Err(zip_refusal(name, member)->0)
    } else if member.is_link() && member.link@.len() > MAX_PATH_BYTES {
        Err(ArchiveError::PathTooLong)
    } else {
        Ok(
            EntryView {
                index,
                display_path: lossy_text(name),
                kind: if unsafe_path(name) {
                    EntryKind::UnsafePath
                } else {
                    member.kind()
                },
                size: member.size,
                compressed_size: Some(member.compressed_size),
                mode: member.mode,
                timestamp: optional_text(member.timestamp),
                link_target: if member.is_link() {
                    Some(lossy_text(member.link@))
                } else {
                    None
                },
                compression: lower_text(member.compression@),
                encrypted: member.encrypted,
                raw_file_position: None,
                readable: member.kind() is File && !member.encrypted && !unsafe_path(name),
            },
        )
    }
}

fn copy_optional(text: &Option<String>) -> (out: Option<String>)
    ensures
        optional_text(out) == optional_text(*text),
{
    match text {
        Some(text) => Some(text.clone()),
        None => None,
    }
}

fn describe_zip_member(index: usize, name: &[u8], member: &ZipMember) -> (out: Result<
    ArchiveEntryMetadata,
    ArchiveError,
>)
    ensures
        match zip_entry(index as nat, name@, *member) {
            Ok(view) => out is Ok && out->Ok_0@ == view,
            Err(e) => out == Err::<ArchiveEntryMetadata, ArchiveError>(e),
        },
{
    let metadata_only_path = path_is_metadata_only(name);
    let is_link = link_wanted(name, member)?;
    let display_path = path_display(name)?;
    let (kind, readable) = zip_kind(member);
    let link_target = if is_link {
        Some(path_display(member.link.as_slice())?)
    } else {
        None
    };
    let shown = if metadata_only_path {
        EntryKind::UnsafePath
    } else {
        kind
    };
    Ok(
        ArchiveEntryMetadata {
            index,
            display_path,
            kind: shown,
            size: member.size,
            compressed_size: Some(member.compressed_size),
            mode: member.mode,
            timestamp: copy_optional(&member.timestamp),
            link_target,
            compression: ascii_lowercase(member.compression.as_str()),
            encrypted: member.encrypted,
            raw_file_position: None,
            readable: readable && !member.encrypted && !metadata_only_path,
        },
    )
}

/// Whether the path is the manifest of a Java archive.
pub open spec fn marks_jar(path: Seq<char>) -> bool {
    lower_text(path) == lower_text("META-INF/MANIFEST.MF"@)
}

/// Whether the path is the metadata of a Python wheel.
pub open spec fn marks_wheel(path: Seq<char>) -> bool {
    ends_text(path, ".dist-info/WHEEL"@)
}

/// What kind of ZIP archive holds these entries.
pub open spec fn zip_format(entries: Seq<EntryView>) -> ArchiveFormat {
    if exists|i: int| 0 <= i < entries.len() && marks_wheel((#[trigger] entries[i]).display_path) {
        ArchiveFormat::Wheel
    } else if exists|i: int| 0 <= i < entries.len() && marks_jar((#[trigger] entries[i]).display_path) {
        ArchiveFormat::Jar
    } else {
        ArchiveFormat::Zip
    }
}

/// The entry that follows in an index that holds `total` bytes of metadata.
pub open spec fn budgeted(entry: Result<EntryView, ArchiveError>, total: int) -> Result<EntryView, ArchiveError> {
    match entry {
        Err(e) => Err(e),
        Ok(view) => if total + metadata_weight(view) > MAX_METADATA_BYTES {
            Err(ArchiveError::MetadataOverBudget)
        } else {
            Ok(view)
        },
    }
}

/// The metadata bytes of all the entries.
pub open spec fn total_weight(entries: Seq<EntryView>) -> nat
    decreases entries.len(),
{
    if entries.len() == 0 {
        0
    } else {
        total_weight(entries.drop_last()) + metadata_weight(entries.last())
    }
}

/// An index of ZIP members that grows member by member.
pub struct ZipIndexer {
    entries: Vec<ArchiveEntryMetadata>,
    metadata_bytes: usize,
    jar: bool,
    wheel: bool,
}

impl View for ZipIndexer {
    type V = Seq<EntryView>;

    closed spec fn view(&self) -> Seq<EntryView> {
        entry_views(self.entries@)
    }
}

impl ZipIndexer {
    pub closed spec fn wf(&self) -> bool {
        &&& self.metadata_bytes == total_weight(self@)
        &&& self.metadata_bytes <= MAX_METADATA_BYTES
        &&& self.jar == (exists|i: int| 0 <= i < self@.len() && marks_jar((#[trigger] self@[i]).display_path))
        &&& self.wheel == (exists|i: int| 0 <= i < self@.len() && marks_wheel((#[trigger] self@[i]).display_path))
    }

    pub fn new() -> (out: ZipIndexer)
        ensures
            out.wf(),
            out@ == Seq::<EntryView>::empty(),
    {
        let out = ZipIndexer { entries: Vec::new(), metadata_bytes: 0, jar: false, wheel: false };
        proof {
            assert(out@ =~= Seq::<EntryView>::empty());
        }
        out
    }

    /// Adds the next member of the archive.
    pub fn add_member(&mut self, name: &[u8], member: &ZipMember) -> (out: Result<(), ArchiveError>)
        requires
            old(self).wf(),
        ensures
            match budgeted(
                zip_entry(old(self)@.len(), name@, *member),
                total_weight(old(self)@) as int,
            ) {
                Ok(view) => out is Ok && final(self).wf() && final(self)@ == old(self)@.push(view),
                Err(e) => out == Err::<(), ArchiveError>(e) && final(self)@ == old(self)@,
            },
    {
        let ghost before = *self;
        let entry = describe_zip_member(self.entries.len(), name, member)?;
        let jar = same_text(
            ascii_lowercase(entry.display_path.as_str()).as_str(),
            ascii_lowercase("META-INF/MANIFEST.MF").as_str(),
        );
        let wheel = ends_with(entry.display_path.as_str(), ".dist-info/WHEEL");
        account_metadata(&mut self.metadata_bytes, &entry)?;
        self.jar = self.jar || jar;
        self.wheel = self.wheel || wheel;
        self.entries.push(entry);
        proof {
            let view = entry@;
            assert(self@ =~= before@.push(view));
            assert(self@.drop_last() =~= before@);
            lemma_any_push(before@, view);
        }
        Ok(())
    }

    /// The format of the archive and its entries.
    pub fn finish(self) -> (out: (ArchiveFormat, Vec<ArchiveEntryMetadata>))
        requires
            self.wf(),
        ensures
            out.0 == zip_format(self@),
            entry_views(out.1@) == self@,
    {
        let format = if self.wheel {
            ArchiveFormat::Wheel
        } else if self.jar {
            ArchiveFormat::Jar
        } else {
            ArchiveFormat::Zip
        };
        (format, self.entries)
    }
}

proof fn lemma_any_push(entries: Seq<EntryView>, view: EntryView)
    ensures
        (exists|i: int| 0 <= i < entries.push(view).len() && marks_jar((#[trigger] entries.push(view)[i]).display_path)) == ((
        exists|i: int| 0 <= i < entries.len() && marks_jar((#[trigger] entries[i]).display_path)) || marks_jar(
            view.display_path,
        )),
        (exists|i: int| 0 <= i < entries.push(view).len() && marks_wheel((#[trigger] entries.push(view)[i]).display_path)) == ((
        exists|i: int| 0 <= i < entries.len() && marks_wheel((#[trigger] entries[i]).display_path)) || marks_wheel(
            view.display_path,
        )),
{
    let all = entries.push(view);
    assert(all[entries.len() as int] == view);
    assert forall|i: int| 0 <= i < entries.len() implies #[trigger] entries[i] == all[i] by {}
}

/// The entries of the members from the one after `done` on.
pub open spec fn zip_entries(names: Seq<Seq<u8>>, members: Seq<ZipMember>, done: Seq<EntryView>) -> Result<
    Seq<EntryView>,
    ArchiveError,
>
    decreases members.len() - done.len(),
{
    let i = done.len();
    if i >= members.len() {
        Ok(done)
    } else {
        match budgeted(zip_entry(i, names[i as int], members[i as int]), total_weight(done) as int) {
            Err(e) => Err(e),
            Ok(view) => zip_entries(names, members, done.push(view)),
        }
    }
}

/// Indexes all the members of a ZIP archive, under the names that its
/// central directory gives.
pub fn index_zip(names: &Vec<Vec<u8>>, members: &Vec<ZipMember>) -> (out: Result<
    (ArchiveFormat, Vec<ArchiveEntryMetadata>),
    ArchiveError,
>)
    ensures
        names.len() != members.len() ==> out == Err::<(ArchiveFormat, Vec<ArchiveEntryMetadata>), ArchiveError>(
            ArchiveError::MemberCount,
        ),
        names.len() == members.len() ==> match zip_entries(
            crate::archive::zip_directory::name_views(names@),
            members@,
            Seq::empty(),
        ) {
            Ok(views) => out is Ok && entry_views(out->Ok_0.1@) == views && out->Ok_0.0 == zip_format(views),
            Err(e) => out == Err::<(ArchiveFormat, Vec<ArchiveEntryMetadata>), ArchiveError>(e),
        },
{
    if names.len() != members.len() {
        return Err(ArchiveError::MemberCount);
    }
    let mut indexer = ZipIndexer::new();
    let ghost views = crate::archive::zip_directory::name_views(names@);
    let mut i: usize = 0;
    while i < members.len()
        invariant
            i <= members.len(),
            names.len() == members.len(),
            views == crate::archive::zip_directory::name_views(names@),
            indexer.wf(),
            indexer@.len() == i,
            zip_entries(views, members@, Seq::empty()) == zip_entries(views, members@, indexer@),
        decreases members.len() - i,
    {
        proof {
            assert(views[i as int] == names@[i as int]@);
        }
        match indexer.add_member(names[i].as_slice(), &members[i]) {
            Ok(()) => {},
            Err(e) => {
                return Err(e);
            },
        }
        i += 1;
    }
    Ok(indexer.finish())
}

/// A ZIP index keeps every member, duplicates too, at its own index and under
/// the name that the central directory gives.
pub proof fn law_zip_index_keeps_every_member(names: Seq<Seq<u8>>, members: Seq<ZipMember>, done: Seq<EntryView>)
    requires
        names.len() == members.len(),
        done.len() <= members.len(),
        forall|i: int| 0 <= i < done.len() ==> zip_entry(i as nat, names[i], members[i]) == Ok::<EntryView, ArchiveError>(#[trigger] done[i]),
        zip_entries(names, members, done) is Ok,
    ensures
        zip_entries(names, members, done)->Ok_0.len() == members.len(),
        forall|i: int|
            0 <= i < members.len() ==> zip_entry(i as nat, names[i], members[i]) == Ok::<EntryView, ArchiveError>(#[trigger] zip_entries(names, members, done)->Ok_0[i]),
    decreases members.len() - done.len(),
{
    let i = done.len();
    if i < members.len() {
        let view = zip_entry(i, names[i as int], members[i as int])->Ok_0;
        law_zip_index_keeps_every_member(names, members, done.push(view));
    }
}

/// An entry says of its member what the directory says: the uncompressed and the
/// compressed size, the mode, the time, whether it is encrypted, and where it
/// stands. Its path is shown as its name. It can be read exactly where it is a
/// file that is not encrypted and has a safe name.
pub proof fn law_zip_entries_say_what_the_directory_says(index: nat, name: Seq<u8>, member: ZipMember)
    requires
        zip_entry(index, name, member) is Ok,
    ensures
        ({
            let entry = zip_entry(index, name, member)->Ok_0;
            &&& entry.index == index
            &&& entry.size == member.size
            &&& entry.compressed_size == Some(member.compressed_size)
            &&& entry.mode == member.mode
            &&& entry.encrypted == member.encrypted
            &&& entry.display_path == lossy_text(name)
            &&& entry.raw_file_position is None
            &&& (member.timestamp is None <==> entry.timestamp is None)
            &&& member.timestamp matches Some(time) ==> entry.timestamp == Some(time@)
            &&& entry.compression.len() == member.compression@.len()
            &&& entry.readable <==> member.is_file && !member.is_dir && !member.is_symlink && !member.encrypted && !unsafe_path(name)
            &&& entry.readable ==> entry.kind == EntryKind::File
            &&& unsafe_path(name) <==> entry.kind == EntryKind::UnsafePath
            &&& !unsafe_path(name) && member.is_dir ==> entry.kind == EntryKind::Directory
            &&& !unsafe_path(name) && !member.is_dir && member.is_symlink ==> entry.kind == EntryKind::Symlink
            &&& !unsafe_path(name) && !member.is_dir && !member.is_symlink && member.is_file ==> entry.kind == EntryKind::File
            &&& !unsafe_path(name) && !member.is_dir && !member.is_symlink && !member.is_file ==> entry.kind == EntryKind::Special
            &&& entry.link_target is Some <==> member.is_symlink && !member.is_dir && !member.encrypted
            &&& entry.link_target matches Some(target) ==> target == lossy_text(member.link@)
        }),
{
}

/// A member becomes an entry exactly where its name, and the target of a link,
/// fit into 32768 bytes.
pub proof fn law_zip_members_are_refused_only_for_length(index: nat, name: Seq<u8>, member: ZipMember)
    ensures
        zip_entry(index, name, member) is Ok <==> name.len() <= 32_768 && (member.is_symlink && !member.is_dir && !member.encrypted
            ==> member.size <= 32_768 && member.link@.len() <= 32_768),
        name.len() > 32_768 ==> zip_entry(index, name, member) == Err::<EntryView, ArchiveError>(ArchiveError::PathTooLong),
{
}

/// A ZIP index is accepted exactly where every member becomes an entry and the
/// entries fit into the budget together; then entry `i` has the sizes that the
/// directory gives member `i`.
pub proof fn law_a_zip_index_has_the_sizes_of_its_members(names: Seq<Seq<u8>>, members: Seq<ZipMember>, i: int)
    requires
        names.len() == members.len(),
        zip_entries(names, members, Seq::empty()) is Ok,
        0 <= i < members.len(),
    ensures
        ({
            let entries = zip_entries(names, members, Seq::empty())->Ok_0;
            &&& entries.len() == members.len()
            &&& entries[i].index == i
            &&& entries[i].size == members[i].size
            &&& entries[i].compressed_size == Some(members[i].compressed_size)
            &&& entries[i].display_path == lossy_text(names[i])
        }),
{
    law_zip_index_keeps_every_member(names, members, Seq::empty());
    law_zip_entries_say_what_the_directory_says(i as nat, names[i], members[i]);
    assert(zip_entry(i as nat, names[i], members[i]) == Ok::<EntryView, ArchiveError>(
        zip_entries(names, members, Seq::empty())->Ok_0[i],
    ));
}

/// The budget of an entry counts all its texts and 96 bytes more.
pub proof fn law_the_budget_counts_all_texts(entry: EntryView)
    ensures
        metadata_weight(entry) >= 96 + byte_length(entry.display_path) + byte_length(entry.compression),
        entry.link_target is None && entry.timestamp is None ==> metadata_weight(entry) == 96 + byte_length(entry.display_path)
            + byte_length(entry.compression),
        entry.link_target matches Some(target) ==> metadata_weight(entry) == metadata_weight(
            EntryView { link_target: None, ..entry },
        ) + byte_length(target),
        entry.timestamp matches Some(time) ==> metadata_weight(entry) == metadata_weight(EntryView { timestamp: None, ..entry })
            + byte_length(time),
{
}

/// An index is a wheel where one of its paths ends in the name of a wheel's
/// metadata, else a Java archive where one of them is its manifest in any case
/// of letters, else a plain archive.
pub proof fn law_zip_formats_are_told_by_paths(entries: Seq<EntryView>, i: int)
    requires
        0 <= i < entries.len(),
    ensures
        ends_text(entries[i].display_path, ".dist-info/WHEEL"@) ==> zip_format(entries) == ArchiveFormat::Wheel,
        entries[i].display_path == "META-INF/MANIFEST.MF"@ ==> zip_format(entries) != ArchiveFormat::Zip,
        zip_format(entries) == ArchiveFormat::Wheel ==> exists|k: int|
            0 <= k < entries.len() && ends_text((#[trigger] entries[k]).display_path, ".dist-info/WHEEL"@),
        zip_format(entries) == ArchiveFormat::Jar ==> exists|k: int|
            0 <= k < entries.len() && lower_text((#[trigger] entries[k]).display_path) == lower_text("META-INF/MANIFEST.MF"@),
{
}

} // verus!
