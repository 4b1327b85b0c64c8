use std::collections::BTreeMap;
use std::io::{Cursor, Read, Write};

use helix_extensions::archive::entries::{
    index_zip, link_wanted, path_display, path_is_metadata_only, ArchiveEntryMetadata, ArchiveFormat, EntryKind,
    ZipMember, MAX_PATH_BYTES,
};
use helix_extensions::archive::error::ArchiveError;
use helix_extensions::archive::read::{
    check_index_progress, open_failure, read_stream_range, ArchiveHandle, OpenFailure, ReadRefusal, ReadSource,
    MAX_READ_BYTES, MAX_READ_OFFSET,
};
use helix_extensions::archive::tar_index::{
    detect_container, detect_tar_format, index_tar, tar_kind, Container, ScanBudget, TarEntryType, TarMember,
};
use helix_extensions::archive::zip_directory::{apply_patches, u16_at, u32_at, u64_at, zip_central_directory};
use helix_extensions::file_snapshot::{FileFingerprint, Observation};
use zip::write::SimpleFileOptions;
use zip::{CompressionMethod, ZipArchive, ZipWriter};

struct Opened {
    handle: ArchiveHandle,
    image: Vec<u8>,
}

enum OpenOutcome {
    Opened(Opened),
    Cancelled,
    Stale,
    Error(String),
}

fn fingerprint(len: usize) -> FileFingerprint {
    FileFingerprint { len: len as u64, modified: None, device: 1, inode: 2, change_seconds: 3, change_nanoseconds: 4 }
}

fn seen(image: &[u8]) -> Observation {
    Observation { opened: Some(fingerprint(image.len())), current: Some(fingerprint(image.len())) }
}

fn prefix(image: &[u8]) -> [u8; 8] {
    let mut bytes = [0; 8];
    let length = image.len().min(8);
    bytes[..length].copy_from_slice(&image[..length]);
    bytes
}

fn decoded(image: &[u8], format: ArchiveFormat) -> Vec<u8> {
    let mut out = Vec::new();
    match format {
        ArchiveFormat::TarGzip => {
            flate2::read::GzDecoder::new(image).read_to_end(&mut out).unwrap();
        },
        ArchiveFormat::TarBzip2 => {
            bzip2::read::BzDecoder::new(image).read_to_end(&mut out).unwrap();
        },
        ArchiveFormat::TarXz => {
            xz2::read::XzDecoder::new(image).read_to_end(&mut out).unwrap();
        },
        ArchiveFormat::TarZstd => {
            out = zstd::stream::decode_all(image).unwrap();
        },
        _ => out.extend_from_slice(image),
    }
    out
}

fn entry_type(kind: tar::EntryType) -> TarEntryType {
    if kind.is_dir() {
        TarEntryType::Directory
    } else if kind.is_symlink() {
        TarEntryType::Symlink
    } else if kind.is_hard_link() {
        TarEntryType::HardLink
    } else if kind.is_gnu_sparse() {
        TarEntryType::GnuSparse
    } else if kind.is_file() {
        TarEntryType::Regular
    } else if kind.is_contiguous() {
        TarEntryType::Contiguous
    } else {
        TarEntryType::Other
    }
}

fn tar_members(stream: &[u8]) -> Result<Vec<TarMember>, String> {
    let mut archive = tar::Archive::new(stream);
    let mut members = Vec::new();
    for candidate in archive.entries().map_err(|error| error.to_string())? {
        let entry = candidate.map_err(|error| error.to_string())?;
        members.push(TarMember {
            path: entry.path_bytes().into_owned(),
            link_name: entry.link_name_bytes().map(|bytes| bytes.into_owned()),
            entry_type: entry_type(entry.header().entry_type()),
            size: entry.size(),
            mode: entry.header().mode().ok(),
            mtime: entry.header().mtime().ok(),
            raw_file_position: entry.raw_file_position(),
        });
    }
    Ok(members)
}

fn patched(image: &[u8], patches: &BTreeMap<u64, u8>) -> Vec<u8> {
    let mut out = image.to_vec();
    apply_patches(patches, 0, &mut out);
    out
}

fn zip_index(image: &[u8]) -> Result<(ArchiveFormat, Vec<ArchiveEntryMetadata>, BTreeMap<u64, u8>), String> {
    let central = zip_central_directory(image).map_err(|error| error.message())?;
    let mut zip = ZipArchive::new(Cursor::new(patched(image, &central.patches))).map_err(|error| error.to_string())?;
    let mut members = Vec::new();
    for index in 0..zip.len() {
        let mut member = {
            let raw = zip.by_index_raw(index).map_err(|error| error.to_string())?;
            ZipMember {
                is_dir: raw.is_dir(),
                is_symlink: raw.is_symlink(),
                is_file: raw.is_file(),
                encrypted: raw.encrypted(),
                size: raw.size(),
                compressed_size: raw.compressed_size(),
                mode: raw.unix_mode(),
                timestamp: raw.last_modified().map(|value| value.to_string()),
                compression: raw.compression().to_string().to_ascii_lowercase(),
                link: Vec::new(),
            }
        };
        if link_wanted(&central.names[index], &member).map_err(|error| error.message())? {
            let mut contents = zip.by_index(index).map_err(|error| error.to_string())?;
            contents.read_to_end(&mut member.link).map_err(|error| error.to_string())?;
        }
        members.push(member);
    }
    let (format, entries) = index_zip(&central.names, &members).map_err(|error| error.message())?;
    Ok((format, entries, central.patches))
}

fn index_archive(image: &[u8], cancelled: bool) -> OpenOutcome {
    let result = check_index_progress(&fingerprint(image.len()), &seen(image), cancelled)
        .map_err(|error| error.message())
        .and_then(|()| match detect_container(&prefix(image)).map_err(|error| error.message())? {
            Container::Zip => zip_index(image),
            Container::Tar(format) => {
                let stream = decoded(image, format);
                let members = tar_members(&stream)?;
                let entries = index_tar(format, &members, stream.len() as u64).map_err(|error| error.message())?;
                Ok((format, entries, BTreeMap::new()))
            },
        });
    match result {
        Ok((format, entries, patches)) => OpenOutcome::Opened(Opened {
            handle: ArchiveHandle::new(fingerprint(image.len()), format, entries, patches),
            image: image.to_vec(),
        }),
        Err(message) => match open_failure(&message, cancelled) {
            OpenFailure::Cancelled => OpenOutcome::Cancelled,
            OpenFailure::Stale => OpenOutcome::Stale,
            OpenFailure::Error => OpenOutcome::Error(message),
        },
    }
}

fn opened(image: &[u8]) -> Opened {
    match index_archive(image, false) {
        OpenOutcome::Opened(handle) => handle,
        OpenOutcome::Cancelled => panic!("unexpected archive cancellation"),
        OpenOutcome::Stale => panic!("unexpected stale archive"),
        OpenOutcome::Error(error) => panic!("unable to open archive fixture: {error}"),
    }
}

fn read_entry(
    archive: &Opened,
    seen: &Observation,
    cancelled: bool,
    index: usize,
    offset: u64,
    length: usize,
) -> Result<(Vec<u8>, bool), ReadRefusal> {
    archive.handle.check_read_progress(seen, cancelled)?;
    let plan = archive.handle.read_archive_entry(index, offset, length)?;
    let bytes = match plan.source {
        ReadSource::ZipMember => {
            let image = patched(&archive.image, &archive.handle.zip_patches);
            let mut contents = Vec::new();
            ZipArchive::new(Cursor::new(image)).unwrap().by_index(index).unwrap().read_to_end(&mut contents).unwrap();
            read_stream_range(&contents, plan.skip, plan.wanted)?
        },
        ReadSource::File { position } => read_stream_range(&archive.image[position as usize..], plan.skip, plan.wanted)?,
        ReadSource::TarMember(format) => {
            let stream = decoded(&archive.image, format);
            let mut contents = Vec::new();
            tar::Archive::new(stream.as_slice())
                .entries()
                .unwrap()
                .nth(index)
                .unwrap()
                .unwrap()
                .read_to_end(&mut contents)
                .unwrap();
            read_stream_range(&contents, plan.skip, plan.wanted)?
        },
    };
    Ok((bytes, plan.truncated))
}

fn read_bytes(archive: &Opened, index: usize, offset: u64, length: usize) -> (Vec<u8>, bool) {
    read_entry(archive, &seen(&archive.image), false, index, offset, length).unwrap()
}

fn zip_bytes(entries: &[(&str, &[u8], CompressionMethod)]) -> Vec<u8> {
    let mut writer = ZipWriter::new(Cursor::new(Vec::new()));
    for (name, bytes, method) in entries {
        let options = SimpleFileOptions::default().compression_method(*method);
        writer.start_file(*name, options).unwrap();
        writer.write_all(bytes).unwrap();
    }
    writer.finish().unwrap().into_inner()
}

fn make_second_zip_name_duplicate(mut bytes: Vec<u8>) -> Vec<u8> {
    let position = bytes.windows(4).position(|window| window == b"PK\x01\x02").unwrap();
    let first_name_length = u16_at(&bytes, position + 28).unwrap() as usize;
    let first_extra_length = u16_at(&bytes, position + 30).unwrap() as usize;
    let first_comment_length = u16_at(&bytes, position + 32).unwrap() as usize;
    let second = position + 46 + first_name_length + first_extra_length + first_comment_length;
    assert_eq!(&bytes[second..second + 4], b"PK\x01\x02");
    let second_name = second + 46;
    assert_eq!(&bytes[second_name..second_name + 4], b"sAme");
    bytes[second_name..second_name + 4].copy_from_slice(b"same");
    bytes
}

fn mark_first_zip_member_encrypted(mut bytes: Vec<u8>) -> Vec<u8> {
    assert_eq!(&bytes[..4], b"PK\x03\x04");
    let local_flags = u16_at(&bytes, 6).unwrap() | 1;
    bytes[6..8].copy_from_slice(&local_flags.to_le_bytes());
    let central = bytes.windows(4).position(|window| window == b"PK\x01\x02").unwrap();
    let central_flags = u16_at(&bytes, central + 8).unwrap() | 1;
    bytes[central + 8..central + 10].copy_from_slice(&central_flags.to_le_bytes());
    bytes
}

fn append_raw_tar_entry(
    builder: &mut tar::Builder<Vec<u8>>,
    name: &[u8],
    entry_type: tar::EntryType,
    link: Option<&[u8]>,
    contents: &[u8],
) {
    let mut header = tar::Header::new_gnu();
    header.as_mut_bytes()[..name.len()].copy_from_slice(name);
    if let Some(link) = link {
        header.as_mut_bytes()[157..157 + link.len()].copy_from_slice(link);
    }
    header.set_entry_type(entry_type);
    header.set_mode(0o644);
    header.set_mtime(1_700_000_000);
    header.set_size(contents.len() as u64);
    header.set_cksum();
    builder.append(&header, contents).unwrap();
}

fn tar_bytes() -> Vec<u8> {
    let mut builder = tar::Builder::new(Vec::new());
    let regular = tar::EntryType::Regular;
    append_raw_tar_entry(&mut builder, b"folder/file.txt", regular, None, b"abcdefghij");
    append_raw_tar_entry(&mut builder, b"duplicate", regular, None, b"one");
    append_raw_tar_entry(&mut builder, b"duplicate", regular, None, b"two");
    append_raw_tar_entry(&mut builder, b"../hostile", regular, None, b"metadata only path");
    append_raw_tar_entry(&mut builder, b"/absolute", regular, None, b"absolute path");
    append_raw_tar_entry(&mut builder, "unicode-界".as_bytes(), regular, None, b"unicode path");
    append_raw_tar_entry(&mut builder, b"invalid-\xff-name", regular, None, b"non utf8");
    append_raw_tar_entry(&mut builder, b"symlink", tar::EntryType::Symlink, Some(b"../target"), b"");
    append_raw_tar_entry(&mut builder, b"hardlink", tar::EntryType::Link, Some(b"folder/file.txt"), b"");
    builder.into_inner().unwrap()
}

fn encode_tar(bytes: &[u8], format: ArchiveFormat) -> Vec<u8> {
    match format {
        ArchiveFormat::Tar => bytes.to_vec(),
        ArchiveFormat::TarGzip => {
            let mut encoder = flate2::write::GzEncoder::new(Vec::new(), flate2::Compression::best());
            encoder.write_all(bytes).unwrap();
            encoder.finish().unwrap()
        },
        ArchiveFormat::TarBzip2 => {
            let mut encoder = bzip2::write::BzEncoder::new(Vec::new(), bzip2::Compression::best());
            encoder.write_all(bytes).unwrap();
            encoder.finish().unwrap()
        },
        ArchiveFormat::TarXz => {
            let mut encoder = xz2::write::XzEncoder::new(Vec::new(), 6);
            encoder.write_all(bytes).unwrap();
            encoder.finish().unwrap()
        },
        ArchiveFormat::TarZstd => zstd::stream::encode_all(bytes, 3).unwrap(),
        _ => panic!("not a TAR encoding"),
    }
}

#[test]
fn detects_zip_jar_and_wheel_from_validated_members() {
    let zip = zip_bytes(&[("plain.txt", b"plain", CompressionMethod::Stored)]);
    assert_eq!(opened(&zip).handle.format, ArchiveFormat::Zip);

    let jar = zip_bytes(&[("META-INF/MANIFEST.MF", b"Manifest-Version: 1.0\n", CompressionMethod::Deflated)]);
    assert_eq!(opened(&jar).handle.format, ArchiveFormat::Jar);

    let wheel = zip_bytes(&[("demo-1.0.dist-info/WHEEL", b"Wheel-Version: 1.0\n", CompressionMethod::Bzip2)]);
    assert_eq!(opened(&wheel).handle.format, ArchiveFormat::Wheel);
}

#[test]
fn indexes_and_range_reads_every_tar_codec() {
    let tar = tar_bytes();
    for format in [
        ArchiveFormat::Tar,
        ArchiveFormat::TarGzip,
        ArchiveFormat::TarBzip2,
        ArchiveFormat::TarXz,
        ArchiveFormat::TarZstd,
    ] {
        let archive = opened(&encode_tar(&tar, format));
        assert_eq!(archive.handle.format, format);
        assert_eq!(archive.handle.entries.len(), 9);
        let (bytes, truncated) = read_bytes(&archive, 0, 2, 4);
        assert_eq!(bytes, b"cdef");
        assert!(truncated);
    }
}

#[test]
fn preserves_duplicates_hostile_paths_links_and_lossy_names() {
    let archive = opened(&tar_bytes());
    let entries = &archive.handle.entries;
    assert_eq!(entries[1].display_path, "duplicate");
    assert_eq!(entries[2].display_path, "duplicate");
    assert_eq!(entries[3].display_path, "../hostile");
    assert_eq!(entries[3].kind.label(), "unsafe-path");
    assert!(!entries[3].readable);
    assert_eq!(entries[4].display_path, "/absolute");
    assert_eq!(entries[4].kind.label(), "unsafe-path");
    assert!(!entries[4].readable);
    assert_eq!(entries[5].display_path, "unicode-界");
    assert!(entries[5].readable);
    assert!(entries[6].display_path.contains('\u{fffd}'));
    assert_eq!(entries[6].kind.label(), "unsafe-path");
    assert!(!entries[6].readable);
    assert_eq!(entries[7].kind.label(), "symlink");
    assert_eq!(entries[7].link_target.as_deref(), Some("../target"));
    assert!(!entries[7].readable);
    assert_eq!(entries[8].kind.label(), "hard-link");
    assert_eq!(entries[8].link_target.as_deref(), Some("folder/file.txt"));
    assert_eq!(tar_kind(TarEntryType::GnuSparse), (EntryKind::Sparse, false));
    assert_eq!(EntryKind::Sparse.label(), "sparse");

    let zip = opened(&zip_bytes(&[("../zip-escape", b"metadata only", CompressionMethod::Stored)]));
    assert_eq!(zip.handle.entries[0].kind.label(), "unsafe-path");
    assert!(!zip.handle.entries[0].readable);
    let refusal = read_entry(&zip, &seen(&zip.image), false, 0, 0, 32).unwrap_err();
    assert!(refusal.message().contains("metadata-only"));
}

#[test]
fn zip_compression_and_duplicate_indexes_are_stable() {
    let bytes = make_second_zip_name_duplicate(zip_bytes(&[
        ("same", b"stored", CompressionMethod::Stored),
        ("sAme", b"deflated", CompressionMethod::Deflated),
        ("other", b"zstandard", CompressionMethod::Zstd),
    ]));
    let archive = opened(&bytes);
    assert_eq!(archive.handle.entries[0].index, 0);
    assert_eq!(archive.handle.entries[1].index, 1);
    assert_eq!(archive.handle.entries[0].display_path, "same");
    assert_eq!(archive.handle.entries[1].display_path, "same");
    assert_eq!(read_bytes(&archive, 1, 0, 32).0, b"deflated");
    assert_eq!(read_bytes(&archive, 2, 1, 4).0, b"stan");
}

#[test]
fn cancellation_limits_malformed_input_and_resource_closure_are_safe() {
    let malformed = b"this is not an archive";
    assert!(matches!(index_archive(malformed, false), OpenOutcome::Error(_)));
    assert!(matches!(index_archive(malformed, true), OpenOutcome::Cancelled));
    assert!(path_display(&vec![b'x'; MAX_PATH_BYTES + 1]).is_err());
    assert!(!path_is_metadata_only(b"safe/path"));
    assert!(!path_is_metadata_only("unicode-界".as_bytes()));
    assert!(path_is_metadata_only(b"../escape"));
    assert!(path_is_metadata_only(b"safe/../escape"));
    assert!(path_is_metadata_only(b"..\\escape"));
    assert!(path_is_metadata_only(b"/absolute"));
    assert!(path_is_metadata_only(b"\\\\server\\share"));
    assert!(path_is_metadata_only(b"C:\\absolute"));
    assert!(path_is_metadata_only(b"invalid-\xff"));
    assert!(path_is_metadata_only(b"nul\0name"));

    let mut archive = opened(&tar_bytes());
    let seen = seen(&archive.image);
    assert_eq!(read_entry(&archive, &seen, true, 0, 0, 1).unwrap_err(), ReadRefusal::Cancelled);
    assert_eq!(
        read_entry(&archive, &seen, false, 0, MAX_READ_OFFSET + 1, 1).unwrap_err(),
        ReadRefusal::OffsetLimit
    );
    assert_eq!(
        read_entry(&archive, &seen, false, 0, 0, MAX_READ_BYTES + 1).unwrap_err(),
        ReadRefusal::LengthLimit
    );
    assert!(archive.handle.archive_entries_page(&seen, 0, 10_001).is_err());
    let mut budget = ScanBudget::new(8);
    assert_eq!(budget.allowance(16, false).unwrap(), 8);
    budget.record(8);
    assert!(budget.allowance(16, false).is_err());
    assert!(archive.handle.archive_close());
    assert!(!archive.handle.archive_close());
    assert!(archive.handle.archive_closed());
    assert!(archive.handle.archive_stale(&seen));
    assert_eq!(read_entry(&archive, &seen, false, 0, 0, 1).unwrap_err(), ReadRefusal::Stale);
}

#[test]
fn source_changes_are_detected_before_reads() {
    let archive = opened(&tar_bytes());
    let mut changed = archive.image.clone();
    changed.extend_from_slice(b"changed");
    let after = seen(&changed);
    assert!(archive.handle.archive_stale(&after));
    assert_eq!(read_entry(&archive, &after, false, 0, 0, 4).unwrap_err(), ReadRefusal::Stale);
}

#[test]
fn encrypted_zip_members_are_metadata_only() {
    let bytes = mark_first_zip_member_encrypted(zip_bytes(&[(
        "secret.txt",
        b"not actually encrypted",
        CompressionMethod::Stored,
    )]));
    let archive = opened(&bytes);
    assert!(archive.handle.entries[0].encrypted);
    assert!(!archive.handle.entries[0].readable);
    let refusal = read_entry(&archive, &seen(&archive.image), false, 0, 0, 4).unwrap_err();
    assert!(refusal.message().contains("encrypted"));
}

#[test]
fn numbers_are_little_endian() {
    let bytes = [1, 2, 3, 4, 5, 6, 7, 8, 9];
    assert_eq!(u16_at(&bytes, 1).unwrap(), 0x0302);
    assert_eq!(u32_at(&bytes, 0).unwrap(), 0x0403_0201);
    assert_eq!(u64_at(&bytes, 1).unwrap(), 0x0908_0706_0504_0302);
    assert_eq!(u16_at(&bytes, 8).unwrap_err(), ArchiveError::TruncatedMetadata);
}

#[test]
fn containers_are_told_by_their_first_bytes() {
    assert!(matches!(detect_container(&prefix(b"PK\x05\x06")).unwrap(), Container::Zip));
    assert_eq!(detect_container(b"PK\x07\x08....").unwrap_err(), ArchiveError::MultiDisk);
    assert_eq!(detect_tar_format(&prefix(&[0x1f, 0x8b])), ArchiveFormat::TarGzip);
    assert_eq!(detect_tar_format(&prefix(b"BZh9")), ArchiveFormat::TarBzip2);
    assert_eq!(detect_tar_format(&prefix(b"\xfd7zXZ\0")), ArchiveFormat::TarXz);
    assert_eq!(detect_tar_format(&prefix(&[0x28, 0xb5, 0x2f, 0xfd])), ArchiveFormat::TarZstd);
    assert_eq!(detect_tar_format(&prefix(b"")), ArchiveFormat::Tar);
    assert!(ArchiveFormat::TarXz.compressed_tar());
    assert!(!ArchiveFormat::Tar.compressed_tar());
    assert_eq!(ArchiveFormat::TarZstd.label(), "tar-zstd");
}

#[test]
fn pages_and_identity_come_from_the_handle() {
    let archive = opened(&tar_bytes());
    let now = seen(&archive.image);
    assert_eq!(archive.handle.archive_entry_count(), 9);
    assert_eq!(archive.handle.archive_entries_page(&now, 7, 10).unwrap(), (7, 9));
    assert!(archive.handle.archive_entries_page(&now, 10, 1).is_err());
    assert_eq!(archive.handle.archive_format(), "tar");
    assert_eq!(archive.handle.archive_fingerprint().1, archive.image.len() as u64);
}

#[test]
fn an_entry_that_ends_early_is_refused() {
    assert_eq!(read_stream_range(b"abc", 1, 9).unwrap(), b"bc");
    assert_eq!(read_stream_range(b"abc", 3, 9).unwrap(), b"");
    assert_eq!(read_stream_range(b"abc", 4, 1).unwrap_err(), ReadRefusal::EndedEarly);
}

#[test]
fn an_empty_tar_stream_is_no_archive() {
    assert_eq!(index_tar(ArchiveFormat::Tar, &vec![], 0).unwrap_err(), ArchiveError::NotTar);
    assert!(index_tar(ArchiveFormat::Tar, &vec![], 512).unwrap().is_empty());
    assert_eq!(index_tar(ArchiveFormat::Zip, &vec![], 512).unwrap_err(), ArchiveError::NotTarFormat);
}

#[test]
fn a_file_without_an_end_record_is_no_zip() {
    assert_eq!(zip_central_directory(b"PK\x03\x04").err(), Some(ArchiveError::EndRecordMissing));
    assert_eq!(ArchiveError::Cancelled.message(), "archive operation cancelled");
}
