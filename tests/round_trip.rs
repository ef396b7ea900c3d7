use std::io;
use std::path::Path;
use std::pin::Pin;
use std::task::{Context, Poll};

use archive::error::{ArchiveError, FormatIssue};
use archive::extract::{EntryKind, ExtractAction, ExtractEvent, Extraction};
use archive::packing::{gzip_container, relative_entry_name, zip_entry_name};
use async_compression::futures::bufread::GzipDecoder;
use async_zip::base::read::stream::ZipFileReader;
use async_zip::base::write::ZipFileWriter;
use async_zip::ZipEntryBuilder;
use futures::io::{AsyncRead, AsyncReadExt, BufReader, Cursor};
use futures::StreamExt;
use tempfile::TempDir;

/// A reader that hands its bytes out once, front to back, a few at a time,
/// and offers no way to go back.
struct ForwardOnly {
    data: Vec<u8>,
    pos: usize,
}

impl AsyncRead for ForwardOnly {
    fn poll_read(mut self: Pin<&mut Self>, _cx: &mut Context<'_>, buf: &mut [u8]) -> Poll<io::Result<usize>> {
        let n = buf.len().min(7).min(self.data.len() - self.pos);
        let start = self.pos;
        buf[..n].copy_from_slice(&self.data[start..start + n]);
        self.pos += n;
        Poll::Ready(Ok(n))
    }
}

fn assert_file_content(path: &Path, content: &str) {
    assert!(path.exists(), "file not found: {:?}", path);
    let actual = smol::block_on(smol::fs::read_to_string(path)).unwrap();
    assert_eq!(actual, content);
}

fn write_file(path: &Path, content: &[u8]) {
    smol::block_on(smol::fs::write(path, content)).unwrap();
}

fn count_entries(dir: &Path) -> usize {
    smol::block_on(async {
        let mut entries = smol::fs::read_dir(dir).await.unwrap();
        let mut n = 0;
        while let Some(entry) = entries.next().await {
            entry.unwrap();
            n += 1;
        }
        n
    })
}

fn make_test_data() -> TempDir {
    let dir = tempfile::tempdir().unwrap();
    let dst = dir.path();

    write_file(&dst.join("test"), b"Hello world.");
    smol::block_on(smol::fs::create_dir(dst.join("foo"))).unwrap();
    write_file(&dst.join("foo/bar.txt"), b"Foo bar.");

    dir
}

/// Packs the files under `src_dir` into a zip archive held in memory, named by the library.
fn zip_directory(src_dir: &Path) -> Vec<u8> {
    smol::block_on(async {
        let root = src_dir.to_str().unwrap();
        let mut writer = ZipFileWriter::new(Cursor::new(Vec::new()));
        for entry in walkdir::WalkDir::new(src_dir).sort_by_file_name() {
            let entry = entry.unwrap();
            let path = entry.path();
            let walked = path.to_str().unwrap();
            let Some(name) = zip_entry_name(root, walked, path.is_dir(), std::path::MAIN_SEPARATOR) else {
                continue;
            };
            let data = smol::fs::read(path).await.unwrap();
            let builder = ZipEntryBuilder::new(name.into(), async_zip::Compression::Deflate);
            writer.write_entry_whole(builder, &data).await.unwrap();
        }
        writer.close().await.unwrap().into_inner()
    })
}

/// Extracts a zip archive from a forward-only reader, doing what the library asks for.
fn extract_zip_forward(dst: &Path, data: Vec<u8>) -> Result<(), ArchiveError> {
    smol::block_on(async {
        let root = dst.canonicalize().unwrap().to_str().unwrap().to_string();
        let mut extraction = Extraction::new(root, std::path::MAIN_SEPARATOR);
        let mut reader = ZipFileReader::new(BufReader::new(ForwardOnly { data, pos: 0 }));
        loop {
            let mut item = match reader.next_with_entry().await {
                Ok(Some(item)) => item,
                Ok(None) => break,
                Err(_) => {
                    let malformed = ArchiveError::Format(FormatIssue::Malformed);
                    assert_eq!(
                        extraction.step(ExtractEvent::Failure(malformed)),
                        ExtractAction::Abort(malformed)
                    );
                    return Err(malformed);
                }
            };
            let entry = item.reader().entry();
            let name = entry.filename().as_str().unwrap().to_string();
            let kind = if entry.dir().unwrap() { EntryKind::Directory } else { EntryKind::File };
            match extraction.step(ExtractEvent::EntryFound { name, kind }) {
                ExtractAction::CreateDir { path } => smol::fs::create_dir_all(path).await.unwrap(),
                ExtractAction::WriteFile { parent, path } => {
                    smol::fs::create_dir_all(parent).await.unwrap();
                    let mut body = Vec::new();
                    item.reader_mut().read_to_end(&mut body).await.unwrap();
                    smol::fs::write(path, body).await.unwrap();
                }
                ExtractAction::SkipEntry => {}
                ExtractAction::Abort(e) => return Err(e),
                other => panic!("unexpected {other:?}"),
            }
            reader = item.skip().await.unwrap();
            assert_eq!(extraction.step(ExtractEvent::EntryFinished), ExtractAction::ReadHeader);
        }
        assert_eq!(extraction.step(ExtractEvent::EndOfEntries), ExtractAction::Finish);
        Ok(())
    })
}

/// Packs the tree under `src_dir` into a gzip-compressed tar archive, named by the library.
fn tar_gz_directory(src_dir: &Path) -> Vec<u8> {
    smol::block_on(async {
        let root = src_dir.to_str().unwrap();
        let mut builder = async_tar::Builder::new(Vec::new());
        for entry in walkdir::WalkDir::new(src_dir).sort_by_file_name() {
            let entry = entry.unwrap();
            let path = entry.path();
            let walked = path.to_str().unwrap();
            let Some(name) = relative_entry_name(root, walked, std::path::MAIN_SEPARATOR) else {
                continue;
            };
            if path.is_dir() {
                builder.append_dir(&name, path).await.unwrap();
            } else {
                builder.append_path_with_name(path, &name).await.unwrap();
            }
        }
        let tar = builder.into_inner().await.unwrap();
        gzip_container(&tar)
    })
}

/// Extracts a gzip-compressed tar archive from a forward-only reader, doing what the library asks for.
fn extract_tar_gz_forward(dst: &Path, data: Vec<u8>) -> Result<(), ArchiveError> {
    smol::block_on(async {
        let root = dst.canonicalize().unwrap().to_str().unwrap().to_string();
        let mut extraction = Extraction::new(root, std::path::MAIN_SEPARATOR);
        let decoded = GzipDecoder::new(BufReader::new(ForwardOnly { data, pos: 0 }));
        let mut entries = async_tar::Archive::new(decoded).entries().unwrap();
        while let Some(entry) = entries.next().await {
            let mut entry = match entry {
                Ok(entry) => entry,
                Err(_) => {
                    let malformed = ArchiveError::Format(FormatIssue::Malformed);
                    extraction.step(ExtractEvent::Failure(malformed));
                    return Err(malformed);
                }
            };
            let name = String::from_utf8(entry.path_bytes().into_owned()).unwrap();
            let kind = if entry.header().entry_type().is_dir() {
                EntryKind::Directory
            } else if entry.header().entry_type().is_file() {
                EntryKind::File
            } else {
                EntryKind::Other
            };
            match extraction.step(ExtractEvent::EntryFound { name, kind }) {
                ExtractAction::CreateDir { path } => smol::fs::create_dir_all(path).await.unwrap(),
                ExtractAction::WriteFile { parent, path } => {
                    smol::fs::create_dir_all(parent).await.unwrap();
                    entry.unpack(&path).await.unwrap();
                }
                ExtractAction::SkipEntry => {}
                ExtractAction::Abort(e) => return Err(e),
                other => panic!("unexpected {other:?}"),
            }
            assert_eq!(extraction.step(ExtractEvent::EntryFinished), ExtractAction::ReadHeader);
        }
        assert_eq!(extraction.step(ExtractEvent::EndOfEntries), ExtractAction::Finish);
        Ok(())
    })
}

fn gunzip(data: &[u8]) -> io::Result<Vec<u8>> {
    smol::block_on(async {
        let mut out = Vec::new();
        GzipDecoder::new(BufReader::new(data)).read_to_end(&mut out).await?;
        Ok(out)
    })
}

#[test]
fn lib_test_extract_gz() {
    let test_dir = make_test_data();
    let src = smol::block_on(smol::fs::read(test_dir.path().join("test"))).unwrap();

    let compressed = gzip_container(&src);
    let out_file = tempfile::NamedTempFile::new().unwrap();
    write_file(out_file.path(), &gunzip(&compressed).unwrap());

    assert_file_content(out_file.path(), "Hello world.");
}

#[test]
fn lib_test_extract_zip() {
    let test_dir = make_test_data();
    let zipped = zip_directory(test_dir.path());

    let dir = tempfile::tempdir().unwrap();
    let dst = dir.path();
    extract_zip_forward(dst, zipped).unwrap();

    assert_file_content(&dst.join("test"), "Hello world.");
    assert_file_content(&dst.join("foo/bar.txt"), "Foo bar.");
    assert!(dst.join("foo").is_dir());
    dir.close().unwrap();
}

#[test]
fn zip_extraction_twice_gives_same_files() {
    let test_dir = make_test_data();
    let zipped = zip_directory(test_dir.path());

    let dir = tempfile::tempdir().unwrap();
    let dst = dir.path();
    extract_zip_forward(dst, zipped.clone()).unwrap();
    extract_zip_forward(dst, zipped).unwrap();

    assert_file_content(&dst.join("test"), "Hello world.");
    assert_file_content(&dst.join("foo/bar.txt"), "Foo bar.");
    assert_eq!(count_entries(dst), 2);
}

#[test]
fn zip_names_use_forward_slashes() {
    let test_dir = make_test_data();
    let zipped = zip_directory(test_dir.path());
    let names = smol::block_on(async {
        let mut names = Vec::new();
        let mut reader = ZipFileReader::new(BufReader::new(Cursor::new(zipped)));
        while let Some(item) = reader.next_with_entry().await.unwrap() {
            names.push(item.reader().entry().filename().as_str().unwrap().to_string());
            reader = item.skip().await.unwrap();
        }
        names
    });
    assert_eq!(names, vec!["foo/bar.txt".to_string(), "test".to_string()]);
}

#[test]
fn zip_with_corrupted_start_fails() {
    let test_dir = make_test_data();
    let mut zipped = zip_directory(test_dir.path());
    zipped[0] ^= 0xff;
    zipped[1] ^= 0xff;

    let dir = tempfile::tempdir().unwrap();
    let result = extract_zip_forward(dir.path(), zipped);

    assert_eq!(result, Err(ArchiveError::Format(FormatIssue::Malformed)));
    assert_eq!(count_entries(dir.path()), 0);
}

#[test]
fn gzip_with_corrupted_start_fails() {
    let mut compressed = gzip_container(&b"Hello world.".to_vec());
    compressed[0] ^= 0xff;
    assert!(gunzip(&compressed).is_err());
}

#[test]
fn lib_test_extract_tar_gz() {
    let test_dir = make_test_data();
    let archive = tar_gz_directory(test_dir.path());

    let dir = tempfile::tempdir().unwrap();
    let dst = dir.path();
    extract_tar_gz_forward(dst, archive).unwrap();

    assert_file_content(&dst.join("test"), "Hello world.");
    assert_file_content(&dst.join("foo/bar.txt"), "Foo bar.");
    assert!(dst.join("foo").is_dir());
    dir.close().unwrap();
}

#[test]
fn tar_gz_extraction_twice_gives_same_files() {
    let test_dir = make_test_data();
    let archive = tar_gz_directory(test_dir.path());

    let dir = tempfile::tempdir().unwrap();
    let dst = dir.path();
    extract_tar_gz_forward(dst, archive.clone()).unwrap();
    extract_tar_gz_forward(dst, archive).unwrap();

    assert_file_content(&dst.join("test"), "Hello world.");
    assert_file_content(&dst.join("foo/bar.txt"), "Foo bar.");
    assert_eq!(count_entries(dst), 2);
}

#[test]
fn tar_gz_with_corrupted_start_fails() {
    let test_dir = make_test_data();
    let mut archive = tar_gz_directory(test_dir.path());
    archive[0] ^= 0xff;
    archive[1] ^= 0xff;

    let dir = tempfile::tempdir().unwrap();
    let result = extract_tar_gz_forward(dir.path(), archive);

    assert_eq!(result, Err(ArchiveError::Format(FormatIssue::Malformed)));
    assert_eq!(count_entries(dir.path()), 0);
}

#[test]
fn backslash_in_file_name_round_trips_where_slash_separates() {
    if std::path::MAIN_SEPARATOR != '/' {
        return;
    }
    let test_dir = make_test_data();
    write_file(&test_dir.path().join("foo").join("a\\b"), b"Back slash.");

    let tar_dst = tempfile::tempdir().unwrap();
    extract_tar_gz_forward(tar_dst.path(), tar_gz_directory(test_dir.path())).unwrap();
    assert_file_content(&tar_dst.path().join("foo").join("a\\b"), "Back slash.");
    assert_file_content(&tar_dst.path().join("foo/bar.txt"), "Foo bar.");

    let zip_dst = tempfile::tempdir().unwrap();
    extract_zip_forward(zip_dst.path(), zip_directory(test_dir.path())).unwrap();
    assert_file_content(&zip_dst.path().join("foo").join("a\\b"), "Back slash.");
    assert_file_content(&zip_dst.path().join("test"), "Hello world.");
}
