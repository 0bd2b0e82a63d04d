use tsdf::error::TsdfError;
use tsdf::file::{find_header_end, TsdfFile, TsdfFileTrait};
use tsdf::format::{FileFormat, IoMode, ReadMode, WriteMode};
use tsdf::image::FileImage;
use tsdf::metadata::{IoMetadata, TsdfMetadata, UninitializedTsdfMetadata};

#[test]
fn the_header_ends_behind_the_first_marker() {
    let bytes = b"{\"version\":\"1\"}END rest END more";
    assert_eq!(find_header_end(bytes, b"END"), Some(18));
    assert_eq!(&bytes[..18 - 3], b"{\"version\":\"1\"}");
    assert_eq!(find_header_end(b"END", b"END"), Some(3));
    assert_eq!(find_header_end(b"xENDEND", b"END"), Some(4));
    assert_eq!(find_header_end(b"ababc", b"abc"), Some(5));
}

#[test]
fn a_container_without_marker_has_no_header_end() {
    assert_eq!(find_header_end(b"{\"version\":\"1\"}", b"END"), None);
    assert_eq!(find_header_end(b"EN", b"END"), None);
    assert_eq!(find_header_end(b"", b"END"), None);
    assert_eq!(find_header_end(b"", b""), None);
}

#[test]
fn an_empty_marker_ends_the_header_after_one_byte() {
    assert_eq!(find_header_end(b"abc", b""), Some(1));
}

#[test]
fn a_created_container_holds_its_header() {
    let request =
        UninitializedTsdfMetadata::for_writer("0.1.0", None, Some(FileFormat::Text));
    let file = TsdfFile::create(&request, b"header".to_vec());
    assert_eq!(file.get_size(), 6);
    assert_eq!(file.get_version(), "0.1.0");
    assert_eq!(*file.get_file_format(), FileFormat::Text);
    assert_eq!(*file.get_io_mode(), IoMode::Write(WriteMode::LocklessWrite));
    assert_eq!(file.get_image().as_bytes(), &b"header".to_vec());
    assert_eq!(file.get_tsdf_metadata().get_version(), "0.1.0");
    assert_eq!(
        *file.get_io_metadata().get_io_mode(),
        IoMode::Write(WriteMode::LocklessWrite)
    );
}

#[test]
fn an_opened_container_takes_what_its_header_records() {
    let request = UninitializedTsdfMetadata::for_reader("0.2.0");
    let recorded = TsdfMetadata::new("0.1.0".to_string(), FileFormat::Text);
    let file = TsdfFile::open(&request, recorded, vec![1, 2, 3]).unwrap();
    assert_eq!(file.get_version(), "0.1.0");
    assert_eq!(*file.get_file_format(), FileFormat::Text);
    assert_eq!(*file.get_io_mode(), IoMode::Read(ReadMode::LocklessRead));
    assert_eq!(file.get_size(), 3);
    let (io_metadata, image) = file.into_parts();
    assert!(io_metadata.is_text());
    assert_eq!(image.as_bytes(), &vec![1, 2, 3]);
}

#[test]
fn opening_with_another_format_is_a_mismatch() {
    let request =
        UninitializedTsdfMetadata::for_writer("0.2.0", None, Some(FileFormat::Binary));
    let recorded = TsdfMetadata::new("0.1.0".to_string(), FileFormat::Text);
    assert!(matches!(
        TsdfFile::open(&request, recorded, vec![]),
        Err(TsdfError::FormatMismatch)
    ));
}

#[test]
fn a_container_from_parts_gives_them_back() {
    let io_metadata = IoMetadata::new(
        TsdfMetadata::new("v".to_string(), FileFormat::Binary),
        IoMode::Write(WriteMode::LockingWrite),
    );
    let file = TsdfFile::new(io_metadata, FileImage::from_bytes(vec![9; 10]));
    assert_eq!(file.get_size(), 10);
    assert_eq!(*file.get_io_mode(), IoMode::Write(WriteMode::LockingWrite));
}
