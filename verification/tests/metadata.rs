use tsdf::error::TsdfError;
use tsdf::format::{FileFormat, IoMode, ReadMode, WriteMode};
use tsdf::metadata::{IoMetadata, TsdfMetadata, UninitializedTsdfMetadata};

#[test]
fn metadata_getters_give_back_what_was_put_in() {
    let tsdf_metadata = TsdfMetadata::new("1.2.3".to_string(), FileFormat::Text);
    assert_eq!(tsdf_metadata.get_version(), "1.2.3");
    assert_eq!(*tsdf_metadata.get_file_format(), FileFormat::Text);
    let io_metadata = IoMetadata::new(tsdf_metadata, IoMode::Read(ReadMode::LocklessRead));
    assert_eq!(io_metadata.get_tsdf_metadata().get_version(), "1.2.3");
    assert_eq!(*io_metadata.get_io_mode(), IoMode::Read(ReadMode::LocklessRead));
    assert!(io_metadata.is_text());
}

#[test]
fn request_getters_give_back_what_was_put_in() {
    let request = UninitializedTsdfMetadata::new(
        "0.1.0",
        Some(FileFormat::Binary),
        IoMode::Write(WriteMode::LockingWrite),
    );
    assert_eq!(request.get_current_version(), "0.1.0");
    assert_eq!(*request.get_file_format(), Some(FileFormat::Binary));
    assert_eq!(*request.get_io_mode(), IoMode::Write(WriteMode::LockingWrite));
}

#[test]
fn a_writer_without_a_mode_does_not_lock() {
    let request = UninitializedTsdfMetadata::for_writer("0.1.0", None, None);
    assert_eq!(*request.get_io_mode(), IoMode::Write(WriteMode::LocklessWrite));
    let request =
        UninitializedTsdfMetadata::for_writer("0.1.0", Some(WriteMode::LockingWrite), None);
    assert_eq!(*request.get_io_mode(), IoMode::Write(WriteMode::LockingWrite));
    let request = UninitializedTsdfMetadata::for_reader("0.1.0");
    assert_eq!(*request.get_io_mode(), IoMode::Read(ReadMode::LocklessRead));
    assert_eq!(*request.get_file_format(), None);
}

#[test]
fn a_new_file_is_binary_unless_text_is_asked_for() {
    for (asked, settled) in [
        (None, FileFormat::Binary),
        (Some(FileFormat::Default), FileFormat::Binary),
        (Some(FileFormat::Binary), FileFormat::Binary),
        (Some(FileFormat::Text), FileFormat::Text),
    ] {
        let request = UninitializedTsdfMetadata::for_writer("0.1.0", None, asked);
        let io_metadata = request.create();
        assert_eq!(*io_metadata.get_tsdf_metadata().get_file_format(), settled);
        assert_eq!(io_metadata.get_tsdf_metadata().get_version(), "0.1.0");
    }
}

#[test]
fn an_existing_file_decides_its_format() {
    for (asked, recorded, agrees) in [
        (None, FileFormat::Text, true),
        (None, FileFormat::Binary, true),
        (Some(FileFormat::Default), FileFormat::Text, true),
        (Some(FileFormat::Text), FileFormat::Text, true),
        (Some(FileFormat::Binary), FileFormat::Binary, true),
        (Some(FileFormat::Binary), FileFormat::Text, false),
        (Some(FileFormat::Text), FileFormat::Binary, false),
        (Some(FileFormat::Text), FileFormat::Default, false),
    ] {
        let request = UninitializedTsdfMetadata::for_writer("0.2.0", None, asked);
        let opened = request.open(TsdfMetadata::new("0.1.0".to_string(), recorded));
        match opened {
            Ok(io_metadata) => {
                assert!(agrees);
                assert_eq!(*io_metadata.get_tsdf_metadata().get_file_format(), recorded);
                assert_eq!(io_metadata.get_tsdf_metadata().get_version(), "0.1.0");
            }
            Err(e) => {
                assert!(!agrees);
                assert_eq!(e, TsdfError::FormatMismatch);
            }
        }
    }
}

#[test]
fn format_default_is_laid_down_as_binary() {
    assert!(!FileFormat::Default.is_text());
    assert!(!FileFormat::Binary.is_text());
    assert!(FileFormat::Text.is_text());
}
