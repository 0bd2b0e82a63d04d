use tsdf::error::TsdfError;
use tsdf::image::FileImage;

#[test]
fn a_new_image_is_empty() {
    let file = FileImage::new();
    assert_eq!(file.len(), 0);
    assert_eq!(file.read_byte(0), Err(TsdfError::IoFailure));
    assert_eq!(file.read_at(0, 0), Ok(vec![]));
    assert_eq!(file.read_at(0, 1), Err(TsdfError::IoFailure));
}

#[test]
fn writes_land_where_they_are_placed() {
    let mut file = FileImage::from_bytes(vec![1, 2, 3, 4, 5]);
    file.write_at(1, &[9, 8]).unwrap();
    assert_eq!(file.as_bytes(), &vec![1, 9, 8, 4, 5]);
    assert_eq!(file.read_at(1, 3), Ok(vec![9, 8, 4]));
    assert_eq!(file.read_byte(4), Ok(5));
    assert_eq!(file.read_byte(5), Err(TsdfError::IoFailure));
}

#[test]
fn a_write_past_the_end_grows_the_image() {
    let mut file = FileImage::from_bytes(vec![1, 2, 3]);
    file.write_at(2, &[7, 7, 7]).unwrap();
    assert_eq!(file.as_bytes(), &vec![1, 2, 7, 7, 7]);
    assert_eq!(file.len(), 5);
}

#[test]
fn a_gap_before_a_write_reads_as_zero() {
    let mut file = FileImage::from_bytes(vec![1, 2]);
    file.write_at(5, &[6]).unwrap();
    assert_eq!(file.as_bytes(), &vec![1, 2, 0, 0, 0, 6]);
    file.write_byte(8, 9).unwrap();
    assert_eq!(file.as_bytes(), &vec![1, 2, 0, 0, 0, 6, 0, 0, 9]);
}

#[test]
fn an_empty_write_changes_no_byte() {
    let mut file = FileImage::from_bytes(vec![1, 2]);
    file.write_at(1, &[]).unwrap();
    assert_eq!(file.as_bytes(), &vec![1, 2]);
    file.write_at(4, &[]).unwrap();
    assert_eq!(file.as_bytes(), &vec![1, 2, 0, 0]);
}

#[test]
fn reads_past_the_end_fail() {
    let file = FileImage::from_bytes(vec![1, 2, 3]);
    assert_eq!(file.read_at(2, 2), Err(TsdfError::IoFailure));
    assert_eq!(file.read_at(4, 0), Err(TsdfError::IoFailure));
    assert_eq!(file.read_at(3, 0), Ok(vec![]));
    assert_eq!(file.read_at(u64::MAX, 1), Err(TsdfError::IoFailure));
    assert_eq!(file.read_at(1, u64::MAX), Err(TsdfError::IoFailure));
}

#[test]
fn a_write_beyond_the_address_space_fails_and_writes_nothing() {
    let mut file = FileImage::from_bytes(vec![1, 2, 3]);
    assert_eq!(file.write_at(u64::MAX, &[1, 2]), Err(TsdfError::IoFailure));
    assert_eq!(file.write_byte(u64::MAX, 1), Err(TsdfError::IoFailure));
    assert_eq!(file.as_bytes(), &vec![1, 2, 3]);
}

#[test]
fn an_image_keeps_its_writes_only_when_asked_to() {
    let mut file = FileImage::from_bytes(vec![1, 2, 3]);
    file.write_at(0, &[9]).unwrap();
    assert!(file.take_pending().is_empty());
    let mut file = FileImage::new();
    file.write_byte(0, 1).unwrap();
    assert!(file.take_pending().is_empty());
}

#[test]
fn kept_writes_come_out_in_the_order_in_which_they_were_issued() {
    let mut file = FileImage::recording(vec![1, 2, 3]);
    file.write_at(1, &[9, 8]).unwrap();
    file.write_byte(6, 7).unwrap();
    file.write_at(0, &[]).unwrap();
    let entries = file.take_pending();
    assert_eq!(entries.len(), 3);
    assert_eq!((entries[0].addr, entries[0].data.clone()), (1, vec![9, 8]));
    assert_eq!((entries[1].addr, entries[1].data.clone()), (6, vec![7]));
    assert_eq!((entries[2].addr, entries[2].data.clone()), (0, vec![]));
    // Taking them leaves the bytes alone and the record empty.
    assert_eq!(file.as_bytes(), &vec![1, 9, 8, 0, 0, 0, 7]);
    assert!(file.take_pending().is_empty());
    // A failed write is not kept.
    assert_eq!(file.write_byte(u64::MAX, 1), Err(TsdfError::IoFailure));
    assert!(file.take_pending().is_empty());
}
