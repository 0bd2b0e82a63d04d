use tsdf::addr::Addr;
use tsdf::error::TsdfError;
use tsdf::format::{FileFormat, IoMode, WriteMode};
use tsdf::hash::TsdfHash;
use tsdf::image::FileImage;
use tsdf::link_ptr::LinkPtr;
use tsdf::metadata::{IoMetadata, TsdfMetadata};
use tsdf::serial::{FileSerializable, VariableSizeOnDisk};
use tsdf::shard::DistDictShard;

fn metadata_for(file_format: FileFormat) -> IoMetadata {
    IoMetadata::new(
        TsdfMetadata::new("no_version".to_string(), file_format),
        IoMode::Write(WriteMode::LocklessWrite),
    )
}

/// A pair goes into a shard and out again, in the text format.
#[test]
fn dist_dict_shard_test_add_remove_text() {
    let io_metadata = metadata_for(FileFormat::Text);
    let mut file = FileImage::new();

    let mut shard: DistDictShard<'_, Addr> =
        DistDictShard::new(1, Addr::new(0), &io_metadata, false);

    shard.init(&mut file);

    let key = "test_key".to_string();
    let hashed_key = TsdfHash::new(&key);
    let val = Addr::new(123);

    shard.add(&mut file, &hashed_key, &val).unwrap();

    assert!(shard.contains(&file, &hashed_key).unwrap());

    shard.remove(&mut file, &hashed_key);

    assert!(!shard.contains(&file, &hashed_key).unwrap());
}

/// A pair goes into a shard and out again, in the binary format.
#[test]
fn test_add_remove_binary() {
    let io_metadata = metadata_for(FileFormat::Binary);
    let mut file = FileImage::new();

    let mut shard: DistDictShard<'_, Addr> =
        DistDictShard::new(1, Addr::new(0), &io_metadata, false);

    shard.init(&mut file);

    let key = "test_key".to_string();
    let hashed_key = TsdfHash::new(&key);
    let val = Addr::new(123);

    shard.add(&mut file, &hashed_key, &val).unwrap();

    assert!(shard.contains(&file, &hashed_key).unwrap());

    shard.remove(&mut file, &hashed_key);

    assert!(!shard.contains(&file, &hashed_key).unwrap());
}

#[test]
fn capacity_doubles_with_the_link_number() {
    let io_metadata = metadata_for(FileFormat::Binary);
    for (link, slots) in [(0u32, 8u64), (1, 16), (2, 32), (3, 64), (10, 8192)] {
        let shard: DistDictShard<'_, Addr> =
            DistDictShard::new(link, Addr::new(100), &io_metadata, false);
        assert_eq!(shard.get_num_keys(), slots);
        assert_eq!(shard.get_link_number(), link);
    }
}

#[test]
fn binary_layout_of_a_shard() {
    let io_metadata = metadata_for(FileFormat::Binary);
    let shard: DistDictShard<'_, Addr> =
        DistDictShard::new(0, Addr::new(100), &io_metadata, false);
    assert_eq!(shard.get_size_on_disk(&io_metadata), 1 + 8 + 8 * (8 + 8 + 1));
    assert_eq!(shard.get_is_next_written_addr().get_loc(), 100);
    assert_eq!(shard.get_next_addr().get_loc(), 101);
    assert_eq!(shard.get_hash_addr(0).get_loc(), 109);
    assert_eq!(shard.get_val_addr(0).get_loc(), 117);
    assert_eq!(shard.get_is_hash_written_addr(0).get_loc(), 125);
    assert_eq!(shard.get_hash_addr(1).get_loc(), 126);
    assert_eq!(shard.get_hash_addr(7).get_loc(), 109 + 7 * 17);
    assert_eq!(shard.get_is_hash_written_addr(7).get_loc(), 100 + 145 - 1);
    assert_eq!(shard.get_addr().get_loc(), 100);

    let second: DistDictShard<'_, Addr> =
        DistDictShard::new(1, Addr::new(0), &io_metadata, false);
    assert_eq!(second.get_size_on_disk(&io_metadata), 1 + 8 + 16 * 17);
}

#[test]
fn text_layout_of_a_shard() {
    let io_metadata = metadata_for(FileFormat::Text);
    let shard: DistDictShard<'_, Addr> =
        DistDictShard::new(0, Addr::new(10), &io_metadata, false);
    assert_eq!(
        shard.get_size_on_disk(&io_metadata),
        1 + 28 + 8 * (35 + 28 + 1)
    );
    assert_eq!(shard.get_next_addr().get_loc(), 11);
    assert_eq!(shard.get_hash_addr(0).get_loc(), 39);
    assert_eq!(shard.get_val_addr(0).get_loc(), 74);
    assert_eq!(shard.get_is_hash_written_addr(0).get_loc(), 102);
    assert_eq!(shard.get_hash_addr(3).get_loc(), 39 + 3 * 64);
}

#[test]
fn init_lays_out_every_slot_empty() {
    let io_metadata = metadata_for(FileFormat::Binary);
    let mut file = FileImage::new();
    let mut shard: DistDictShard<'_, Addr> =
        DistDictShard::new(0, Addr::new(0), &io_metadata, false);
    assert!(!shard.is_initialized());
    shard.init(&mut file);
    assert!(shard.is_initialized());
    assert_eq!(file.len(), 145);
    assert_eq!(file.as_bytes(), &vec![0u8; 145]);
    assert_eq!(shard.is_next_written(&file), Ok(false));
    assert_eq!(shard.get_next(&file), Ok(LinkPtr::null()));
    for n in 0..8 {
        assert_eq!(shard.is_hash_written(&file, n), Ok(false));
        assert_eq!(shard.get_hash(&file, n), Ok(TsdfHash::null()));
        assert_eq!(shard.get_val(&file, n), Ok(Addr::null()));
    }
}

#[test]
fn init_in_text_writes_padded_null_objects() {
    let io_metadata = metadata_for(FileFormat::Text);
    let mut file = FileImage::new();
    let mut shard: DistDictShard<'_, Addr> =
        DistDictShard::new(0, Addr::new(0), &io_metadata, false);
    shard.init(&mut file);
    assert_eq!(file.len(), 1 + 28 + 8 * 64);
    let bytes = file.as_bytes();
    let hash_at = shard.get_hash_addr(2).get_loc() as usize;
    assert_eq!(
        &bytes[hash_at..hash_at + 35],
        "{\"hash_value\":0}                   ".as_bytes()
    );
    let val_at = shard.get_val_addr(2).get_loc() as usize;
    assert_eq!(
        &bytes[val_at..val_at + 28],
        "{\"loc\":0}                   ".as_bytes()
    );
    assert_eq!(bytes[shard.get_is_hash_written_addr(2).get_loc() as usize], 0);
}

#[test]
fn add_fills_the_slot_that_the_hash_falls_into() {
    let io_metadata = metadata_for(FileFormat::Binary);
    let mut file = FileImage::new();
    let mut shard: DistDictShard<'_, Addr> =
        DistDictShard::new(0, Addr::new(0), &io_metadata, false);
    let hash = TsdfHash { hash_value: 0x1234_5678_9abc_def3 };
    // Adding to a shard that is not initialized lays it out first.
    shard.add(&mut file, &hash, &Addr::new(1234)).unwrap();
    assert!(shard.is_initialized());
    assert_eq!(file.len(), 145);
    let n = shard.slot_of(&hash);
    assert_eq!(n, 3);
    assert_eq!(shard.is_hash_written(&file, 3), Ok(true));
    assert_eq!(shard.get_hash(&file, 3), Ok(hash));
    assert_eq!(shard.get_val(&file, 3), Ok(Addr::new(1234)));
    for other in [0u64, 1, 2, 4, 5, 6, 7] {
        assert_eq!(shard.is_hash_written(&file, other), Ok(false));
    }
    let bytes = file.as_bytes();
    let at = shard.get_hash_addr(3).get_loc() as usize;
    assert_eq!(&bytes[at..at + 8], &hash.to_bin()[..]);
    assert_eq!(&bytes[at + 8..at + 16], &Addr::new(1234).to_bin()[..]);
    assert_eq!(bytes[at + 16], 1);
}

#[test]
fn remove_clears_flag_hash_and_value() {
    let io_metadata = metadata_for(FileFormat::Binary);
    let mut file = FileImage::new();
    let mut shard: DistDictShard<'_, Addr> =
        DistDictShard::new(0, Addr::new(0), &io_metadata, false);
    let hash = TsdfHash { hash_value: 21 };
    shard.add(&mut file, &hash, &Addr::new(99)).unwrap();
    shard.remove(&mut file, &hash);
    assert_eq!(file.as_bytes(), &vec![0u8; 145]);
    assert_eq!(shard.contains(&file, &hash), Ok(false));
}

#[test]
fn remove_on_a_shard_that_is_not_initialized_writes_nothing() {
    let io_metadata = metadata_for(FileFormat::Binary);
    let mut file = FileImage::new();
    let shard: DistDictShard<'_, Addr> =
        DistDictShard::new(0, Addr::new(0), &io_metadata, false);
    shard.remove(&mut file, &TsdfHash { hash_value: 21 });
    assert_eq!(file.len(), 0);
}

#[test]
fn the_null_hash_is_no_key() {
    let io_metadata = metadata_for(FileFormat::Binary);
    let mut file = FileImage::new();
    let mut shard: DistDictShard<'_, Addr> =
        DistDictShard::new(0, Addr::new(0), &io_metadata, false);
    assert_eq!(
        shard.add(&mut file, &TsdfHash::null(), &Addr::new(1)),
        Err(TsdfError::CorruptEncoding)
    );
    assert_eq!(file.len(), 0);
}

#[test]
fn a_committed_slot_with_the_null_hash_is_corrupt() {
    let io_metadata = metadata_for(FileFormat::Binary);
    let mut file = FileImage::new();
    let mut shard: DistDictShard<'_, Addr> =
        DistDictShard::new(0, Addr::new(0), &io_metadata, false);
    shard.init(&mut file);
    let flag = shard.get_is_hash_written_addr(5).get_loc();
    file.write_byte(flag, 1).unwrap();
    assert_eq!(shard.get_hash(&file, 5), Err(TsdfError::CorruptEncoding));
}

#[test]
fn a_flag_byte_other_than_one_means_not_written() {
    let io_metadata = metadata_for(FileFormat::Binary);
    let mut file = FileImage::new();
    let mut shard: DistDictShard<'_, Addr> =
        DistDictShard::new(0, Addr::new(0), &io_metadata, false);
    shard.init(&mut file);
    let flag = shard.get_is_hash_written_addr(5).get_loc();
    file.write_byte(flag, 2).unwrap();
    assert_eq!(shard.is_hash_written(&file, 5), Ok(false));
    file.write_byte(0, 255).unwrap();
    assert_eq!(shard.is_next_written(&file), Ok(false));
}

#[test]
fn set_next_publishes_the_pointer() {
    let io_metadata = metadata_for(FileFormat::Binary);
    let mut file = FileImage::new();
    let mut shard: DistDictShard<'_, Addr> =
        DistDictShard::new(0, Addr::new(0), &io_metadata, false);
    shard.init(&mut file);
    shard.set_next(&mut file, &LinkPtr::Addr(Addr::new(145)));
    assert_eq!(shard.is_next_written(&file), Ok(true));
    assert_eq!(shard.get_next(&file), Ok(LinkPtr::Addr(Addr::new(145))));
    assert_eq!(shard.get_next_ptr(&file), Ok(LinkPtr::Addr(Addr::new(145))));
    assert_eq!(file.as_bytes()[0], 1);
    assert_eq!(&file.as_bytes()[1..9], &[145, 0, 0, 0, 0, 0, 0, 0]);
}

#[test]
fn reading_a_shard_that_the_container_does_not_hold_fails() {
    let io_metadata = metadata_for(FileFormat::Binary);
    let file = FileImage::new();
    let shard: DistDictShard<'_, Addr> =
        DistDictShard::new(0, Addr::new(0), &io_metadata, true);
    assert!(!shard.is_within(&file));
    assert_eq!(shard.is_hash_written(&file, 0), Err(TsdfError::IoFailure));
    assert_eq!(shard.get_hash(&file, 0), Err(TsdfError::IoFailure));
    assert_eq!(shard.get_next(&file), Err(TsdfError::IoFailure));
    assert_eq!(
        shard.contains(&file, &TsdfHash { hash_value: 1 }),
        Err(TsdfError::IoFailure)
    );
}

#[test]
fn a_shard_beyond_what_can_be_addressed_is_refused() {
    let io_metadata = metadata_for(FileFormat::Binary);
    assert!(DistDictShard::<Addr>::try_new(61, Addr::new(0), &io_metadata, false).is_err());
    assert!(DistDictShard::<Addr>::try_new(60, Addr::new(0), &io_metadata, false).is_err());
    let beyond = Addr::new(u64::MAX - 100);
    assert!(DistDictShard::<Addr>::try_new(0, beyond, &io_metadata, false).is_err());
    assert!(DistDictShard::<Addr>::try_new(3, Addr::new(5), &io_metadata, false).is_ok());
}

#[test]
fn a_shard_has_a_width_in_each_format() {
    let io_metadata = metadata_for(FileFormat::Binary);
    let shard: DistDictShard<'_, Addr> =
        DistDictShard::new(2, Addr::new(0), &io_metadata, false);
    assert_eq!(shard.get_bin_size_on_disk(), 1 + 8 + 32 * 17);
    assert_eq!(shard.get_json_size_on_disk(), 1 + 28 + 32 * 64);
    assert_eq!(shard.get_size_on_disk(&metadata_for(FileFormat::Text)), 1 + 28 + 32 * 64);
    assert_eq!(shard.get_size_on_disk(&metadata_for(FileFormat::Default)), 1 + 8 + 32 * 17);
}
