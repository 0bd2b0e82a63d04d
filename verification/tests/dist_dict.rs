use tsdf::addr::Addr;
use tsdf::dict::DistDict;
use tsdf::error::TsdfError;
use tsdf::format::{FileFormat, IoMode, WriteMode};
use tsdf::hash::{TsdfHash, TsdfHashable};
use tsdf::image::FileImage;
use tsdf::link_ptr::LinkPtr;
use tsdf::metadata::{IoMetadata, TsdfMetadata};
use tsdf::serial::{FileSerializable, FixedSizeOnDisk, VariableSizeOnDisk};
use tsdf::shard::DistDictShard;

fn metadata(file_format: FileFormat) -> IoMetadata {
    IoMetadata::new(
        TsdfMetadata::new("no_version".to_string(), file_format),
        IoMode::Write(WriteMode::LocklessWrite),
    )
}

/// Initializing a dictionary puts all of it into the file, in text.
#[test]
fn test_init_text() {
    let io_metadata = metadata(FileFormat::Text);
    let mut file = FileImage::new();

    assert_eq!(file.len(), 0);

    let mut dist_dict: DistDict<'_, String, Addr> =
        DistDict::open_at(&io_metadata, Addr::new(0), false).unwrap();

    dist_dict.init(&mut file);

    let shard = dist_dict.get_first_shard();
    let first_shard_size = shard.get_size_on_disk(&io_metadata);

    let dist_dict_size = DistDict::<'_, String, Addr>::get_size_on_disk(&io_metadata);

    assert_eq!(file.len(), dist_dict_size + first_shard_size);
}

/// Initializing a dictionary puts all of it into the file, in binary.
#[test]
fn test_init_bin() {
    let io_metadata = metadata(FileFormat::Binary);
    let mut file = FileImage::new();

    assert_eq!(file.len(), 0);

    let mut dist_dict: DistDict<'_, String, Addr> =
        DistDict::open_at(&io_metadata, Addr::new(0), false).unwrap();

    dist_dict.init(&mut file);

    let shard = dist_dict.get_first_shard();
    let first_shard_size = shard.get_size_on_disk(&io_metadata);

    let dist_dict_size = DistDict::<'_, String, Addr>::get_size_on_disk(&io_metadata);

    assert_eq!(file.len(), dist_dict_size + first_shard_size);
}

/// After one add the first shard holds the key, in text.
#[test]
fn test_add_text_shard_contains() {
    let io_metadata = metadata(FileFormat::Text);
    let mut file = FileImage::new();

    let mut dist_dict: DistDict<'_, String, Addr> =
        DistDict::open_at(&io_metadata, Addr::new(0), false).unwrap();

    let key = "key".to_string();
    let val = Addr::new(1234);

    dist_dict.add(&mut file, &key, &val).unwrap();

    let shard = dist_dict.get_first_shard();

    let hashed_key = key.hash();

    assert!(shard.contains(&file, &hashed_key).unwrap());
}

/// After one add the first shard holds the key, in binary.
#[test]
fn test_add_bin_shard_contains() {
    let io_metadata = metadata(FileFormat::Binary);
    let mut file = FileImage::new();

    let mut dist_dict: DistDict<'_, String, Addr> =
        DistDict::open_at(&io_metadata, Addr::new(0), false).unwrap();

    let key = "key".to_string();
    let val = Addr::new(1234);

    dist_dict.add(&mut file, &key, &val).unwrap();

    let shard = dist_dict.get_first_shard();

    let hashed_key = key.hash();

    assert!(shard.contains(&file, &hashed_key).unwrap());
}

/// A dictionary does not contain a key that was never added, in text.
#[test]
fn test_contains_false_text() {
    let io_metadata = metadata(FileFormat::Text);
    let file = FileImage::new();

    let dist_dict: DistDict<'_, String, Addr> =
        DistDict::open_at(&io_metadata, Addr::new(0), false).unwrap();

    let key = "key";

    assert!(!dist_dict.contains(&file, &key.to_string()).unwrap());
}

/// A dictionary does not contain a key that was never added, in binary.
#[test]
fn test_contains_false_bin() {
    let io_metadata = metadata(FileFormat::Binary);
    let file = FileImage::new();

    let dist_dict: DistDict<'_, String, Addr> =
        DistDict::open_at(&io_metadata, Addr::new(0), false).unwrap();

    let key = "key";

    assert!(!dist_dict.contains(&file, &key.to_string()).unwrap());
}

/// A dictionary contains a key that was added, in text.
#[test]
fn test_contains_true_text() {
    let io_metadata = metadata(FileFormat::Text);
    let mut file = FileImage::new();

    let mut dist_dict: DistDict<'_, String, Addr> =
        DistDict::open_at(&io_metadata, Addr::new(0), false).unwrap();

    let key = "key".to_string();
    let val = Addr::new(1234);

    dist_dict.add(&mut file, &key, &val).unwrap();

    assert!(dist_dict.contains(&file, &key).unwrap());
}

/// A dictionary contains a key that was added, in binary.
#[test]
fn test_contains_true_bin() {
    let io_metadata = metadata(FileFormat::Binary);
    let mut file = FileImage::new();

    let mut dist_dict: DistDict<'_, String, Addr> =
        DistDict::open_at(&io_metadata, Addr::new(0), false).unwrap();

    let key = "key".to_string();
    let val = Addr::new(1234);

    dist_dict.add(&mut file, &key, &val).unwrap();

    assert!(dist_dict.contains(&file, &key).unwrap());
}

/// A pair goes into a dictionary and out again, in text.
#[test]
fn dist_dict_test_add_remove_text() {
    let io_metadata = metadata(FileFormat::Text);
    let mut file = FileImage::new();

    let mut dist_dict: DistDict<'_, String, Addr> =
        DistDict::open_at(&io_metadata, Addr::new(0), false).unwrap();

    let key = "key".to_string();
    let val = Addr::new(1234);

    dist_dict.add(&mut file, &key, &val).unwrap();

    assert!(dist_dict.contains(&file, &key).unwrap());

    dist_dict.remove(&mut file, &key).unwrap();

    assert!(!dist_dict.contains(&file, &key).unwrap());
}

/// A pair goes into a dictionary and out again, in binary.
#[test]
fn test_add_remove_bin() {
    let io_metadata = metadata(FileFormat::Binary);
    let mut file = FileImage::new();

    let mut dist_dict: DistDict<'_, String, Addr> =
        DistDict::open_at(&io_metadata, Addr::new(0), false).unwrap();

    let key = "key".to_string();
    let val = Addr::new(1234);

    dist_dict.add(&mut file, &key, &val).unwrap();

    assert!(dist_dict.contains(&file, &key).unwrap());

    dist_dict.remove(&mut file, &key).unwrap();

    assert!(!dist_dict.contains(&file, &key).unwrap());
}

/// Adding a key twice keeps the second value.
#[test]
fn test_add_twice_text() {
    let io_metadata = metadata(FileFormat::Text);
    let mut file = FileImage::new();

    let mut dist_dict: DistDict<'_, String, Addr> =
        DistDict::open_at(&io_metadata, Addr::new(0), false).unwrap();

    let key = "key".to_string();
    let val1 = Addr::new(1234);
    let val2 = Addr::new(5678);

    dist_dict.add(&mut file, &key, &val1).unwrap();

    assert!(dist_dict.contains(&file, &key).unwrap());

    dist_dict.add(&mut file, &key, &val2).unwrap();

    assert!(dist_dict.contains(&file, &key).unwrap());

    let shard = dist_dict.get_first_shard();
    let hashed_key = key.hash();
    let hash_idx = hashed_key.get_hash_table_idx(shard.get_num_keys());
    assert_eq!(shard.get_val(&file, hash_idx).unwrap(), val2);
}

/// Getting a key that was never added gives nothing, in text.
#[test]
fn test_get_none_text() {
    let io_metadata = metadata(FileFormat::Text);
    let file = FileImage::new();

    let dist_dict: DistDict<'_, String, Addr> =
        DistDict::open_at(&io_metadata, Addr::new(0), false).unwrap();

    let key = "key";

    assert_eq!(dist_dict.get(&file, &key.to_string()).unwrap(), None);
}

/// Getting a key that was never added gives nothing, in binary.
#[test]
fn test_get_none_bin() {
    let io_metadata = metadata(FileFormat::Binary);
    let file = FileImage::new();

    let dist_dict: DistDict<'_, String, Addr> =
        DistDict::open_at(&io_metadata, Addr::new(0), false).unwrap();

    let key = "key";

    assert_eq!(dist_dict.get(&file, &key.to_string()).unwrap(), None);
}

/// Getting a key that was added gives its value, in text.
#[test]
fn test_get_text() {
    let io_metadata = metadata(FileFormat::Text);
    let mut file = FileImage::new();

    let mut dist_dict: DistDict<'_, String, Addr> =
        DistDict::open_at(&io_metadata, Addr::new(0), false).unwrap();

    let key = "key".to_string();
    let val = Addr::new(1234);

    dist_dict.add(&mut file, &key, &val).unwrap();

    assert!(dist_dict.contains(&file, &key).unwrap());

    assert_eq!(dist_dict.get(&file, &key).unwrap().unwrap(), val);
}

/// Getting a key that was added gives its value, in binary.
#[test]
fn test_get_bin() {
    let io_metadata = metadata(FileFormat::Binary);
    let mut file = FileImage::new();

    let mut dist_dict: DistDict<'_, String, Addr> =
        DistDict::open_at(&io_metadata, Addr::new(0), false).unwrap();

    let key = "key".to_string();
    let val = Addr::new(1234);

    dist_dict.add(&mut file, &key, &val).unwrap();

    assert!(dist_dict.contains(&file, &key).unwrap());

    assert_eq!(dist_dict.get(&file, &key).unwrap().unwrap(), val);
}

/// Many pairs go in; each is found with its value, and each is gone once it
/// is removed.
#[test]
fn test_many_keys() {
    let io_metadata = metadata(FileFormat::Binary);
    let mut file = FileImage::new();

    let mut dist_dict: DistDict<'_, String, Addr> =
        DistDict::open_at(&io_metadata, Addr::new(0), false).unwrap();

    let num_keys = 10000;
    let mut key_vals = Vec::new();
    for i in 0..num_keys {
        let key = format!("key_{}", i);
        let val = Addr::new(i as u64);
        key_vals.push((key.clone(), val.clone()));
        dist_dict.add(&mut file, &key, &val).unwrap();
    }

    for (key, val) in key_vals {
        assert!(dist_dict.contains(&file, &key).unwrap());

        let found_val = dist_dict.get(&file, &key).unwrap().unwrap();
        assert_eq!(found_val, val);

        dist_dict.remove(&mut file, &key).unwrap();

        assert!(!dist_dict.contains(&file, &key).unwrap());
    }
}

fn hash_of(hash_value: u64) -> TsdfHash {
    TsdfHash { hash_value }
}

#[test]
fn create_grows_an_empty_binary_file_by_153_bytes() {
    let io_metadata = metadata(FileFormat::Binary);
    // A header of 40 bytes stands before the dictionary.
    let mut file = FileImage::from_bytes(vec![b'h'; 40]);
    let dist_dict: DistDict<'_, String, Addr> =
        DistDict::create_at(&mut file, &io_metadata, Addr::new(40)).unwrap();
    assert!(dist_dict.is_initialized());
    assert_eq!(file.len(), 40 + 153);
    assert_eq!(dist_dict.get_first_shard_addr().get_loc(), 48);
    // The dictionary's own bytes hold the address of the first shard.
    assert_eq!(&file.as_bytes()[40..48], &[48, 0, 0, 0, 0, 0, 0, 0]);
    // The header is untouched.
    assert_eq!(&file.as_bytes()[..40], &vec![b'h'; 40][..]);
    assert_eq!(dist_dict.get_addr().get_loc(), 40);
}

#[test]
fn create_in_text_grows_the_file_by_the_declared_widths() {
    let io_metadata = metadata(FileFormat::Text);
    let mut file = FileImage::from_bytes(vec![b'h'; 40]);
    let dist_dict: DistDict<'_, String, Addr> =
        DistDict::create_at(&mut file, &io_metadata, Addr::new(40)).unwrap();
    assert_eq!(file.len(), 40 + 28 + 1 + 28 + 8 * (35 + 28 + 1));
    assert_eq!(
        &file.as_bytes()[40..68],
        "{\"loc\":68}                  ".as_bytes()
    );
    assert_eq!(dist_dict.get_first_shard_addr().get_loc(), 68);
}

#[test]
fn single_insert_fills_one_slot_and_leaves_seven_empty() {
    for file_format in [FileFormat::Binary, FileFormat::Text] {
        let io_metadata = metadata(file_format);
        let mut file = FileImage::new();
        let mut dist_dict: DistDict<'_, String, Addr> =
            DistDict::open_at(&io_metadata, Addr::new(0), false).unwrap();
        let key = "key".to_string();
        dist_dict.add(&mut file, &key, &Addr::new(1234)).unwrap();
        let hashed_key = key.hash();
        let shard = dist_dict.get_first_shard();
        let i = hashed_key.get_hash_value() % 8;
        assert_eq!(shard.slot_of(&hashed_key), i);
        for n in 0..8 {
            if n == i {
                assert_eq!(shard.is_hash_written(&file, n), Ok(true));
                assert_eq!(shard.get_hash(&file, n), Ok(hashed_key));
                assert_eq!(shard.get_val(&file, n), Ok(Addr::new(1234)));
                let flag = shard.get_is_hash_written_addr(n).get_loc() as usize;
                assert_eq!(file.as_bytes()[flag], 1);
            } else {
                assert_eq!(shard.is_hash_written(&file, n), Ok(false));
                let flag = shard.get_is_hash_written_addr(n).get_loc() as usize;
                assert_eq!(file.as_bytes()[flag], 0);
            }
        }
    }
}

#[test]
fn text_slots_hold_the_expected_json_objects() {
    let io_metadata = metadata(FileFormat::Text);
    let mut file = FileImage::new();
    let mut dist_dict: DistDict<'_, String, Addr> =
        DistDict::open_at(&io_metadata, Addr::new(0), false).unwrap();
    let hash = hash_of(42);
    dist_dict.add_hashed(&mut file, &hash, &Addr::new(1234)).unwrap();
    let shard = dist_dict.get_first_shard();
    let hash_at = shard.get_hash_addr(2).get_loc() as usize;
    assert_eq!(
        &file.as_bytes()[hash_at..hash_at + 35],
        "{\"hash_value\":42}                  ".as_bytes()
    );
    let val_at = shard.get_val_addr(2).get_loc() as usize;
    assert_eq!(
        &file.as_bytes()[val_at..val_at + 28],
        "{\"loc\":1234}                ".as_bytes()
    );
    assert_eq!(file.as_bytes()[val_at + 28], 1);
}

#[test]
fn overwrite_keeps_the_file_length() {
    for file_format in [FileFormat::Binary, FileFormat::Text] {
        let io_metadata = metadata(file_format);
        let mut file = FileImage::new();
        let mut dist_dict: DistDict<'_, String, Addr> =
            DistDict::open_at(&io_metadata, Addr::new(0), false).unwrap();
        let key = "key".to_string();
        dist_dict.add(&mut file, &key, &Addr::new(1234)).unwrap();
        let len = file.len();
        dist_dict.add(&mut file, &key, &Addr::new(5678)).unwrap();
        assert_eq!(file.len(), len);
        assert_eq!(dist_dict.get(&file, &key), Ok(Some(Addr::new(5678))));
        let shard = dist_dict.get_first_shard();
        assert_eq!(shard.get_next(&file), Ok(LinkPtr::null()));
    }
}

#[test]
fn remove_leaves_null_encodings_behind() {
    for file_format in [FileFormat::Binary, FileFormat::Text] {
        let io_metadata = metadata(file_format);
        let mut file = FileImage::new();
        let mut dist_dict: DistDict<'_, String, Addr> =
            DistDict::create_at(&mut file, &io_metadata, Addr::new(0)).unwrap();
        let fresh = file.as_bytes().clone();
        let key = "key".to_string();
        dist_dict.add(&mut file, &key, &Addr::new(1234)).unwrap();
        assert_eq!(dist_dict.contains(&file, &key), Ok(true));
        dist_dict.remove(&mut file, &key).unwrap();
        assert_eq!(dist_dict.contains(&file, &key), Ok(false));
        assert_eq!(dist_dict.get(&file, &key), Ok(None));
        // Every byte is as it was right after the dictionary was laid out.
        assert_eq!(file.as_bytes(), &fresh);
        let shard = dist_dict.get_first_shard();
        let n = shard.slot_of(&key.hash());
        let hash_at = shard.get_hash_addr(n).get_loc() as usize;
        let hash_size = TsdfHash::get_size_on_disk(&io_metadata) as usize;
        let null_hash = if io_metadata.is_text() {
            TsdfHash::null().to_json().into_bytes()
        } else {
            TsdfHash::null().to_bin()
        };
        assert_eq!(&file.as_bytes()[hash_at..hash_at + hash_size], &null_hash[..]);
    }
}

#[test]
fn reads_on_a_fresh_handle_find_nothing_and_write_nothing() {
    let io_metadata = metadata(FileFormat::Binary);
    let mut file = FileImage::new();
    let dist_dict: DistDict<'_, String, Addr> =
        DistDict::open_at(&io_metadata, Addr::new(0), false).unwrap();
    for name in ["", "key", "another key"] {
        let key = name.to_string();
        assert_eq!(dist_dict.contains(&file, &key), Ok(false));
        assert_eq!(dist_dict.get(&file, &key), Ok(None));
        assert_eq!(dist_dict.remove(&mut file, &key), Ok(()));
    }
    assert_eq!(file.len(), 0);
    assert!(!dist_dict.is_initialized());
}

#[test]
fn removing_an_absent_key_changes_nothing() {
    let io_metadata = metadata(FileFormat::Binary);
    let mut file = FileImage::new();
    let mut dist_dict: DistDict<'_, String, Addr> =
        DistDict::open_at(&io_metadata, Addr::new(0), false).unwrap();
    dist_dict.add(&mut file, &"a".to_string(), &Addr::new(1)).unwrap();
    dist_dict.add(&mut file, &"b".to_string(), &Addr::new(2)).unwrap();
    let before = file.as_bytes().clone();
    dist_dict.remove(&mut file, &"c".to_string()).unwrap();
    assert_eq!(file.as_bytes(), &before);
    assert_eq!(dist_dict.get(&file, &"a".to_string()), Ok(Some(Addr::new(1))));
    assert_eq!(dist_dict.get(&file, &"b".to_string()), Ok(Some(Addr::new(2))));
}

#[test]
fn colliding_hashes_grow_the_chain() {
    let io_metadata = metadata(FileFormat::Binary);
    let mut file = FileImage::new();
    let mut dist_dict: DistDict<'_, String, Addr> =
        DistDict::open_at(&io_metadata, Addr::new(0), false).unwrap();
    // 8, 16 and 32 all fall into slot 0 of the first shard; 16 and 32 both
    // fall into slot 0 of the second.
    dist_dict.add_hashed(&mut file, &hash_of(8), &Addr::new(1)).unwrap();
    assert_eq!(file.len(), 153);
    dist_dict.add_hashed(&mut file, &hash_of(16), &Addr::new(2)).unwrap();
    assert_eq!(file.len(), 153 + 9 + 16 * 17);
    dist_dict.add_hashed(&mut file, &hash_of(32), &Addr::new(3)).unwrap();
    assert_eq!(file.len(), 153 + 9 + 16 * 17 + 9 + 32 * 17);

    assert_eq!(dist_dict.get_hashed(&file, &hash_of(8)), Ok(Some(Addr::new(1))));
    assert_eq!(dist_dict.get_hashed(&file, &hash_of(16)), Ok(Some(Addr::new(2))));
    assert_eq!(dist_dict.get_hashed(&file, &hash_of(32)), Ok(Some(Addr::new(3))));
    assert_eq!(dist_dict.get_hashed(&file, &hash_of(64)), Ok(None));
    assert_eq!(dist_dict.contains_hashed(&file, &hash_of(64)), Ok(false));

    // The first shard points at the second, the second at the third.
    let first = dist_dict.get_first_shard();
    assert_eq!(first.get_next(&file), Ok(LinkPtr::Addr(Addr::new(153))));
    let second: DistDictShard<'_, Addr> =
        DistDictShard::new(1, Addr::new(153), &io_metadata, true);
    assert_eq!(second.get_next(&file), Ok(LinkPtr::Addr(Addr::new(153 + 281))));
    assert_eq!(second.contains(&file, &hash_of(16)), Ok(true));
    let third: DistDictShard<'_, Addr> =
        DistDictShard::new(2, Addr::new(153 + 281), &io_metadata, true);
    assert_eq!(third.get_next(&file), Ok(LinkPtr::null()));
    assert_eq!(third.contains(&file, &hash_of(32)), Ok(true));
}

#[test]
fn lookup_goes_on_behind_a_free_slot() {
    let io_metadata = metadata(FileFormat::Binary);
    let mut file = FileImage::new();
    let mut dist_dict: DistDict<'_, String, Addr> =
        DistDict::open_at(&io_metadata, Addr::new(0), false).unwrap();
    dist_dict.add_hashed(&mut file, &hash_of(8), &Addr::new(1)).unwrap();
    dist_dict.add_hashed(&mut file, &hash_of(16), &Addr::new(2)).unwrap();
    // With 8 gone, slot 0 of the first shard is free, and 16 still stands in
    // the second shard.
    dist_dict.remove_hashed(&mut file, &hash_of(8)).unwrap();
    assert_eq!(dist_dict.contains_hashed(&file, &hash_of(8)), Ok(false));
    assert_eq!(dist_dict.get_hashed(&file, &hash_of(16)), Ok(Some(Addr::new(2))));
}

#[test]
fn an_older_copy_in_a_later_shard_shows_again_after_remove() {
    let io_metadata = metadata(FileFormat::Binary);
    let mut file = FileImage::new();
    let mut dist_dict: DistDict<'_, String, Addr> =
        DistDict::open_at(&io_metadata, Addr::new(0), false).unwrap();
    dist_dict.add_hashed(&mut file, &hash_of(8), &Addr::new(1)).unwrap();
    dist_dict.add_hashed(&mut file, &hash_of(16), &Addr::new(2)).unwrap();
    dist_dict.remove_hashed(&mut file, &hash_of(8)).unwrap();
    // 16 now goes into the first shard, in front of its older copy.
    dist_dict.add_hashed(&mut file, &hash_of(16), &Addr::new(3)).unwrap();
    assert_eq!(dist_dict.get_hashed(&file, &hash_of(16)), Ok(Some(Addr::new(3))));
    dist_dict.remove_hashed(&mut file, &hash_of(16)).unwrap();
    assert_eq!(dist_dict.get_hashed(&file, &hash_of(16)), Ok(Some(Addr::new(2))));
    dist_dict.remove_hashed(&mut file, &hash_of(16)).unwrap();
    assert_eq!(dist_dict.get_hashed(&file, &hash_of(16)), Ok(None));
}

#[test]
fn the_null_hash_is_refused_and_never_found() {
    let io_metadata = metadata(FileFormat::Binary);
    let mut file = FileImage::new();
    let mut dist_dict: DistDict<'_, String, Addr> =
        DistDict::open_at(&io_metadata, Addr::new(0), false).unwrap();
    assert_eq!(
        dist_dict.add_hashed(&mut file, &TsdfHash::null(), &Addr::new(1)),
        Err(TsdfError::CorruptEncoding)
    );
    assert_eq!(file.len(), 0);
    assert!(!dist_dict.is_initialized());
    dist_dict.add_hashed(&mut file, &hash_of(5), &Addr::new(1)).unwrap();
    let before = file.as_bytes().clone();
    assert_eq!(dist_dict.contains_hashed(&file, &TsdfHash::null()), Ok(false));
    assert_eq!(dist_dict.get_hashed(&file, &TsdfHash::null()), Ok(None));
    assert_eq!(dist_dict.remove_hashed(&mut file, &TsdfHash::null()), Ok(()));
    assert_eq!(file.as_bytes(), &before);
}

#[test]
fn a_handle_over_a_missing_dictionary_reports_io_failure() {
    let io_metadata = metadata(FileFormat::Binary);
    let mut file = FileImage::new();
    let mut dist_dict: DistDict<'_, String, Addr> =
        DistDict::open_at(&io_metadata, Addr::new(0), true).unwrap();
    let key = "key".to_string();
    assert_eq!(dist_dict.contains(&file, &key), Err(TsdfError::IoFailure));
    assert_eq!(dist_dict.get(&file, &key), Err(TsdfError::IoFailure));
    assert_eq!(dist_dict.remove(&mut file, &key), Err(TsdfError::IoFailure));
    assert_eq!(
        dist_dict.add(&mut file, &key, &Addr::new(1)),
        Err(TsdfError::IoFailure)
    );
    assert_eq!(file.len(), 0);
}

#[test]
fn a_corrupt_slot_is_reported() {
    let io_metadata = metadata(FileFormat::Text);
    let mut file = FileImage::new();
    let mut dist_dict: DistDict<'_, String, Addr> =
        DistDict::open_at(&io_metadata, Addr::new(0), false).unwrap();
    dist_dict.add_hashed(&mut file, &hash_of(3), &Addr::new(1)).unwrap();
    let shard = dist_dict.get_first_shard();
    // Spoil the value of the slot, then the hash.
    let val_at = shard.get_val_addr(3).get_loc();
    file.write_byte(val_at, b'?').unwrap();
    assert_eq!(
        dist_dict.get_hashed(&file, &hash_of(3)),
        Err(TsdfError::CorruptEncoding)
    );
    assert_eq!(dist_dict.contains_hashed(&file, &hash_of(3)), Ok(true));
    let hash_at = shard.get_hash_addr(3).get_loc();
    file.write_byte(hash_at, 0xff).unwrap();
    assert_eq!(
        dist_dict.contains_hashed(&file, &hash_of(3)),
        Err(TsdfError::CorruptEncoding)
    );
    assert_eq!(
        dist_dict.add_hashed(&mut file, &hash_of(11), &Addr::new(1)),
        Err(TsdfError::CorruptEncoding)
    );
}

#[test]
fn a_handle_opened_over_a_written_dictionary_reads_it() {
    let io_metadata = metadata(FileFormat::Binary);
    let mut file = FileImage::from_bytes(vec![0u8; 17]);
    let mut writer: DistDict<'_, String, Addr> =
        DistDict::create_at(&mut file, &io_metadata, Addr::new(17)).unwrap();
    for i in 0..100u64 {
        writer.add(&mut file, &format!("name {}", i), &Addr::new(i + 1)).unwrap();
    }
    let reader: DistDict<'_, String, Addr> =
        DistDict::open_at(&io_metadata, Addr::new(17), true).unwrap();
    for i in 0..100u64 {
        assert_eq!(
            reader.get(&file, &format!("name {}", i)),
            Ok(Some(Addr::new(i + 1)))
        );
    }
    assert_eq!(reader.get(&file, &"name 100".to_string()), Ok(None));
}

#[test]
fn string_keys_hash_as_the_standard_library_hashes_them() {
    let key = "key".to_string();
    assert_eq!(key.hash(), TsdfHash::new(&key));
    assert_eq!(key.hash(), TsdfHash::new(&"key"));
    assert_eq!(key.hash(), "key".to_string().hash());
    assert!(key.hash() != "kez".to_string().hash());
}

#[test]
fn a_dictionary_beyond_what_can_be_addressed_is_refused() {
    let io_metadata = metadata(FileFormat::Binary);
    for loc in [u64::MAX - 7, u64::MAX - 100] {
        assert!(DistDict::<String, Addr>::open_at(&io_metadata, Addr::new(loc), false).is_err());
    }
    let mut file = FileImage::new();
    let beyond = Addr::new(u64::MAX - 7);
    assert!(DistDict::<String, Addr>::create_at(&mut file, &io_metadata, beyond).is_err());
    assert_eq!(file.len(), 0);
}

#[test]
fn stress_in_text_format() {
    let io_metadata = metadata(FileFormat::Text);
    let mut file = FileImage::new();
    let mut dist_dict: DistDict<'_, String, Addr> =
        DistDict::open_at(&io_metadata, Addr::new(0), false).unwrap();
    for i in 0..300u64 {
        dist_dict.add(&mut file, &format!("key_{}", i), &Addr::new(i)).unwrap();
    }
    for i in 0..300u64 {
        let key = format!("key_{}", i);
        assert_eq!(dist_dict.get(&file, &key), Ok(Some(Addr::new(i))));
        dist_dict.remove(&mut file, &key).unwrap();
        assert_eq!(dist_dict.contains(&file, &key), Ok(false));
    }
    for i in 0..300u64 {
        assert_eq!(dist_dict.contains(&file, &format!("key_{}", i)), Ok(false));
    }
}

#[test]
fn nine_keys_need_a_second_shard() {
    let io_metadata = metadata(FileFormat::Binary);
    let mut file = FileImage::new();
    let mut dist_dict: DistDict<'_, String, Addr> =
        DistDict::open_at(&io_metadata, Addr::new(0), false).unwrap();
    // Eight keys fill the eight slots of the first shard.
    for hash_value in 1..=8u64 {
        dist_dict.add_hashed(&mut file, &hash_of(hash_value), &Addr::new(hash_value)).unwrap();
        assert_eq!(file.len(), 8 + 145);
    }
    // The ninth finds no free slot there.
    dist_dict.add_hashed(&mut file, &hash_of(9), &Addr::new(9)).unwrap();
    assert_eq!(file.len(), 8 + 145 + (1 + 8 + 16 * 17));
    for hash_value in 1..=9u64 {
        assert_eq!(
            dist_dict.get_hashed(&file, &hash_of(hash_value)),
            Ok(Some(Addr::new(hash_value)))
        );
    }
}

#[test]
fn the_file_ends_behind_the_last_shard() {
    let io_metadata = metadata(FileFormat::Text);
    let mut file = FileImage::from_bytes(vec![b' '; 100]);
    let mut dist_dict: DistDict<'_, String, Addr> =
        DistDict::create_at(&mut file, &io_metadata, Addr::new(100)).unwrap();
    let shard_size = |link: u64| 1 + 28 + (8u64 << link) * (35 + 28 + 1);
    assert_eq!(file.len(), 100 + 28 + shard_size(0));
    dist_dict.add_hashed(&mut file, &hash_of(64), &Addr::new(1)).unwrap();
    dist_dict.add_hashed(&mut file, &hash_of(128), &Addr::new(2)).unwrap();
    dist_dict.add_hashed(&mut file, &hash_of(256), &Addr::new(3)).unwrap();
    assert_eq!(
        file.len(),
        100 + 28 + shard_size(0) + shard_size(1) + shard_size(2)
    );
    // Removing gives no shard back.
    dist_dict.remove_hashed(&mut file, &hash_of(256)).unwrap();
    dist_dict.remove_hashed(&mut file, &hash_of(128)).unwrap();
    assert_eq!(
        file.len(),
        100 + 28 + shard_size(0) + shard_size(1) + shard_size(2)
    );
}

#[test]
fn other_keys_stay_as_they_are() {
    let io_metadata = metadata(FileFormat::Binary);
    let mut file = FileImage::new();
    let mut dist_dict: DistDict<'_, String, Addr> =
        DistDict::open_at(&io_metadata, Addr::new(0), false).unwrap();
    let others = [3u64, 8, 11, 16, 19, 24, 1000];
    for other in others {
        dist_dict.add_hashed(&mut file, &hash_of(other), &Addr::new(other + 1)).unwrap();
    }
    // 40 falls into the slots of 8, 16 and 24 in the first shard, of 8 and
    // 24 in the second, and of 8 in the third.
    dist_dict.add_hashed(&mut file, &hash_of(40), &Addr::new(7)).unwrap();
    for other in others {
        assert_eq!(
            dist_dict.get_hashed(&file, &hash_of(other)),
            Ok(Some(Addr::new(other + 1)))
        );
    }
    dist_dict.remove_hashed(&mut file, &hash_of(40)).unwrap();
    dist_dict.remove_hashed(&mut file, &hash_of(8)).unwrap();
    for other in others {
        let expected = if other == 8 { None } else { Some(Addr::new(other + 1)) };
        assert_eq!(dist_dict.get_hashed(&file, &hash_of(other)), Ok(expected));
    }
}

#[test]
fn stress_leaves_no_key_behind() {
    let io_metadata = metadata(FileFormat::Binary);
    let mut file = FileImage::new();
    let mut dist_dict: DistDict<'_, String, Addr> =
        DistDict::open_at(&io_metadata, Addr::new(0), false).unwrap();
    let num_keys = 10000u64;
    for i in 0..num_keys {
        dist_dict.add(&mut file, &format!("key_{}", i), &Addr::new(i)).unwrap();
    }
    for i in 0..num_keys {
        let key = format!("key_{}", i);
        assert_eq!(dist_dict.contains(&file, &key), Ok(true));
        assert_eq!(dist_dict.get(&file, &key), Ok(Some(Addr::new(i))));
    }
    for i in 0..num_keys {
        let key = format!("key_{}", i);
        dist_dict.remove(&mut file, &key).unwrap();
        assert_eq!(dist_dict.contains(&file, &key), Ok(false));
    }
    for i in 0..num_keys {
        assert_eq!(dist_dict.contains(&file, &format!("key_{}", i)), Ok(false));
    }
}

#[test]
fn the_commit_flag_is_written_last() {
    let io_metadata = metadata(FileFormat::Binary);
    let mut file = FileImage::recording(Vec::new());
    let mut dist_dict: DistDict<'_, String, Addr> =
        DistDict::create_at(&mut file, &io_metadata, Addr::new(0)).unwrap();
    // Laying out: the dictionary's own bytes, three writes for each of the
    // eight slots, and the flag of the next pointer.
    let laid_out = file.take_pending();
    assert_eq!(laid_out.len(), 1 + 8 * 3 + 1);
    assert_eq!(laid_out[0].addr, 0);
    assert_eq!((laid_out[25].addr, laid_out[25].data.clone()), (8, vec![0]));

    let shard = dist_dict.get_first_shard();
    dist_dict.add_hashed(&mut file, &hash_of(5), &Addr::new(77)).unwrap();
    let added = file.take_pending();
    assert_eq!(added.len(), 3);
    assert_eq!(added[0].addr, shard.get_val_addr(5).get_loc());
    assert_eq!(added[0].data, Addr::new(77).to_bin());
    assert_eq!(added[1].addr, shard.get_hash_addr(5).get_loc());
    assert_eq!(added[1].data, hash_of(5).to_bin());
    assert_eq!(added[2].addr, shard.get_is_hash_written_addr(5).get_loc());
    assert_eq!(added[2].data, vec![1]);

    dist_dict.remove_hashed(&mut file, &hash_of(5)).unwrap();
    let removed = file.take_pending();
    assert_eq!(removed.len(), 3);
    assert_eq!(removed[0].addr, shard.get_is_hash_written_addr(5).get_loc());
    assert_eq!(removed[0].data, vec![0]);
    assert_eq!(removed[1].addr, shard.get_hash_addr(5).get_loc());
    assert_eq!(removed[2].addr, shard.get_val_addr(5).get_loc());
}

#[test]
fn a_new_shard_is_laid_out_before_it_is_published() {
    let io_metadata = metadata(FileFormat::Binary);
    let mut file = FileImage::recording(Vec::new());
    let mut dist_dict: DistDict<'_, String, Addr> =
        DistDict::create_at(&mut file, &io_metadata, Addr::new(0)).unwrap();
    dist_dict.add_hashed(&mut file, &hash_of(8), &Addr::new(1)).unwrap();
    file.take_pending();
    dist_dict.add_hashed(&mut file, &hash_of(16), &Addr::new(2)).unwrap();
    let writes = file.take_pending();
    // Sixteen slots and the next flag of the new shard, then pointer and
    // flag of the old one, then value, hash and flag of the entry.
    assert_eq!(writes.len(), 16 * 3 + 1 + 2 + 3);
    for write in &writes[..49] {
        assert!(write.addr >= 153);
    }
    assert_eq!((writes[49].addr, writes[49].data.clone()), (9, Addr::new(153).to_bin()));
    assert_eq!((writes[50].addr, writes[50].data.clone()), (8, vec![1]));
    assert_eq!(writes[53].data, vec![1]);
    // Carried out one by one on the bytes from before, the writes give the
    // bytes from after.
    let mut replayed = FileImage::new();
    let mut first: DistDict<'_, String, Addr> =
        DistDict::create_at(&mut replayed, &io_metadata, Addr::new(0)).unwrap();
    first.add_hashed(&mut replayed, &hash_of(8), &Addr::new(1)).unwrap();
    for write in &writes {
        replayed.write_at(write.addr, &write.data).unwrap();
    }
    assert_eq!(replayed.as_bytes(), file.as_bytes());
}

/// What `dict` gives for each of `hashes` on the bytes `bytes`.
fn readings(
    dict: &DistDict<'_, String, Addr>,
    bytes: &[u8],
    hashes: &[u64],
) -> Vec<Result<Option<Addr>, TsdfError>> {
    let file = FileImage::from_bytes(bytes.to_vec());
    hashes.iter().map(|hash_value| dict.get_hashed(&file, &hash_of(*hash_value))).collect()
}

#[test]
fn a_reader_sees_the_dictionary_as_before_or_as_after_each_write() {
    for file_format in [FileFormat::Binary, FileFormat::Text] {
        let io_metadata = metadata(file_format);
        let mut file = FileImage::recording(vec![7u8; 11]);
        let mut dict: DistDict<'_, String, Addr> =
            DistDict::create_at(&mut file, &io_metadata, Addr::new(11)).unwrap();
        let hashes = [3u64, 8, 16, 24, 32, 40, 99];
        dict.add_hashed(&mut file, &hash_of(3), &Addr::new(30)).unwrap();
        dict.add_hashed(&mut file, &hash_of(8), &Addr::new(80)).unwrap();
        file.take_pending();
        // An add into a free slot, one that overwrites, two that grow the
        // chain, and removes of a key in the first shard and of one behind.
        let steps: [(u64, Option<u64>); 7] = [
            (99, Some(1)),
            (8, Some(81)),
            (16, Some(160)),
            (32, Some(320)),
            (8, None),
            (32, None),
            (40, None),
        ];
        for (hash_value, val) in steps {
            let before = file.as_bytes().clone();
            match val {
                Some(loc) => {
                    dict.add_hashed(&mut file, &hash_of(hash_value), &Addr::new(loc)).unwrap()
                }
                None => dict.remove_hashed(&mut file, &hash_of(hash_value)).unwrap(),
            }
            let old = readings(&dict, &before, &hashes);
            let new = readings(&dict, file.as_bytes(), &hashes);
            let mut seen = FileImage::from_bytes(before);
            for write in file.take_pending() {
                seen.write_at(write.addr, &write.data).unwrap();
                let now = readings(&dict, seen.as_bytes(), &hashes);
                for i in 0..hashes.len() {
                    assert!(now[i] == old[i] || now[i] == new[i]);
                }
            }
            assert_eq!(seen.as_bytes(), file.as_bytes());
        }
    }
}

#[test]
fn a_dictionary_of_plain_numbers() {
    for file_format in [FileFormat::Binary, FileFormat::Text] {
        let io_metadata = metadata(file_format);
        let mut file = FileImage::new();
        let mut counts: DistDict<'_, String, u64> =
            DistDict::open_at(&io_metadata, Addr::new(0), false).unwrap();
        for word in ["one", "two", "three", "two", "one", "one"] {
            let key = word.to_string();
            let count = counts.get(&file, &key).unwrap().unwrap_or(0);
            counts.add(&mut file, &key, &(count + 1)).unwrap();
        }
        assert_eq!(counts.get(&file, &"one".to_string()), Ok(Some(3)));
        assert_eq!(counts.get(&file, &"two".to_string()), Ok(Some(2)));
        assert_eq!(counts.get(&file, &"three".to_string()), Ok(Some(1)));
        assert_eq!(counts.get(&file, &"four".to_string()), Ok(None));
        let slot = if io_metadata.is_text() { 35 + 20 + 1 } else { 8 + 8 + 1 };
        let shard = counts.get_first_shard();
        assert_eq!(
            shard.get_hash_addr(1).get_loc() - shard.get_hash_addr(0).get_loc(),
            slot
        );
    }
}
