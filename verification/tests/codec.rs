use std::collections::hash_map::DefaultHasher;
use std::hash::{Hash, Hasher};

use tsdf::addr::Addr;
use tsdf::error::TsdfError;
use tsdf::hash::TsdfHash;
use tsdf::link_ptr::LinkPtr;
use tsdf::serial::{FileSerializable, FixedSizeOnDisk};

/// A link pointer survives the trip to bytes and back.
#[test]
fn test_link_ptr_to_bin() {
    let addr = Addr::new(123);
    let link_ptr = LinkPtr::Addr(addr);
    let bytes = link_ptr.to_bin();
    let link_ptr2 = LinkPtr::from_bin(&bytes).unwrap();
    assert_eq!(link_ptr.to_addr().get_loc(), link_ptr2.to_addr().get_loc());

    let null_link_ptr = LinkPtr::Null(Addr::new(0));
    let bytes = null_link_ptr.to_bin();
    let null_link_ptr2 = LinkPtr::from_bin(&bytes).unwrap();
    assert_eq!(
        null_link_ptr.to_addr().get_loc(),
        null_link_ptr2.to_addr().get_loc()
    );
}

/// A link pointer survives the trip to JSON and back.
#[test]
fn test_link_ptr_to_json() {
    let addr = Addr::new(123);
    let link_ptr = LinkPtr::Addr(addr);
    let json = link_ptr.to_json();
    let link_ptr2 = LinkPtr::from_json(json).unwrap();
    assert_eq!(link_ptr.to_addr().get_loc(), link_ptr2.to_addr().get_loc());

    let null_link_ptr = LinkPtr::Null(Addr::new(0));
    let json = null_link_ptr.to_json();
    let null_link_ptr2 = LinkPtr::from_json(json).unwrap();
    assert_eq!(
        null_link_ptr.to_addr().get_loc(),
        null_link_ptr2.to_addr().get_loc()
    );
}

/// A link pointer is as wide as an address.
#[test]
fn test_link_ptr_size() {
    assert_eq!(
        LinkPtr::get_bin_size_on_disk(),
        Addr::get_bin_size_on_disk()
    );
}

/// The JSON of a link pointer is exactly the padded object.
#[test]
fn test_link_ptr_json() {
    let addr = Addr::new(123);
    let link_ptr = LinkPtr::Addr(addr);
    let json = link_ptr.to_json();

    // The text is fixed width: the largest address has 20 digits.
    assert_eq!(json, "{\"loc\":123}                 ");

    let null_link_ptr = LinkPtr::Null(Addr::new(0));
    let json = null_link_ptr.to_json();
    assert_eq!(json, "{\"loc\":0}                   ");
}

/// An address survives the trip to bytes and back.
#[test]
fn test_addr_to_bytes() {
    let addr = Addr::new(123);
    let bytes = addr.to_bin();
    let addr2 = Addr::from_bin(&bytes).unwrap();
    assert_eq!(addr.get_loc(), addr2.get_loc());
}

/// An address survives the trip to JSON and back.
#[test]
fn test_addr_to_json() {
    let addr = Addr::new(123);
    let json = addr.to_json();
    let addr2 = Addr::from_json(json).unwrap();
    assert_eq!(addr.get_loc(), addr2.get_loc());
}

/// A hash survives the trip to bytes and back.
#[test]
fn test_tsdf_hash_to_bytes() {
    let hash = TsdfHash::new(&123);
    let bytes = hash.to_bin();
    let hash2 = TsdfHash::from_bin(&bytes).unwrap();
    assert_eq!(hash, hash2);
}

/// A hash survives the trip to JSON and back.
#[test]
fn test_tsdf_hash_to_json() {
    let hash = TsdfHash::new(&123);
    let json = hash.to_json();
    let hash2 = TsdfHash::from_json(json).unwrap();
    assert_eq!(hash, hash2);
}

#[test]
fn addr_binary_form_is_little_endian() {
    assert_eq!(Addr::new(0x0102030405060708).to_bin(), vec![8, 7, 6, 5, 4, 3, 2, 1]);
    assert_eq!(Addr::new(1234).to_bin(), vec![0xd2, 0x04, 0, 0, 0, 0, 0, 0]);
    assert_eq!(
        Addr::from_bin(&[0xd2, 0x04, 0, 0, 0, 0, 0, 0]).unwrap(),
        Addr::new(1234)
    );
}

#[test]
fn addr_binary_form_reads_the_first_eight_bytes() {
    let bytes = [1u8, 0, 0, 0, 0, 0, 0, 0, 0xff, 0xff];
    assert_eq!(Addr::from_bin(&bytes).unwrap(), Addr::new(1));
}

#[test]
fn short_binary_form_is_corrupt() {
    assert_eq!(Addr::from_bin(&[1, 2, 3]), Err(TsdfError::CorruptEncoding));
    assert_eq!(TsdfHash::from_bin(&[]), Err(TsdfError::CorruptEncoding));
    assert_eq!(LinkPtr::from_bin(&[0; 7]), Err(TsdfError::CorruptEncoding));
}

#[test]
fn declared_sizes() {
    assert_eq!(Addr::get_bin_size_on_disk(), 8);
    assert_eq!(Addr::get_json_size_on_disk(), 28);
    assert_eq!(LinkPtr::get_json_size_on_disk(), 28);
    assert_eq!(TsdfHash::get_bin_size_on_disk(), 8);
    assert_eq!(TsdfHash::get_json_size_on_disk(), 35);
}

#[test]
fn every_encoding_has_the_declared_size() {
    for loc in [0u64, 1, 9, 10, 123, 99999, u64::MAX / 2, u64::MAX - 1, u64::MAX] {
        let addr = Addr::new(loc);
        assert_eq!(addr.to_bin().len() as u64, Addr::get_bin_size_on_disk());
        assert_eq!(addr.to_json().len() as u64, Addr::get_json_size_on_disk());
        let hash = TsdfHash { hash_value: loc };
        assert_eq!(hash.to_bin().len() as u64, TsdfHash::get_bin_size_on_disk());
        assert_eq!(hash.to_json().len() as u64, TsdfHash::get_json_size_on_disk());
        let ptr = LinkPtr::Addr(addr);
        assert_eq!(ptr.to_bin().len() as u64, LinkPtr::get_bin_size_on_disk());
        assert_eq!(ptr.to_json().len() as u64, LinkPtr::get_json_size_on_disk());
    }
}

#[test]
fn decoding_gives_back_what_was_encoded() {
    for loc in [0u64, 1, 9, 10, 100, 1234, u64::MAX - 1, u64::MAX] {
        let addr = Addr::new(loc);
        assert_eq!(Addr::from_bin(&addr.to_bin()).unwrap(), addr);
        assert_eq!(Addr::from_json(addr.to_json()).unwrap(), addr);
        let hash = TsdfHash { hash_value: loc };
        assert_eq!(TsdfHash::from_bin(&hash.to_bin()).unwrap(), hash);
        assert_eq!(TsdfHash::from_json(hash.to_json()).unwrap(), hash);
    }
}

#[test]
fn largest_values_fill_the_text_width() {
    assert_eq!(
        Addr::new(u64::MAX).to_json(),
        "{\"loc\":18446744073709551615}"
    );
    assert_eq!(
        TsdfHash { hash_value: u64::MAX }.to_json(),
        "{\"hash_value\":18446744073709551615}"
    );
    assert_eq!(
        TsdfHash { hash_value: 7 }.to_json(),
        "{\"hash_value\":7}                   "
    );
}

#[test]
fn link_ptr_null_is_offset_zero() {
    // Offset zero reads back as Null, whichever variant held it.
    let written = LinkPtr::Addr(Addr::new(0));
    assert_eq!(
        LinkPtr::from_bin(&written.to_bin()).unwrap(),
        LinkPtr::Null(Addr::new(0))
    );
    assert_eq!(
        LinkPtr::from_json(written.to_json()).unwrap(),
        LinkPtr::Null(Addr::new(0))
    );
    // Any other offset reads back as Addr.
    let written = LinkPtr::Null(Addr::new(77));
    assert_eq!(
        LinkPtr::from_bin(&written.to_bin()).unwrap(),
        LinkPtr::Addr(Addr::new(77))
    );
    let written = LinkPtr::Addr(Addr::new(77));
    assert_eq!(
        LinkPtr::from_json(written.to_json()).unwrap(),
        LinkPtr::Addr(Addr::new(77))
    );
    assert_eq!(LinkPtr::null(), LinkPtr::Null(Addr::new(0)));
}

#[test]
fn json_padding_of_any_length_is_accepted() {
    assert_eq!(
        Addr::from_json("{\"loc\":42}".to_string()).unwrap(),
        Addr::new(42)
    );
    assert_eq!(
        Addr::from_json("{\"loc\":42}   ".to_string()).unwrap(),
        Addr::new(42)
    );
}

#[test]
fn text_that_the_encoder_never_writes_is_corrupt() {
    let corrupt = [
        "",
        " ",
        "{}",
        "{\"loc\":}",
        "{\"loc\":-1}",
        "{\"loc\":01}",
        "{\"loc\":1.0}",
        "{\"loc\":1e3}",
        "{\"loc\": 1}",
        " {\"loc\":1}",
        "{\"loc\":1}x",
        "{\"loc\":1",
        "{\"lock\":1}",
        "{\"hash_value\":1}",
        "{\"loc\":18446744073709551616}",
        "{\"loc\":99999999999999999999999}",
        "{\"loc\":\u{e9}}",
        "[1]",
    ];
    for text in corrupt {
        assert_eq!(
            Addr::from_json(text.to_string()),
            Err(TsdfError::CorruptEncoding),
            "{:?}",
            text
        );
    }
    assert_eq!(
        TsdfHash::from_json("{\"loc\":1}".to_string()),
        Err(TsdfError::CorruptEncoding)
    );
}

#[test]
fn null_values() {
    assert_eq!(Addr::null(), Addr::new(0));
    assert_eq!(TsdfHash::null(), TsdfHash { hash_value: 0 });
    assert!(TsdfHash::null().is_null());
    assert!(!TsdfHash { hash_value: 1 }.is_null());
}

#[test]
fn hash_table_index_is_the_remainder() {
    let hash = TsdfHash { hash_value: 1234 };
    assert_eq!(hash.get_hash_value(), 1234);
    assert_eq!(hash.get_hash_table_idx(8), 2);
    assert_eq!(hash.get_hash_table_idx(16), 2);
    assert_eq!(hash.get_hash_table_idx(1000), 234);
    assert_eq!(TsdfHash { hash_value: u64::MAX }.get_hash_table_idx(8), 7);
}

#[test]
fn plain_numbers_are_values_too() {
    assert_eq!(u64::get_bin_size_on_disk(), 8);
    assert_eq!(u64::get_json_size_on_disk(), 20);
    assert_eq!(u64::null(), 0);
    assert_eq!(1234u64.to_bin(), vec![0xd2, 0x04, 0, 0, 0, 0, 0, 0]);
    assert_eq!(1234u64.to_json(), "1234                ");
    assert_eq!(u64::MAX.to_json(), "18446744073709551615");
    for n in [0u64, 7, 10, 1234, u64::MAX - 1, u64::MAX] {
        assert_eq!(u64::from_bin(&n.to_bin()), Ok(n));
        assert_eq!(u64::from_json(n.to_json()), Ok(n));
        assert_eq!(n.to_json().len(), 20);
    }
    assert_eq!(u64::from_json("42".to_string()), Ok(42));
    for text in ["", " ", "042", "-1", "4 2", " 42", "4e2", "18446744073709551616", "\u{661}"] {
        assert_eq!(
            u64::from_json(text.to_string()),
            Err(TsdfError::CorruptEncoding),
            "{:?}",
            text
        );
    }
    assert_eq!(u64::from_bin(&[1, 2, 3]), Err(TsdfError::CorruptEncoding));
}

#[test]
fn a_hash_is_what_the_default_hasher_gives_for_what_the_key_feeds() {
    let mut hasher = DefaultHasher::new();
    123i32.hash(&mut hasher);
    assert_eq!(TsdfHash::new(&123i32), TsdfHash::from_hasher(&hasher));
    assert_eq!(TsdfHash::from_hasher(&hasher).get_hash_value(), hasher.finish());

    let mut hasher = DefaultHasher::new();
    "key".hash(&mut hasher);
    assert_eq!(TsdfHash::new(&"key"), TsdfHash::from_hasher(&hasher));
    assert_eq!(TsdfHash::new(&"key".to_string()), TsdfHash::from_hasher(&hasher));

    // Keys that feed the hasher differently hash differently, and a key
    // hashes the same every time.
    assert!(TsdfHash::new(&"key") != TsdfHash::new(&"kez"));
    assert!(TsdfHash::new(&1u64) != TsdfHash::new(&2u64));
    assert_eq!(TsdfHash::new(&"key"), TsdfHash::new(&"key"));
    assert!(TsdfHash::new(&"key") != TsdfHash::from_hasher(&DefaultHasher::new()));
}
