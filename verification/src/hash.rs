//! The hashes under which a dictionary keeps its keys.

use vstd::prelude::*;
use vstd::bytes::*;
use vstd::slice::slice_subrange;
use vstd::std_specs::hash::*;
use vstd::string::*;
use std::collections::hash_map::DefaultHasher;
use std::hash::Hash;
use std::hash::Hasher;
use crate::error::TsdfError;
use crate::serial::{FileSerializable, FixedSizeOnDisk};
use crate::text::{
    ascii_string, json_object, json_object_number, json_object_text, json_object_value,
    lemma_decimal_digits_width, lemma_json_object_ascii, lemma_json_object_parts,
    lemma_json_object_round_trip, pad_with_spaces, space_padded,
};

verus! {

/// The 64-bit hash of a key. Zero is set aside: it is what an empty slot
/// holds, and no committed entry has it.
#[derive(Clone, Copy, Debug, PartialEq, Eq, Structural)]
pub struct TsdfHash {
    pub hash_value: u64,
}

/// The hash that an empty slot holds.
pub const NULL_HASH: u64 = 0;

/// The width of a hash in the binary format.
pub const HASH_BIN_SIZE: u64 = 8;

/// The width of a hash in the text format: `{"hash_value":}` around as many
/// digits as a 64-bit number can have.
pub const HASH_JSON_SIZE: u64 = 35;

/// The name under which the text format holds the hash.
pub open spec fn hash_field() -> Seq<u8> {
    seq![104u8, 97u8, 115u8, 104u8, 95u8, 118u8, 97u8, 108u8, 117u8, 101u8]
}

fn hash_field_name() -> (field: Vec<u8>)
    ensures
        field@ == hash_field(),
{
    let mut field: Vec<u8> = Vec::new();
    field.push(104u8);
    field.push(97u8);
    field.push(115u8);
    field.push(104u8);
    field.push(95u8);
    field.push(118u8);
    field.push(97u8);
    field.push(108u8);
    field.push(117u8);
    field.push(101u8);
    assert(field@ =~= hash_field());
    field
}

/// What hashing a string feeds to a hasher, write by write, as the standard
/// library's `Hash` for `str` does it.
pub uninterp spec fn str_hash_feed(key: Seq<char>) -> Seq<Seq<u8>>;

/// `Hash::hash` of the standard library, for any value that can be hashed.
/// What a value feeds to the hasher is up to its type, so nothing is said of
/// the hasher afterwards.
#[verifier::external_body]
fn feed_hasher<T: Hash>(hashable: &T, state: &mut DefaultHasher) {
    hashable.hash(state);
}

/// `Hash::hash` of the standard library, for a string: what is fed to the
/// hasher depends on the characters of the string alone, and comes after what
/// the hasher was fed before.
#[verifier::external_body]
fn feed_hasher_str(key: &str, state: &mut DefaultHasher)
    ensures
        final(state)@ == old(state)@ + str_hash_feed(key@),
{
    key.hash(state);
}

/// The hash that the standard library's default hasher gives once it was fed
/// `fed`, write by write.
pub open spec fn spec_hash_of_feed(fed: Seq<Seq<u8>>) -> TsdfHash {
    TsdfHash { hash_value: DefaultHasher::spec_finish(fed) }
}

impl TsdfHash {
    /// The hash of anything that the standard library can hash: the key is
    /// fed to a fresh default hasher, and the hash is what that hasher gives
    /// for what it was fed. What a key feeds is up to the `Hash` of its type,
    /// so the feed has no name here; `TsdfHashable` is for keys whose feed
    /// has one.
    pub fn new<T: Hash>(hashable: &T) -> (hash: TsdfHash)
        ensures
            exists|fed: Seq<Seq<u8>>| hash == spec_hash_of_feed(fed),
    {
        let mut hasher = DefaultHasher::new();
        feed_hasher(hashable, &mut hasher);
        TsdfHash::from_hasher(&hasher)
    }

    /// The hash that a default hasher gives for what it was fed so far.
    pub fn from_hasher(hasher: &DefaultHasher) -> (hash: TsdfHash)
        ensures
            hash == spec_hash_of_feed(hasher@),
    {
        let hash_value = hasher.finish();
        TsdfHash { hash_value }
    }

    /// The hash as a number.
    pub fn get_hash_value(&self) -> (hash_value: u64)
        ensures
            hash_value == self.hash_value,
    {
        self.hash_value
    }

    /// The slot that the hash falls into in a table of `hash_table_size`
    /// slots.
    pub fn get_hash_table_idx(&self, hash_table_size: u64) -> (idx: u64)
        requires
            hash_table_size > 0,
        ensures
            idx == self.hash_value % hash_table_size,
    {
        self.hash_value % hash_table_size
    }

    /// Whether this is the hash that an empty slot holds.
    #[verifier::when_used_as_spec(spec_is_null)]
    pub fn is_null(&self) -> (null: bool)
        ensures
            null == self.spec_is_null(),
    {
        self.hash_value == NULL_HASH
    }

    /// Whether this is the hash that an empty slot holds.
    pub open spec fn spec_is_null(&self) -> bool {
        self.hash_value == NULL_HASH
    }
}

/// A key of the dictionary: anything with a hash that depends on the key
/// alone.
pub trait TsdfHashable {
    /// The hash of the key.
    spec fn spec_hash(&self) -> TsdfHash;

    /// The hash of the key.
    fn hash(&self) -> (hash: TsdfHash)
        ensures
            hash == self.spec_hash(),
    ;
}

/// The hash of a string under the standard library's default hasher.
pub open spec fn spec_str_hash(key: Seq<char>) -> TsdfHash {
    spec_hash_of_feed(str_hash_feed(key))
}

impl TsdfHashable for String {
    open spec fn spec_hash(&self) -> TsdfHash {
        spec_str_hash(self@)
    }

    fn hash(&self) -> (hash: TsdfHash) {
        let mut hasher = DefaultHasher::new();
        feed_hasher_str(self.as_str(), &mut hasher);
        assert(hasher@ =~= str_hash_feed(self@));
        TsdfHash::from_hasher(&hasher)
    }
}

impl FixedSizeOnDisk for TsdfHash {
    open spec fn spec_bin_size() -> u64 {
        HASH_BIN_SIZE
    }

    open spec fn spec_json_size() -> u64 {
        HASH_JSON_SIZE
    }

    fn get_bin_size_on_disk() -> (size: u64) {
        HASH_BIN_SIZE
    }

    fn get_json_size_on_disk() -> (size: u64) {
        HASH_JSON_SIZE
    }
}

impl FileSerializable for TsdfHash {
    open spec fn spec_null() -> TsdfHash {
        TsdfHash { hash_value: NULL_HASH }
    }

    open spec fn well_formed(&self) -> bool {
        true
    }

    open spec fn spec_to_bin(&self) -> Seq<u8> {
        spec_u64_to_le_bytes(self.hash_value)
    }

    open spec fn spec_from_bin(bytes: Seq<u8>) -> Option<TsdfHash> {
        if bytes.len() >= 8 {
            Some(TsdfHash { hash_value: spec_u64_from_le_bytes(bytes.subrange(0, 8)) })
        } else {
            None
        }
    }

    open spec fn spec_to_json(&self) -> Seq<u8> {
        space_padded(json_object(hash_field(), self.hash_value), HASH_JSON_SIZE as int)
    }

    open spec fn spec_from_json(text: Seq<u8>) -> Option<TsdfHash> {
        match json_object_number(hash_field(), text) {
            Some(hash_value) => Some(TsdfHash { hash_value }),
            None => None,
        }
    }

    fn null() -> (value: TsdfHash) {
        TsdfHash { hash_value: NULL_HASH }
    }

    fn to_bin(&self) -> (bytes: Vec<u8>) {
        u64_to_le_bytes(self.hash_value)
    }

    fn from_bin(bytes: &[u8]) -> (r: Result<TsdfHash, TsdfError>) {
        if bytes.len() < 8 {
            return Err(TsdfError::CorruptEncoding);
        }
        let hash_value = u64_from_le_bytes(slice_subrange(bytes, 0, 8));
        Ok(TsdfHash { hash_value })
    }

    fn to_json(&self) -> (json: String) {
        let field = hash_field_name();
        let text = pad_with_spaces(
            json_object_text(field.as_slice(), self.hash_value),
            HASH_JSON_SIZE,
        );
        proof {
            lemma_json_object_ascii(hash_field(), self.hash_value, HASH_JSON_SIZE as int);
        }
        ascii_string(text)
    }

    fn from_json(json: String) -> (r: Result<TsdfHash, TsdfError>) {
        if !json.is_ascii() {
            return Err(TsdfError::CorruptEncoding);
        }
        let field = hash_field_name();
        let text = json.as_str();
        proof {
            is_ascii_spec_bytes(text);
        }
        match json_object_value(field.as_slice(), text.as_bytes()) {
            Ok(hash_value) => Ok(TsdfHash { hash_value }),
            Err(e) => Err(e),
        }
    }

    proof fn lemma_encoding_widths(value: TsdfHash) {
        lemma_auto_spec_u64_to_from_le_bytes();
        lemma_json_object_parts(hash_field(), value.hash_value);
        lemma_decimal_digits_width(value.hash_value);
        lemma_json_object_ascii(hash_field(), value.hash_value, HASH_JSON_SIZE as int);
    }

    proof fn lemma_round_trip(value: TsdfHash) {
        lemma_auto_spec_u64_to_from_le_bytes();
        let bytes = spec_u64_to_le_bytes(value.hash_value);
        assert(bytes.subrange(0, 8) =~= bytes);
        lemma_json_object_round_trip(hash_field(), value.hash_value, HASH_JSON_SIZE as int);
    }

    proof fn lemma_null_well_formed() {
    }
}

} // verus!
