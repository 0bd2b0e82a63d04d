//! Plain 64-bit numbers as values of a slot.

use vstd::prelude::*;
use vstd::bytes::*;
use vstd::slice::slice_subrange;
use vstd::string::*;
use crate::error::TsdfError;
use crate::serial::{FileSerializable, FixedSizeOnDisk};
use crate::text::{
    ascii_string, decimal_digits, json_number, json_number_text, lemma_decimal_digits_width,
    lemma_json_number_round_trip, number_value, pad_with_spaces, space_padded,
    MAX_DECIMAL_DIGITS,
};

verus! {

/// The width of a number in the binary format.
pub const U64_BIN_SIZE: u64 = 8;

/// The width of a number in the text format: as many digits as a 64-bit
/// number can have.
pub const U64_JSON_SIZE: u64 = MAX_DECIMAL_DIGITS;

impl FixedSizeOnDisk for u64 {
    open spec fn spec_bin_size() -> u64 {
        U64_BIN_SIZE
    }

    open spec fn spec_json_size() -> u64 {
        U64_JSON_SIZE
    }

    fn get_bin_size_on_disk() -> (size: u64) {
        U64_BIN_SIZE
    }

    fn get_json_size_on_disk() -> (size: u64) {
        U64_JSON_SIZE
    }
}

impl FileSerializable for u64 {
    open spec fn spec_null() -> u64 {
        0
    }

    open spec fn well_formed(&self) -> bool {
        true
    }

    open spec fn spec_to_bin(&self) -> Seq<u8> {
        spec_u64_to_le_bytes(*self)
    }

    open spec fn spec_from_bin(bytes: Seq<u8>) -> Option<u64> {
        if bytes.len() >= 8 {
            Some(spec_u64_from_le_bytes(bytes.subrange(0, 8)))
        } else {
            None
        }
    }

    open spec fn spec_to_json(&self) -> Seq<u8> {
        space_padded(decimal_digits(*self as nat), U64_JSON_SIZE as int)
    }

    open spec fn spec_from_json(text: Seq<u8>) -> Option<u64> {
        json_number(text)
    }

    fn null() -> (value: u64) {
        0
    }

    fn to_bin(&self) -> (bytes: Vec<u8>) {
        u64_to_le_bytes(*self)
    }

    fn from_bin(bytes: &[u8]) -> (r: Result<u64, TsdfError>) {
        if bytes.len() < 8 {
            return Err(TsdfError::CorruptEncoding);
        }
        Ok(u64_from_le_bytes(slice_subrange(bytes, 0, 8)))
    }

    fn to_json(&self) -> (json: String) {
        let text = pad_with_spaces(json_number_text(*self), U64_JSON_SIZE);
        proof {
            lemma_json_number_round_trip(*self, U64_JSON_SIZE as int);
        }
        ascii_string(text)
    }

    fn from_json(json: String) -> (r: Result<u64, TsdfError>) {
        if !json.is_ascii() {
            return Err(TsdfError::CorruptEncoding);
        }
        let text = json.as_str();
        proof {
            is_ascii_spec_bytes(text);
        }
        number_value(text.as_bytes())
    }

    proof fn lemma_encoding_widths(value: u64) {
        lemma_auto_spec_u64_to_from_le_bytes();
        lemma_decimal_digits_width(value);
        lemma_json_number_round_trip(value, U64_JSON_SIZE as int);
    }

    proof fn lemma_round_trip(value: u64) {
        lemma_auto_spec_u64_to_from_le_bytes();
        let bytes = spec_u64_to_le_bytes(value);
        assert(bytes.subrange(0, 8) =~= bytes);
        lemma_json_number_round_trip(value, U64_JSON_SIZE as int);
    }

    proof fn lemma_null_well_formed() {
    }
}

} // verus!
