//! Addresses: byte offsets into the container.

use vstd::prelude::*;
use vstd::bytes::*;
use vstd::slice::slice_subrange;
use vstd::string::*;
use vstd::utf8::*;
use crate::error::TsdfError;
use crate::serial::{FileSerializable, FixedSizeOnDisk};
use crate::text::{
    ascii_string, json_object, json_object_number, json_object_text, json_object_value,
    lemma_decimal_digits_width, lemma_json_object_ascii, lemma_json_object_parts,
    lemma_json_object_round_trip, pad_with_spaces, space_padded,
};

verus! {

/// A byte offset into the container. Offset zero stands for "nowhere".
#[derive(Clone, Copy, Debug, PartialEq, Eq, Structural)]
pub struct Addr {
    pub loc: u64,
}

/// The offset that stands for "nowhere".
pub const NULL_LOC: u64 = 0;

/// The width of an address in the binary format.
pub const ADDR_BIN_SIZE: u64 = 8;

/// The width of an address in the text format: `{"loc":}` around as many
/// digits as a 64-bit number can have.
pub const ADDR_JSON_SIZE: u64 = 28;

/// The name under which the text format holds the offset.
pub open spec fn addr_field() -> Seq<u8> {
    seq![108u8, 111u8, 99u8]
}

fn addr_field_name() -> (field: Vec<u8>)
    ensures
        field@ == addr_field(),
{
    let mut field: Vec<u8> = Vec::new();
    field.push(108u8);
    field.push(111u8);
    field.push(99u8);
    assert(field@ =~= addr_field());
    field
}

impl Addr {
    pub fn new(loc: u64) -> (addr: Addr)
        ensures
            addr.loc == loc,
    {
        Addr { loc }
    }

    /// The byte offset.
    pub fn get_loc(&self) -> (loc: u64)
        ensures
            loc == self.loc,
    {
        self.loc
    }
}

impl FixedSizeOnDisk for Addr {
    open spec fn spec_bin_size() -> u64 {
        ADDR_BIN_SIZE
    }

    open spec fn spec_json_size() -> u64 {
        ADDR_JSON_SIZE
    }

    fn get_bin_size_on_disk() -> (size: u64) {
        ADDR_BIN_SIZE
    }

    fn get_json_size_on_disk() -> (size: u64) {
        ADDR_JSON_SIZE
    }
}

impl FileSerializable for Addr {
    open spec fn spec_null() -> Addr {
        Addr { loc: NULL_LOC }
    }

    open spec fn well_formed(&self) -> bool {
        true
    }

    open spec fn spec_to_bin(&self) -> Seq<u8> {
        spec_u64_to_le_bytes(self.loc)
    }

    open spec fn spec_from_bin(bytes: Seq<u8>) -> Option<Addr> {
        if bytes.len() >= 8 {
            Some(Addr { loc: spec_u64_from_le_bytes(bytes.subrange(0, 8)) })
        } else {
            None
        }
    }

    open spec fn spec_to_json(&self) -> Seq<u8> {
        space_padded(json_object(addr_field(), self.loc), ADDR_JSON_SIZE as int)
    }

    open spec fn spec_from_json(text: Seq<u8>) -> Option<Addr> {
        match json_object_number(addr_field(), text) {
            Some(loc) => Some(Addr { loc }),
            None => None,
        }
    }

    fn null() -> (value: Addr) {
        Addr { loc: NULL_LOC }
    }

    fn to_bin(&self) -> (bytes: Vec<u8>) {
        u64_to_le_bytes(self.loc)
    }

    fn from_bin(bytes: &[u8]) -> (r: Result<Addr, TsdfError>) {
        if bytes.len() < 8 {
            return Err(TsdfError::CorruptEncoding);
        }
        let loc = u64_from_le_bytes(slice_subrange(bytes, 0, 8));
        Ok(Addr::new(loc))
    }

    fn to_json(&self) -> (json: String) {
        let field = addr_field_name();
        let text = pad_with_spaces(json_object_text(field.as_slice(), self.loc), ADDR_JSON_SIZE);
        proof {
            lemma_json_object_ascii(addr_field(), self.loc, ADDR_JSON_SIZE as int);
        }
        ascii_string(text)
    }

    fn from_json(json: String) -> (r: Result<Addr, TsdfError>) {
        if !json.is_ascii() {
            return Err(TsdfError::CorruptEncoding);
        }
        let field = addr_field_name();
        let text = json.as_str();
        proof {
            is_ascii_spec_bytes(text);
        }
        match json_object_value(field.as_slice(), text.as_bytes()) {
            Ok(loc) => Ok(Addr::new(loc)),
            Err(e) => Err(e),
        }
    }

    proof fn lemma_encoding_widths(value: Addr) {
        lemma_auto_spec_u64_to_from_le_bytes();
        lemma_json_object_parts(addr_field(), value.loc);
        lemma_decimal_digits_width(value.loc);
        lemma_json_object_ascii(addr_field(), value.loc, ADDR_JSON_SIZE as int);
    }

    proof fn lemma_round_trip(value: Addr) {
        lemma_auto_spec_u64_to_from_le_bytes();
        let bytes = spec_u64_to_le_bytes(value.loc);
        assert(bytes.subrange(0, 8) =~= bytes);
        lemma_json_object_round_trip(addr_field(), value.loc, ADDR_JSON_SIZE as int);
    }

    proof fn lemma_null_well_formed() {
    }
}

} // verus!
