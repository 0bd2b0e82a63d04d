//! Values that are written to, and read from, fixed-width slots of the
//! container.

use vstd::prelude::*;
use vstd::string::*;
use vstd::utf8::*;
use crate::addr::Addr;
use crate::error::TsdfError;
use crate::format::FileFormat;
use crate::image::{bytes_at, write_outcome, FileImage};
use crate::metadata::IoMetadata;
use crate::text::{all_ascii, ascii_bytes, ascii_chars, ascii_string, is_all_ascii};

verus! {

/// A type whose values all take the same number of bytes on disk, in either
/// file format.
pub trait FixedSizeOnDisk {
    /// The width of the binary form, in bytes.
    spec fn spec_bin_size() -> u64;

    /// The width of the padded JSON form, in bytes: no less than the widest
    /// JSON text of any value.
    spec fn spec_json_size() -> u64;

    /// The width of the binary form, in bytes.
    fn get_bin_size_on_disk() -> (size: u64)
        ensures
            size == Self::spec_bin_size(),
    ;

    /// The width of the padded JSON form, in bytes.
    fn get_json_size_on_disk() -> (size: u64)
        ensures
            size == Self::spec_json_size(),
    ;

    /// The width on disk under the format that `io_metadata` records.
    fn get_size_on_disk(io_metadata: &IoMetadata) -> (size: u64)
        ensures
            size == (if io_metadata.format().is_text() {
                Self::spec_json_size()
            } else {
                Self::spec_bin_size()
            }),
    {
        if io_metadata.is_text() {
            Self::get_json_size_on_disk()
        } else {
            Self::get_bin_size_on_disk()
        }
    }
}

/// Something whose width on disk depends on the instance, as that of a shard
/// depends on its number of slots.
pub trait VariableSizeOnDisk {
    /// The width in the binary format, in bytes.
    spec fn spec_bin_size(&self) -> int;

    /// The width in the text format, in bytes.
    spec fn spec_json_size(&self) -> int;

    /// The width in the binary format, in bytes.
    fn get_bin_size_on_disk(&self) -> (size: u64)
        requires
            self.spec_bin_size() <= u64::MAX,
        ensures
            size == self.spec_bin_size(),
    ;

    /// The width in the text format, in bytes.
    fn get_json_size_on_disk(&self) -> (size: u64)
        requires
            self.spec_json_size() <= u64::MAX,
        ensures
            size == self.spec_json_size(),
    ;

    /// The width on disk under the format that `io_metadata` records.
    fn get_size_on_disk(&self, io_metadata: &IoMetadata) -> (size: u64)
        requires
            (if io_metadata.format().is_text() {
                self.spec_json_size()
            } else {
                self.spec_bin_size()
            }) <= u64::MAX,
        ensures
            size == (if io_metadata.format().is_text() {
                self.spec_json_size()
            } else {
                self.spec_bin_size()
            }),
    {
        if io_metadata.is_text() {
            self.get_json_size_on_disk()
        } else {
            self.get_bin_size_on_disk()
        }
    }
}

/// The width on disk of a value of `T` under `format`.
pub fn size_on_disk_in<T: FixedSizeOnDisk>(format: FileFormat) -> (size: u64)
    ensures
        size == spec_size_on_disk::<T>(format),
{
    if format.is_text() {
        T::get_json_size_on_disk()
    } else {
        T::get_bin_size_on_disk()
    }
}

/// What reading a slot gives, from what decoding its bytes gives.
pub open spec fn decoded<T>(value: Option<T>) -> Result<T, TsdfError> {
    match value {
        Some(v) => Ok(v),
        None => Err(TsdfError::CorruptEncoding),
    }
}

/// A type whose values are written to, and read from, a fixed-width slot of
/// the container in one go.
pub trait FileSerializable: FixedSizeOnDisk + Sized {
    /// The value that marks a slot as empty.
    spec fn spec_null() -> Self;

    /// Whether the value is one that decoding can give back. Every value that
    /// comes out of a decoder is.
    spec fn well_formed(&self) -> bool;

    /// The binary form.
    spec fn spec_to_bin(&self) -> Seq<u8>;

    /// The value of a binary form, where it is one.
    spec fn spec_from_bin(bytes: Seq<u8>) -> Option<Self>;

    /// The padded JSON form, as ASCII bytes.
    spec fn spec_to_json(&self) -> Seq<u8>;

    /// The value of a padded JSON form, where it is one.
    spec fn spec_from_json(text: Seq<u8>) -> Option<Self>;

    /// The value that marks a slot as empty.
    fn null() -> (value: Self)
        ensures
            value == Self::spec_null(),
    ;

    /// The binary form.
    fn to_bin(&self) -> (bytes: Vec<u8>)
        ensures
            bytes@ == self.spec_to_bin(),
    ;

    /// Decodes a binary form. Bytes that are none are refused with
    /// `CorruptEncoding`.
    fn from_bin(bytes: &[u8]) -> (r: Result<Self, TsdfError>)
        ensures
            r == decoded(Self::spec_from_bin(bytes@)),
    ;

    /// The padded JSON form.
    fn to_json(&self) -> (json: String)
        ensures
            json@ == ascii_chars(self.spec_to_json()),
    ;

    /// Decodes a padded JSON form. A text that is none is refused with
    /// `CorruptEncoding`.
    fn from_json(json: String) -> (r: Result<Self, TsdfError>)
        ensures
            r == (if is_ascii_chars(json@) {
                decoded(Self::spec_from_json(ascii_bytes(json@)))
            } else {
                Err(TsdfError::CorruptEncoding)
            }),
    ;

    /// Both forms are as wide as the type declares, whatever the value, and
    /// the JSON form is ASCII.
    proof fn lemma_encoding_widths(value: Self)
        ensures
            value.spec_to_bin().len() == Self::spec_bin_size(),
            value.spec_to_json().len() == Self::spec_json_size(),
            all_ascii(value.spec_to_json()),
    ;

    /// Decoding gives back what was encoded, in both forms.
    proof fn lemma_round_trip(value: Self)
        requires
            value.well_formed(),
        ensures
            Self::spec_from_bin(value.spec_to_bin()) == Some(value),
            Self::spec_from_json(value.spec_to_json()) == Some(value),
    ;

    /// The empty marker is a value that decoding can give back.
    proof fn lemma_null_well_formed()
        ensures
            Self::spec_null().well_formed(),
    ;

    /// Writes the value at `addr`, in the format that `io_metadata` records:
    /// one positional write of exactly the type's width on disk. Fails with
    /// `IoFailure`, and writes nothing, where the slot would end beyond what
    /// memory can address.
    fn write(&self, addr: Addr, file: &mut FileImage, io_metadata: &IoMetadata) -> (r: Result<
        (),
        TsdfError,
    >)
        ensures
            (final(file)@, r) == write_outcome(
                old(file)@,
                addr.loc as int,
                if io_metadata.format().is_text() {
                    self.spec_to_json()
                } else {
                    self.spec_to_bin()
                },
            ),
    {
        proof {
            Self::lemma_encoding_widths(*self);
        }
        if io_metadata.is_text() {
            let json = self.to_json();
            let text = json.as_str();
            proof {
                lemma_ascii_chars_bytes(self.spec_to_json());
            }
            let bytes = text.as_bytes();
            file.write_at(addr.get_loc(), bytes)
        } else {
            let bytes = self.to_bin();
            file.write_at(addr.get_loc(), bytes.as_slice())
        }
    }

    /// Removes what stands at `addr` by writing the empty marker over it.
    fn remove(addr: Addr, file: &mut FileImage, io_metadata: &IoMetadata) -> (r: Result<
        (),
        TsdfError,
    >)
        ensures
            (final(file)@, r) == write_outcome(
                old(file)@,
                addr.loc as int,
                if io_metadata.format().is_text() {
                    Self::spec_null().spec_to_json()
                } else {
                    Self::spec_null().spec_to_bin()
                },
            ),
    {
        let null = Self::null();
        null.write(addr, file, io_metadata)
    }

    /// Reads the value at `addr`, in the format that `io_metadata` records:
    /// exactly the type's width on disk is read and decoded. Fails with
    /// `IoFailure` where the container ends before the slot does, and with
    /// `CorruptEncoding` where the bytes of the slot are no value.
    fn from_addr(addr: Addr, file: &FileImage, io_metadata: &IoMetadata) -> (r: Result<
        Self,
        TsdfError,
    >)
        ensures
            r == (match bytes_at(
                file@.bytes,
                addr.loc as int,
                if io_metadata.format().is_text() {
                    Self::spec_json_size() as int
                } else {
                    Self::spec_bin_size() as int
                },
            ) {
                None => Err(TsdfError::IoFailure),
                Some(slot) => decoded(
                    if io_metadata.format().is_text() {
                        if all_ascii(slot) {
                            Self::spec_from_json(slot)
                        } else {
                            None
                        }
                    } else {
                        Self::spec_from_bin(slot)
                    },
                ),
            }),
    {
        let size = Self::get_size_on_disk(io_metadata);
        match file.read_at(addr.get_loc(), size) {
            Err(e) => Err(e),
            Ok(bytes) => {
                if io_metadata.is_text() {
                    if is_all_ascii(bytes.as_slice()) {
                        proof {
                            lemma_ascii_chars_bytes(bytes@);
                        }
                        Self::from_json(ascii_string(bytes))
                    } else {
                        Err(TsdfError::CorruptEncoding)
                    }
                } else {
                    Self::from_bin(bytes.as_slice())
                }
            },
        }
    }
}

/// The width on disk of a value of `T` under `format`.
pub open spec fn spec_size_on_disk<T: FixedSizeOnDisk>(format: FileFormat) -> int {
    if format.is_text() {
        T::spec_json_size() as int
    } else {
        T::spec_bin_size() as int
    }
}

/// The bytes that stand on disk for `value` under `format`.
pub open spec fn spec_encoding<T: FileSerializable>(format: FileFormat, value: T) -> Seq<u8> {
    if format.is_text() {
        value.spec_to_json()
    } else {
        value.spec_to_bin()
    }
}

/// The value that `bytes` stand for under `format`, where they stand for one.
/// In the text format only ASCII bytes do.
pub open spec fn spec_decoding<T: FileSerializable>(format: FileFormat, bytes: Seq<u8>) -> Option<
    T,
> {
    if format.is_text() {
        if all_ascii(bytes) {
            T::spec_from_json(bytes)
        } else {
            None
        }
    } else {
        T::spec_from_bin(bytes)
    }
}

/// What reading a value of `T` at `addr` gives, on a container that holds
/// `bytes`: `IoFailure` where the container ends before the slot does,
/// `CorruptEncoding` where the bytes of the slot are no value.
pub open spec fn spec_value_at<T: FileSerializable>(
    bytes: Seq<u8>,
    format: FileFormat,
    addr: int,
) -> Result<T, TsdfError> {
    match bytes_at(bytes, addr, spec_size_on_disk::<T>(format)) {
        None => Err(TsdfError::IoFailure),
        Some(slot) => decoded(spec_decoding::<T>(format, slot)),
    }
}

/// What decoding a JSON string gives: only an ASCII string can be a value.
pub open spec fn spec_from_json_string<T: FileSerializable>(json: Seq<char>) -> Result<
    T,
    TsdfError,
> {
    if is_ascii_chars(json) {
        decoded(T::spec_from_json(ascii_bytes(json)))
    } else {
        Err(TsdfError::CorruptEncoding)
    }
}

/// ASCII bytes and the characters that they stand for determine each other.
pub proof fn lemma_ascii_chars_bytes(text: Seq<u8>)
    requires
        all_ascii(text),
    ensures
        is_ascii_chars(ascii_chars(text)),
        ascii_bytes(ascii_chars(text)) == text,
        encode_utf8(ascii_chars(text)) == text,
{
    let chars = ascii_chars(text);
    assert forall|i: int| 0 <= i < chars.len() implies '\0' <= #[trigger] chars[i] <= '\u{7f}' by {
        assert(text[i] < 128);
    }
    assert(ascii_bytes(chars) =~= text);
    is_ascii_chars_encode_utf8(chars);
    assert(encode_utf8(chars) =~= text);
}

/// Decoding gives back what was encoded, in either format.
pub proof fn lemma_decode_encode<T: FileSerializable>(format: FileFormat, value: T)
    requires
        value.well_formed(),
    ensures
        spec_decoding::<T>(format, spec_encoding(format, value)) == Some(value),
{
    T::lemma_round_trip(value);
    T::lemma_encoding_widths(value);
}

/// Every value of a type takes the declared width on disk, in either format.
pub proof fn lemma_encoding_len<T: FileSerializable>(format: FileFormat, value: T)
    ensures
        spec_encoding(format, value).len() == spec_size_on_disk::<T>(format),
{
    T::lemma_encoding_widths(value);
}

/// Decoding the JSON string of a value gives back the value.
pub proof fn lemma_json_string_round_trip<T: FileSerializable>(value: T)
    requires
        value.well_formed(),
    ensures
        spec_from_json_string::<T>(ascii_chars(value.spec_to_json())) == Ok::<T, TsdfError>(value),
{
    T::lemma_round_trip(value);
    T::lemma_encoding_widths(value);
    lemma_ascii_chars_bytes(value.spec_to_json());
}

} // verus!
