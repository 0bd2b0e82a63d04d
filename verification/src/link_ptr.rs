//! Link pointers: addresses that may stand for nothing.

use vstd::prelude::*;
use crate::addr::Addr;
use crate::error::TsdfError;
use crate::format::FileFormat;
use crate::serial::{spec_decoding, spec_encoding, FileSerializable, FixedSizeOnDisk};

verus! {

/// A pointer from one object of the container to another: an address, or
/// nothing. The offset is one into the file, not into memory.
///
/// On disk a pointer is just an address, and offset zero stands for `Null`.
#[derive(Clone, Copy, Debug, PartialEq, Eq, Structural)]
pub enum LinkPtr {
    Addr(Addr),
    Null(Addr),
}

impl LinkPtr {
    /// The pointer that stands on disk as `addr`: `Null` for offset zero.
    pub open spec fn spec_from_addr(addr: Addr) -> LinkPtr {
        if addr.loc == 0 {
            LinkPtr::Null(addr)
        } else {
            LinkPtr::Addr(addr)
        }
    }

    /// The address that stands on disk for the pointer.
    pub open spec fn spec_to_addr(&self) -> Addr {
        match *self {
            LinkPtr::Addr(addr) => addr,
            LinkPtr::Null(addr) => addr,
        }
    }

    /// The address that stands on disk for the pointer.
    pub fn to_addr(&self) -> (addr: &Addr)
        ensures
            *addr == self.spec_to_addr(),
    {
        match self {
            LinkPtr::Addr(addr) => addr,
            LinkPtr::Null(addr) => addr,
        }
    }

    /// The pointer that stands on disk as `addr`: `Null` for offset zero.
    pub fn from_addr_value(addr: Addr) -> (ptr: LinkPtr)
        ensures
            ptr == LinkPtr::spec_from_addr(addr),
            ptr.well_formed(),
    {
        if addr.get_loc() == 0 {
            LinkPtr::Null(addr)
        } else {
            LinkPtr::Addr(addr)
        }
    }
}

impl FixedSizeOnDisk for LinkPtr {
    open spec fn spec_bin_size() -> u64 {
        Addr::spec_bin_size()
    }

    open spec fn spec_json_size() -> u64 {
        Addr::spec_json_size()
    }

    fn get_bin_size_on_disk() -> (size: u64) {
        Addr::get_bin_size_on_disk()
    }

    fn get_json_size_on_disk() -> (size: u64) {
        Addr::get_json_size_on_disk()
    }
}

impl FileSerializable for LinkPtr {
    open spec fn spec_null() -> LinkPtr {
        LinkPtr::Null(Addr::spec_null())
    }

    /// `Null` holds offset zero, and `Addr` another.
    open spec fn well_formed(&self) -> bool {
        *self == LinkPtr::spec_from_addr(self.spec_to_addr())
    }

    open spec fn spec_to_bin(&self) -> Seq<u8> {
        self.spec_to_addr().spec_to_bin()
    }

    open spec fn spec_from_bin(bytes: Seq<u8>) -> Option<LinkPtr> {
        match Addr::spec_from_bin(bytes) {
            Some(addr) => Some(LinkPtr::spec_from_addr(addr)),
            None => None,
        }
    }

    open spec fn spec_to_json(&self) -> Seq<u8> {
        self.spec_to_addr().spec_to_json()
    }

    open spec fn spec_from_json(text: Seq<u8>) -> Option<LinkPtr> {
        match Addr::spec_from_json(text) {
            Some(addr) => Some(LinkPtr::spec_from_addr(addr)),
            None => None,
        }
    }

    fn null() -> (value: LinkPtr) {
        LinkPtr::Null(Addr::null())
    }

    fn to_bin(&self) -> (bytes: Vec<u8>) {
        self.to_addr().to_bin()
    }

    fn to_json(&self) -> (json: String) {
        self.to_addr().to_json()
    }

    fn from_bin(bytes: &[u8]) -> (r: Result<LinkPtr, TsdfError>) {
        match Addr::from_bin(bytes) {
            Ok(addr) => Ok(LinkPtr::from_addr_value(addr)),
            Err(e) => Err(e),
        }
    }

    fn from_json(json: String) -> (r: Result<LinkPtr, TsdfError>) {
        match Addr::from_json(json) {
            Ok(addr) => Ok(LinkPtr::from_addr_value(addr)),
            Err(e) => Err(e),
        }
    }

    proof fn lemma_encoding_widths(value: LinkPtr) {
        Addr::lemma_encoding_widths(value.spec_to_addr());
    }

    proof fn lemma_round_trip(value: LinkPtr) {
        Addr::lemma_round_trip(value.spec_to_addr());
    }

    proof fn lemma_null_well_formed() {
    }
}

/// A pointer read back from disk is `Null` exactly where offset zero was
/// written, whichever variant held it, and otherwise it is `Addr` with the
/// offset that was written.
pub proof fn lemma_link_ptr_null_is_offset_zero(format: FileFormat, ptr: LinkPtr)
    ensures
        spec_decoding::<LinkPtr>(format, spec_encoding(format, ptr)) == Some(
            if ptr.spec_to_addr().loc == 0 {
                LinkPtr::Null(ptr.spec_to_addr())
            } else {
                LinkPtr::Addr(ptr.spec_to_addr())
            },
        ),
{
    Addr::lemma_round_trip(ptr.spec_to_addr());
    Addr::lemma_encoding_widths(ptr.spec_to_addr());
}

} // verus!
