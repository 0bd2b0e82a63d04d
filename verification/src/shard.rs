//! One shard of a distributed dictionary: a run of slots with commit flags.

use vstd::prelude::*;
use std::marker::PhantomData;
use crate::addr::Addr;
use crate::error::TsdfError;
use crate::format::FileFormat;
use crate::hash::TsdfHash;
use crate::image::{FileImage, ImageState};
use crate::layout::{
    capacity, checked_shard_width, flag_addr, hash_addr, lemma_capacity_bounds,
    lemma_slot_index_in_range, lemma_slot_within_shard, shard_width, shard_within, slot_width,
    spec_capacity, spec_slot_index, val_addr,
};
use crate::link_ptr::LinkPtr;
use crate::metadata::IoMetadata;
use crate::serial::{
    lemma_encoding_len, spec_encoding, spec_size_on_disk, spec_value_at, FileSerializable,
    FixedSizeOnDisk, VariableSizeOnDisk,
};

verus! {

/// What reading a one-byte flag at `addr` gives: set where the byte is one,
/// and `IoFailure` where the container ends at or before `addr`.
pub open spec fn flag_at(bytes: Seq<u8>, addr: int) -> Result<bool, TsdfError> {
    if 0 <= addr < bytes.len() {
        Ok(bytes[addr] == 1u8)
    } else {
        Err(TsdfError::IoFailure)
    }
}

/// Whether slot `n` of the shard at `loc` is committed.
pub open spec fn spec_is_hash_written<V: FileSerializable>(
    bytes: Seq<u8>,
    format: FileFormat,
    loc: int,
    n: int,
) -> Result<bool, TsdfError> {
    flag_at(bytes, flag_addr::<V>(format, loc, n))
}

/// Whether the shard at `loc` has a successor.
pub open spec fn spec_is_next_written(bytes: Seq<u8>, loc: int) -> Result<bool, TsdfError> {
    flag_at(bytes, loc)
}

/// The hash that slot `n` of the shard at `loc` holds: the null hash where
/// the slot is not committed, and otherwise what stands there. A committed
/// slot whose hash is the null hash is corrupt.
pub open spec fn spec_get_hash<V: FileSerializable>(
    bytes: Seq<u8>,
    format: FileFormat,
    loc: int,
    n: int,
) -> Result<TsdfHash, TsdfError> {
    match spec_is_hash_written::<V>(bytes, format, loc, n) {
        Err(e) => Err(e),
        Ok(false) => Ok(TsdfHash::spec_null()),
        Ok(true) => match spec_value_at::<TsdfHash>(bytes, format, hash_addr::<V>(format, loc, n)) {
            Err(e) => Err(e),
            Ok(hash) => if hash.is_null() {
                Err(TsdfError::CorruptEncoding)
            } else {
                Ok(hash)
            },
        },
    }
}

/// The value that slot `n` of the shard at `loc` holds: the null value where
/// the slot is not committed, and otherwise what stands there.
pub open spec fn spec_get_val<V: FileSerializable>(
    bytes: Seq<u8>,
    format: FileFormat,
    loc: int,
    n: int,
) -> Result<V, TsdfError> {
    match spec_is_hash_written::<V>(bytes, format, loc, n) {
        Err(e) => Err(e),
        Ok(false) => Ok(V::spec_null()),
        Ok(true) => spec_value_at::<V>(bytes, format, val_addr::<V>(format, loc, n)),
    }
}

/// The successor of the shard at `loc`: `Null` where none was published, and
/// otherwise what stands in the pointer.
pub open spec fn spec_get_next(bytes: Seq<u8>, format: FileFormat, loc: int) -> Result<
    LinkPtr,
    TsdfError,
> {
    match spec_is_next_written(bytes, loc) {
        Err(e) => Err(e),
        Ok(false) => Ok(LinkPtr::spec_null()),
        Ok(true) => spec_value_at::<LinkPtr>(bytes, format, loc + 1),
    }
}

/// Whether the shard at `loc` holds `hash`: whether the hash of the slot that
/// `hash` falls into equals it.
pub open spec fn spec_contains<V: FileSerializable>(
    bytes: Seq<u8>,
    format: FileFormat,
    loc: int,
    link: int,
    hash: TsdfHash,
) -> Result<bool, TsdfError> {
    match spec_get_hash::<V>(bytes, format, loc, spec_slot_index(hash, link)) {
        Err(e) => Err(e),
        Ok(stored) => Ok(stored == hash),
    }
}

/// The state after an entry is put into slot `n` of the shard at `loc`:
/// first the value is written, then the hash, and last the commit flag.
pub open spec fn spec_slot_filled<V: FileSerializable>(
    state: ImageState,
    format: FileFormat,
    loc: int,
    n: int,
    hash: TsdfHash,
    val: V,
) -> ImageState {
    state.write(val_addr::<V>(format, loc, n), spec_encoding(format, val)).write(
        hash_addr::<V>(format, loc, n),
        spec_encoding(format, hash),
    ).write(flag_addr::<V>(format, loc, n), seq![1u8])
}

/// The state after slot `n` of the shard at `loc` is cleared: first the
/// commit flag is taken back, then hash and value are overwritten with their
/// null forms.
pub open spec fn spec_slot_cleared<V: FileSerializable>(
    state: ImageState,
    format: FileFormat,
    loc: int,
    n: int,
) -> ImageState {
    state.write(flag_addr::<V>(format, loc, n), seq![0u8]).write(
        hash_addr::<V>(format, loc, n),
        spec_encoding(format, TsdfHash::spec_null()),
    ).write(val_addr::<V>(format, loc, n), spec_encoding(format, V::spec_null()))
}

/// The state after slot `n` of the shard at `loc` is laid out empty: a null
/// hash, a null value, and a commit flag that is not set.
pub open spec fn spec_slot_blank<V: FileSerializable>(
    state: ImageState,
    format: FileFormat,
    loc: int,
    n: int,
) -> ImageState {
    state.write(hash_addr::<V>(format, loc, n), spec_encoding(format, TsdfHash::spec_null())).write(
        val_addr::<V>(format, loc, n),
        spec_encoding(format, V::spec_null()),
    ).write(flag_addr::<V>(format, loc, n), seq![0u8])
}

/// The state after the first `count` slots of the shard at `loc` are laid
/// out empty, one after the other.
pub open spec fn spec_slots_blank<V: FileSerializable>(
    state: ImageState,
    format: FileFormat,
    loc: int,
    count: int,
) -> ImageState
    decreases count,
{
    if count <= 0 {
        state
    } else {
        spec_slot_blank::<V>(
            spec_slots_blank::<V>(state, format, loc, count - 1),
            format,
            loc,
            count - 1,
        )
    }
}

/// The state after the shard with link number `link` at `loc` is
/// initialized: every slot is laid out empty, then the flag of the next
/// pointer is written as not set.
pub open spec fn spec_shard_initialized<V: FileSerializable>(
    state: ImageState,
    format: FileFormat,
    loc: int,
    link: int,
) -> ImageState {
    spec_slots_blank::<V>(state, format, loc, spec_capacity(link)).write(loc, seq![0u8])
}

/// The state after `next` is published as the successor of the shard at
/// `loc`: first the pointer is written, then its flag is set.
pub open spec fn spec_next_set(state: ImageState, format: FileFormat, loc: int, next: LinkPtr) ->
    ImageState {
    state.write(loc + 1, spec_encoding(format, next)).write(loc, seq![1u8])
}

/// The state after `hash` and `val` are added to a shard: a shard that was
/// not initialized yet is initialized first.
pub open spec fn spec_shard_added<V: FileSerializable>(
    state: ImageState,
    format: FileFormat,
    loc: int,
    link: int,
    initialized: bool,
    hash: TsdfHash,
    val: V,
) -> ImageState {
    spec_slot_filled::<V>(
        if initialized {
            state
        } else {
            spec_shard_initialized::<V>(state, format, loc, link)
        },
        format,
        loc,
        spec_slot_index(hash, link),
        hash,
        val,
    )
}

/// What adding `hash` and `val` to a shard gives: the state afterwards,
/// whether the handle counts as initialized afterwards, and what is reported.
/// The null hash is no key: it is refused with `CorruptEncoding`, and nothing
/// changes.
pub open spec fn spec_shard_add<V: FileSerializable>(
    state: ImageState,
    format: FileFormat,
    loc: int,
    link: int,
    initialized: bool,
    hash: TsdfHash,
    val: V,
) -> (ImageState, bool, Result<(), TsdfError>) {
    if hash.is_null() {
        (state, initialized, Err(TsdfError::CorruptEncoding))
    } else {
        (spec_shard_added::<V>(state, format, loc, link, initialized, hash, val), true, Ok(()))
    }
}

/// One shard of a distributed dictionary: a fixed number of slots at a known
/// offset of the container. The handle holds no entry; it knows where the
/// entries stand and reads or writes just the bytes that a question needs.
///
/// On disk a shard is the flag of its next pointer (one byte), the next
/// pointer, and then for each slot a hash, a value and a commit flag (one
/// byte).
pub struct DistDictShard<'a, TVal: FileSerializable> {
    val: PhantomData<TVal>,
    link_number: u32,
    loc: Addr,
    io_metadata: &'a IoMetadata,
    initialized: bool,
}

impl<'a, TVal: FileSerializable> DistDictShard<'a, TVal> {
    /// The position of the shard in its chain.
    pub closed spec fn spec_link_number(&self) -> u32 {
        self.link_number
    }

    /// The offset of the shard.
    pub closed spec fn spec_addr(&self) -> Addr {
        self.loc
    }

    /// The metadata under which the shard is read and written.
    pub closed spec fn spec_io_metadata(&self) -> IoMetadata {
        *self.io_metadata
    }

    /// Whether the shard is known to be laid out on disk.
    pub closed spec fn spec_is_initialized(&self) -> bool {
        self.initialized
    }

    /// The format in which the shard is laid down.
    pub open spec fn format(&self) -> FileFormat {
        self.spec_io_metadata().format()
    }

    /// The offset of the shard.
    pub open spec fn loc(&self) -> int {
        self.spec_addr().loc as int
    }

    /// The link number of the shard.
    pub open spec fn link(&self) -> int {
        self.spec_link_number() as int
    }

    /// The number of slots of the shard.
    pub open spec fn slots(&self) -> int {
        spec_capacity(self.link())
    }

    #[verifier::type_invariant]
    spec fn inv(&self) -> bool {
        shard_within::<TVal>(
            self.io_metadata.format(),
            self.loc.loc as int,
            self.link_number as int,
            usize::MAX as int,
        )
    }

    /// Whether the whole shard lies within what memory can address. Every
    /// handle is for a shard that does.
    pub open spec fn addressable(&self) -> bool {
        shard_within::<TVal>(self.format(), self.loc(), self.link(), usize::MAX as int)
    }

    /// A handle for the shard with link number `link_number` at `loc`.
    pub fn new(
        link_number: u32,
        loc: Addr,
        io_metadata: &'a IoMetadata,
        is_initialized: bool,
    ) -> (shard: DistDictShard<'a, TVal>)
        requires
            shard_within::<TVal>(
                io_metadata.format(),
                loc.loc as int,
                link_number as int,
                usize::MAX as int,
            ),
        ensures
            shard.spec_link_number() == link_number,
            shard.spec_addr() == loc,
            shard.spec_io_metadata() == *io_metadata,
            shard.spec_is_initialized() == is_initialized,
            shard.addressable(),
    {
        DistDictShard {
            val: PhantomData,
            link_number,
            loc,
            io_metadata,
            initialized: is_initialized,
        }
    }

    /// A handle for the shard with link number `link_number` at `loc`, where
    /// such a shard lies within what memory can address; `IoFailure` where it
    /// does not.
    pub fn try_new(
        link_number: u32,
        loc: Addr,
        io_metadata: &'a IoMetadata,
        is_initialized: bool,
    ) -> (r: Result<DistDictShard<'a, TVal>, TsdfError>)
        ensures
            match r {
                Ok(shard) => {
                    &&& shard.spec_link_number() == link_number
                    &&& shard.spec_addr() == loc
                    &&& shard.spec_io_metadata() == *io_metadata
                    &&& shard.spec_is_initialized() == is_initialized
                    &&& shard.addressable()
                },
                Err(e) => {
                    &&& e == TsdfError::IoFailure
                    &&& !shard_within::<TVal>(
                        io_metadata.format(),
                        loc.loc as int,
                        link_number as int,
                        usize::MAX as int,
                    )
                },
            },
    {
        match checked_shard_width::<TVal>(io_metadata.file_format(), link_number) {
            None => Err(TsdfError::IoFailure),
            Some(width) => match loc.get_loc().checked_add(width) {
                None => Err(TsdfError::IoFailure),
                Some(end) => {
                    if end > usize::MAX as u64 {
                        Err(TsdfError::IoFailure)
                    } else {
                        Ok(DistDictShard::new(link_number, loc, io_metadata, is_initialized))
                    }
                },
            },
        }
    }

    /// The offset of the shard.
    pub fn get_addr(&self) -> (addr: &Addr)
        ensures
            *addr == self.spec_addr(),
    {
        &self.loc
    }

    /// The metadata under which the shard is read and written.
    pub fn get_io_metadata(&self) -> (io_metadata: &'a IoMetadata)
        ensures
            *io_metadata == self.spec_io_metadata(),
    {
        self.io_metadata
    }

    /// The position of the shard in its chain.
    pub fn get_link_number(&self) -> (link_number: u32)
        ensures
            link_number == self.spec_link_number(),
            self.addressable(),
    {
        proof {
            use_type_invariant(self);
        }
        self.link_number
    }

    /// Whether the container holds the whole of the shard. No container is
    /// longer than memory can address.
    pub fn is_within(&self, file: &FileImage) -> (within: bool)
        ensures
            within == shard_within::<TVal>(
                self.format(),
                self.loc(),
                self.link(),
                file@.bytes.len() as int,
            ),
            file@.bytes.len() <= usize::MAX,
    {
        proof {
            use_type_invariant(self);
        }
        let len = file.len();
        match checked_shard_width::<TVal>(self.io_metadata.file_format(), self.link_number) {
            Some(width) => self.loc.get_loc() + width <= len,
            None => false,
        }
    }

    /// Whether the shard is known to be laid out on disk.
    pub fn is_initialized(&self) -> (initialized: bool)
        ensures
            initialized == self.spec_is_initialized(),
    {
        self.initialized
    }

    /// Records whether the shard is laid out on disk.
    pub fn set_initialization_state(&mut self, initialized: bool)
        ensures
            final(self).spec_is_initialized() == initialized,
            final(self).spec_link_number() == old(self).spec_link_number(),
            final(self).spec_addr() == old(self).spec_addr(),
            final(self).spec_io_metadata() == old(self).spec_io_metadata(),
    {
        proof {
            use_type_invariant(&*self);
        }
        self.initialized = initialized;
    }

    /// The number of slots of the shard.
    pub fn get_num_keys(&self) -> (slots: u64)
        ensures
            slots == self.slots(),
    {
        proof {
            use_type_invariant(&*self);
        }
        capacity(self.link_number)
    }

    /// Where the flag of the next pointer stands.
    pub fn get_is_next_written_addr(&self) -> (addr: Addr)
        ensures
            addr.loc == self.loc(),
    {
        Addr::new(self.loc.get_loc())
    }

    /// Where the next pointer stands.
    pub fn get_next_addr(&self) -> (addr: Addr)
        ensures
            addr.loc == self.loc() + 1,
    {
        proof {
            use_type_invariant(&*self);
        }
        proof {
            lemma_capacity_bounds(self.link());
            assert(0 <= self.slots() * slot_width::<TVal>(self.format())) by (nonlinear_arith)
                requires
                    0 <= self.slots(),
                    0 <= slot_width::<TVal>(self.format()),
            ;
        }
        Addr::new(self.loc.get_loc() + 1)
    }

    /// Where the hash of slot `n` stands.
    pub fn get_hash_addr(&self, n: u64) -> (addr: Addr)
        requires
            n < self.slots(),
        ensures
            addr.loc == hash_addr::<TVal>(self.format(), self.loc(), n as int),
    {
        proof {
            use_type_invariant(&*self);
        }
        proof {
            let w = slot_width::<TVal>(self.format());
            lemma_slot_within_shard::<TVal>(self.format(), self.loc(), self.link(), n as int);
            lemma_capacity_bounds(self.link());
            assert(0 <= n * w && n * w == w * n) by (nonlinear_arith)
                requires
                    0 <= n,
                    0 <= w,
            ;
            assert(w <= self.slots() * w) by (nonlinear_arith)
                requires
                    1 <= self.slots(),
                    0 <= w,
            ;
        }
        let hash_size = TsdfHash::get_size_on_disk(self.io_metadata);
        let val_size = TVal::get_size_on_disk(self.io_metadata);
        let header = 1 + LinkPtr::get_size_on_disk(self.io_metadata);
        let slot = hash_size + val_size + 1;
        Addr::new(self.loc.get_loc() + header + slot * n)
    }

    /// Where the value of slot `n` stands.
    pub fn get_val_addr(&self, n: u64) -> (addr: Addr)
        requires
            n < self.slots(),
        ensures
            addr.loc == val_addr::<TVal>(self.format(), self.loc(), n as int),
    {
        proof {
            use_type_invariant(&*self);
        }
        proof {
            lemma_slot_within_shard::<TVal>(self.format(), self.loc(), self.link(), n as int);
        }
        let hash_size = TsdfHash::get_size_on_disk(self.io_metadata);
        Addr::new(self.get_hash_addr(n).get_loc() + hash_size)
    }

    /// Where the commit flag of slot `n` stands.
    pub fn get_is_hash_written_addr(&self, n: u64) -> (addr: Addr)
        requires
            n < self.slots(),
        ensures
            addr.loc == flag_addr::<TVal>(self.format(), self.loc(), n as int),
    {
        proof {
            use_type_invariant(&*self);
        }
        proof {
            lemma_slot_within_shard::<TVal>(self.format(), self.loc(), self.link(), n as int);
        }
        let val_size = TVal::get_size_on_disk(self.io_metadata);
        Addr::new(self.get_val_addr(n).get_loc() + val_size)
    }
}

impl<'a, TVal: FileSerializable> VariableSizeOnDisk for DistDictShard<'a, TVal> {
    open spec fn spec_bin_size(&self) -> int {
        shard_width::<TVal>(FileFormat::Binary, self.link())
    }

    open spec fn spec_json_size(&self) -> int {
        shard_width::<TVal>(FileFormat::Text, self.link())
    }

    fn get_bin_size_on_disk(&self) -> (size: u64) {
        proof {
            use_type_invariant(self);
        }
        match checked_shard_width::<TVal>(FileFormat::Binary, self.link_number) {
            Some(width) => width,
            None => 0,
        }
    }

    fn get_json_size_on_disk(&self) -> (size: u64) {
        proof {
            use_type_invariant(self);
        }
        match checked_shard_width::<TVal>(FileFormat::Text, self.link_number) {
            Some(width) => width,
            None => 0,
        }
    }
}

/// Writes `value` at `addr`, where the slot is known to be addressable, so
/// that the write cannot fail.
fn put_value<T: FileSerializable>(
    value: &T,
    addr: Addr,
    file: &mut FileImage,
    io_metadata: &IoMetadata,
)
    requires
        addr.loc + spec_size_on_disk::<T>(io_metadata.format()) <= usize::MAX,
    ensures
        final(file)@ == old(file)@.write(
            addr.loc as int,
            spec_encoding(io_metadata.format(), *value),
        ),
{
    proof {
        lemma_encoding_len(io_metadata.format(), *value);
    }
    let _ = value.write(addr, file, io_metadata);
}

/// Writes the one-byte flag `byte` at `addr`, where the byte is known to be
/// addressable, so that the write cannot fail.
fn put_flag(byte: u8, addr: Addr, file: &mut FileImage)
    requires
        addr.loc + 1 <= usize::MAX,
    ensures
        final(file)@ == old(file)@.write(addr.loc as int, seq![byte]),
{
    let _ = file.write_byte(addr.get_loc(), byte);
}

impl<'a, TVal: FileSerializable> DistDictShard<'a, TVal> {
    /// Whether slot `n` is committed: whether its flag byte is one.
    pub fn is_hash_written(&self, file: &FileImage, n: u64) -> (r: Result<bool, TsdfError>)
        requires
            n < self.slots(),
        ensures
            r == spec_is_hash_written::<TVal>(file@.bytes, self.format(), self.loc(), n as int),
    {
        proof {
            use_type_invariant(&*self);
        }
        let addr = self.get_is_hash_written_addr(n);
        match file.read_byte(addr.get_loc()) {
            Ok(byte) => Ok(byte == 1),
            Err(e) => Err(e),
        }
    }

    /// Whether a successor was published: whether the flag byte of the next
    /// pointer is one.
    pub fn is_next_written(&self, file: &FileImage) -> (r: Result<bool, TsdfError>)
        ensures
            r == spec_is_next_written(file@.bytes, self.loc()),
    {
        let addr = self.get_is_next_written_addr();
        match file.read_byte(addr.get_loc()) {
            Ok(byte) => Ok(byte == 1),
            Err(e) => Err(e),
        }
    }

    /// The successor of the shard: `Null` where none was published.
    pub fn get_next_ptr(&self, file: &FileImage) -> (r: Result<LinkPtr, TsdfError>)
        ensures
            r == spec_get_next(file@.bytes, self.format(), self.loc()),
    {
        proof {
            use_type_invariant(&*self);
        }
        match self.is_next_written(file) {
            Err(e) => Err(e),
            Ok(false) => Ok(LinkPtr::null()),
            Ok(true) => LinkPtr::from_addr(self.get_next_addr(), file, self.io_metadata),
        }
    }

    /// The successor of the shard: `Null` where none was published.
    pub fn get_next(&self, file: &FileImage) -> (r: Result<LinkPtr, TsdfError>)
        ensures
            r == spec_get_next(file@.bytes, self.format(), self.loc()),
    {
        proof {
            use_type_invariant(&*self);
        }
        self.get_next_ptr(file)
    }

    /// The hash of slot `n`: the null hash where the slot is not committed.
    /// A committed slot that holds the null hash is reported as
    /// `CorruptEncoding`.
    pub fn get_hash(&self, file: &FileImage, n: u64) -> (r: Result<TsdfHash, TsdfError>)
        requires
            n < self.slots(),
        ensures
            r == spec_get_hash::<TVal>(file@.bytes, self.format(), self.loc(), n as int),
    {
        proof {
            use_type_invariant(&*self);
        }
        match self.is_hash_written(file, n) {
            Err(e) => Err(e),
            Ok(false) => Ok(TsdfHash::null()),
            Ok(true) => match TsdfHash::from_addr(self.get_hash_addr(n), file, self.io_metadata) {
                Err(e) => Err(e),
                Ok(hash) => if hash.is_null() {
                    Err(TsdfError::CorruptEncoding)
                } else {
                    Ok(hash)
                },
            },
        }
    }

    /// The value of slot `n`: the null value where the slot is not committed.
    pub fn get_val(&self, file: &FileImage, n: u64) -> (r: Result<TVal, TsdfError>)
        requires
            n < self.slots(),
        ensures
            r == spec_get_val::<TVal>(file@.bytes, self.format(), self.loc(), n as int),
    {
        proof {
            use_type_invariant(&*self);
        }
        match self.is_hash_written(file, n) {
            Err(e) => Err(e),
            Ok(false) => Ok(TVal::null()),
            Ok(true) => TVal::from_addr(self.get_val_addr(n), file, self.io_metadata),
        }
    }

    /// The slot that `hashed_key` falls into.
    pub fn slot_of(&self, hashed_key: &TsdfHash) -> (n: u64)
        ensures
            n == spec_slot_index(*hashed_key, self.link()),
            n < self.slots(),
    {
        proof {
            use_type_invariant(&*self);
        }
        proof {
            lemma_slot_index_in_range(*hashed_key, self.link());
        }
        hashed_key.get_hash_table_idx(self.get_num_keys())
    }

    /// Whether the shard holds `hashed_key`: whether the slot that the hash
    /// falls into holds that hash.
    pub fn contains(&self, file: &FileImage, hashed_key: &TsdfHash) -> (r: Result<bool, TsdfError>)
        ensures
            r == spec_contains::<TVal>(
                file@.bytes,
                self.format(),
                self.loc(),
                self.link(),
                *hashed_key,
            ),
    {
        proof {
            use_type_invariant(&*self);
        }
        let n = self.slot_of(hashed_key);
        match self.get_hash(file, n) {
            Err(e) => Err(e),
            Ok(stored) => Ok(stored.get_hash_value() == hashed_key.get_hash_value()),
        }
    }

    /// Lays the shard out on disk: every slot gets a null hash, a null value
    /// and a commit flag that is not set; then the flag of the next pointer
    /// is written as not set. The handle counts as initialized afterwards.
    pub fn init(&mut self, file: &mut FileImage)
        ensures
            final(file)@ == spec_shard_initialized::<TVal>(
                old(file)@,
                old(self).format(),
                old(self).loc(),
                old(self).link(),
            ),
            final(self).spec_is_initialized(),
            final(self).spec_link_number() == old(self).spec_link_number(),
            final(self).spec_addr() == old(self).spec_addr(),
            final(self).spec_io_metadata() == old(self).spec_io_metadata(),
    {
        proof {
            use_type_invariant(&*self);
        }
        let slots = self.get_num_keys();
        let null_hash = TsdfHash::null();
        let null_val = TVal::null();
        let mut n: u64 = 0;
        while n < slots
            invariant
                n <= slots,
                slots == self.slots(),
                self.addressable(),
                *self == *old(self),
                null_hash == TsdfHash::spec_null(),
                null_val == TVal::spec_null(),
                file@ == spec_slots_blank::<TVal>(old(file)@, self.format(), self.loc(), n as int),
            decreases slots - n,
        {
            proof {
                lemma_slot_within_shard::<TVal>(self.format(), self.loc(), self.link(), n as int);
            }
            put_value(&null_hash, self.get_hash_addr(n), file, self.io_metadata);
            put_value(&null_val, self.get_val_addr(n), file, self.io_metadata);
            put_flag(0u8, self.get_is_hash_written_addr(n), file);
            n = n + 1;
        }
        proof {
            lemma_capacity_bounds(self.link());
            lemma_slot_within_shard::<TVal>(self.format(), self.loc(), self.link(), 0);
        }
        put_flag(0u8, self.get_is_next_written_addr(), file);
        self.initialized = true;
    }

    /// Publishes `next` as the successor of the shard: the pointer is written
    /// first, and then its flag is set.
    pub fn set_next(&mut self, file: &mut FileImage, next: &LinkPtr)
        ensures
            final(file)@ == spec_next_set(old(file)@, old(self).format(), old(self).loc(), *next),
            *final(self) == *old(self),
    {
        proof {
            use_type_invariant(&*self);
        }
        proof {
            lemma_capacity_bounds(self.link());
            lemma_slot_within_shard::<TVal>(self.format(), self.loc(), self.link(), 0);
        }
        put_value(next, self.get_next_addr(), file, self.io_metadata);
        put_flag(1u8, self.get_is_next_written_addr(), file);
    }

    /// Takes the entry out of the slot that `hashed_key` falls into: the
    /// commit flag is taken back first, then hash and value are overwritten
    /// with their null forms. On a handle that is not initialized nothing is
    /// written.
    pub fn remove(&self, file: &mut FileImage, hashed_key: &TsdfHash)
        ensures
            final(file)@ == (if self.spec_is_initialized() {
                spec_slot_cleared::<TVal>(
                    old(file)@,
                    self.format(),
                    self.loc(),
                    spec_slot_index(*hashed_key, self.link()),
                )
            } else {
                old(file)@
            }),
    {
        proof {
            use_type_invariant(&*self);
        }
        if !self.initialized {
            return ;
        }
        let n = self.slot_of(hashed_key);
        proof {
            lemma_slot_within_shard::<TVal>(self.format(), self.loc(), self.link(), n as int);
        }
        let null_hash = TsdfHash::null();
        let null_val = TVal::null();
        put_flag(0u8, self.get_is_hash_written_addr(n), file);
        put_value(&null_hash, self.get_hash_addr(n), file, self.io_metadata);
        put_value(&null_val, self.get_val_addr(n), file, self.io_metadata);
    }

    /// Puts `hashed_key` and `val` into the slot that the hash falls into,
    /// over whatever the slot holds: the value is written first, then the
    /// hash, and last the commit flag is set. A shard that is not initialized
    /// yet is initialized first. The null hash is no key: it is refused with
    /// `CorruptEncoding`, and nothing is written.
    pub fn add(&mut self, file: &mut FileImage, hashed_key: &TsdfHash, val: &TVal) -> (r: Result<
        (),
        TsdfError,
    >)
        ensures
            final(self).spec_link_number() == old(self).spec_link_number(),
            final(self).spec_addr() == old(self).spec_addr(),
            final(self).spec_io_metadata() == old(self).spec_io_metadata(),
            (final(file)@, final(self).spec_is_initialized(), r) == spec_shard_add::<TVal>(
                old(file)@,
                old(self).format(),
                old(self).loc(),
                old(self).link(),
                old(self).spec_is_initialized(),
                *hashed_key,
                *val,
            ),
    {
        proof {
            use_type_invariant(&*self);
        }
        if hashed_key.is_null() {
            return Err(TsdfError::CorruptEncoding);
        }
        if !self.initialized {
            self.init(file);
        }
        let n = self.slot_of(hashed_key);
        proof {
            lemma_slot_within_shard::<TVal>(self.format(), self.loc(), self.link(), n as int);
        }
        put_value(val, self.get_val_addr(n), file, self.io_metadata);
        put_value(hashed_key, self.get_hash_addr(n), file, self.io_metadata);
        put_flag(1u8, self.get_is_hash_written_addr(n), file);
        Ok(())
    }
}

} // verus!
