//! The distributed dictionary: a chain of shards that grows by appending.

use vstd::prelude::*;
use std::marker::PhantomData;
use crate::addr::Addr;
use crate::error::TsdfError;
use crate::format::FileFormat;
use crate::hash::{TsdfHash, TsdfHashable};
use crate::image::{FileImage, ImageState};
use crate::layout::{
    lemma_capacity_bounds, lemma_slot_within_shard, shard_within, spec_slot_index, MAX_LINK_NUMBER,
};
use crate::link_ptr::LinkPtr;
use crate::metadata::IoMetadata;
use crate::serial::{
    lemma_encoding_len, spec_encoding, spec_size_on_disk, FileSerializable, FixedSizeOnDisk,
};
use crate::shard::{
    spec_get_hash, spec_get_next, spec_get_val, spec_next_set, spec_shard_initialized,
    spec_slot_cleared, spec_slot_filled, DistDictShard,
};

verus! {

/// A shard of a chain: where it stands, and which link of the chain it is.
pub struct Place {
    pub loc: int,
    pub link: int,
}

/// Where a new entry goes.
pub enum InsertPoint {
    /// Into its slot of this shard, which is free or holds the same hash.
    Slot(Place),
    /// Into a new shard behind this one, the last of the chain, whose slot
    /// holds another hash, as every shard before it does.
    Append(Place),
}

/// The bytes that a dictionary takes on disk before its first shard: the
/// address of that shard.
pub open spec fn dict_header_width(format: FileFormat) -> int {
    spec_size_on_disk::<Addr>(format)
}

/// Where the first shard of the dictionary at `loc` stands: right behind the
/// dictionary's own bytes.
pub open spec fn first_shard_loc(format: FileFormat, loc: int) -> int {
    loc + dict_header_width(format)
}

/// Whether the container holds the whole of a shard with link number `link`
/// at `loc`.
pub open spec fn shard_loadable<V: FileSerializable>(
    bytes: Seq<u8>,
    format: FileFormat,
    loc: int,
    link: int,
) -> bool {
    shard_within::<V>(format, loc, link, bytes.len() as int)
}

/// The first shard that holds `hash`, on the chain that starts with the shard
/// with link number `link` at `loc`: the first whose slot for `hash` is
/// committed with that very hash. The search goes on behind a slot that is
/// free or holds another hash, and ends where a shard has no successor. The
/// null hash is held nowhere. A shard that the container does not hold whole
/// is an `IoFailure`.
pub open spec fn spec_find<V: FileSerializable>(
    bytes: Seq<u8>,
    format: FileFormat,
    loc: int,
    link: int,
    hash: TsdfHash,
) -> Result<Option<Place>, TsdfError>
    decreases MAX_LINK_NUMBER + 1 - link,
{
    if !shard_loadable::<V>(bytes, format, loc, link) {
        Err(TsdfError::IoFailure)
    } else {
        match spec_get_hash::<V>(bytes, format, loc, spec_slot_index(hash, link)) {
            Err(e) => Err(e),
            Ok(stored) => if stored == hash && !hash.is_null() {
                Ok(Some(Place { loc, link }))
            } else {
                match spec_get_next(bytes, format, loc) {
                    Err(e) => Err(e),
                    Ok(LinkPtr::Null(_)) => Ok(None),
                    Ok(LinkPtr::Addr(next)) => spec_find::<V>(
                        bytes,
                        format,
                        next.loc as int,
                        link + 1,
                        hash,
                    ),
                }
            },
        }
    }
}

/// Where an entry with `hash` goes, on the chain that starts with the shard
/// with link number `link` at `loc`: into the first shard whose slot for
/// `hash` is free or holds that very hash, and behind the last shard where
/// there is none.
pub open spec fn spec_insert_point<V: FileSerializable>(
    bytes: Seq<u8>,
    format: FileFormat,
    loc: int,
    link: int,
    hash: TsdfHash,
) -> Result<InsertPoint, TsdfError>
    decreases MAX_LINK_NUMBER + 1 - link,
{
    if !shard_loadable::<V>(bytes, format, loc, link) {
        Err(TsdfError::IoFailure)
    } else {
        match spec_get_hash::<V>(bytes, format, loc, spec_slot_index(hash, link)) {
            Err(e) => Err(e),
            Ok(stored) => if stored.is_null() || stored == hash {
                Ok(InsertPoint::Slot(Place { loc, link }))
            } else {
                match spec_get_next(bytes, format, loc) {
                    Err(e) => Err(e),
                    Ok(LinkPtr::Null(_)) => Ok(InsertPoint::Append(Place { loc, link })),
                    Ok(LinkPtr::Addr(next)) => spec_insert_point::<V>(
                        bytes,
                        format,
                        next.loc as int,
                        link + 1,
                        hash,
                    ),
                }
            },
        }
    }
}

/// The state after the dictionary at `loc` is initialized: the address of
/// its first shard is written at `loc`, then that shard is initialized.
pub open spec fn spec_dict_initialized<V: FileSerializable>(
    state: ImageState,
    format: FileFormat,
    loc: int,
) -> ImageState {
    spec_shard_initialized::<V>(
        state.write(loc, spec_encoding(format, Addr { loc: first_shard_loc(format, loc) as u64 })),
        format,
        first_shard_loc(format, loc),
        0,
    )
}

/// What a dictionary gives for `hash`: nothing before it is initialized, and
/// otherwise the value of the first shard that holds `hash`.
pub open spec fn spec_dict_get<V: FileSerializable>(
    bytes: Seq<u8>,
    format: FileFormat,
    loc: int,
    initialized: bool,
    hash: TsdfHash,
) -> Result<Option<V>, TsdfError> {
    if !initialized {
        Ok(None)
    } else {
        match spec_find::<V>(bytes, format, first_shard_loc(format, loc), 0, hash) {
            Err(e) => Err(e),
            Ok(None) => Ok(None),
            Ok(Some(place)) => match spec_get_val::<V>(
                bytes,
                format,
                place.loc,
                spec_slot_index(hash, place.link),
            ) {
                Err(e) => Err(e),
                Ok(val) => Ok(Some(val)),
            },
        }
    }
}

/// Whether a dictionary holds `hash`: never before it is initialized, and
/// otherwise where some shard of its chain holds it.
pub open spec fn spec_dict_contains<V: FileSerializable>(
    bytes: Seq<u8>,
    format: FileFormat,
    loc: int,
    initialized: bool,
    hash: TsdfHash,
) -> Result<bool, TsdfError> {
    if !initialized {
        Ok(false)
    } else {
        match spec_find::<V>(bytes, format, first_shard_loc(format, loc), 0, hash) {
            Err(e) => Err(e),
            Ok(found) => Ok(found is Some),
        }
    }
}

/// What removing `hash` from a dictionary gives: the slot of the first shard
/// that holds `hash` is cleared. Where no shard holds it, where the
/// dictionary is not initialized, and where the search fails, nothing is
/// written.
pub open spec fn spec_dict_remove<V: FileSerializable>(
    state: ImageState,
    format: FileFormat,
    loc: int,
    initialized: bool,
    hash: TsdfHash,
) -> (ImageState, Result<(), TsdfError>) {
    if !initialized {
        (state, Ok(()))
    } else {
        match spec_find::<V>(state.bytes, format, first_shard_loc(format, loc), 0, hash) {
            Err(e) => (state, Err(e)),
            Ok(None) => (state, Ok(())),
            Ok(Some(place)) => (
                spec_slot_cleared::<V>(
                    state,
                    format,
                    place.loc,
                    spec_slot_index(hash, place.link),
                ),
                Ok(()),
            ),
        }
    }
}

/// The state after a new shard is put behind the shard at `last`, the last of
/// its chain, and the entry is put into it: the new shard is initialized at
/// the end of the container, then it is published as the successor of
/// `last`, then the entry goes into its slot.
pub open spec fn spec_appended<V: FileSerializable>(
    state: ImageState,
    format: FileFormat,
    last: Place,
    hash: TsdfHash,
    val: V,
) -> ImageState {
    let new_loc = state.bytes.len() as int;
    spec_slot_filled::<V>(
        spec_next_set(
            spec_shard_initialized::<V>(state, format, new_loc, last.link + 1),
            format,
            last.loc,
            LinkPtr::Addr(Addr { loc: new_loc as u64 }),
        ),
        format,
        new_loc,
        spec_slot_index(hash, last.link + 1),
        hash,
        val,
    )
}

/// What adding `hash` with `val` gives on a chain that starts with the first
/// shard at `first`: the state afterwards and what is reported. The entry
/// goes where `spec_insert_point` says. A new shard that would not lie
/// within what memory can address is an `IoFailure`, and then, as where the
/// search fails, nothing is written.
pub open spec fn spec_chain_add<V: FileSerializable>(
    state: ImageState,
    format: FileFormat,
    first: int,
    hash: TsdfHash,
    val: V,
) -> (ImageState, Result<(), TsdfError>) {
    match spec_insert_point::<V>(state.bytes, format, first, 0, hash) {
        Err(e) => (state, Err(e)),
        Ok(InsertPoint::Slot(place)) => (
            spec_slot_filled::<V>(
                state,
                format,
                place.loc,
                spec_slot_index(hash, place.link),
                hash,
                val,
            ),
            Ok(()),
        ),
        Ok(InsertPoint::Append(last)) => if shard_within::<V>(
            format,
            state.bytes.len() as int,
            last.link + 1,
            usize::MAX as int,
        ) {
            (spec_appended::<V>(state, format, last, hash, val), Ok(()))
        } else {
            (state, Err(TsdfError::IoFailure))
        },
    }
}

/// What adding `hash` with `val` to a dictionary gives: the state afterwards,
/// whether the handle counts as initialized afterwards, and what is reported.
/// The null hash is no key: it is refused with `CorruptEncoding` before
/// anything is written. A dictionary that is not initialized yet is
/// initialized first.
pub open spec fn spec_dict_add<V: FileSerializable>(
    state: ImageState,
    format: FileFormat,
    loc: int,
    initialized: bool,
    hash: TsdfHash,
    val: V,
) -> (ImageState, bool, Result<(), TsdfError>) {
    if hash.is_null() {
        (state, initialized, Err(TsdfError::CorruptEncoding))
    } else {
        let ready = if initialized {
            state
        } else {
            spec_dict_initialized::<V>(state, format, loc)
        };
        let (after, report) = spec_chain_add::<V>(
            ready,
            format,
            first_shard_loc(format, loc),
            hash,
            val,
        );
        (after, true, report)
    }
}

/// A distributed dictionary: a hash table that lives in the container as a
/// chain of shards, each twice the size of the one before. The handle holds
/// no entry; it knows where the dictionary stands.
///
/// On disk a dictionary is the address of its first shard, and that shard
/// stands right behind it.
pub struct DistDict<'a, TKey: TsdfHashable, TVal: FileSerializable> {
    key: PhantomData<TKey>,
    val: PhantomData<TVal>,
    loc: Addr,
    io_metadata: &'a IoMetadata,
    initialized: bool,
}

impl<'a, TKey: TsdfHashable, TVal: FileSerializable> FixedSizeOnDisk for DistDict<'a, TKey, TVal> {
    open spec fn spec_bin_size() -> u64 {
        Addr::spec_bin_size()
    }

    open spec fn spec_json_size() -> u64 {
        Addr::spec_json_size()
    }

    fn get_bin_size_on_disk() -> (size: u64) {
        Addr::get_bin_size_on_disk()
    }

    fn get_json_size_on_disk() -> (size: u64) {
        Addr::get_json_size_on_disk()
    }
}

impl<'a, TKey: TsdfHashable, TVal: FileSerializable> DistDict<'a, TKey, TVal> {
    #[verifier::type_invariant]
    spec fn inv(&self) -> bool {
        shard_within::<TVal>(
            self.io_metadata.format(),
            first_shard_loc(self.io_metadata.format(), self.loc.loc as int),
            0,
            usize::MAX as int,
        )
    }

    /// The offset of the dictionary.
    pub closed spec fn spec_addr(&self) -> Addr {
        self.loc
    }

    /// The metadata under which the dictionary is read and written.
    pub closed spec fn spec_io_metadata(&self) -> IoMetadata {
        *self.io_metadata
    }

    /// Whether the dictionary is known to be laid out on disk.
    pub closed spec fn spec_is_initialized(&self) -> bool {
        self.initialized
    }

    /// The format in which the dictionary is laid down.
    pub open spec fn format(&self) -> FileFormat {
        self.spec_io_metadata().format()
    }

    /// The offset of the dictionary.
    pub open spec fn loc(&self) -> int {
        self.spec_addr().loc as int
    }

    /// The offset of the first shard.
    pub open spec fn first(&self) -> int {
        first_shard_loc(self.format(), self.loc())
    }

    /// Whether the dictionary and its first shard lie within what memory can
    /// address. Every handle is for a dictionary of which they do.
    pub open spec fn addressable(&self) -> bool {
        shard_within::<TVal>(self.format(), self.first(), 0, usize::MAX as int)
    }

    /// A handle over the dictionary at `loc`. `initialized` says whether the
    /// dictionary is laid out on disk already. Fails with `IoFailure` where
    /// the dictionary and its first shard would not lie within what memory
    /// can address.
    pub fn open_at(io_metadata: &'a IoMetadata, loc: Addr, initialized: bool) -> (r: Result<
        DistDict<'a, TKey, TVal>,
        TsdfError,
    >)
        ensures
            match r {
                Ok(dict) => {
                    &&& dict.spec_addr() == loc
                    &&& dict.spec_io_metadata() == *io_metadata
                    &&& dict.spec_is_initialized() == initialized
                    &&& dict.addressable()
                },
                Err(e) => {
                    &&& e == TsdfError::IoFailure
                    &&& !shard_within::<TVal>(
                        io_metadata.format(),
                        first_shard_loc(io_metadata.format(), loc.loc as int),
                        0,
                        usize::MAX as int,
                    )
                },
            },
    {
        let header = Addr::get_size_on_disk(io_metadata);
        match loc.get_loc().checked_add(header) {
            None => {
                proof {
                    lemma_capacity_bounds(0);
                    lemma_slot_within_shard::<TVal>(
                        io_metadata.format(),
                        first_shard_loc(io_metadata.format(), loc.loc as int),
                        0,
                        0,
                    );
                }
                Err(TsdfError::IoFailure)
            },
            Some(first) => match DistDictShard::<TVal>::try_new(
                0,
                Addr::new(first),
                io_metadata,
                initialized,
            ) {
                Err(e) => Err(e),
                Ok(_) => Ok(
                    DistDict { key: PhantomData, val: PhantomData, loc, io_metadata, initialized },
                ),
            },
        }
    }

    /// Lays out a new dictionary at `loc` and gives a handle over it.
    pub fn create_at(file: &mut FileImage, io_metadata: &'a IoMetadata, loc: Addr) -> (r: Result<
        DistDict<'a, TKey, TVal>,
        TsdfError,
    >)
        ensures
            match r {
                Ok(dict) => {
                    &&& dict.spec_addr() == loc
                    &&& dict.spec_io_metadata() == *io_metadata
                    &&& dict.spec_is_initialized()
                    &&& dict.addressable()
                    &&& final(file)@ == spec_dict_initialized::<TVal>(
                        old(file)@,
                        io_metadata.format(),
                        loc.loc as int,
                    )
                },
                Err(e) => {
                    &&& e == TsdfError::IoFailure
                    &&& final(file)@ == old(file)@
                    &&& !shard_within::<TVal>(
                        io_metadata.format(),
                        first_shard_loc(io_metadata.format(), loc.loc as int),
                        0,
                        usize::MAX as int,
                    )
                },
            },
    {
        match DistDict::<TKey, TVal>::open_at(io_metadata, loc, false) {
            Err(e) => Err(e),
            Ok(mut dict) => {
                dict.init(file);
                Ok(dict)
            },
        }
    }

    /// The offset of the dictionary.
    pub fn get_addr(&self) -> (addr: &Addr)
        ensures
            *addr == self.spec_addr(),
            self.addressable(),
    {
        proof {
            use_type_invariant(self);
        }
        &self.loc
    }

    /// The metadata under which the dictionary is read and written.
    pub fn get_io_metadata(&self) -> (io_metadata: &'a IoMetadata)
        ensures
            *io_metadata == self.spec_io_metadata(),
    {
        self.io_metadata
    }

    /// Whether the dictionary is known to be laid out on disk.
    pub fn is_initialized(&self) -> (initialized: bool)
        ensures
            initialized == self.spec_is_initialized(),
    {
        self.initialized
    }

    /// Records whether the dictionary is laid out on disk.
    pub fn set_initialization_state(&mut self, initialized: bool)
        ensures
            final(self).spec_is_initialized() == initialized,
            final(self).spec_addr() == old(self).spec_addr(),
            final(self).spec_io_metadata() == old(self).spec_io_metadata(),
    {
        proof {
            use_type_invariant(&*self);
        }
        self.initialized = initialized;
    }

    /// The offset of the first shard: right behind the dictionary itself.
    pub fn get_first_shard_addr(&self) -> (addr: Addr)
        ensures
            addr.loc == self.first(),
    {
        proof {
            use_type_invariant(self);
            lemma_capacity_bounds(0);
            lemma_slot_within_shard::<TVal>(self.format(), self.first(), 0, 0);
        }
        let header = Addr::get_size_on_disk(self.io_metadata);
        Addr::new(self.loc.get_loc() + header)
    }

    /// A handle over the first shard. It counts as initialized where the
    /// dictionary does.
    pub fn get_first_shard(&self) -> (shard: DistDictShard<'a, TVal>)
        ensures
            shard.loc() == self.first(),
            shard.link() == 0,
            shard.spec_io_metadata() == self.spec_io_metadata(),
            shard.spec_is_initialized() == self.spec_is_initialized(),
    {
        proof {
            use_type_invariant(self);
        }
        DistDictShard::new(0, self.get_first_shard_addr(), self.io_metadata, self.initialized)
    }

    /// Lays the dictionary out on disk: the address of the first shard is
    /// written at the dictionary's offset, then the first shard is
    /// initialized. The handle counts as initialized afterwards.
    pub fn init(&mut self, file: &mut FileImage)
        ensures
            final(file)@ == spec_dict_initialized::<TVal>(
                old(file)@,
                old(self).format(),
                old(self).loc(),
            ),
            final(self).spec_is_initialized(),
            final(self).spec_addr() == old(self).spec_addr(),
            final(self).spec_io_metadata() == old(self).spec_io_metadata(),
    {
        proof {
            use_type_invariant(&*self);
            lemma_capacity_bounds(0);
            lemma_slot_within_shard::<TVal>(self.format(), self.first(), 0, 0);
        }
        let first = self.get_first_shard_addr();
        proof {
            lemma_encoding_len(self.format(), first);
        }
        let _ = first.write(self.loc, file, self.io_metadata);
        let mut shard = self.get_first_shard();
        shard.init(file);
        self.initialized = true;
    }

    /// The first shard of the chain that holds `hashed_key`, if any.
    fn find_shard(&self, file: &FileImage, hashed_key: &TsdfHash) -> (r: Result<
        Option<DistDictShard<'a, TVal>>,
        TsdfError,
    >)
        ensures
            match r {
                Ok(Some(shard)) => {
                    &&& spec_find::<TVal>(file@.bytes, self.format(), self.first(), 0, *hashed_key)
                        == Ok::<Option<Place>, TsdfError>(
                        Some(Place { loc: shard.loc(), link: shard.link() }),
                    )
                    &&& shard.spec_io_metadata() == self.spec_io_metadata()
                    &&& shard.spec_is_initialized()
                },
                Ok(None) => spec_find::<TVal>(
                    file@.bytes,
                    self.format(),
                    self.first(),
                    0,
                    *hashed_key,
                ) == Ok::<Option<Place>, TsdfError>(None),
                Err(e) => spec_find::<TVal>(
                    file@.bytes,
                    self.format(),
                    self.first(),
                    0,
                    *hashed_key,
                ) == Err::<Option<Place>, TsdfError>(e),
            },
    {
        proof {
            use_type_invariant(self);
        }
        let mut shard = DistDictShard::<TVal>::new(
            0,
            self.get_first_shard_addr(),
            self.io_metadata,
            true,
        );
        loop
            invariant
                shard.spec_io_metadata() == self.spec_io_metadata(),
                shard.spec_is_initialized(),
                spec_find::<TVal>(file@.bytes, self.format(), self.first(), 0, *hashed_key)
                    == spec_find::<TVal>(
                    file@.bytes,
                    self.format(),
                    shard.loc(),
                    shard.link(),
                    *hashed_key,
                ),
            decreases MAX_LINK_NUMBER + 1 - shard.link(),
        {
            let link_number = shard.get_link_number();
            if !shard.is_within(file) {
                return Err(TsdfError::IoFailure);
            }
            let n = shard.slot_of(hashed_key);
            match shard.get_hash(file, n) {
                Err(e) => {
                    return Err(e);
                },
                Ok(stored) => {
                    if stored.get_hash_value() == hashed_key.get_hash_value()
                        && !hashed_key.is_null() {
                        return Ok(Some(shard));
                    }
                    match shard.get_next(file) {
                        Err(e) => {
                            return Err(e);
                        },
                        Ok(LinkPtr::Null(_)) => {
                            return Ok(None);
                        },
                        Ok(LinkPtr::Addr(next)) => {
                            match DistDictShard::<TVal>::try_new(
                                link_number + 1,
                                next,
                                self.io_metadata,
                                true,
                            ) {
                                Err(e) => {
                                    assert(spec_find::<TVal>(
                                        file@.bytes,
                                        self.format(),
                                        next.loc as int,
                                        link_number + 1,
                                        *hashed_key,
                                    ) == Err::<Option<Place>, TsdfError>(TsdfError::IoFailure));
                                    return Err(e);
                                },
                                Ok(following) => {
                                    shard = following;
                                },
                            }
                        },
                    }
                },
            }
        }
    }

    /// Whether the dictionary holds the key with hash `hashed_key`.
    pub fn contains_hashed(&self, file: &FileImage, hashed_key: &TsdfHash) -> (r: Result<
        bool,
        TsdfError,
    >)
        ensures
            r == spec_dict_contains::<TVal>(
                file@.bytes,
                self.format(),
                self.loc(),
                self.spec_is_initialized(),
                *hashed_key,
            ),
    {
        if !self.initialized {
            return Ok(false);
        }
        match self.find_shard(file, hashed_key) {
            Err(e) => Err(e),
            Ok(None) => Ok(false),
            Ok(Some(_)) => Ok(true),
        }
    }

    /// The value that the dictionary holds for the key with hash
    /// `hashed_key`, if any.
    pub fn get_hashed(&self, file: &FileImage, hashed_key: &TsdfHash) -> (r: Result<
        Option<TVal>,
        TsdfError,
    >)
        ensures
            r == spec_dict_get::<TVal>(
                file@.bytes,
                self.format(),
                self.loc(),
                self.spec_is_initialized(),
                *hashed_key,
            ),
    {
        if !self.initialized {
            return Ok(None);
        }
        match self.find_shard(file, hashed_key) {
            Err(e) => Err(e),
            Ok(None) => Ok(None),
            Ok(Some(shard)) => {
                let n = shard.slot_of(hashed_key);
                match shard.get_val(file, n) {
                    Err(e) => Err(e),
                    Ok(val) => Ok(Some(val)),
                }
            },
        }
    }

    /// Takes the key with hash `hashed_key` out of the dictionary.
    pub fn remove_hashed(&self, file: &mut FileImage, hashed_key: &TsdfHash) -> (r: Result<
        (),
        TsdfError,
    >)
        ensures
            (final(file)@, r) == spec_dict_remove::<TVal>(
                old(file)@,
                self.format(),
                self.loc(),
                self.spec_is_initialized(),
                *hashed_key,
            ),
    {
        if !self.initialized {
            return Ok(());
        }
        match self.find_shard(file, hashed_key) {
            Err(e) => Err(e),
            Ok(None) => Ok(()),
            Ok(Some(shard)) => {
                shard.remove(file, hashed_key);
                Ok(())
            },
        }
    }

    /// Puts `val` into the dictionary under the key with hash `hashed_key`.
    pub fn add_hashed(&mut self, file: &mut FileImage, hashed_key: &TsdfHash, val: &TVal) -> (r:
        Result<(), TsdfError>)
        ensures
            (final(file)@, final(self).spec_is_initialized(), r) == spec_dict_add::<TVal>(
                old(file)@,
                old(self).format(),
                old(self).loc(),
                old(self).spec_is_initialized(),
                *hashed_key,
                *val,
            ),
            final(self).spec_addr() == old(self).spec_addr(),
            final(self).spec_io_metadata() == old(self).spec_io_metadata(),
    {
        proof {
            use_type_invariant(&*self);
        }
        if hashed_key.is_null() {
            return Err(TsdfError::CorruptEncoding);
        }
        if !self.initialized {
            self.init(file);
        }
        let ghost ready = file@;
        let mut shard = DistDictShard::<TVal>::new(
            0,
            self.get_first_shard_addr(),
            self.io_metadata,
            true,
        );
        loop
            invariant
                file@ == ready,
                ready == (if old(self).spec_is_initialized() {
                    old(file)@
                } else {
                    spec_dict_initialized::<TVal>(old(file)@, old(self).format(), old(self).loc())
                }),
                !hashed_key.is_null(),
                self.spec_is_initialized(),
                self.spec_addr() == old(self).spec_addr(),
                self.spec_io_metadata() == old(self).spec_io_metadata(),
                shard.spec_io_metadata() == self.spec_io_metadata(),
                shard.spec_is_initialized(),
                spec_insert_point::<TVal>(ready.bytes, self.format(), self.first(), 0, *hashed_key)
                    == spec_insert_point::<TVal>(
                    ready.bytes,
                    self.format(),
                    shard.loc(),
                    shard.link(),
                    *hashed_key,
                ),
            decreases MAX_LINK_NUMBER + 1 - shard.link(),
        {
            let link_number = shard.get_link_number();
            if !shard.is_within(file) {
                return Err(TsdfError::IoFailure);
            }
            let n = shard.slot_of(hashed_key);
            match shard.get_hash(file, n) {
                Err(e) => {
                    return Err(e);
                },
                Ok(stored) => {
                    if stored.is_null() || stored.get_hash_value() == hashed_key.get_hash_value() {
                        return shard.add(file, hashed_key, val);
                    }
                    match shard.get_next(file) {
                        Err(e) => {
                            return Err(e);
                        },
                        Ok(LinkPtr::Null(_)) => {
                            let new_loc = Addr::new(file.len());
                            match DistDictShard::<TVal>::try_new(
                                link_number + 1,
                                new_loc,
                                self.io_metadata,
                                false,
                            ) {
                                Err(e) => {
                                    return Err(e);
                                },
                                Ok(mut new_shard) => {
                                    new_shard.init(file);
                                    shard.set_next(file, &LinkPtr::Addr(new_loc));
                                    return new_shard.add(file, hashed_key, val);
                                },
                            }
                        },
                        Ok(LinkPtr::Addr(next)) => {
                            match DistDictShard::<TVal>::try_new(
                                link_number + 1,
                                next,
                                self.io_metadata,
                                true,
                            ) {
                                Err(e) => {
                                    assert(spec_insert_point::<TVal>(
                                        file@.bytes,
                                        self.format(),
                                        next.loc as int,
                                        link_number + 1,
                                        *hashed_key,
                                    ) == Err::<InsertPoint, TsdfError>(TsdfError::IoFailure));
                                    return Err(e);
                                },
                                Ok(following) => {
                                    shard = following;
                                },
                            }
                        },
                    }
                },
            }
        }
    }

    /// Whether the dictionary holds `key`. A dictionary that is not
    /// initialized holds nothing.
    pub fn contains(&self, file: &FileImage, key: &TKey) -> (r: Result<bool, TsdfError>)
        ensures
            r == spec_dict_contains::<TVal>(
                file@.bytes,
                self.format(),
                self.loc(),
                self.spec_is_initialized(),
                key.spec_hash(),
            ),
    {
        let hashed_key = key.hash();
        self.contains_hashed(file, &hashed_key)
    }

    /// The value that the dictionary holds for `key`, if any. A dictionary
    /// that is not initialized holds nothing.
    pub fn get(&self, file: &FileImage, key: &TKey) -> (r: Result<Option<TVal>, TsdfError>)
        ensures
            r == spec_dict_get::<TVal>(
                file@.bytes,
                self.format(),
                self.loc(),
                self.spec_is_initialized(),
                key.spec_hash(),
            ),
    {
        let hashed_key = key.hash();
        self.get_hashed(file, &hashed_key)
    }

    /// Takes `key` out of the dictionary: the slot of the first shard that
    /// holds it is cleared. Nothing is written where the dictionary does not
    /// hold the key, or is not initialized.
    pub fn remove(&self, file: &mut FileImage, key: &TKey) -> (r: Result<(), TsdfError>)
        ensures
            (final(file)@, r) == spec_dict_remove::<TVal>(
                old(file)@,
                self.format(),
                self.loc(),
                self.spec_is_initialized(),
                key.spec_hash(),
            ),
    {
        let hashed_key = key.hash();
        self.remove_hashed(file, &hashed_key)
    }

    /// Puts `val` into the dictionary under `key`, over the value that the
    /// key had, if any. A dictionary that is not initialized yet is
    /// initialized first. The entry goes into the first shard of the chain
    /// whose slot for the key is free or holds the key already; where there
    /// is none, a new shard is put at the end of the container and behind the
    /// last shard, and the entry goes there.
    pub fn add(&mut self, file: &mut FileImage, key: &TKey, val: &TVal) -> (r: Result<
        (),
        TsdfError,
    >)
        ensures
            (final(file)@, final(self).spec_is_initialized(), r) == spec_dict_add::<TVal>(
                old(file)@,
                old(self).format(),
                old(self).loc(),
                old(self).spec_is_initialized(),
                key.spec_hash(),
                *val,
            ),
            final(self).spec_addr() == old(self).spec_addr(),
            final(self).spec_io_metadata() == old(self).spec_io_metadata(),
    {
        let hashed_key = key.hash();
        self.add_hashed(file, &hashed_key, val)
    }
}

} // verus!
