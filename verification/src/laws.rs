//! What holds of a dictionary through its operations: it behaves as a map
//! from hashes to values.
//!
//! The dictionary knows a key by its hash alone, so everything here is said of
//! hashes: what is said of a hash holds of every key with that hash, and two
//! keys with one hash are one key to the dictionary. The null hash is no key.

use vstd::prelude::*;
use crate::addr::Addr;
use crate::chain::{
    chain_valid, lemma_chain_frame, lemma_find_after_append, lemma_find_after_clear,
    lemma_find_after_fill, lemma_found_on_chain, lemma_found_reached, lemma_insert_point_on_chain,
    lemma_insert_point_reached, lemma_other_search_after_append, lemma_other_search_same,
    same_search, spec_find_behind,
};
use crate::dict::{
    first_shard_loc, shard_loadable, spec_appended, spec_chain_add, spec_dict_add,
    spec_dict_contains, spec_dict_get, spec_dict_initialized, spec_dict_remove, spec_find,
    spec_insert_point, InsertPoint, Place,
};
use crate::error::TsdfError;
use crate::format::FileFormat;
use crate::frame::{
    lemma_next_reads_same, lemma_next_set, lemma_shard_initialized, lemma_slot_cleared,
    lemma_slot_filled, lemma_slot_reads_same, same_outside,
};
use crate::hash::TsdfHash;
use crate::image::ImageState;
use crate::layout::{
    header_width, lemma_capacity_bounds, lemma_slot_index_in_range, lemma_slot_within_shard,
    lemma_slots_ordered, shard_width, shard_within, spec_capacity, spec_slot_index,
};
use crate::link_ptr::LinkPtr;
use crate::serial::{spec_encoding, FileSerializable};
use crate::shard::{
    spec_get_hash, spec_get_next, spec_get_val, spec_is_hash_written, spec_next_set,
    spec_shard_initialized, spec_slot_cleared, spec_slot_filled,
};

verus! {

/// Whether the container holds a dictionary at `loc` as the operations of
/// this library leave one: the dictionary and its first shard lie within what
/// memory can address, and, once the dictionary is initialized, its chain is
/// valid.
pub open spec fn dict_valid<V: FileSerializable>(
    bytes: Seq<u8>,
    format: FileFormat,
    loc: int,
    initialized: bool,
) -> bool {
    &&& 0 <= loc
    &&& shard_within::<V>(format, first_shard_loc(format, loc), 0, usize::MAX as int)
    &&& initialized ==> chain_valid::<V>(bytes, format, first_shard_loc(format, loc), 0)
}

/// The shard that holds an entry once it was added to the chain that starts
/// with the first shard at `first`: the shard with the slot where the entry
/// went, or the new shard at the old end of the container.
pub open spec fn added_place<V: FileSerializable>(
    bytes: Seq<u8>,
    format: FileFormat,
    first: int,
    hash: TsdfHash,
) -> Place {
    match spec_insert_point::<V>(bytes, format, first, 0, hash) {
        Ok(InsertPoint::Slot(place)) => place,
        Ok(InsertPoint::Append(last)) => Place { loc: bytes.len() as int, link: last.link + 1 },
        Err(_) => Place { loc: first, link: 0 },
    }
}

/// What the search for `hash` finds behind the slot where an entry with that
/// hash goes, before the entry is added: an older entry with the same hash,
/// if there is one. Behind a new shard there is nothing.
pub open spec fn copy_behind<V: FileSerializable>(
    bytes: Seq<u8>,
    format: FileFormat,
    first: int,
    hash: TsdfHash,
) -> Result<Option<Place>, TsdfError> {
    match spec_insert_point::<V>(bytes, format, first, 0, hash) {
        Ok(InsertPoint::Slot(place)) => spec_find_behind::<V>(bytes, format, place, hash),
        _ => Ok(None),
    }
}

/// Initializing a dictionary leaves a valid chain of one shard, in which no
/// slot is committed.
pub proof fn lemma_dict_initialized<V: FileSerializable>(
    state: ImageState,
    format: FileFormat,
    loc: int,
)
    requires
        dict_valid::<V>(state.bytes, format, loc, false),
    ensures
        dict_valid::<V>(spec_dict_initialized::<V>(state, format, loc).bytes, format, loc, true),
{
    let first = first_shard_loc(format, loc);
    let header = state.write(loc, spec_encoding(format, Addr { loc: first as u64 }));
    lemma_shard_initialized::<V>(header, format, first, 0);
}

/// What putting a new shard behind the last shard of a chain, with an entry
/// in it, does to the bytes: nothing but the header of the last shard has
/// changed in what the container held; the last shard reads as pointing at
/// the new shard, which stands whole at the old end of the container and
/// reads as the last of its chain; and the new shard holds the entry in its
/// slot and nothing in any other.
#[verifier::rlimit(40)]
pub proof fn lemma_appended<V: FileSerializable>(
    state: ImageState,
    format: FileFormat,
    last: Place,
    hash: TsdfHash,
    val: V,
)
    requires
        shard_within::<V>(format, last.loc, last.link, state.bytes.len() as int),
        shard_within::<V>(format, state.bytes.len() as int, last.link + 1, usize::MAX as int),
        !hash.is_null(),
        val.well_formed(),
    ensures
        spec_appended::<V>(state, format, last, hash, val).bytes.len() == state.bytes.len()
            + shard_width::<V>(format, last.link + 1),
        same_outside(
            state.bytes,
            spec_appended::<V>(state, format, last, hash, val).bytes,
            last.loc,
            last.loc + header_width(format),
        ),
        shard_loadable::<V>(
            spec_appended::<V>(state, format, last, hash, val).bytes,
            format,
            state.bytes.len() as int,
            last.link + 1,
        ),
        spec_get_next(spec_appended::<V>(state, format, last, hash, val).bytes, format, last.loc)
            == Ok::<LinkPtr, TsdfError>(LinkPtr::Addr(Addr { loc: state.bytes.len() as u64 })),
        spec_get_next(
            spec_appended::<V>(state, format, last, hash, val).bytes,
            format,
            state.bytes.len() as int,
        ) == Ok::<LinkPtr, TsdfError>(LinkPtr::spec_null()),
        spec_get_hash::<V>(
            spec_appended::<V>(state, format, last, hash, val).bytes,
            format,
            state.bytes.len() as int,
            spec_slot_index(hash, last.link + 1),
        ) == Ok::<TsdfHash, TsdfError>(hash),
        spec_get_val::<V>(
            spec_appended::<V>(state, format, last, hash, val).bytes,
            format,
            state.bytes.len() as int,
            spec_slot_index(hash, last.link + 1),
        ) == Ok::<V, TsdfError>(val),
        forall|m: int|
            0 <= m < spec_capacity(last.link + 1) && m != spec_slot_index(hash, last.link + 1)
                ==> #[trigger] spec_is_hash_written::<V>(
                spec_appended::<V>(state, format, last, hash, val).bytes,
                format,
                state.bytes.len() as int,
                m,
            ) == Ok::<bool, TsdfError>(false),
{
    let a = state.bytes;
    let new_loc = a.len() as int;
    let link = last.link + 1;
    let n = spec_slot_index(hash, link);
    let next = LinkPtr::Addr(Addr { loc: new_loc as u64 });
    lemma_slot_index_in_range(hash, link);
    lemma_capacity_bounds(last.link);
    lemma_capacity_bounds(link);
    lemma_slot_within_shard::<V>(format, last.loc, last.link, 0);
    lemma_slot_within_shard::<V>(format, new_loc, link, 0);
    lemma_slot_within_shard::<V>(format, new_loc, link, n);
    let s2 = spec_shard_initialized::<V>(state, format, new_loc, link);
    lemma_shard_initialized::<V>(state, format, new_loc, link);
    let s3 = spec_next_set(s2, format, last.loc, next);
    lemma_next_set::<V>(s2, format, last.loc, last.link, next);
    let s4 = spec_slot_filled::<V>(s3, format, new_loc, n, hash, val);
    lemma_slot_filled::<V>(s3, format, new_loc, link, n, hash, val);
    assert(s4 == spec_appended::<V>(state, format, last, hash, val));
    let b = s4.bytes;
    lemma_next_reads_same(s2.bytes, s3.bytes, format, new_loc);
    lemma_next_reads_same(s3.bytes, b, format, new_loc);
    lemma_next_reads_same(s3.bytes, b, format, last.loc);
    assert forall|m: int|
        0 <= m < spec_capacity(link) && m != n implies #[trigger] spec_is_hash_written::<V>(
        b,
        format,
        new_loc,
        m,
    ) == Ok::<bool, TsdfError>(false) by {
        lemma_slot_within_shard::<V>(format, new_loc, link, m);
        assert(spec_is_hash_written::<V>(s2.bytes, format, new_loc, m) == Ok::<bool, TsdfError>(
            false,
        ));
        lemma_slot_reads_same::<V>(s2.bytes, s3.bytes, format, new_loc, link, m);
        if m < n {
            lemma_slots_ordered::<V>(format, new_loc, m + 1, n);
        } else {
            lemma_slots_ordered::<V>(format, new_loc, n + 1, m);
        }
        lemma_slot_reads_same::<V>(s3.bytes, b, format, new_loc, link, m);
    }
}

/// After an entry was added to a valid chain, the search for its hash ends at
/// the shard where it went, that shard gives the value that was added, and
/// the chain is valid.
#[verifier::rlimit(40)]
pub proof fn lemma_chain_add<V: FileSerializable>(
    state: ImageState,
    format: FileFormat,
    first: int,
    hash: TsdfHash,
    val: V,
)
    requires
        chain_valid::<V>(state.bytes, format, first, 0),
        !hash.is_null(),
        val.well_formed(),
        spec_chain_add::<V>(state, format, first, hash, val).1 is Ok,
    ensures
        spec_find::<V>(
            spec_chain_add::<V>(state, format, first, hash, val).0.bytes,
            format,
            first,
            0,
            hash,
        ) == Ok::<Option<Place>, TsdfError>(
            Some(added_place::<V>(state.bytes, format, first, hash)),
        ),
        spec_get_val::<V>(
            spec_chain_add::<V>(state, format, first, hash, val).0.bytes,
            format,
            added_place::<V>(state.bytes, format, first, hash).loc,
            spec_slot_index(hash, added_place::<V>(state.bytes, format, first, hash).link),
        ) == Ok::<V, TsdfError>(val),
        chain_valid::<V>(
            spec_chain_add::<V>(state, format, first, hash, val).0.bytes,
            format,
            first,
            0,
        ),
        spec_find_behind::<V>(
            spec_chain_add::<V>(state, format, first, hash, val).0.bytes,
            format,
            added_place::<V>(state.bytes, format, first, hash),
            hash,
        ) == copy_behind::<V>(state.bytes, format, first, hash),
{
    let a = state.bytes;
    match spec_insert_point::<V>(a, format, first, 0, hash) {
        Ok(InsertPoint::Slot(place)) => {
            lemma_insert_point_on_chain::<V>(a, format, first, 0, hash, place);
            let n = spec_slot_index(hash, place.link);
            lemma_slot_index_in_range(hash, place.link);
            lemma_slot_filled::<V>(state, format, place.loc, place.link, n, hash, val);
            let after = spec_slot_filled::<V>(state, format, place.loc, n, hash, val);
            lemma_find_after_fill::<V>(a, after.bytes, format, first, 0, hash, place);
            // Behind the slot nothing has changed.
            lemma_slot_within_shard::<V>(format, place.loc, place.link, n);
            lemma_slot_within_shard::<V>(format, place.loc, place.link, 0);
            lemma_capacity_bounds(place.link);
            lemma_next_reads_same(a, after.bytes, format, place.loc);
            match spec_get_next(a, format, place.loc) {
                Ok(LinkPtr::Addr(next)) => {
                    lemma_chain_frame::<V>(
                        a,
                        after.bytes,
                        format,
                        next.loc as int,
                        place.link + 1,
                        hash,
                    );
                },
                _ => {},
            }
        },
        Ok(InsertPoint::Append(last)) => {
            lemma_insert_point_on_chain::<V>(a, format, first, 0, hash, last);
            lemma_appended::<V>(state, format, last, hash, val);
            let b = spec_appended::<V>(state, format, last, hash, val).bytes;
            lemma_find_after_append::<V>(a, b, format, first, 0, hash, last);
        },
        Err(_) => {},
    }
}

/// After `add(k, v)` has succeeded: `contains(k)` is true and `get(k)` is
/// `Some(v)`. The dictionary stays valid, so the same holds after every
/// further add.
pub proof fn lemma_add_then_get<V: FileSerializable>(
    state: ImageState,
    format: FileFormat,
    loc: int,
    initialized: bool,
    hash: TsdfHash,
    val: V,
)
    requires
        dict_valid::<V>(state.bytes, format, loc, initialized),
        val.well_formed(),
        spec_dict_add::<V>(state, format, loc, initialized, hash, val).2 is Ok,
    ensures
        spec_dict_add::<V>(state, format, loc, initialized, hash, val).1,
        spec_dict_contains::<V>(
            spec_dict_add::<V>(state, format, loc, initialized, hash, val).0.bytes,
            format,
            loc,
            true,
            hash,
        ) == Ok::<bool, TsdfError>(true),
        spec_dict_get::<V>(
            spec_dict_add::<V>(state, format, loc, initialized, hash, val).0.bytes,
            format,
            loc,
            true,
            hash,
        ) == Ok::<Option<V>, TsdfError>(Some(val)),
        dict_valid::<V>(
            spec_dict_add::<V>(state, format, loc, initialized, hash, val).0.bytes,
            format,
            loc,
            true,
        ),
{
    let first = first_shard_loc(format, loc);
    let ready = if initialized {
        state
    } else {
        spec_dict_initialized::<V>(state, format, loc)
    };
    if !initialized {
        lemma_dict_initialized::<V>(state, format, loc);
    }
    lemma_chain_add::<V>(ready, format, first, hash, val);
}

/// Overwrite: after `add(k, v1)` and then `add(k, v2)`, `get(k)` is
/// `Some(v2)`.
pub proof fn lemma_add_twice_then_get<V: FileSerializable>(
    state: ImageState,
    format: FileFormat,
    loc: int,
    initialized: bool,
    hash: TsdfHash,
    val1: V,
    val2: V,
)
    requires
        dict_valid::<V>(state.bytes, format, loc, initialized),
        val1.well_formed(),
        val2.well_formed(),
        spec_dict_add::<V>(state, format, loc, initialized, hash, val1).2 is Ok,
        spec_dict_add::<V>(
            spec_dict_add::<V>(state, format, loc, initialized, hash, val1).0,
            format,
            loc,
            true,
            hash,
            val2,
        ).2 is Ok,
    ensures
        spec_dict_get::<V>(
            spec_dict_add::<V>(
                spec_dict_add::<V>(state, format, loc, initialized, hash, val1).0,
                format,
                loc,
                true,
                hash,
                val2,
            ).0.bytes,
            format,
            loc,
            true,
            hash,
        ) == Ok::<Option<V>, TsdfError>(Some(val2)),
{
    lemma_add_then_get::<V>(state, format, loc, initialized, hash, val1);
    lemma_add_then_get::<V>(
        spec_dict_add::<V>(state, format, loc, initialized, hash, val1).0,
        format,
        loc,
        true,
        hash,
        val2,
    );
}

/// Idempotent remove: `remove` of a key that the dictionary does not hold
/// writes nothing, so that every entry stays as it is.
pub proof fn lemma_remove_absent<V: FileSerializable>(
    state: ImageState,
    format: FileFormat,
    loc: int,
    initialized: bool,
    hash: TsdfHash,
)
    requires
        spec_dict_contains::<V>(state.bytes, format, loc, initialized, hash) == Ok::<
            bool,
            TsdfError,
        >(false),
    ensures
        spec_dict_remove::<V>(state, format, loc, initialized, hash) == (
            state,
            Ok::<(), TsdfError>(()),
        ),
{
}

/// Uninitialized reads: a dictionary that was never written holds no key and
/// gives no value, and a remove writes nothing.
pub proof fn lemma_uninitialized_reads<V: FileSerializable>(
    state: ImageState,
    format: FileFormat,
    loc: int,
    hash: TsdfHash,
)
    ensures
        spec_dict_contains::<V>(state.bytes, format, loc, false, hash) == Ok::<bool, TsdfError>(
            false,
        ),
        spec_dict_get::<V>(state.bytes, format, loc, false, hash) == Ok::<Option<V>, TsdfError>(
            None,
        ),
        spec_dict_remove::<V>(state, format, loc, false, hash) == (state, Ok::<(), TsdfError>(())),
{
}

/// The state in which an add starts to look for the place of the entry: the
/// state as it is, or the state after the dictionary was initialized.
pub open spec fn ready_state<V: FileSerializable>(
    state: ImageState,
    format: FileFormat,
    loc: int,
    initialized: bool,
) -> ImageState {
    if initialized {
        state
    } else {
        spec_dict_initialized::<V>(state, format, loc)
    }
}

/// Remove: after `add(k, v)` and then `remove(k)`, `contains(k)` is false and
/// `get(k)` is `None`, where no shard behind the one that took the entry
/// holds an older entry for the same key. (Such an older entry comes to
/// light again once the newer one is removed.)
pub proof fn lemma_add_then_remove<V: FileSerializable>(
    state: ImageState,
    format: FileFormat,
    loc: int,
    initialized: bool,
    hash: TsdfHash,
    val: V,
)
    requires
        dict_valid::<V>(state.bytes, format, loc, initialized),
        val.well_formed(),
        spec_dict_add::<V>(state, format, loc, initialized, hash, val).2 is Ok,
        copy_behind::<V>(
            ready_state::<V>(state, format, loc, initialized).bytes,
            format,
            first_shard_loc(format, loc),
            hash,
        ) == Ok::<Option<Place>, TsdfError>(None),
    ensures
        spec_dict_remove::<V>(
            spec_dict_add::<V>(state, format, loc, initialized, hash, val).0,
            format,
            loc,
            true,
            hash,
        ).1 == Ok::<(), TsdfError>(()),
        spec_dict_contains::<V>(
            spec_dict_remove::<V>(
                spec_dict_add::<V>(state, format, loc, initialized, hash, val).0,
                format,
                loc,
                true,
                hash,
            ).0.bytes,
            format,
            loc,
            true,
            hash,
        ) == Ok::<bool, TsdfError>(false),
        spec_dict_get::<V>(
            spec_dict_remove::<V>(
                spec_dict_add::<V>(state, format, loc, initialized, hash, val).0,
                format,
                loc,
                true,
                hash,
            ).0.bytes,
            format,
            loc,
            true,
            hash,
        ) == Ok::<Option<V>, TsdfError>(None),
        dict_valid::<V>(
            spec_dict_remove::<V>(
                spec_dict_add::<V>(state, format, loc, initialized, hash, val).0,
                format,
                loc,
                true,
                hash,
            ).0.bytes,
            format,
            loc,
            true,
        ),
{
    let first = first_shard_loc(format, loc);
    let ready = ready_state::<V>(state, format, loc, initialized);
    if !initialized {
        lemma_dict_initialized::<V>(state, format, loc);
    }
    lemma_chain_add::<V>(ready, format, first, hash, val);
    let added = spec_chain_add::<V>(ready, format, first, hash, val).0;
    assert(added == spec_dict_add::<V>(state, format, loc, initialized, hash, val).0);
    let target = added_place::<V>(ready.bytes, format, first, hash);
    let n = spec_slot_index(hash, target.link);
    lemma_found_on_chain::<V>(added.bytes, format, first, 0, hash, target);
    lemma_slot_index_in_range(hash, target.link);
    lemma_slot_cleared::<V>(added, format, target.loc, target.link, n);
    let cleared = spec_slot_cleared::<V>(added, format, target.loc, n);
    lemma_find_after_clear::<V>(added.bytes, cleared.bytes, format, first, 0, hash, target);
}

/// On a dictionary that was just initialized, no search finds anything.
pub proof fn lemma_initialized_holds_nothing<V: FileSerializable>(
    state: ImageState,
    format: FileFormat,
    loc: int,
    other: TsdfHash,
)
    requires
        dict_valid::<V>(state.bytes, format, loc, false),
    ensures
        spec_find::<V>(
            spec_dict_initialized::<V>(state, format, loc).bytes,
            format,
            first_shard_loc(format, loc),
            0,
            other,
        ) == Ok::<Option<Place>, TsdfError>(None),
{
    let first = first_shard_loc(format, loc);
    let header = state.write(loc, spec_encoding(format, Addr { loc: first as u64 }));
    lemma_shard_initialized::<V>(header, format, first, 0);
    lemma_slot_index_in_range(other, 0);
    let bytes = spec_dict_initialized::<V>(state, format, loc).bytes;
    assert(spec_is_hash_written::<V>(bytes, format, first, spec_slot_index(other, 0)) == Ok::<
        bool,
        TsdfError,
    >(false));
}

/// Adding an entry to a valid chain changes nothing for the search for any
/// other hash.
#[verifier::rlimit(40)]
pub proof fn lemma_chain_add_keeps_others<V: FileSerializable>(
    state: ImageState,
    format: FileFormat,
    first: int,
    hash: TsdfHash,
    val: V,
    other: TsdfHash,
)
    requires
        chain_valid::<V>(state.bytes, format, first, 0),
        !hash.is_null(),
        val.well_formed(),
        spec_chain_add::<V>(state, format, first, hash, val).1 is Ok,
        other != hash,
    ensures
        same_search::<V>(
            state.bytes,
            spec_chain_add::<V>(state, format, first, hash, val).0.bytes,
            format,
            first,
            0,
            other,
        ),
{
    let a = state.bytes;
    match spec_insert_point::<V>(a, format, first, 0, hash) {
        Ok(InsertPoint::Slot(place)) => {
            lemma_insert_point_on_chain::<V>(a, format, first, 0, hash, place);
            lemma_insert_point_reached::<V>(a, format, first, 0, hash, place);
            let n = spec_slot_index(hash, place.link);
            lemma_slot_index_in_range(hash, place.link);
            lemma_slot_filled::<V>(state, format, place.loc, place.link, n, hash, val);
            let after = spec_slot_filled::<V>(state, format, place.loc, n, hash, val);
            lemma_other_search_same::<V>(a, after.bytes, format, first, 0, hash, place, other);
        },
        Ok(InsertPoint::Append(last)) => {
            lemma_insert_point_on_chain::<V>(a, format, first, 0, hash, last);
            lemma_insert_point_reached::<V>(a, format, first, 0, hash, last);
            lemma_appended::<V>(state, format, last, hash, val);
            let b = spec_appended::<V>(state, format, last, hash, val).bytes;
            let link = last.link + 1;
            let n = spec_slot_index(hash, link);
            let m = spec_slot_index(other, link);
            lemma_slot_index_in_range(other, link);
            if m != n {
                assert(spec_is_hash_written::<V>(b, format, a.len() as int, m) == Ok::<
                    bool,
                    TsdfError,
                >(false));
            }
            lemma_other_search_after_append::<V>(a, b, format, first, 0, last, other);
        },
        Err(_) => {},
    }
}

/// Adding an entry for one key leaves every other key as it was: what the
/// dictionary gives for any other hash is the same before and after.
pub proof fn lemma_add_keeps_others<V: FileSerializable>(
    state: ImageState,
    format: FileFormat,
    loc: int,
    initialized: bool,
    hash: TsdfHash,
    val: V,
    other: TsdfHash,
)
    requires
        dict_valid::<V>(state.bytes, format, loc, initialized),
        val.well_formed(),
        spec_dict_add::<V>(state, format, loc, initialized, hash, val).2 is Ok,
        other != hash,
    ensures
        spec_dict_get::<V>(
            spec_dict_add::<V>(state, format, loc, initialized, hash, val).0.bytes,
            format,
            loc,
            true,
            other,
        ) == spec_dict_get::<V>(state.bytes, format, loc, initialized, other),
        spec_dict_contains::<V>(
            spec_dict_add::<V>(state, format, loc, initialized, hash, val).0.bytes,
            format,
            loc,
            true,
            other,
        ) == spec_dict_contains::<V>(state.bytes, format, loc, initialized, other),
{
    let first = first_shard_loc(format, loc);
    let ready = ready_state::<V>(state, format, loc, initialized);
    if !initialized {
        lemma_dict_initialized::<V>(state, format, loc);
        lemma_initialized_holds_nothing::<V>(state, format, loc, other);
    }
    lemma_chain_add_keeps_others::<V>(ready, format, first, hash, val, other);
}

/// Removing a key leaves every other key as it was: what the dictionary
/// gives for any other hash is the same before and after, and the dictionary
/// stays valid.
pub proof fn lemma_remove_keeps_others<V: FileSerializable>(
    state: ImageState,
    format: FileFormat,
    loc: int,
    initialized: bool,
    hash: TsdfHash,
    other: TsdfHash,
)
    requires
        dict_valid::<V>(state.bytes, format, loc, initialized),
        other != hash,
    ensures
        spec_dict_get::<V>(
            spec_dict_remove::<V>(state, format, loc, initialized, hash).0.bytes,
            format,
            loc,
            initialized,
            other,
        ) == spec_dict_get::<V>(state.bytes, format, loc, initialized, other),
        spec_dict_contains::<V>(
            spec_dict_remove::<V>(state, format, loc, initialized, hash).0.bytes,
            format,
            loc,
            initialized,
            other,
        ) == spec_dict_contains::<V>(state.bytes, format, loc, initialized, other),
        dict_valid::<V>(
            spec_dict_remove::<V>(state, format, loc, initialized, hash).0.bytes,
            format,
            loc,
            initialized,
        ),
{
    let first = first_shard_loc(format, loc);
    if initialized {
        match spec_find::<V>(state.bytes, format, first, 0, hash) {
            Ok(Some(target)) => {
                let n = spec_slot_index(hash, target.link);
                lemma_found_on_chain::<V>(state.bytes, format, first, 0, hash, target);
                lemma_found_reached::<V>(state.bytes, format, first, 0, hash, target);
                lemma_slot_index_in_range(hash, target.link);
                lemma_slot_cleared::<V>(state, format, target.loc, target.link, n);
                let cleared = spec_slot_cleared::<V>(state, format, target.loc, n);
                lemma_find_after_clear::<V>(
                    state.bytes,
                    cleared.bytes,
                    format,
                    first,
                    0,
                    hash,
                    target,
                );
                lemma_other_search_same::<V>(
                    state.bytes,
                    cleared.bytes,
                    format,
                    first,
                    0,
                    hash,
                    target,
                    other,
                );
            },
            _ => {},
        }
    }
}

/// The dictionary as a map: every hash for which `get` gives a value, with
/// that value.
pub open spec fn dict_view<V: FileSerializable>(
    bytes: Seq<u8>,
    format: FileFormat,
    loc: int,
    initialized: bool,
) -> Map<TsdfHash, V> {
    Map::new(
        |hash: TsdfHash|
            spec_dict_get::<V>(bytes, format, loc, initialized, hash) is Ok && spec_dict_get::<V>(
                bytes,
                format,
                loc,
                initialized,
                hash,
            )->Ok_0 is Some,
        |hash: TsdfHash|
            spec_dict_get::<V>(bytes, format, loc, initialized, hash)->Ok_0->Some_0,
    )
}

/// An add that succeeds is an insert into the map: the key has the value
/// that was added, and every other key is as it was.
pub proof fn lemma_add_is_insert<V: FileSerializable>(
    state: ImageState,
    format: FileFormat,
    loc: int,
    initialized: bool,
    hash: TsdfHash,
    val: V,
)
    requires
        dict_valid::<V>(state.bytes, format, loc, initialized),
        val.well_formed(),
        spec_dict_add::<V>(state, format, loc, initialized, hash, val).2 is Ok,
    ensures
        dict_view::<V>(
            spec_dict_add::<V>(state, format, loc, initialized, hash, val).0.bytes,
            format,
            loc,
            true,
        ) == dict_view::<V>(state.bytes, format, loc, initialized).insert(hash, val),
{
    let after = spec_dict_add::<V>(state, format, loc, initialized, hash, val).0.bytes;
    let before = dict_view::<V>(state.bytes, format, loc, initialized);
    lemma_add_then_get::<V>(state, format, loc, initialized, hash, val);
    assert forall|other: TsdfHash| other != hash implies spec_dict_get::<V>(
        after,
        format,
        loc,
        true,
        other,
    ) == spec_dict_get::<V>(state.bytes, format, loc, initialized, other) by {
        lemma_add_keeps_others::<V>(state, format, loc, initialized, hash, val, other);
    }
    assert(dict_view::<V>(after, format, loc, true) =~= before.insert(hash, val));
}

/// A remove is a remove from the map, where no shard behind the one that
/// holds the key holds an older entry for it: the key is gone, and every
/// other key is as it was. Where the dictionary does not hold the key, the
/// map stays as it is.
pub proof fn lemma_remove_is_remove<V: FileSerializable>(
    state: ImageState,
    format: FileFormat,
    loc: int,
    initialized: bool,
    hash: TsdfHash,
)
    requires
        dict_valid::<V>(state.bytes, format, loc, initialized),
        spec_dict_remove::<V>(state, format, loc, initialized, hash).1 is Ok,
        initialized ==> match spec_find::<V>(
            state.bytes,
            format,
            first_shard_loc(format, loc),
            0,
            hash,
        ) {
            Ok(Some(place)) => spec_find_behind::<V>(state.bytes, format, place, hash) == Ok::<
                Option<Place>,
                TsdfError,
            >(None),
            _ => true,
        },
    ensures
        dict_view::<V>(
            spec_dict_remove::<V>(state, format, loc, initialized, hash).0.bytes,
            format,
            loc,
            initialized,
        ) == dict_view::<V>(state.bytes, format, loc, initialized).remove(hash),
{
    let after = spec_dict_remove::<V>(state, format, loc, initialized, hash).0.bytes;
    let before = dict_view::<V>(state.bytes, format, loc, initialized);
    let first = first_shard_loc(format, loc);
    assert forall|other: TsdfHash| other != hash implies spec_dict_get::<V>(
        after,
        format,
        loc,
        initialized,
        other,
    ) == spec_dict_get::<V>(state.bytes, format, loc, initialized, other) by {
        lemma_remove_keeps_others::<V>(state, format, loc, initialized, hash, other);
    }
    if initialized {
        match spec_find::<V>(state.bytes, format, first, 0, hash) {
            Ok(Some(target)) => {
                let n = spec_slot_index(hash, target.link);
                lemma_found_on_chain::<V>(state.bytes, format, first, 0, hash, target);
                lemma_slot_index_in_range(hash, target.link);
                lemma_slot_cleared::<V>(state, format, target.loc, target.link, n);
                let cleared = spec_slot_cleared::<V>(state, format, target.loc, n);
                lemma_find_after_clear::<V>(
                    state.bytes,
                    cleared.bytes,
                    format,
                    first,
                    0,
                    hash,
                    target,
                );
                // Behind the cleared slot nothing has changed.
                lemma_slot_within_shard::<V>(format, target.loc, target.link, n);
                lemma_slot_within_shard::<V>(format, target.loc, target.link, 0);
                lemma_capacity_bounds(target.link);
            },
            _ => {},
        }
    }
    assert(dict_view::<V>(after, format, loc, initialized) =~= before.remove(hash));
}

} // verus!
