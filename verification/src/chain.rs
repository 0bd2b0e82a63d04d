//! Valid chains, and what a change to one shard means for a search along the
//! chain.

use vstd::prelude::*;
use crate::addr::Addr;
use crate::dict::{shard_loadable, spec_find, spec_insert_point, InsertPoint, Place};
use crate::error::TsdfError;
use crate::format::FileFormat;
use crate::frame::{
    lemma_next_reads_same, lemma_shard_reads_same, lemma_slot_reads_same, same_outside,
};
use crate::hash::TsdfHash;
use crate::layout::{
    hash_addr, header_width, lemma_capacity_bounds, lemma_slot_index_in_range,
    lemma_slot_within_shard, lemma_slots_ordered, shard_width, spec_slot_index, MAX_LINK_NUMBER,
};
use crate::link_ptr::LinkPtr;
use crate::serial::FileSerializable;
use crate::shard::{spec_get_hash, spec_get_next, spec_get_val, spec_is_hash_written};

verus! {

/// Whether the chain that starts with the shard with link number `link` at
/// `loc` is laid out as appending lays chains out: the container holds every
/// shard of the chain whole, and the successor of a shard stands behind it.
pub open spec fn chain_valid<V: FileSerializable>(
    bytes: Seq<u8>,
    format: FileFormat,
    loc: int,
    link: int,
) -> bool
    decreases MAX_LINK_NUMBER + 1 - link,
{
    shard_loadable::<V>(bytes, format, loc, link) && match spec_get_next(bytes, format, loc) {
        Err(_) => false,
        Ok(LinkPtr::Null(_)) => true,
        Ok(LinkPtr::Addr(next)) => loc + shard_width::<V>(format, link) <= next.loc
            && chain_valid::<V>(bytes, format, next.loc as int, link + 1),
    }
}

/// The search that goes on behind the shard at `place`: through the chain of
/// its successor, and nowhere where it has none.
pub open spec fn spec_find_behind<V: FileSerializable>(
    bytes: Seq<u8>,
    format: FileFormat,
    place: Place,
    hash: TsdfHash,
) -> Result<Option<Place>, TsdfError> {
    match spec_get_next(bytes, format, place.loc) {
        Err(e) => Err(e),
        Ok(LinkPtr::Null(_)) => Ok(None),
        Ok(LinkPtr::Addr(next)) => spec_find::<V>(
            bytes,
            format,
            next.loc as int,
            place.link + 1,
            hash,
        ),
    }
}

/// What a valid chain is and gives depends on the bytes from its first shard
/// on alone: a container that holds the same bytes there, and maybe more
/// behind them, holds the same chain.
pub proof fn lemma_chain_frame<V: FileSerializable>(
    a: Seq<u8>,
    b: Seq<u8>,
    format: FileFormat,
    loc: int,
    link: int,
    hash: TsdfHash,
)
    requires
        chain_valid::<V>(a, format, loc, link),
        a.len() <= b.len(),
        forall|i: int| loc <= i < a.len() ==> a[i] == b[i],
    ensures
        chain_valid::<V>(b, format, loc, link),
        spec_find::<V>(b, format, loc, link, hash) == spec_find::<V>(a, format, loc, link, hash),
        spec_insert_point::<V>(b, format, loc, link, hash) == spec_insert_point::<V>(
            a,
            format,
            loc,
            link,
            hash,
        ),
    decreases MAX_LINK_NUMBER + 1 - link,
{
    lemma_slot_index_in_range(hash, link);
    lemma_shard_reads_same::<V>(a, b, format, loc, link, spec_slot_index(hash, link));
    match spec_get_next(a, format, loc) {
        Ok(LinkPtr::Addr(next)) => {
            lemma_capacity_bounds(link);
            lemma_slot_within_shard::<V>(format, loc, link, 0);
            lemma_chain_frame::<V>(a, b, format, next.loc as int, link + 1, hash);
        },
        _ => {},
    }
}

/// The bytes of the slot that `hash` falls into, in the shard at `place`:
/// where they begin.
pub open spec fn slot_begin<V: FileSerializable>(
    format: FileFormat,
    place: Place,
    hash: TsdfHash,
) -> int {
    hash_addr::<V>(format, place.loc, spec_slot_index(hash, place.link))
}

/// The bytes of the slot that `hash` falls into, in the shard at `place`:
/// where they end.
pub open spec fn slot_end<V: FileSerializable>(format: FileFormat, place: Place, hash: TsdfHash) ->
    int {
    hash_addr::<V>(format, place.loc, spec_slot_index(hash, place.link) + 1)
}

/// Where an entry goes lies on the chain: not before the shard from which the
/// search started, and in a shard from which a valid chain goes on.
pub proof fn lemma_insert_point_on_chain<V: FileSerializable>(
    bytes: Seq<u8>,
    format: FileFormat,
    loc: int,
    link: int,
    hash: TsdfHash,
    place: Place,
)
    requires
        chain_valid::<V>(bytes, format, loc, link),
        spec_insert_point::<V>(bytes, format, loc, link, hash) == Ok::<InsertPoint, TsdfError>(
            InsertPoint::Slot(place),
        ) || spec_insert_point::<V>(bytes, format, loc, link, hash) == Ok::<
            InsertPoint,
            TsdfError,
        >(InsertPoint::Append(place)),
    ensures
        loc <= place.loc,
        link <= place.link,
        chain_valid::<V>(bytes, format, place.loc, place.link),
        spec_insert_point::<V>(bytes, format, place.loc, place.link, hash) == spec_insert_point::<
            V,
        >(bytes, format, loc, link, hash),
        spec_get_hash::<V>(bytes, format, place.loc, spec_slot_index(hash, place.link)) is Ok,
        spec_insert_point::<V>(bytes, format, loc, link, hash)->Ok_0 is Slot <==> (spec_get_hash::<
            V,
        >(bytes, format, place.loc, spec_slot_index(hash, place.link))->Ok_0.is_null()
            || spec_get_hash::<V>(
            bytes,
            format,
            place.loc,
            spec_slot_index(hash, place.link),
        )->Ok_0 == hash),
        spec_insert_point::<V>(bytes, format, loc, link, hash)->Ok_0 is Append ==> spec_get_next(
            bytes,
            format,
            place.loc,
        ) is Ok && spec_get_next(bytes, format, place.loc)->Ok_0 is Null,
    decreases MAX_LINK_NUMBER + 1 - link,
{
    match spec_get_hash::<V>(bytes, format, loc, spec_slot_index(hash, link)) {
        Ok(stored) => {
            if !(stored.is_null() || stored == hash) {
                match spec_get_next(bytes, format, loc) {
                    Ok(LinkPtr::Addr(next)) => {
                        lemma_capacity_bounds(link);
                        lemma_slot_within_shard::<V>(format, loc, link, 0);
                        lemma_insert_point_on_chain::<V>(
                            bytes,
                            format,
                            next.loc as int,
                            link + 1,
                            hash,
                            place,
                        );
                    },
                    _ => {},
                }
            }
        },
        _ => {},
    }
}

/// Once the slot where an entry goes holds the entry's hash, and nothing but
/// that slot has changed, the search for the hash ends at that slot, and the
/// chain is as valid as before.
pub proof fn lemma_find_after_fill<V: FileSerializable>(
    a: Seq<u8>,
    b: Seq<u8>,
    format: FileFormat,
    loc: int,
    link: int,
    hash: TsdfHash,
    target: Place,
)
    requires
        chain_valid::<V>(a, format, loc, link),
        spec_insert_point::<V>(a, format, loc, link, hash) == Ok::<InsertPoint, TsdfError>(
            InsertPoint::Slot(target),
        ),
        !hash.is_null(),
        a.len() == b.len(),
        same_outside(
            a,
            b,
            slot_begin::<V>(format, target, hash),
            slot_end::<V>(format, target, hash),
        ),
        spec_get_hash::<V>(b, format, target.loc, spec_slot_index(hash, target.link)) == Ok::<
            TsdfHash,
            TsdfError,
        >(hash),
    ensures
        spec_find::<V>(b, format, loc, link, hash) == Ok::<Option<Place>, TsdfError>(Some(target)),
        chain_valid::<V>(b, format, loc, link),
    decreases MAX_LINK_NUMBER + 1 - link,
{
    let n = spec_slot_index(hash, link);
    lemma_slot_index_in_range(hash, link);
    lemma_capacity_bounds(link);
    lemma_slot_within_shard::<V>(format, loc, link, n);
    lemma_slot_within_shard::<V>(format, loc, link, 0);
    lemma_insert_point_on_chain::<V>(a, format, loc, link, hash, target);
    lemma_slot_index_in_range(hash, target.link);
    lemma_slot_within_shard::<V>(
        format,
        target.loc,
        target.link,
        spec_slot_index(hash, target.link),
    );
    let stored = spec_get_hash::<V>(a, format, loc, n)->Ok_0;
    if stored.is_null() || stored == hash {
        assert(target == Place { loc, link });
        lemma_next_reads_same(a, b, format, loc);
        match spec_get_next(a, format, loc) {
            Ok(LinkPtr::Addr(next)) => {
                lemma_chain_frame::<V>(a, b, format, next.loc as int, link + 1, hash);
            },
            _ => {},
        }
    } else {
        let next = spec_get_next(a, format, loc)->Ok_0->Addr_0;
        lemma_insert_point_on_chain::<V>(a, format, next.loc as int, link + 1, hash, target);
        lemma_find_after_fill::<V>(a, b, format, next.loc as int, link + 1, hash, target);
        lemma_shard_reads_same::<V>(a, b, format, loc, link, n);
    }
}

/// Once a new shard stands at the old end of the container, is published as
/// the successor of the last shard of the chain and holds the entry's hash in
/// its slot, and nothing but the header of that last shard has changed in
/// what the container held, the search for the hash ends at the new shard,
/// and the longer chain is valid.
pub proof fn lemma_find_after_append<V: FileSerializable>(
    a: Seq<u8>,
    b: Seq<u8>,
    format: FileFormat,
    loc: int,
    link: int,
    hash: TsdfHash,
    last: Place,
)
    requires
        chain_valid::<V>(a, format, loc, link),
        spec_insert_point::<V>(a, format, loc, link, hash) == Ok::<InsertPoint, TsdfError>(
            InsertPoint::Append(last),
        ),
        !hash.is_null(),
        same_outside(a, b, last.loc, last.loc + header_width(format)),
        shard_loadable::<V>(b, format, a.len() as int, last.link + 1),
        spec_get_next(b, format, last.loc) == Ok::<LinkPtr, TsdfError>(
            LinkPtr::Addr(Addr { loc: a.len() as u64 }),
        ),
        a.len() <= u64::MAX,
        spec_get_hash::<V>(b, format, a.len() as int, spec_slot_index(hash, last.link + 1)) == Ok::<
            TsdfHash,
            TsdfError,
        >(hash),
        spec_get_next(b, format, a.len() as int) == Ok::<LinkPtr, TsdfError>(LinkPtr::spec_null()),
    ensures
        spec_find::<V>(b, format, loc, link, hash) == Ok::<Option<Place>, TsdfError>(
            Some(Place { loc: a.len() as int, link: last.link + 1 }),
        ),
        chain_valid::<V>(b, format, loc, link),
    decreases MAX_LINK_NUMBER + 1 - link,
{
    let n = spec_slot_index(hash, link);
    lemma_slot_index_in_range(hash, link);
    lemma_capacity_bounds(link);
    lemma_slot_within_shard::<V>(format, loc, link, n);
    lemma_slot_within_shard::<V>(format, loc, link, 0);
    lemma_insert_point_on_chain::<V>(a, format, loc, link, hash, last);
    let stored = spec_get_hash::<V>(a, format, loc, n)->Ok_0;
    match spec_get_next(a, format, loc) {
        Ok(LinkPtr::Addr(next)) => {
            lemma_insert_point_on_chain::<V>(a, format, next.loc as int, link + 1, hash, last);
            lemma_find_after_append::<V>(a, b, format, next.loc as int, link + 1, hash, last);
            lemma_shard_reads_same::<V>(a, b, format, loc, link, n);
        },
        _ => {
            assert(last == Place { loc, link });
            // The slots of the last shard are untouched: they stand behind
            // its header.
            lemma_slot_reads_same::<V>(a, b, format, loc, link, n);
            let new_loc = a.len() as int;
            assert(chain_valid::<V>(b, format, new_loc, link + 1));
            assert(spec_find::<V>(b, format, new_loc, link + 1, hash) == Ok::<
                Option<Place>,
                TsdfError,
            >(Some(Place { loc: new_loc, link: link + 1 })));
        },
    }
}

/// The shard at which a search ends lies on the chain: not before the shard
/// from which the search started, and a valid chain goes on from it.
pub proof fn lemma_found_on_chain<V: FileSerializable>(
    bytes: Seq<u8>,
    format: FileFormat,
    loc: int,
    link: int,
    hash: TsdfHash,
    place: Place,
)
    requires
        chain_valid::<V>(bytes, format, loc, link),
        spec_find::<V>(bytes, format, loc, link, hash) == Ok::<Option<Place>, TsdfError>(
            Some(place),
        ),
    ensures
        loc <= place.loc,
        link <= place.link,
        !hash.is_null(),
        chain_valid::<V>(bytes, format, place.loc, place.link),
        spec_get_hash::<V>(bytes, format, place.loc, spec_slot_index(hash, place.link)) == Ok::<
            TsdfHash,
            TsdfError,
        >(hash),
    decreases MAX_LINK_NUMBER + 1 - link,
{
    match spec_get_hash::<V>(bytes, format, loc, spec_slot_index(hash, link)) {
        Ok(stored) => {
            if !(stored == hash && !hash.is_null()) {
                match spec_get_next(bytes, format, loc) {
                    Ok(LinkPtr::Addr(next)) => {
                        lemma_capacity_bounds(link);
                        lemma_slot_within_shard::<V>(format, loc, link, 0);
                        lemma_found_on_chain::<V>(
                            bytes,
                            format,
                            next.loc as int,
                            link + 1,
                            hash,
                            place,
                        );
                    },
                    _ => {},
                }
            }
        },
        _ => {},
    }
}

/// Once the slot at which the search for a hash ended reads as not
/// committed, and nothing but that slot has changed, the search goes on
/// behind that shard as it would have before, and the chain is as valid as
/// before.
pub proof fn lemma_find_after_clear<V: FileSerializable>(
    a: Seq<u8>,
    b: Seq<u8>,
    format: FileFormat,
    loc: int,
    link: int,
    hash: TsdfHash,
    target: Place,
)
    requires
        chain_valid::<V>(a, format, loc, link),
        spec_find::<V>(a, format, loc, link, hash) == Ok::<Option<Place>, TsdfError>(
            Some(target),
        ),
        a.len() == b.len(),
        same_outside(
            a,
            b,
            slot_begin::<V>(format, target, hash),
            slot_end::<V>(format, target, hash),
        ),
        spec_is_hash_written::<V>(b, format, target.loc, spec_slot_index(hash, target.link))
            == Ok::<bool, TsdfError>(false),
    ensures
        spec_find::<V>(b, format, loc, link, hash) == spec_find_behind::<V>(
            a,
            format,
            target,
            hash,
        ),
        chain_valid::<V>(b, format, loc, link),
    decreases MAX_LINK_NUMBER + 1 - link,
{
    let n = spec_slot_index(hash, link);
    lemma_slot_index_in_range(hash, link);
    lemma_capacity_bounds(link);
    lemma_slot_within_shard::<V>(format, loc, link, n);
    lemma_slot_within_shard::<V>(format, loc, link, 0);
    lemma_found_on_chain::<V>(a, format, loc, link, hash, target);
    lemma_slot_index_in_range(hash, target.link);
    lemma_slot_within_shard::<V>(
        format,
        target.loc,
        target.link,
        spec_slot_index(hash, target.link),
    );
    let stored = spec_get_hash::<V>(a, format, loc, n)->Ok_0;
    if stored == hash {
        assert(target == Place { loc, link });
        lemma_next_reads_same(a, b, format, loc);
        match spec_get_next(a, format, loc) {
            Ok(LinkPtr::Addr(next)) => {
                lemma_chain_frame::<V>(a, b, format, next.loc as int, link + 1, hash);
            },
            _ => {},
        }
    } else {
        let next = spec_get_next(a, format, loc)->Ok_0->Addr_0;
        lemma_found_on_chain::<V>(a, format, next.loc as int, link + 1, hash, target);
        lemma_find_after_clear::<V>(a, b, format, next.loc as int, link + 1, hash, target);
        lemma_shard_reads_same::<V>(a, b, format, loc, link, n);
    }
}

/// What the search for `other` gives, and the value at the slot where it
/// ends: the same in `a` and in `b`.
pub open spec fn same_search<V: FileSerializable>(
    a: Seq<u8>,
    b: Seq<u8>,
    format: FileFormat,
    loc: int,
    link: int,
    other: TsdfHash,
) -> bool {
    &&& spec_find::<V>(b, format, loc, link, other) == spec_find::<V>(a, format, loc, link, other)
    &&& match spec_find::<V>(a, format, loc, link, other) {
        Ok(Some(place)) => spec_get_val::<V>(
            b,
            format,
            place.loc,
            spec_slot_index(other, place.link),
        ) == spec_get_val::<V>(
            a,
            format,
            place.loc,
            spec_slot_index(other, place.link),
        ),
        _ => true,
    }
}

/// Two containers that hold the same bytes from the first shard of a valid
/// chain on give the same for every search on that chain.
pub proof fn lemma_same_search_frame<V: FileSerializable>(
    a: Seq<u8>,
    b: Seq<u8>,
    format: FileFormat,
    loc: int,
    link: int,
    other: TsdfHash,
)
    requires
        chain_valid::<V>(a, format, loc, link),
        a.len() <= b.len(),
        forall|i: int| loc <= i < a.len() ==> a[i] == b[i],
    ensures
        same_search::<V>(a, b, format, loc, link, other),
    decreases MAX_LINK_NUMBER + 1 - link,
{
    lemma_slot_index_in_range(other, link);
    lemma_shard_reads_same::<V>(a, b, format, loc, link, spec_slot_index(other, link));
    match spec_get_next(a, format, loc) {
        Ok(LinkPtr::Addr(next)) => {
            lemma_capacity_bounds(link);
            lemma_slot_within_shard::<V>(format, loc, link, 0);
            lemma_same_search_frame::<V>(a, b, format, next.loc as int, link + 1, other);
        },
        _ => {},
    }
}

/// A change to one slot of one shard of a valid chain, from holding no entry
/// for `other` to holding no entry for `other`, changes nothing for the
/// search for `other`. The slot is the one that `hash` falls into, in the
/// shard at `target`, which lies on the chain.
pub proof fn lemma_other_search_same<V: FileSerializable>(
    a: Seq<u8>,
    b: Seq<u8>,
    format: FileFormat,
    loc: int,
    link: int,
    hash: TsdfHash,
    target: Place,
    other: TsdfHash,
)
    requires
        chain_valid::<V>(a, format, loc, link),
        chain_reaches::<V>(a, format, loc, link, target),
        a.len() == b.len(),
        same_outside(
            a,
            b,
            slot_begin::<V>(format, target, hash),
            slot_end::<V>(format, target, hash),
        ),
        spec_get_hash::<V>(a, format, target.loc, spec_slot_index(hash, target.link)) is Ok,
        spec_get_hash::<V>(b, format, target.loc, spec_slot_index(hash, target.link)) is Ok,
        other.is_null() || (spec_get_hash::<V>(
            a,
            format,
            target.loc,
            spec_slot_index(hash, target.link),
        )->Ok_0 != other && spec_get_hash::<V>(
            b,
            format,
            target.loc,
            spec_slot_index(hash, target.link),
        )->Ok_0 != other),
    ensures
        same_search::<V>(a, b, format, loc, link, other),
    decreases MAX_LINK_NUMBER + 1 - link,
{
    let n = spec_slot_index(hash, target.link);
    let m = spec_slot_index(other, link);
    lemma_chain_reaches_behind::<V>(a, format, loc, link, target);
    lemma_slot_index_in_range(other, link);
    lemma_slot_index_in_range(hash, target.link);
    lemma_capacity_bounds(link);
    lemma_capacity_bounds(target.link);
    lemma_slot_within_shard::<V>(format, loc, link, m);
    lemma_slot_within_shard::<V>(format, loc, link, 0);
    lemma_slot_within_shard::<V>(format, target.loc, target.link, n);
    if target.link == link {
        assert(target == Place { loc, link });
        lemma_next_reads_same(a, b, format, loc);
        if m != n {
            if m < n {
                lemma_slots_ordered::<V>(format, loc, m + 1, n);
            } else {
                lemma_slots_ordered::<V>(format, loc, n + 1, m);
            }
            lemma_slot_reads_same::<V>(a, b, format, loc, link, m);
        }
        match spec_get_next(a, format, loc) {
            Ok(LinkPtr::Addr(next)) => {
                lemma_same_search_frame::<V>(a, b, format, next.loc as int, link + 1, other);
            },
            _ => {},
        }
    } else {
        let next = spec_get_next(a, format, loc)->Ok_0->Addr_0;
        lemma_chain_reaches_behind::<V>(a, format, next.loc as int, link + 1, target);
        lemma_other_search_same::<V>(a, b, format, next.loc as int, link + 1, hash, target, other);
        lemma_shard_reads_same::<V>(a, b, format, loc, link, m);
    }
}

/// Whether the shard at `target` is one of the chain that starts with the
/// shard with link number `link` at `loc`.
pub open spec fn chain_reaches<V: FileSerializable>(
    bytes: Seq<u8>,
    format: FileFormat,
    loc: int,
    link: int,
    target: Place,
) -> bool
    decreases MAX_LINK_NUMBER + 1 - link,
{
    if link > MAX_LINK_NUMBER || link < 0 {
        false
    } else if target == (Place { loc, link }) {
        true
    } else {
        match spec_get_next(bytes, format, loc) {
            Ok(LinkPtr::Addr(next)) => chain_reaches::<V>(
                bytes,
                format,
                next.loc as int,
                link + 1,
                target,
            ),
            _ => false,
        }
    }
}

/// A shard of a valid chain stands at or behind the first, with a link number
/// that tells the two apart, and a valid chain goes on from it.
pub proof fn lemma_chain_reaches_behind<V: FileSerializable>(
    bytes: Seq<u8>,
    format: FileFormat,
    loc: int,
    link: int,
    target: Place,
)
    requires
        chain_valid::<V>(bytes, format, loc, link),
        chain_reaches::<V>(bytes, format, loc, link, target),
    ensures
        loc <= target.loc,
        link <= target.link,
        target.loc == loc <==> target.link == link,
        target.link > link ==> spec_get_next(bytes, format, loc) is Ok && spec_get_next(
            bytes,
            format,
            loc,
        )->Ok_0 is Addr,
        chain_valid::<V>(bytes, format, target.loc, target.link),
    decreases MAX_LINK_NUMBER + 1 - link,
{
    if target != (Place { loc, link }) {
        let next = spec_get_next(bytes, format, loc)->Ok_0->Addr_0;
        lemma_capacity_bounds(link);
        lemma_slot_within_shard::<V>(format, loc, link, 0);
        lemma_chain_reaches_behind::<V>(bytes, format, next.loc as int, link + 1, target);
    }
}

/// The shard where an entry goes is one of the chain.
pub proof fn lemma_insert_point_reached<V: FileSerializable>(
    bytes: Seq<u8>,
    format: FileFormat,
    loc: int,
    link: int,
    hash: TsdfHash,
    place: Place,
)
    requires
        spec_insert_point::<V>(bytes, format, loc, link, hash) == Ok::<InsertPoint, TsdfError>(
            InsertPoint::Slot(place),
        ) || spec_insert_point::<V>(bytes, format, loc, link, hash) == Ok::<
            InsertPoint,
            TsdfError,
        >(InsertPoint::Append(place)),
    ensures
        chain_reaches::<V>(bytes, format, loc, link, place),
    decreases MAX_LINK_NUMBER + 1 - link,
{
    if place != (Place { loc, link }) {
        match spec_get_next(bytes, format, loc) {
            Ok(LinkPtr::Addr(next)) => {
                lemma_insert_point_reached::<V>(
                    bytes,
                    format,
                    next.loc as int,
                    link + 1,
                    hash,
                    place,
                );
            },
            _ => {},
        }
    }
}

/// The shard at which a search ends is one of the chain.
pub proof fn lemma_found_reached<V: FileSerializable>(
    bytes: Seq<u8>,
    format: FileFormat,
    loc: int,
    link: int,
    hash: TsdfHash,
    place: Place,
)
    requires
        spec_find::<V>(bytes, format, loc, link, hash) == Ok::<Option<Place>, TsdfError>(
            Some(place),
        ),
    ensures
        chain_reaches::<V>(bytes, format, loc, link, place),
    decreases MAX_LINK_NUMBER + 1 - link,
{
    if place != (Place { loc, link }) {
        match spec_get_next(bytes, format, loc) {
            Ok(LinkPtr::Addr(next)) => {
                lemma_found_reached::<V>(bytes, format, next.loc as int, link + 1, hash, place);
            },
            _ => {},
        }
    }
}

/// A new shard behind the last shard of a valid chain that holds no entry
/// for `other` changes nothing for the search for `other`, where nothing but
/// the header of that last shard has changed in what the container held.
pub proof fn lemma_other_search_after_append<V: FileSerializable>(
    a: Seq<u8>,
    b: Seq<u8>,
    format: FileFormat,
    loc: int,
    link: int,
    last: Place,
    other: TsdfHash,
)
    requires
        chain_valid::<V>(a, format, loc, link),
        chain_reaches::<V>(a, format, loc, link, last),
        spec_get_next(a, format, last.loc) is Ok,
        spec_get_next(a, format, last.loc)->Ok_0 is Null,
        same_outside(a, b, last.loc, last.loc + header_width(format)),
        shard_loadable::<V>(b, format, a.len() as int, last.link + 1),
        a.len() <= u64::MAX,
        spec_get_next(b, format, last.loc) == Ok::<LinkPtr, TsdfError>(
            LinkPtr::Addr(Addr { loc: a.len() as u64 }),
        ),
        spec_get_next(b, format, a.len() as int) == Ok::<LinkPtr, TsdfError>(LinkPtr::spec_null()),
        spec_get_hash::<V>(b, format, a.len() as int, spec_slot_index(other, last.link + 1)) is Ok,
        other.is_null() || spec_get_hash::<V>(
            b,
            format,
            a.len() as int,
            spec_slot_index(other, last.link + 1),
        )->Ok_0 != other,
    ensures
        same_search::<V>(a, b, format, loc, link, other),
    decreases MAX_LINK_NUMBER + 1 - link,
{
    let m = spec_slot_index(other, link);
    lemma_chain_reaches_behind::<V>(a, format, loc, link, last);
    lemma_slot_index_in_range(other, link);
    lemma_capacity_bounds(link);
    lemma_slot_within_shard::<V>(format, loc, link, m);
    lemma_slot_within_shard::<V>(format, loc, link, 0);
    if last.link == link {
        assert(last == Place { loc, link });
        lemma_slot_reads_same::<V>(a, b, format, loc, link, m);
        let new_loc = a.len() as int;
        assert(spec_find::<V>(b, format, new_loc, link + 1, other) == Ok::<
            Option<Place>,
            TsdfError,
        >(None));
    } else {
        let next = spec_get_next(a, format, loc)->Ok_0->Addr_0;
        lemma_chain_reaches_behind::<V>(a, format, next.loc as int, link + 1, last);
        lemma_other_search_after_append::<V>(a, b, format, next.loc as int, link + 1, last, other);
        lemma_shard_reads_same::<V>(a, b, format, loc, link, m);
    }
}

} // verus!
