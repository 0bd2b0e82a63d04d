//! How a dictionary grows: the length of the file, and how many keys a chain
//! can hold.

use vstd::prelude::*;
use vstd::arithmetic::power2::{lemma2_to64, lemma_pow2_pos, lemma_pow2_unfold, pow2};
use vstd::relations::injective_on;
use vstd::set_lib::{lemma_int_range, lemma_len_subset, lemma_map_size, set_int_range};
use crate::addr::Addr;
use crate::chain::{
    chain_reaches, chain_valid, lemma_chain_reaches_behind, lemma_found_on_chain,
    lemma_found_reached, lemma_insert_point_on_chain, lemma_insert_point_reached,
};
use crate::dict::{
    dict_header_width, first_shard_loc, shard_loadable, spec_appended, spec_dict_add,
    spec_dict_contains, spec_dict_initialized, spec_dict_remove, spec_find, spec_insert_point,
    InsertPoint, Place,
};
use crate::error::TsdfError;
use crate::format::FileFormat;
use crate::frame::{
    lemma_next_reads_same, lemma_shard_initialized, lemma_slot_cleared, lemma_slot_filled,
    lemma_write, same_outside,
};
use crate::hash::TsdfHash;
use crate::image::ImageState;
use crate::laws::{dict_valid, lemma_appended, ready_state};
use crate::layout::{
    hash_addr, header_width, lemma_capacity_bounds, lemma_slot_index_in_range,
    lemma_slot_within_shard, shard_width, spec_capacity, spec_slot_index, MAX_LINK_NUMBER,
};
use crate::link_ptr::LinkPtr;
use crate::serial::{lemma_encoding_len, spec_encoding, FileSerializable};
use crate::shard::{spec_get_next, spec_slot_cleared, spec_slot_filled};

verus! {

/// Whether the chain that starts with the shard with link number `link` at
/// `loc` takes the container up to its end without a gap: every successor
/// stands right behind its shard, and the last shard ends where the container
/// does.
pub open spec fn chain_tight<V: FileSerializable>(
    bytes: Seq<u8>,
    format: FileFormat,
    loc: int,
    link: int,
) -> bool
    decreases MAX_LINK_NUMBER + 1 - link,
{
    shard_loadable::<V>(bytes, format, loc, link) && match spec_get_next(bytes, format, loc) {
        Err(_) => false,
        Ok(LinkPtr::Null(_)) => loc + shard_width::<V>(format, link) == bytes.len(),
        Ok(LinkPtr::Addr(next)) => loc + shard_width::<V>(format, link) == next.loc
            && chain_tight::<V>(bytes, format, next.loc as int, link + 1),
    }
}

/// The number of shards of the chain that starts with the shard with link
/// number `link` at `loc`.
pub open spec fn chain_len<V: FileSerializable>(
    bytes: Seq<u8>,
    format: FileFormat,
    loc: int,
    link: int,
) -> nat
    decreases MAX_LINK_NUMBER + 1 - link,
{
    if !shard_loadable::<V>(bytes, format, loc, link) {
        0
    } else {
        match spec_get_next(bytes, format, loc) {
            Ok(LinkPtr::Addr(next)) => 1 + chain_len::<V>(bytes, format, next.loc as int, link + 1),
            _ => 1,
        }
    }
}

/// The bytes that `count` shards take together, the first with link number
/// `link`.
pub open spec fn shards_width<V: FileSerializable>(format: FileFormat, link: int, count: nat) ->
    int
    decreases count,
{
    if count == 0 {
        0
    } else {
        shard_width::<V>(format, link) + shards_width::<V>(format, link + 1, (count - 1) as nat)
    }
}

/// Whether the dictionary at `loc` is the last thing in the container: once
/// it is initialized, its chain takes the container up to its end; before, the
/// container ends where the dictionary is to stand.
pub open spec fn dict_tight<V: FileSerializable>(
    bytes: Seq<u8>,
    format: FileFormat,
    loc: int,
    initialized: bool,
) -> bool {
    if initialized {
        chain_tight::<V>(bytes, format, first_shard_loc(format, loc), 0)
    } else {
        bytes.len() == loc
    }
}

/// A chain without gaps is a valid chain.
pub proof fn lemma_tight_is_valid<V: FileSerializable>(
    bytes: Seq<u8>,
    format: FileFormat,
    loc: int,
    link: int,
)
    requires
        chain_tight::<V>(bytes, format, loc, link),
    ensures
        chain_valid::<V>(bytes, format, loc, link),
    decreases MAX_LINK_NUMBER + 1 - link,
{
    match spec_get_next(bytes, format, loc) {
        Ok(LinkPtr::Addr(next)) => {
            lemma_tight_is_valid::<V>(bytes, format, next.loc as int, link + 1);
        },
        _ => {},
    }
}

/// A chain without gaps ends where its shards, laid end to end, end.
pub proof fn lemma_tight_chain_end<V: FileSerializable>(
    bytes: Seq<u8>,
    format: FileFormat,
    loc: int,
    link: int,
)
    requires
        chain_tight::<V>(bytes, format, loc, link),
    ensures
        bytes.len() == loc + shards_width::<V>(
            format,
            link,
            chain_len::<V>(bytes, format, loc, link),
        ),
        chain_len::<V>(bytes, format, loc, link) >= 1,
    decreases MAX_LINK_NUMBER + 1 - link,
{
    match spec_get_next(bytes, format, loc) {
        Ok(LinkPtr::Addr(next)) => {
            lemma_tight_chain_end::<V>(bytes, format, next.loc as int, link + 1);
        },
        _ => {
            assert(shards_width::<V>(format, link + 1, 0) == 0);
        },
    }
}

/// Two containers of one length that hold the same bytes from the first
/// shard of a chain without gaps on hold the same chain.
pub proof fn lemma_tight_frame<V: FileSerializable>(
    a: Seq<u8>,
    b: Seq<u8>,
    format: FileFormat,
    loc: int,
    link: int,
)
    requires
        chain_tight::<V>(a, format, loc, link),
        a.len() == b.len(),
        forall|i: int| loc <= i < a.len() ==> a[i] == b[i],
    ensures
        chain_tight::<V>(b, format, loc, link),
        chain_len::<V>(b, format, loc, link) == chain_len::<V>(a, format, loc, link),
    decreases MAX_LINK_NUMBER + 1 - link,
{
    lemma_capacity_bounds(link);
    lemma_slot_within_shard::<V>(format, loc, link, 0);
    lemma_next_reads_same(a, b, format, loc);
    match spec_get_next(a, format, loc) {
        Ok(LinkPtr::Addr(next)) => {
            lemma_tight_frame::<V>(a, b, format, next.loc as int, link + 1);
        },
        _ => {},
    }
}

/// A change within the slots of one shard of a chain without gaps leaves the
/// chain without gaps, and as long as it was.
pub proof fn lemma_tight_after_slot_change<V: FileSerializable>(
    a: Seq<u8>,
    b: Seq<u8>,
    format: FileFormat,
    loc: int,
    link: int,
    spot: Place,
    lo: int,
    hi: int,
)
    requires
        chain_tight::<V>(a, format, loc, link),
        chain_reaches::<V>(a, format, loc, link, spot),
        a.len() == b.len(),
        same_outside(a, b, lo, hi),
        spot.loc + header_width(format) <= lo,
        hi <= spot.loc + shard_width::<V>(format, spot.link),
    ensures
        chain_tight::<V>(b, format, loc, link),
        chain_len::<V>(b, format, loc, link) == chain_len::<V>(a, format, loc, link),
    decreases MAX_LINK_NUMBER + 1 - link,
{
    lemma_tight_is_valid::<V>(a, format, loc, link);
    lemma_chain_reaches_behind::<V>(a, format, loc, link, spot);
    lemma_capacity_bounds(link);
    lemma_slot_within_shard::<V>(format, loc, link, 0);
    lemma_next_reads_same(a, b, format, loc);
    match spec_get_next(a, format, loc) {
        Ok(LinkPtr::Addr(next)) => {
            if spot.link == link {
                lemma_tight_frame::<V>(a, b, format, next.loc as int, link + 1);
            } else {
                lemma_chain_reaches_behind::<V>(a, format, next.loc as int, link + 1, spot);
                lemma_tight_after_slot_change::<V>(
                    a,
                    b,
                    format,
                    next.loc as int,
                    link + 1,
                    spot,
                    lo,
                    hi,
                );
            }
        },
        _ => {},
    }
}

/// A new shard right behind the last shard of a chain without gaps, which
/// ends where the container now ends, and which the last shard now points
/// at, leaves the chain without gaps, and one shard longer.
pub proof fn lemma_tight_after_append<V: FileSerializable>(
    a: Seq<u8>,
    b: Seq<u8>,
    format: FileFormat,
    loc: int,
    link: int,
    last: Place,
)
    requires
        chain_tight::<V>(a, format, loc, link),
        chain_reaches::<V>(a, format, loc, link, last),
        spec_get_next(a, format, last.loc) is Ok,
        spec_get_next(a, format, last.loc)->Ok_0 is Null,
        same_outside(a, b, last.loc, last.loc + header_width(format)),
        b.len() == a.len() + shard_width::<V>(format, last.link + 1),
        shard_loadable::<V>(b, format, a.len() as int, last.link + 1),
        a.len() <= u64::MAX,
        spec_get_next(b, format, last.loc) == Ok::<LinkPtr, TsdfError>(
            LinkPtr::Addr(Addr { loc: a.len() as u64 }),
        ),
        spec_get_next(b, format, a.len() as int) == Ok::<LinkPtr, TsdfError>(LinkPtr::spec_null()),
    ensures
        chain_tight::<V>(b, format, loc, link),
        chain_len::<V>(b, format, loc, link) == chain_len::<V>(a, format, loc, link) + 1,
    decreases MAX_LINK_NUMBER + 1 - link,
{
    lemma_tight_is_valid::<V>(a, format, loc, link);
    lemma_chain_reaches_behind::<V>(a, format, loc, link, last);
    lemma_capacity_bounds(link);
    lemma_slot_within_shard::<V>(format, loc, link, 0);
    if last.link == link {
        assert(last == Place { loc, link });
        let new_loc = a.len() as int;
        assert(chain_tight::<V>(b, format, new_loc, link + 1));
        assert(chain_len::<V>(b, format, new_loc, link + 1) == 1);
    } else {
        let next = spec_get_next(a, format, loc)->Ok_0->Addr_0;
        lemma_chain_reaches_behind::<V>(a, format, next.loc as int, link + 1, last);
        lemma_next_reads_same(a, b, format, loc);
        lemma_tight_after_append::<V>(a, b, format, next.loc as int, link + 1, last);
    }
}

/// The length of the file: where a dictionary is the last thing in the
/// container, the container ends behind the dictionary's own bytes and its
/// shards, laid end to end. With `n` shards that is the dictionary's offset,
/// plus the width of the dictionary, plus the widths of the shards with the
/// link numbers from 0 up to `n - 1`.
pub proof fn lemma_file_length<V: FileSerializable>(bytes: Seq<u8>, format: FileFormat, loc: int)
    requires
        dict_tight::<V>(bytes, format, loc, true),
    ensures
        bytes.len() == loc + dict_header_width(format) + shards_width::<V>(
            format,
            0,
            chain_len::<V>(bytes, format, first_shard_loc(format, loc), 0),
        ),
{
    lemma_tight_chain_end::<V>(bytes, format, first_shard_loc(format, loc), 0);
}

/// Shard growth: an add to a dictionary that is the last thing in the
/// container leaves it the last thing in the container. The add either
/// leaves the chain as long as it was, or makes it one shard longer; the
/// first add makes it one shard long.
pub proof fn lemma_add_keeps_tight<V: FileSerializable>(
    state: ImageState,
    format: FileFormat,
    loc: int,
    initialized: bool,
    hash: TsdfHash,
    val: V,
)
    requires
        dict_valid::<V>(state.bytes, format, loc, initialized),
        dict_tight::<V>(state.bytes, format, loc, initialized),
        val.well_formed(),
        spec_dict_add::<V>(state, format, loc, initialized, hash, val).2 is Ok,
    ensures
        dict_tight::<V>(
            spec_dict_add::<V>(state, format, loc, initialized, hash, val).0.bytes,
            format,
            loc,
            true,
        ),
        chain_len::<V>(
            spec_dict_add::<V>(state, format, loc, initialized, hash, val).0.bytes,
            format,
            first_shard_loc(format, loc),
            0,
        ) == added_chain_len::<V>(state, format, loc, initialized, hash),
{
    let first = first_shard_loc(format, loc);
    let ready = ready_state::<V>(state, format, loc, initialized);
    if !initialized {
        lemma_initialized_is_tight::<V>(state, format, loc);
    }
    let a = ready.bytes;
    lemma_tight_is_valid::<V>(a, format, first, 0);
    match spec_insert_point::<V>(a, format, first, 0, hash) {
        Ok(InsertPoint::Slot(place)) => {
            lemma_insert_point_on_chain::<V>(a, format, first, 0, hash, place);
            lemma_insert_point_reached::<V>(a, format, first, 0, hash, place);
            let n = spec_slot_index(hash, place.link);
            lemma_slot_index_in_range(hash, place.link);
            lemma_slot_within_shard::<V>(format, place.loc, place.link, n);
            lemma_slot_filled::<V>(ready, format, place.loc, place.link, n, hash, val);
            let after = spec_slot_filled::<V>(ready, format, place.loc, n, hash, val);
            lemma_tight_after_slot_change::<V>(
                a,
                after.bytes,
                format,
                first,
                0,
                place,
                hash_addr::<V>(format, place.loc, n),
                hash_addr::<V>(format, place.loc, n + 1),
            );
        },
        Ok(InsertPoint::Append(last)) => {
            lemma_insert_point_on_chain::<V>(a, format, first, 0, hash, last);
            lemma_insert_point_reached::<V>(a, format, first, 0, hash, last);
            lemma_appended::<V>(ready, format, last, hash, val);
            let b = spec_appended::<V>(ready, format, last, hash, val).bytes;
            lemma_tight_after_append::<V>(a, b, format, first, 0, last);
        },
        Err(_) => {},
    }
}

/// The number of shards of a dictionary after an add that succeeded: one
/// more than before where every shard holds another key in the slot of the
/// new entry, and as many as before otherwise. A dictionary that was not
/// initialized has none before.
pub open spec fn added_chain_len<V: FileSerializable>(
    state: ImageState,
    format: FileFormat,
    loc: int,
    initialized: bool,
    hash: TsdfHash,
) -> nat {
    let first = first_shard_loc(format, loc);
    let ready = ready_state::<V>(state, format, loc, initialized).bytes;
    match spec_insert_point::<V>(ready, format, first, 0, hash) {
        Ok(InsertPoint::Append(_)) => chain_len::<V>(ready, format, first, 0) + 1,
        _ => chain_len::<V>(ready, format, first, 0),
    }
}

/// Initializing a dictionary at the end of the container leaves it the last
/// thing in the container, with a chain of one shard.
pub proof fn lemma_initialized_is_tight<V: FileSerializable>(
    state: ImageState,
    format: FileFormat,
    loc: int,
)
    requires
        dict_valid::<V>(state.bytes, format, loc, false),
        dict_tight::<V>(state.bytes, format, loc, false),
    ensures
        dict_tight::<V>(spec_dict_initialized::<V>(state, format, loc).bytes, format, loc, true),
        chain_len::<V>(
            spec_dict_initialized::<V>(state, format, loc).bytes,
            format,
            first_shard_loc(format, loc),
            0,
        ) == 1,
        spec_dict_initialized::<V>(state, format, loc).bytes.len() == state.bytes.len()
            + dict_header_width(format) + shard_width::<V>(format, 0),
{
    let first = first_shard_loc(format, loc);
    let encoded = spec_encoding(format, Addr { loc: first as u64 });
    lemma_encoding_len(format, Addr { loc: first as u64 });
    lemma_write(state.bytes, loc, encoded);
    let header = state.write(loc, encoded);
    lemma_shard_initialized::<V>(header, format, first, 0);
    lemma_capacity_bounds(0);
    lemma_slot_within_shard::<V>(format, first, 0, 0);
}

/// A remove on a dictionary that is the last thing in the container leaves
/// it the last thing in the container, with as many shards as before:
/// shards are never given back.
pub proof fn lemma_remove_keeps_tight<V: FileSerializable>(
    state: ImageState,
    format: FileFormat,
    loc: int,
    hash: TsdfHash,
)
    requires
        dict_tight::<V>(state.bytes, format, loc, true),
    ensures
        dict_tight::<V>(
            spec_dict_remove::<V>(state, format, loc, true, hash).0.bytes,
            format,
            loc,
            true,
        ),
        chain_len::<V>(
            spec_dict_remove::<V>(state, format, loc, true, hash).0.bytes,
            format,
            first_shard_loc(format, loc),
            0,
        ) == chain_len::<V>(state.bytes, format, first_shard_loc(format, loc), 0),
{
    let first = first_shard_loc(format, loc);
    lemma_tight_is_valid::<V>(state.bytes, format, first, 0);
    match spec_find::<V>(state.bytes, format, first, 0, hash) {
        Ok(Some(target)) => {
            let n = spec_slot_index(hash, target.link);
            lemma_found_on_chain::<V>(state.bytes, format, first, 0, hash, target);
            lemma_found_reached::<V>(state.bytes, format, first, 0, hash, target);
            lemma_slot_index_in_range(hash, target.link);
            lemma_slot_within_shard::<V>(format, target.loc, target.link, n);
            lemma_slot_cleared::<V>(state, format, target.loc, target.link, n);
            let cleared = spec_slot_cleared::<V>(state, format, target.loc, n);
            lemma_tight_after_slot_change::<V>(
                state.bytes,
                cleared.bytes,
                format,
                first,
                0,
                target,
                hash_addr::<V>(format, target.loc, n),
                hash_addr::<V>(format, target.loc, n + 1),
            );
        },
        _ => {},
    }
}

/// The number of slots that the shards before the one with link number
/// `link` have together: eight, sixteen and so on, up to the shard before.
pub open spec fn slots_before(link: int) -> int {
    8 * (pow2(link as nat) as int - 1)
}

/// The running number of the slot that holds `hash`, counted through the
/// shards of the chain that starts with the first shard at `first`, where
/// some shard holds it.
pub open spec fn slot_number<V: FileSerializable>(
    bytes: Seq<u8>,
    format: FileFormat,
    first: int,
    hash: TsdfHash,
) -> int {
    match spec_find::<V>(bytes, format, first, 0, hash) {
        Ok(Some(place)) => slots_before(place.link) + spec_slot_index(hash, place.link),
        _ => -1,
    }
}

/// Each shard adds its slots to those of the shards before it.
pub proof fn lemma_slots_before(link: int)
    requires
        0 <= link,
    ensures
        slots_before(0) == 0,
        slots_before(link + 1) == slots_before(link) + spec_capacity(link),
        0 <= slots_before(link),
{
    lemma2_to64();
    lemma_pow2_unfold((link + 1) as nat);
    lemma_pow2_pos(link as nat);
}

/// Later shards have more slots before them.
pub proof fn lemma_slots_before_grows(earlier: int, later: int)
    requires
        0 <= earlier <= later,
    ensures
        slots_before(earlier) <= slots_before(later),
    decreases later - earlier,
{
    if earlier < later {
        lemma_slots_before_grows(earlier, later - 1);
        lemma_slots_before(later - 1);
        lemma_pow2_pos((later - 1) as nat);
    }
}

/// A shard of a chain has a link number no lower than the first.
pub proof fn lemma_reached_link<V: FileSerializable>(
    bytes: Seq<u8>,
    format: FileFormat,
    loc: int,
    link: int,
    place: Place,
)
    requires
        chain_reaches::<V>(bytes, format, loc, link, place),
    ensures
        link <= place.link <= MAX_LINK_NUMBER,
    decreases MAX_LINK_NUMBER + 1 - link,
{
    if place != (Place { loc, link }) {
        let next = spec_get_next(bytes, format, loc)->Ok_0->Addr_0;
        lemma_reached_link::<V>(bytes, format, next.loc as int, link + 1, place);
    }
}

/// A chain has one shard for each link number: two shards of a chain with
/// the same link number are the same shard.
pub proof fn lemma_reached_once<V: FileSerializable>(
    bytes: Seq<u8>,
    format: FileFormat,
    loc: int,
    link: int,
    one: Place,
    other: Place,
)
    requires
        chain_reaches::<V>(bytes, format, loc, link, one),
        chain_reaches::<V>(bytes, format, loc, link, other),
        one.link == other.link,
    ensures
        one == other,
    decreases MAX_LINK_NUMBER + 1 - link,
{
    let here = Place { loc, link };
    if one == here && other != here {
        let next = spec_get_next(bytes, format, loc)->Ok_0->Addr_0;
        lemma_reached_link::<V>(bytes, format, next.loc as int, link + 1, other);
    } else if one != here && other == here {
        let next = spec_get_next(bytes, format, loc)->Ok_0->Addr_0;
        lemma_reached_link::<V>(bytes, format, next.loc as int, link + 1, one);
    } else if one != here && other != here {
        let next = spec_get_next(bytes, format, loc)->Ok_0->Addr_0;
        lemma_reached_once::<V>(bytes, format, next.loc as int, link + 1, one, other);
    }
}

/// A shard of a chain has a link number below that of the first plus the
/// number of shards of the chain.
pub proof fn lemma_reached_within_len<V: FileSerializable>(
    bytes: Seq<u8>,
    format: FileFormat,
    loc: int,
    link: int,
    place: Place,
)
    requires
        chain_valid::<V>(bytes, format, loc, link),
        chain_reaches::<V>(bytes, format, loc, link, place),
    ensures
        place.link < link + chain_len::<V>(bytes, format, loc, link),
    decreases MAX_LINK_NUMBER + 1 - link,
{
    if place != (Place { loc, link }) {
        let next = spec_get_next(bytes, format, loc)->Ok_0->Addr_0;
        lemma_reached_within_len::<V>(bytes, format, next.loc as int, link + 1, place);
    }
}

/// The slot that holds a hash has a running number below the number of slots
/// of the whole chain.
pub proof fn lemma_slot_number_in_range<V: FileSerializable>(
    bytes: Seq<u8>,
    format: FileFormat,
    first: int,
    hash: TsdfHash,
)
    requires
        chain_valid::<V>(bytes, format, first, 0),
        spec_find::<V>(bytes, format, first, 0, hash) is Ok,
        spec_find::<V>(bytes, format, first, 0, hash)->Ok_0 is Some,
    ensures
        0 <= slot_number::<V>(bytes, format, first, hash) < slots_before(
            chain_len::<V>(bytes, format, first, 0) as int,
        ),
{
    let place = spec_find::<V>(bytes, format, first, 0, hash)->Ok_0->Some_0;
    lemma_found_reached::<V>(bytes, format, first, 0, hash, place);
    lemma_reached_link::<V>(bytes, format, first, 0, place);
    lemma_reached_within_len::<V>(bytes, format, first, 0, place);
    lemma_slot_index_in_range(hash, place.link);
    lemma_slots_before(place.link);
    lemma_slots_before_grows(place.link + 1, chain_len::<V>(bytes, format, first, 0) as int);
}

/// Two different hashes that the chain holds stand in different slots.
pub proof fn lemma_slot_numbers_differ<V: FileSerializable>(
    bytes: Seq<u8>,
    format: FileFormat,
    first: int,
    one: TsdfHash,
    other: TsdfHash,
)
    requires
        chain_valid::<V>(bytes, format, first, 0),
        spec_find::<V>(bytes, format, first, 0, one) is Ok,
        spec_find::<V>(bytes, format, first, 0, one)->Ok_0 is Some,
        spec_find::<V>(bytes, format, first, 0, other) is Ok,
        spec_find::<V>(bytes, format, first, 0, other)->Ok_0 is Some,
        one != other,
    ensures
        slot_number::<V>(bytes, format, first, one) != slot_number::<V>(
            bytes,
            format,
            first,
            other,
        ),
{
    let p = spec_find::<V>(bytes, format, first, 0, one)->Ok_0->Some_0;
    let q = spec_find::<V>(bytes, format, first, 0, other)->Ok_0->Some_0;
    lemma_found_reached::<V>(bytes, format, first, 0, one, p);
    lemma_found_reached::<V>(bytes, format, first, 0, other, q);
    lemma_found_on_chain::<V>(bytes, format, first, 0, one, p);
    lemma_found_on_chain::<V>(bytes, format, first, 0, other, q);
    lemma_reached_link::<V>(bytes, format, first, 0, p);
    lemma_reached_link::<V>(bytes, format, first, 0, q);
    lemma_slot_index_in_range(one, p.link);
    lemma_slot_index_in_range(other, q.link);
    lemma_slots_before(p.link);
    lemma_slots_before(q.link);
    if p.link < q.link {
        lemma_slots_before_grows(p.link + 1, q.link);
    } else if q.link < p.link {
        lemma_slots_before_grows(q.link + 1, p.link);
    } else {
        lemma_reached_once::<V>(bytes, format, first, 0, p, q);
    }
}

/// A dictionary whose chain has `n` shards holds at most as many different
/// keys as those shards have slots: `8 * (2^n - 1)`. So a dictionary that
/// holds `K` keys has at least as many shards as it takes to have `K` slots.
pub proof fn lemma_keys_fit_slots<V: FileSerializable>(
    bytes: Seq<u8>,
    format: FileFormat,
    loc: int,
    keys: Set<TsdfHash>,
)
    requires
        dict_valid::<V>(bytes, format, loc, true),
        keys.finite(),
        forall|hash: TsdfHash|
            keys.contains(hash) ==> spec_dict_contains::<V>(
                bytes,
                format,
                loc,
                true,
                hash,
            ) == Ok::<bool, TsdfError>(true),
    ensures
        keys.len() <= slots_before(
            chain_len::<V>(bytes, format, first_shard_loc(format, loc), 0) as int,
        ),
{
    let first = first_shard_loc(format, loc);
    let slots = slots_before(chain_len::<V>(bytes, format, first, 0) as int);
    let number = |hash: TsdfHash| slot_number::<V>(bytes, format, first, hash);
    let numbers = keys.map(number);
    lemma_slots_before_grows(0, chain_len::<V>(bytes, format, first, 0) as int);
    lemma_slots_before(0);
    assert forall|one: TsdfHash, other: TsdfHash|
        keys.contains(one) && keys.contains(other) && #[trigger] number(one) == #[trigger] number(
            other,
        ) implies one == other by {
        if one != other {
            lemma_slot_numbers_differ::<V>(bytes, format, first, one, other);
        }
    }
    assert(injective_on(number, keys));
    lemma_map_size(keys, numbers, number);
    assert forall|n: int| numbers.contains(n) implies set_int_range(0, slots).contains(n) by {
        let hash = choose|hash: TsdfHash| keys.contains(hash) && n == number(hash);
        lemma_slot_number_in_range::<V>(bytes, format, first, hash);
    }
    lemma_int_range(0, slots);
    lemma_len_subset(numbers, set_int_range(0, slots));
}

/// Shard growth: where a dictionary is the last thing in the container and
/// has no more shards than the keys that it holds need, the number `n` of
/// its shards is the smallest with `8 * (2^n - 1)` slots for those keys, and
/// the container ends behind the dictionary's own bytes and the shards with
/// the link numbers from 0 up to `n - 1`.
pub proof fn lemma_shard_growth<V: FileSerializable>(
    bytes: Seq<u8>,
    format: FileFormat,
    loc: int,
    keys: Set<TsdfHash>,
)
    requires
        dict_valid::<V>(bytes, format, loc, true),
        dict_tight::<V>(bytes, format, loc, true),
        keys.finite(),
        forall|hash: TsdfHash|
            keys.contains(hash) ==> spec_dict_contains::<V>(
                bytes,
                format,
                loc,
                true,
                hash,
            ) == Ok::<bool, TsdfError>(true),
        slots_before(chain_len::<V>(bytes, format, first_shard_loc(format, loc), 0) - 1)
            < keys.len(),
    ensures
        slots_before(chain_len::<V>(bytes, format, first_shard_loc(format, loc), 0) - 1)
            < keys.len() <= slots_before(
            chain_len::<V>(bytes, format, first_shard_loc(format, loc), 0) as int,
        ),
        bytes.len() == loc + dict_header_width(format) + shards_width::<V>(
            format,
            0,
            chain_len::<V>(bytes, format, first_shard_loc(format, loc), 0),
        ),
{
    lemma_keys_fit_slots::<V>(bytes, format, loc, keys);
    lemma_file_length::<V>(bytes, format, loc);
}

} // verus!
