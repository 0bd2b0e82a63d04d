//! What a reader sees who looks at the container while a writer is at work:
//! the writes of an operation land one by one, and after each of them the
//! dictionary reads either as before the operation or as after it.

use vstd::prelude::*;
use crate::addr::Addr;
use crate::chain::{
    chain_reaches, chain_valid, lemma_chain_reaches_behind, lemma_find_after_clear,
    lemma_find_after_fill, lemma_found_on_chain, lemma_found_reached,
    lemma_insert_point_on_chain, lemma_insert_point_reached, lemma_other_search_after_append,
    lemma_other_search_same, lemma_same_search_frame, same_search, slot_begin, slot_end,
};
use crate::dict::{
    first_shard_loc, shard_loadable, spec_appended, spec_chain_add, spec_dict_add, spec_dict_get,
    spec_dict_remove, spec_find, spec_insert_point, InsertPoint, Place,
};
use crate::error::TsdfError;
use crate::format::FileFormat;
use crate::frame::{
    lemma_next_reads_same, lemma_next_set, lemma_shard_initialized, lemma_shard_reads_same,
    lemma_slot_cleared, lemma_slot_reads_same, lemma_write, same_outside,
};
use crate::hash::TsdfHash;
use crate::image::{bytes_after_write, ImageState, WriteRecord};
use crate::laws::{dict_valid, lemma_chain_add};
use crate::layout::{
    flag_addr, hash_addr, header_width, lemma_capacity_bounds, lemma_slot_index_in_range,
    lemma_slot_within_shard, lemma_slots_ordered, shard_within, spec_capacity, spec_slot_index,
    val_addr, MAX_LINK_NUMBER,
};
use crate::link_ptr::LinkPtr;
use crate::serial::{lemma_decode_encode, lemma_encoding_len, spec_encoding, FileSerializable};
use crate::shard::{
    spec_get_hash, spec_get_next, spec_get_val, spec_is_hash_written, spec_is_next_written,
    spec_next_set, spec_shard_initialized, spec_slot_cleared, spec_slot_filled, spec_slots_blank,
};

verus! {

/// The bytes after `writes` were carried out on `bytes`, one after the other.
pub open spec fn replayed(bytes: Seq<u8>, writes: Seq<WriteRecord>) -> Seq<u8>
    decreases writes.len(),
{
    if writes.len() == 0 {
        bytes
    } else {
        bytes_after_write(
            replayed(bytes, writes.drop_last()),
            writes.last().addr,
            writes.last().data,
        )
    }
}

/// The writes that were issued on the way from `before` to `after`.
pub open spec fn writes_since(before: ImageState, after: ImageState) -> Seq<WriteRecord> {
    after.writes.subrange(before.writes.len() as int, after.writes.len() as int)
}

/// Whether `after` comes from `before` by writes alone: its record of writes
/// goes on from that of `before`, and its bytes are those of `before` with
/// the further writes carried out.
pub open spec fn follows(before: ImageState, after: ImageState) -> bool {
    &&& before.writes.len() <= after.writes.len()
    &&& after.writes.subrange(0, before.writes.len() as int) == before.writes
    &&& after.bytes == replayed(before.bytes, writes_since(before, after))
}

/// Whether `holds` is true of the bytes that a reader may see on the way
/// from `before` to `after`: of the bytes after any number of the writes that
/// were issued on the way, from none to all of them.
pub open spec fn seen_throughout(
    before: ImageState,
    after: ImageState,
    holds: spec_fn(Seq<u8>) -> bool,
) -> bool {
    forall|seen: int|
        0 <= seen <= writes_since(before, after).len() ==> holds(
            #[trigger] replayed(before.bytes, writes_since(before, after).take(seen)),
        )
}

/// On the way from a state to itself a reader sees the bytes of that state.
pub proof fn lemma_seen_at_start(state: ImageState, holds: spec_fn(Seq<u8>) -> bool)
    requires
        holds(state.bytes),
    ensures
        follows(state, state),
        seen_throughout(state, state, holds),
{
    assert(writes_since(state, state) =~= Seq::<WriteRecord>::empty());
    assert(state.writes.subrange(0, state.writes.len() as int) =~= state.writes);
    assert forall|seen: int| 0 <= seen <= writes_since(state, state).len() implies holds(
        #[trigger] replayed(state.bytes, writes_since(state, state).take(seen)),
    ) by {
        assert(writes_since(state, state).take(seen) =~= Seq::<WriteRecord>::empty());
    }
}

/// One more write adds one more thing that a reader may see: the bytes after
/// that write.
pub proof fn lemma_seen_after_write(
    before: ImageState,
    state: ImageState,
    addr: int,
    data: Seq<u8>,
    holds: spec_fn(Seq<u8>) -> bool,
)
    requires
        follows(before, state),
        seen_throughout(before, state, holds),
        holds(state.write(addr, data).bytes),
    ensures
        follows(before, state.write(addr, data)),
        seen_throughout(before, state.write(addr, data), holds),
{
    let next = state.write(addr, data);
    let old_writes = writes_since(before, state);
    let new_writes = writes_since(before, next);
    let record = WriteRecord { addr, data };
    assert(new_writes =~= old_writes.push(record));
    assert(new_writes.drop_last() =~= old_writes);
    assert(next.writes.subrange(0, before.writes.len() as int) =~= before.writes);
    assert forall|seen: int| 0 <= seen <= new_writes.len() implies holds(
        #[trigger] replayed(before.bytes, new_writes.take(seen)),
    ) by {
        if seen <= old_writes.len() {
            assert(new_writes.take(seen) =~= old_writes.take(seen));
        } else {
            assert(new_writes.take(seen) =~= new_writes);
        }
    }
}

/// What holds of everything that a reader may see also holds in a weaker
/// form.
pub proof fn lemma_seen_weaker(
    before: ImageState,
    after: ImageState,
    holds: spec_fn(Seq<u8>) -> bool,
    weaker: spec_fn(Seq<u8>) -> bool,
)
    requires
        seen_throughout(before, after, holds),
        forall|bytes: Seq<u8>| #[trigger] holds(bytes) ==> weaker(bytes),
    ensures
        seen_throughout(before, after, weaker),
{
    assert forall|seen: int| 0 <= seen <= writes_since(before, after).len() implies weaker(
        #[trigger] replayed(before.bytes, writes_since(before, after).take(seen)),
    ) by {
        assert(holds(replayed(before.bytes, writes_since(before, after).take(seen))));
    }
}

/// What has held of everything that a reader may have seen holds of the
/// bytes at the end.
pub proof fn lemma_seen_at_end(
    before: ImageState,
    after: ImageState,
    holds: spec_fn(Seq<u8>) -> bool,
)
    requires
        follows(before, after),
        seen_throughout(before, after, holds),
    ensures
        holds(after.bytes),
{
    let writes = writes_since(before, after);
    assert(writes.take(writes.len() as int) =~= writes);
    assert(holds(replayed(before.bytes, writes.take(writes.len() as int))));
}

/// Whether a reader who looks for `reader` in `bytes` gets what the
/// dictionary gave before an operation, when the container held `old`, or
/// what it gives after the operation, when the container holds `new`.
pub open spec fn reads_old_or_new<V: FileSerializable>(
    bytes: Seq<u8>,
    format: FileFormat,
    loc: int,
    old: Seq<u8>,
    new: Seq<u8>,
    reader: TsdfHash,
) -> bool {
    ||| spec_dict_get::<V>(bytes, format, loc, true, reader) == spec_dict_get::<V>(
        old,
        format,
        loc,
        true,
        reader,
    )
    ||| spec_dict_get::<V>(bytes, format, loc, true, reader) == spec_dict_get::<V>(
        new,
        format,
        loc,
        true,
        reader,
    )
}

/// Where the search for a hash gives the same in two containers, the
/// dictionary gives the same for it.
pub proof fn lemma_same_search_same_get<V: FileSerializable>(
    a: Seq<u8>,
    b: Seq<u8>,
    format: FileFormat,
    loc: int,
    reader: TsdfHash,
)
    requires
        same_search::<V>(a, b, format, first_shard_loc(format, loc), 0, reader),
    ensures
        spec_dict_get::<V>(b, format, loc, true, reader) == spec_dict_get::<V>(
            a,
            format,
            loc,
            true,
            reader,
        ),
{
}

/// The bytes while an entry is being put into a slot of a shard that the
/// container holds: once the value is written, and once the hash is written
/// too. Nothing but the slot has changed, the commit flag is as it was, and
/// a slot that was committed reads with the new value, and with the new hash
/// once that is written.
pub proof fn lemma_fill_stages<V: FileSerializable>(
    state: ImageState,
    format: FileFormat,
    loc: int,
    link: int,
    n: int,
    hash: TsdfHash,
    val: V,
)
    requires
        shard_within::<V>(format, loc, link, state.bytes.len() as int),
        0 <= n < spec_capacity(link),
        !hash.is_null(),
        val.well_formed(),
    ensures
        ({
            let valued = state.write(val_addr::<V>(format, loc, n), spec_encoding(format, val));
            let hashed = valued.write(hash_addr::<V>(format, loc, n), spec_encoding(format, hash));
            &&& hashed.write(flag_addr::<V>(format, loc, n), seq![1u8]) == spec_slot_filled::<V>(
                state,
                format,
                loc,
                n,
                hash,
                val,
            )
            &&& valued.bytes.len() == state.bytes.len()
            &&& hashed.bytes.len() == state.bytes.len()
            &&& same_outside(
                state.bytes,
                valued.bytes,
                hash_addr::<V>(format, loc, n),
                hash_addr::<V>(format, loc, n + 1),
            )
            &&& same_outside(
                state.bytes,
                hashed.bytes,
                hash_addr::<V>(format, loc, n),
                hash_addr::<V>(format, loc, n + 1),
            )
            &&& spec_is_hash_written::<V>(valued.bytes, format, loc, n) == spec_is_hash_written::<
                V,
            >(state.bytes, format, loc, n)
            &&& spec_is_hash_written::<V>(hashed.bytes, format, loc, n) == spec_is_hash_written::<
                V,
            >(state.bytes, format, loc, n)
            &&& spec_get_hash::<V>(valued.bytes, format, loc, n) == spec_get_hash::<V>(
                state.bytes,
                format,
                loc,
                n,
            )
            &&& spec_is_hash_written::<V>(state.bytes, format, loc, n) == Ok::<bool, TsdfError>(
                true,
            ) ==> {
                &&& spec_get_val::<V>(valued.bytes, format, loc, n) == Ok::<V, TsdfError>(val)
                &&& spec_get_val::<V>(hashed.bytes, format, loc, n) == Ok::<V, TsdfError>(val)
                &&& spec_get_hash::<V>(hashed.bytes, format, loc, n) == Ok::<TsdfHash, TsdfError>(
                    hash,
                )
            }
            &&& spec_is_hash_written::<V>(state.bytes, format, loc, n) == Ok::<bool, TsdfError>(
                false,
            ) ==> {
                &&& spec_get_hash::<V>(hashed.bytes, format, loc, n) == Ok::<TsdfHash, TsdfError>(
                    TsdfHash::spec_null(),
                )
            }
        }),
{
    lemma_slot_within_shard::<V>(format, loc, link, n);
    lemma_encoding_len(format, hash);
    lemma_encoding_len(format, val);
    lemma_decode_encode(format, hash);
    lemma_decode_encode(format, val);
    let ha = hash_addr::<V>(format, loc, n);
    let va = val_addr::<V>(format, loc, n);
    let fa = flag_addr::<V>(format, loc, n);
    let eh = spec_encoding(format, hash);
    let ev = spec_encoding(format, val);
    let b0 = state.bytes;
    let b1 = bytes_after_write(b0, va, ev);
    let b2 = bytes_after_write(b1, ha, eh);
    lemma_write(b0, va, ev);
    lemma_write(b1, ha, eh);
    assert(b1.subrange(ha, ha + eh.len()) =~= b0.subrange(ha, ha + eh.len()));
    assert(b2.subrange(va, va + ev.len()) =~= ev);
    assert(b2.subrange(ha, ha + eh.len()) =~= eh);
    assert(b1[fa] == b0[fa]);
    assert(b2[fa] == b0[fa]);
}

/// A reader who looks while an entry is being put into its slot of a shard
/// of the chain gets, for every hash, what the dictionary gave before or what
/// it gives after: while the commit flag is not set the slot counts as free,
/// and a slot that was committed for the same key before shows the new value
/// from the moment it is written.
pub proof fn lemma_reads_while_filling<V: FileSerializable>(
    state: ImageState,
    seen: Seq<u8>,
    format: FileFormat,
    loc: int,
    hash: TsdfHash,
    val: V,
    target: Place,
    reader: TsdfHash,
)
    requires
        dict_valid::<V>(state.bytes, format, loc, true),
        spec_insert_point::<V>(state.bytes, format, first_shard_loc(format, loc), 0, hash) == Ok::<
            InsertPoint,
            TsdfError,
        >(InsertPoint::Slot(target)),
        !hash.is_null(),
        val.well_formed(),
        seen.len() == state.bytes.len(),
        same_outside(
            state.bytes,
            seen,
            slot_begin::<V>(format, target, hash),
            slot_end::<V>(format, target, hash),
        ),
        spec_is_hash_written::<V>(seen, format, target.loc, spec_slot_index(hash, target.link))
            == spec_is_hash_written::<V>(
            state.bytes,
            format,
            target.loc,
            spec_slot_index(hash, target.link),
        ),
        spec_is_hash_written::<V>(
            state.bytes,
            format,
            target.loc,
            spec_slot_index(hash, target.link),
        ) == Ok::<bool, TsdfError>(true) ==> {
            &&& spec_get_hash::<V>(seen, format, target.loc, spec_slot_index(hash, target.link))
                == Ok::<TsdfHash, TsdfError>(hash)
            &&& spec_get_val::<V>(seen, format, target.loc, spec_slot_index(hash, target.link))
                == Ok::<V, TsdfError>(val)
        },
        spec_is_hash_written::<V>(
            state.bytes,
            format,
            target.loc,
            spec_slot_index(hash, target.link),
        ) == Ok::<bool, TsdfError>(false) ==> spec_get_hash::<V>(
            seen,
            format,
            target.loc,
            spec_slot_index(hash, target.link),
        ) == Ok::<TsdfHash, TsdfError>(TsdfHash::spec_null()),
    ensures
        reads_old_or_new::<V>(
            seen,
            format,
            loc,
            state.bytes,
            spec_chain_add::<V>(state, format, first_shard_loc(format, loc), hash, val).0.bytes,
            reader,
        ),
{
    let first = first_shard_loc(format, loc);
    let a = state.bytes;
    let n = spec_slot_index(hash, target.link);
    lemma_insert_point_on_chain::<V>(a, format, first, 0, hash, target);
    lemma_insert_point_reached::<V>(a, format, first, 0, hash, target);
    if spec_is_hash_written::<V>(a, format, target.loc, n) == Ok::<bool, TsdfError>(true)
        && reader == hash {
        lemma_find_after_fill::<V>(a, seen, format, first, 0, hash, target);
        lemma_chain_add::<V>(state, format, first, hash, val);
    } else {
        lemma_other_search_same::<V>(a, seen, format, first, 0, hash, target, reader);
        lemma_same_search_same_get::<V>(a, seen, format, loc, reader);
    }
}

/// A reader who looks while an add puts an entry into a slot of a shard of
/// the chain, after any number of the writes of the add, gets for every hash
/// what the dictionary gave before the add or what it gives after it.
pub proof fn lemma_fill_seen<V: FileSerializable>(
    state: ImageState,
    format: FileFormat,
    loc: int,
    hash: TsdfHash,
    val: V,
    target: Place,
    reader: TsdfHash,
)
    requires
        dict_valid::<V>(state.bytes, format, loc, true),
        spec_insert_point::<V>(state.bytes, format, first_shard_loc(format, loc), 0, hash) == Ok::<
            InsertPoint,
            TsdfError,
        >(InsertPoint::Slot(target)),
        !hash.is_null(),
        val.well_formed(),
    ensures
        follows(
            state,
            spec_chain_add::<V>(state, format, first_shard_loc(format, loc), hash, val).0,
        ),
        seen_throughout(
            state,
            spec_chain_add::<V>(state, format, first_shard_loc(format, loc), hash, val).0,
            |bytes: Seq<u8>|
                reads_old_or_new::<V>(
                    bytes,
                    format,
                    loc,
                    state.bytes,
                    spec_chain_add::<V>(
                        state,
                        format,
                        first_shard_loc(format, loc),
                        hash,
                        val,
                    ).0.bytes,
                    reader,
                ),
        ),
{
    let first = first_shard_loc(format, loc);
    let after = spec_chain_add::<V>(state, format, first, hash, val).0;
    let holds = |bytes: Seq<u8>|
        reads_old_or_new::<V>(bytes, format, loc, state.bytes, after.bytes, reader);
    let n = spec_slot_index(hash, target.link);
    lemma_insert_point_on_chain::<V>(state.bytes, format, first, 0, hash, target);
    lemma_slot_index_in_range(hash, target.link);
    lemma_fill_stages::<V>(state, format, target.loc, target.link, n, hash, val);
    let valued = state.write(val_addr::<V>(format, target.loc, n), spec_encoding(format, val));
    let hashed = valued.write(hash_addr::<V>(format, target.loc, n), spec_encoding(format, hash));
    lemma_reads_while_filling::<V>(state, valued.bytes, format, loc, hash, val, target, reader);
    lemma_reads_while_filling::<V>(state, hashed.bytes, format, loc, hash, val, target, reader);
    lemma_seen_at_start(state, holds);
    lemma_seen_after_write(
        state,
        state,
        val_addr::<V>(format, target.loc, n),
        spec_encoding(format, val),
        holds,
    );
    lemma_seen_after_write(
        state,
        valued,
        hash_addr::<V>(format, target.loc, n),
        spec_encoding(format, hash),
        holds,
    );
    lemma_seen_after_write(
        state,
        hashed,
        flag_addr::<V>(format, target.loc, n),
        seq![1u8],
        holds,
    );
}

/// The bytes while a slot of a shard that the container holds is being
/// cleared: once the commit flag is taken back, and once the hash is
/// overwritten too. Nothing but the slot has changed, and the slot reads as
/// not committed.
pub proof fn lemma_clear_stages<V: FileSerializable>(
    state: ImageState,
    format: FileFormat,
    loc: int,
    link: int,
    n: int,
)
    requires
        shard_within::<V>(format, loc, link, state.bytes.len() as int),
        0 <= n < spec_capacity(link),
    ensures
        ({
            let unflagged = state.write(flag_addr::<V>(format, loc, n), seq![0u8]);
            let unhashed = unflagged.write(
                hash_addr::<V>(format, loc, n),
                spec_encoding(format, TsdfHash::spec_null()),
            );
            &&& unhashed.write(
                val_addr::<V>(format, loc, n),
                spec_encoding(format, V::spec_null()),
            ) == spec_slot_cleared::<V>(state, format, loc, n)
            &&& unflagged.bytes.len() == state.bytes.len()
            &&& unhashed.bytes.len() == state.bytes.len()
            &&& same_outside(
                state.bytes,
                unflagged.bytes,
                hash_addr::<V>(format, loc, n),
                hash_addr::<V>(format, loc, n + 1),
            )
            &&& same_outside(
                state.bytes,
                unhashed.bytes,
                hash_addr::<V>(format, loc, n),
                hash_addr::<V>(format, loc, n + 1),
            )
            &&& spec_is_hash_written::<V>(unflagged.bytes, format, loc, n) == Ok::<
                bool,
                TsdfError,
            >(false)
            &&& spec_is_hash_written::<V>(unhashed.bytes, format, loc, n) == Ok::<bool, TsdfError>(
                false,
            )
        }),
{
    lemma_slot_within_shard::<V>(format, loc, link, n);
    lemma_encoding_len(format, TsdfHash::spec_null());
    let ha = hash_addr::<V>(format, loc, n);
    let fa = flag_addr::<V>(format, loc, n);
    let eh = spec_encoding(format, TsdfHash::spec_null());
    let b0 = state.bytes;
    let b1 = bytes_after_write(b0, fa, seq![0u8]);
    let b2 = bytes_after_write(b1, ha, eh);
    lemma_write(b0, fa, seq![0u8]);
    lemma_write(b1, ha, eh);
    assert(b1[fa] == 0u8);
    assert(b2[fa] == 0u8);
}

/// A reader who looks while the slot that holds a key is being cleared gets,
/// for every hash, what the dictionary gave before or what it gives after:
/// from the moment the commit flag is taken back the key counts as removed.
pub proof fn lemma_reads_while_clearing<V: FileSerializable>(
    state: ImageState,
    seen: Seq<u8>,
    format: FileFormat,
    loc: int,
    hash: TsdfHash,
    target: Place,
    reader: TsdfHash,
)
    requires
        dict_valid::<V>(state.bytes, format, loc, true),
        spec_find::<V>(state.bytes, format, first_shard_loc(format, loc), 0, hash) == Ok::<
            Option<Place>,
            TsdfError,
        >(Some(target)),
        seen.len() == state.bytes.len(),
        same_outside(
            state.bytes,
            seen,
            slot_begin::<V>(format, target, hash),
            slot_end::<V>(format, target, hash),
        ),
        spec_is_hash_written::<V>(seen, format, target.loc, spec_slot_index(hash, target.link))
            == Ok::<bool, TsdfError>(false),
    ensures
        reads_old_or_new::<V>(
            seen,
            format,
            loc,
            state.bytes,
            spec_dict_remove::<V>(state, format, loc, true, hash).0.bytes,
            reader,
        ),
{
    let first = first_shard_loc(format, loc);
    let a = state.bytes;
    let n = spec_slot_index(hash, target.link);
    lemma_found_on_chain::<V>(a, format, first, 0, hash, target);
    lemma_found_reached::<V>(a, format, first, 0, hash, target);
    lemma_slot_index_in_range(hash, target.link);
    lemma_slot_within_shard::<V>(format, target.loc, target.link, n);
    lemma_slot_within_shard::<V>(format, target.loc, target.link, 0);
    lemma_capacity_bounds(target.link);
    if reader == hash {
        let cleared = spec_slot_cleared::<V>(state, format, target.loc, n);
        lemma_slot_cleared::<V>(state, format, target.loc, target.link, n);
        lemma_find_after_clear::<V>(a, seen, format, first, 0, hash, target);
        lemma_find_after_clear::<V>(a, cleared.bytes, format, first, 0, hash, target);
        match spec_get_next(a, format, target.loc) {
            Ok(LinkPtr::Addr(next)) => {
                lemma_same_search_frame::<V>(
                    a,
                    seen,
                    format,
                    next.loc as int,
                    target.link + 1,
                    hash,
                );
                lemma_same_search_frame::<V>(
                    a,
                    cleared.bytes,
                    format,
                    next.loc as int,
                    target.link + 1,
                    hash,
                );
            },
            _ => {},
        }
    } else {
        lemma_other_search_same::<V>(a, seen, format, first, 0, hash, target, reader);
        lemma_same_search_same_get::<V>(a, seen, format, loc, reader);
    }
}

/// Remove publishes at once: a reader who looks while a remove is at work,
/// after any number of its writes, gets for every hash what the dictionary
/// gave before the remove or what it gives after it.
pub proof fn lemma_remove_seen<V: FileSerializable>(
    state: ImageState,
    format: FileFormat,
    loc: int,
    hash: TsdfHash,
    reader: TsdfHash,
)
    requires
        dict_valid::<V>(state.bytes, format, loc, true),
    ensures
        follows(state, spec_dict_remove::<V>(state, format, loc, true, hash).0),
        seen_throughout(
            state,
            spec_dict_remove::<V>(state, format, loc, true, hash).0,
            |bytes: Seq<u8>|
                reads_old_or_new::<V>(
                    bytes,
                    format,
                    loc,
                    state.bytes,
                    spec_dict_remove::<V>(state, format, loc, true, hash).0.bytes,
                    reader,
                ),
        ),
{
    let first = first_shard_loc(format, loc);
    let after = spec_dict_remove::<V>(state, format, loc, true, hash).0;
    let holds = |bytes: Seq<u8>|
        reads_old_or_new::<V>(bytes, format, loc, state.bytes, after.bytes, reader);
    lemma_seen_at_start(state, holds);
    match spec_find::<V>(state.bytes, format, first, 0, hash) {
        Ok(Some(target)) => {
            let n = spec_slot_index(hash, target.link);
            lemma_found_on_chain::<V>(state.bytes, format, first, 0, hash, target);
            lemma_slot_index_in_range(hash, target.link);
            lemma_clear_stages::<V>(state, format, target.loc, target.link, n);
            let unflagged = state.write(flag_addr::<V>(format, target.loc, n), seq![0u8]);
            let unhashed = unflagged.write(
                hash_addr::<V>(format, target.loc, n),
                spec_encoding(format, TsdfHash::spec_null()),
            );
            lemma_reads_while_clearing::<V>(
                state,
                unflagged.bytes,
                format,
                loc,
                hash,
                target,
                reader,
            );
            lemma_reads_while_clearing::<V>(
                state,
                unhashed.bytes,
                format,
                loc,
                hash,
                target,
                reader,
            );
            lemma_seen_after_write(
                state,
                state,
                flag_addr::<V>(format, target.loc, n),
                seq![0u8],
                holds,
            );
            lemma_seen_after_write(
                state,
                unflagged,
                hash_addr::<V>(format, target.loc, n),
                spec_encoding(format, TsdfHash::spec_null()),
                holds,
            );
            lemma_seen_after_write(
                state,
                unhashed,
                val_addr::<V>(format, target.loc, n),
                spec_encoding(format, V::spec_null()),
                holds,
            );
        },
        _ => {},
    }
}

/// Whether `bytes` holds all that `old` holds, and maybe more behind it.
pub open spec fn grown_from(old: Seq<u8>, bytes: Seq<u8>) -> bool {
    &&& old.len() <= bytes.len()
    &&& forall|i: int| 0 <= i < old.len() ==> bytes[i] == old[i]
}

/// A write at or behind the old end of a container leaves what the container
/// held.
pub proof fn lemma_grown_after_write(old: Seq<u8>, bytes: Seq<u8>, addr: int, data: Seq<u8>)
    requires
        grown_from(old, bytes),
        old.len() <= addr,
    ensures
        grown_from(old, bytes_after_write(bytes, addr, data)),
{
    lemma_write(bytes, addr, data);
}

/// While slots are laid out at or behind the old end of a container, a
/// reader sees all that the container held.
pub proof fn lemma_blank_seen<V: FileSerializable>(
    before: ImageState,
    state: ImageState,
    format: FileFormat,
    loc: int,
    count: int,
)
    requires
        follows(before, state),
        seen_throughout(before, state, |bytes: Seq<u8>| grown_from(before.bytes, bytes)),
        before.bytes.len() <= loc,
        0 <= count,
    ensures
        follows(before, spec_slots_blank::<V>(state, format, loc, count)),
        seen_throughout(
            before,
            spec_slots_blank::<V>(state, format, loc, count),
            |bytes: Seq<u8>| grown_from(before.bytes, bytes),
        ),
    decreases count,
{
    if count > 0 {
        let holds = |bytes: Seq<u8>| grown_from(before.bytes, bytes);
        let n = count - 1;
        lemma_blank_seen::<V>(before, state, format, loc, n);
        lemma_slots_ordered::<V>(format, loc, 0, n);
        let blank = spec_slots_blank::<V>(state, format, loc, n);
        let ha = hash_addr::<V>(format, loc, n);
        let va = val_addr::<V>(format, loc, n);
        let fa = flag_addr::<V>(format, loc, n);
        let eh = spec_encoding(format, TsdfHash::spec_null());
        let ev = spec_encoding(format, V::spec_null());
        let hashed = blank.write(ha, eh);
        let valued = hashed.write(va, ev);
        lemma_seen_at_end(before, blank, holds);
        lemma_grown_after_write(before.bytes, blank.bytes, ha, eh);
        lemma_seen_after_write(before, blank, ha, eh, holds);
        lemma_grown_after_write(before.bytes, hashed.bytes, va, ev);
        lemma_seen_after_write(before, hashed, va, ev, holds);
        lemma_grown_after_write(before.bytes, valued.bytes, fa, seq![0u8]);
        lemma_seen_after_write(before, valued, fa, seq![0u8], holds);
    }
}

/// While a shard is initialized at or behind the old end of a container, a
/// reader sees all that the container held.
pub proof fn lemma_init_seen<V: FileSerializable>(
    state: ImageState,
    format: FileFormat,
    loc: int,
    link: int,
)
    requires
        state.bytes.len() <= loc,
        0 <= link <= MAX_LINK_NUMBER,
    ensures
        follows(state, spec_shard_initialized::<V>(state, format, loc, link)),
        seen_throughout(
            state,
            spec_shard_initialized::<V>(state, format, loc, link),
            |bytes: Seq<u8>| grown_from(state.bytes, bytes),
        ),
{
    let holds = |bytes: Seq<u8>| grown_from(state.bytes, bytes);
    lemma_capacity_bounds(link);
    lemma_seen_at_start(state, holds);
    lemma_blank_seen::<V>(state, state, format, loc, spec_capacity(link));
    let blank = spec_slots_blank::<V>(state, format, loc, spec_capacity(link));
    lemma_seen_at_end(state, blank, holds);
    lemma_grown_after_write(state.bytes, blank.bytes, loc, seq![0u8]);
    lemma_seen_after_write(state, blank, loc, seq![0u8], holds);
}

/// Whether `bytes` is what a reader may see while a new shard is being put
/// behind the shard at `last`, the last of its chain in `old`, before an
/// entry is committed in it: a whole shard stands at the old end of the
/// container, with no slot committed and no successor; the shard at `last`
/// either reads as before or as pointing at the new shard; and nothing else
/// has changed in what the container held.
pub open spec fn appended_empty<V: FileSerializable>(
    old: Seq<u8>,
    bytes: Seq<u8>,
    format: FileFormat,
    last: Place,
) -> bool {
    &&& same_outside(old, bytes, last.loc, last.loc + header_width(format))
    &&& shard_loadable::<V>(bytes, format, old.len() as int, last.link + 1)
    &&& spec_is_next_written(bytes, old.len() as int) == Ok::<bool, TsdfError>(false)
    &&& forall|m: int|
        0 <= m < spec_capacity(last.link + 1) ==> #[trigger] spec_is_hash_written::<V>(
            bytes,
            format,
            old.len() as int,
            m,
        ) == Ok::<bool, TsdfError>(false)
    &&& {
        ||| spec_get_next(bytes, format, last.loc) == spec_get_next(old, format, last.loc)
        ||| spec_get_next(bytes, format, last.loc) == Ok::<LinkPtr, TsdfError>(
            LinkPtr::Addr(Addr { loc: old.len() as u64 }),
        )
    }
}

/// A change to the header of the last shard of a valid chain that leaves it
/// without a successor changes nothing for any search.
pub proof fn lemma_search_same_unpublished<V: FileSerializable>(
    a: Seq<u8>,
    b: Seq<u8>,
    format: FileFormat,
    loc: int,
    link: int,
    last: Place,
    reader: TsdfHash,
)
    requires
        chain_valid::<V>(a, format, loc, link),
        chain_reaches::<V>(a, format, loc, link, last),
        spec_get_next(a, format, last.loc) is Ok,
        spec_get_next(a, format, last.loc)->Ok_0 is Null,
        same_outside(a, b, last.loc, last.loc + header_width(format)),
        spec_get_next(b, format, last.loc) == spec_get_next(a, format, last.loc),
    ensures
        same_search::<V>(a, b, format, loc, link, reader),
    decreases MAX_LINK_NUMBER + 1 - link,
{
    let m = spec_slot_index(reader, link);
    lemma_chain_reaches_behind::<V>(a, format, loc, link, last);
    lemma_slot_index_in_range(reader, link);
    lemma_capacity_bounds(link);
    lemma_slot_within_shard::<V>(format, loc, link, m);
    lemma_slot_within_shard::<V>(format, loc, link, 0);
    if last.link == link {
        lemma_slot_reads_same::<V>(a, b, format, loc, link, m);
    } else {
        let next = spec_get_next(a, format, loc)->Ok_0->Addr_0;
        lemma_chain_reaches_behind::<V>(a, format, next.loc as int, link + 1, last);
        lemma_search_same_unpublished::<V>(a, b, format, next.loc as int, link + 1, last, reader);
        lemma_shard_reads_same::<V>(a, b, format, loc, link, m);
    }
}

/// A reader who looks while a new shard is being put behind the last shard
/// of the chain, before an entry is committed in it, gets for every hash
/// what the dictionary gave before: an empty shard more changes nothing.
pub proof fn lemma_reads_while_appending<V: FileSerializable>(
    old: Seq<u8>,
    seen: Seq<u8>,
    format: FileFormat,
    loc: int,
    hash: TsdfHash,
    last: Place,
    reader: TsdfHash,
)
    requires
        dict_valid::<V>(old, format, loc, true),
        spec_insert_point::<V>(old, format, first_shard_loc(format, loc), 0, hash) == Ok::<
            InsertPoint,
            TsdfError,
        >(InsertPoint::Append(last)),
        old.len() <= u64::MAX,
        appended_empty::<V>(old, seen, format, last),
    ensures
        spec_dict_get::<V>(seen, format, loc, true, reader) == spec_dict_get::<V>(
            old,
            format,
            loc,
            true,
            reader,
        ),
{
    let first = first_shard_loc(format, loc);
    lemma_insert_point_on_chain::<V>(old, format, first, 0, hash, last);
    lemma_insert_point_reached::<V>(old, format, first, 0, hash, last);
    if spec_get_next(seen, format, last.loc) == spec_get_next(old, format, last.loc) {
        lemma_search_same_unpublished::<V>(old, seen, format, first, 0, last, reader);
    } else {
        lemma_slot_index_in_range(reader, last.link + 1);
        assert(spec_is_hash_written::<V>(
            seen,
            format,
            old.len() as int,
            spec_slot_index(reader, last.link + 1),
        ) == Ok::<bool, TsdfError>(false));
        lemma_other_search_after_append::<V>(old, seen, format, first, 0, last, reader);
    }
    lemma_same_search_same_get::<V>(old, seen, format, loc, reader);
}

/// A write into the hash or the value of one slot of a new shard at the old
/// end of the container leaves the shard without a committed slot.
pub proof fn lemma_appended_empty_after_write<V: FileSerializable>(
    old: Seq<u8>,
    bytes: Seq<u8>,
    format: FileFormat,
    last: Place,
    n: int,
    addr: int,
    data: Seq<u8>,
)
    requires
        appended_empty::<V>(old, bytes, format, last),
        0 <= last.loc,
        last.loc + header_width(format) <= old.len(),
        0 <= n < spec_capacity(last.link + 1),
        hash_addr::<V>(format, old.len() as int, n) <= addr,
        addr + data.len() <= flag_addr::<V>(format, old.len() as int, n),
    ensures
        appended_empty::<V>(old, bytes_after_write(bytes, addr, data), format, last),
{
    let new_loc = old.len() as int;
    let link = last.link + 1;
    let after = bytes_after_write(bytes, addr, data);
    lemma_capacity_bounds(link);
    lemma_slot_within_shard::<V>(format, new_loc, link, n);
    lemma_slot_within_shard::<V>(format, new_loc, link, 0);
    lemma_write(bytes, addr, data);
    lemma_next_reads_same(bytes, after, format, last.loc);
    assert(after[new_loc] == bytes[new_loc]);
    assert forall|m: int| 0 <= m < spec_capacity(link) implies #[trigger] spec_is_hash_written::<V>(
        after,
        format,
        new_loc,
        m,
    ) == Ok::<bool, TsdfError>(false) by {
        lemma_slot_within_shard::<V>(format, new_loc, link, m);
        assert(spec_is_hash_written::<V>(bytes, format, new_loc, m) == Ok::<bool, TsdfError>(
            false,
        ));
        if m < n {
            lemma_slots_ordered::<V>(format, new_loc, m + 1, n);
        } else if m > n {
            lemma_slots_ordered::<V>(format, new_loc, n + 1, m);
        }
        let fm = flag_addr::<V>(format, new_loc, m);
        assert(after[fm] == bytes[fm]);
    }
}

/// The bytes while a new shard is published behind the shard at `last`: once
/// the new shard is initialized, once the pointer to it is written, and once
/// the flag of the pointer is set. Each time the container holds a new shard
/// without a committed slot, and nothing else has changed but, at most, the
/// header of the shard at `last`.
#[verifier::rlimit(40)]
pub proof fn lemma_publish_stages<V: FileSerializable>(
    state: ImageState,
    format: FileFormat,
    last: Place,
)
    requires
        shard_within::<V>(format, last.loc, last.link, state.bytes.len() as int),
        shard_within::<V>(format, state.bytes.len() as int, last.link + 1, usize::MAX as int),
    ensures
        ({
            let new_loc = state.bytes.len() as int;
            let next = LinkPtr::Addr(Addr { loc: new_loc as u64 });
            let laid_out = spec_shard_initialized::<V>(state, format, new_loc, last.link + 1);
            let pointed = laid_out.write(last.loc + 1, spec_encoding(format, next));
            let published = pointed.write(last.loc, seq![1u8]);
            &&& published == spec_next_set(laid_out, format, last.loc, next)
            &&& appended_empty::<V>(state.bytes, laid_out.bytes, format, last)
            &&& appended_empty::<V>(state.bytes, pointed.bytes, format, last)
            &&& appended_empty::<V>(state.bytes, published.bytes, format, last)
        }),
{
    let a = state.bytes;
    let new_loc = a.len() as int;
    let link = last.link + 1;
    let next = LinkPtr::Addr(Addr { loc: new_loc as u64 });
    let en = spec_encoding(format, next);
    lemma_capacity_bounds(last.link);
    lemma_capacity_bounds(link);
    lemma_slot_within_shard::<V>(format, last.loc, last.link, 0);
    lemma_slot_within_shard::<V>(format, new_loc, link, 0);
    lemma_encoding_len(format, next);
    lemma_decode_encode(format, next);
    let laid_out = spec_shard_initialized::<V>(state, format, new_loc, link);
    lemma_shard_initialized::<V>(state, format, new_loc, link);
    lemma_next_reads_same(a, laid_out.bytes, format, last.loc);
    let pointed = laid_out.write(last.loc + 1, en);
    lemma_write(laid_out.bytes, last.loc + 1, en);
    assert(pointed.bytes.subrange(last.loc + 1, last.loc + 1 + en.len()) =~= en);
    assert(pointed.bytes[last.loc] == a[last.loc]);
    assert(pointed.bytes[new_loc] == laid_out.bytes[new_loc]);
    assert forall|m: int| 0 <= m < spec_capacity(link) implies #[trigger] spec_is_hash_written::<V>(
        pointed.bytes,
        format,
        new_loc,
        m,
    ) == Ok::<bool, TsdfError>(false) by {
        lemma_slot_within_shard::<V>(format, new_loc, link, m);
        assert(spec_is_hash_written::<V>(laid_out.bytes, format, new_loc, m) == Ok::<
            bool,
            TsdfError,
        >(false));
        let fm = flag_addr::<V>(format, new_loc, m);
        assert(pointed.bytes[fm] == laid_out.bytes[fm]);
    }
    let published = pointed.write(last.loc, seq![1u8]);
    lemma_next_set::<V>(laid_out, format, last.loc, last.link, next);
    lemma_write(pointed.bytes, last.loc, seq![1u8]);
    assert(published.bytes[new_loc] == laid_out.bytes[new_loc]);
    assert forall|m: int| 0 <= m < spec_capacity(link) implies #[trigger] spec_is_hash_written::<V>(
        published.bytes,
        format,
        new_loc,
        m,
    ) == Ok::<bool, TsdfError>(false) by {
        lemma_slot_within_shard::<V>(format, new_loc, link, m);
        assert(spec_is_hash_written::<V>(pointed.bytes, format, new_loc, m) == Ok::<
            bool,
            TsdfError,
        >(false));
        let fm = flag_addr::<V>(format, new_loc, m);
        assert(published.bytes[fm] == pointed.bytes[fm]);
    }
}

/// A reader who looks while an add puts a new shard behind the chain and an
/// entry into it, after any number of the writes of the add, gets for every
/// hash what the dictionary gave before the add or what it gives after it:
/// the new shard shows only once it is laid out whole, and the entry only
/// once its commit flag is set.
#[verifier::rlimit(40)]
pub proof fn lemma_append_seen<V: FileSerializable>(
    state: ImageState,
    format: FileFormat,
    loc: int,
    hash: TsdfHash,
    val: V,
    last: Place,
    reader: TsdfHash,
)
    requires
        dict_valid::<V>(state.bytes, format, loc, true),
        spec_insert_point::<V>(state.bytes, format, first_shard_loc(format, loc), 0, hash) == Ok::<
            InsertPoint,
            TsdfError,
        >(InsertPoint::Append(last)),
        shard_within::<V>(format, state.bytes.len() as int, last.link + 1, usize::MAX as int),
        !hash.is_null(),
        val.well_formed(),
    ensures
        follows(state, spec_appended::<V>(state, format, last, hash, val)),
        seen_throughout(
            state,
            spec_appended::<V>(state, format, last, hash, val),
            |bytes: Seq<u8>|
                reads_old_or_new::<V>(
                    bytes,
                    format,
                    loc,
                    state.bytes,
                    spec_appended::<V>(state, format, last, hash, val).bytes,
                    reader,
                ),
        ),
{
    let first = first_shard_loc(format, loc);
    let a = state.bytes;
    let after = spec_appended::<V>(state, format, last, hash, val);
    let holds = |bytes: Seq<u8>| reads_old_or_new::<V>(bytes, format, loc, a, after.bytes, reader);
    let grown = |bytes: Seq<u8>| grown_from(a, bytes);
    let new_loc = a.len() as int;
    let link = last.link + 1;
    let n = spec_slot_index(hash, link);
    let next = LinkPtr::Addr(Addr { loc: new_loc as u64 });
    lemma_insert_point_on_chain::<V>(a, format, first, 0, hash, last);
    lemma_slot_index_in_range(hash, link);
    lemma_capacity_bounds(last.link);
    lemma_slot_within_shard::<V>(format, last.loc, last.link, 0);
    lemma_slot_within_shard::<V>(format, new_loc, link, n);
    lemma_encoding_len(format, hash);
    lemma_encoding_len(format, val);

    // While the new shard is laid out, all that the container held is there.
    let laid_out = spec_shard_initialized::<V>(state, format, new_loc, link);
    lemma_init_seen::<V>(state, format, new_loc, link);
    assert forall|bytes: Seq<u8>| #[trigger] grown(bytes) implies holds(bytes) by {
        lemma_same_search_frame::<V>(a, bytes, format, first, 0, reader);
        lemma_same_search_same_get::<V>(a, bytes, format, loc, reader);
    }
    lemma_seen_weaker(state, laid_out, grown, holds);

    // While it is published and filled, it holds no committed slot.
    lemma_publish_stages::<V>(state, format, last);
    let pointed = laid_out.write(last.loc + 1, spec_encoding(format, next));
    let published = pointed.write(last.loc, seq![1u8]);
    let valued = published.write(val_addr::<V>(format, new_loc, n), spec_encoding(format, val));
    let hashed = valued.write(hash_addr::<V>(format, new_loc, n), spec_encoding(format, hash));
    lemma_appended_empty_after_write::<V>(
        a,
        published.bytes,
        format,
        last,
        n,
        val_addr::<V>(format, new_loc, n),
        spec_encoding(format, val),
    );
    lemma_appended_empty_after_write::<V>(
        a,
        valued.bytes,
        format,
        last,
        n,
        hash_addr::<V>(format, new_loc, n),
        spec_encoding(format, hash),
    );
    lemma_reads_while_appending::<V>(a, pointed.bytes, format, loc, hash, last, reader);
    lemma_reads_while_appending::<V>(a, published.bytes, format, loc, hash, last, reader);
    lemma_reads_while_appending::<V>(a, valued.bytes, format, loc, hash, last, reader);
    lemma_reads_while_appending::<V>(a, hashed.bytes, format, loc, hash, last, reader);
    lemma_seen_after_write(state, laid_out, last.loc + 1, spec_encoding(format, next), holds);
    lemma_seen_after_write(state, pointed, last.loc, seq![1u8], holds);
    lemma_seen_after_write(
        state,
        published,
        val_addr::<V>(format, new_loc, n),
        spec_encoding(format, val),
        holds,
    );
    lemma_seen_after_write(
        state,
        valued,
        hash_addr::<V>(format, new_loc, n),
        spec_encoding(format, hash),
        holds,
    );
    assert(hashed.write(flag_addr::<V>(format, new_loc, n), seq![1u8]) == after);
    lemma_seen_after_write(state, hashed, flag_addr::<V>(format, new_loc, n), seq![1u8], holds);
}

/// Add publishes at once: a reader who looks while an add to an initialized
/// dictionary is at work, after any number of its writes, gets for every
/// hash what the dictionary gave before the add or what it gives after it.
/// Nobody sees a slot half written: the commit flag comes last.
pub proof fn lemma_add_seen<V: FileSerializable>(
    state: ImageState,
    format: FileFormat,
    loc: int,
    hash: TsdfHash,
    val: V,
    reader: TsdfHash,
)
    requires
        dict_valid::<V>(state.bytes, format, loc, true),
        val.well_formed(),
        spec_dict_add::<V>(state, format, loc, true, hash, val).2 is Ok,
    ensures
        follows(state, spec_dict_add::<V>(state, format, loc, true, hash, val).0),
        seen_throughout(
            state,
            spec_dict_add::<V>(state, format, loc, true, hash, val).0,
            |bytes: Seq<u8>|
                reads_old_or_new::<V>(
                    bytes,
                    format,
                    loc,
                    state.bytes,
                    spec_dict_add::<V>(state, format, loc, true, hash, val).0.bytes,
                    reader,
                ),
        ),
{
    let first = first_shard_loc(format, loc);
    match spec_insert_point::<V>(state.bytes, format, first, 0, hash) {
        Ok(InsertPoint::Slot(target)) => {
            lemma_fill_seen::<V>(state, format, loc, hash, val, target, reader);
        },
        Ok(InsertPoint::Append(last)) => {
            lemma_append_seen::<V>(state, format, loc, hash, val, last, reader);
        },
        Err(_) => {},
    }
}

} // verus!
