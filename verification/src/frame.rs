//! What the writes of the shard operations change in the bytes of a
//! container, and what they leave alone.

use vstd::prelude::*;
use crate::error::TsdfError;
use crate::format::FileFormat;
use crate::hash::TsdfHash;
use crate::image::{bytes_after_write, bytes_at, ImageState};
use crate::layout::{
    flag_addr, hash_addr, header_width, lemma_capacity_bounds, lemma_slot_within_shard,
    lemma_slots_ordered, shard_width, shard_within, spec_capacity, val_addr, MAX_LINK_NUMBER,
};
use crate::link_ptr::LinkPtr;
use crate::serial::{
    lemma_decode_encode, lemma_encoding_len, spec_encoding, spec_size_on_disk, FileSerializable,
};
use crate::shard::{
    spec_get_hash, spec_get_next, spec_get_val, spec_is_hash_written, spec_is_next_written,
    spec_next_set, spec_shard_initialized, spec_slot_cleared, spec_slot_filled, spec_slots_blank,
};

verus! {

/// Whether `a` and `b` hold the same bytes from `lo` up to `hi`, both
/// reaching that far.
pub open spec fn same_within(a: Seq<u8>, b: Seq<u8>, lo: int, hi: int) -> bool {
    &&& hi <= a.len()
    &&& hi <= b.len()
    &&& forall|i: int| 0 <= i && lo <= i < hi ==> a[i] == b[i]
}

/// Whether `b` holds what `a` holds everywhere but from `lo` up to `hi`: `b`
/// is at least as long as `a`, and every byte of `a` outside the range stands
/// in `b` too.
pub open spec fn same_outside(a: Seq<u8>, b: Seq<u8>, lo: int, hi: int) -> bool {
    &&& a.len() <= b.len()
    &&& forall|i: int| 0 <= i < a.len() && !(lo <= i < hi) ==> a[i] == b[i]
}

/// A write changes the bytes that it covers, grows the container where it
/// reaches past the end, and leaves every other byte alone.
pub proof fn lemma_write(bytes: Seq<u8>, addr: int, data: Seq<u8>)
    requires
        0 <= addr,
    ensures
        bytes_after_write(bytes, addr, data).len() == (if addr + data.len() > bytes.len() {
            addr + data.len()
        } else {
            bytes.len() as int
        }),
        same_outside(bytes, bytes_after_write(bytes, addr, data), addr, addr + data.len()),
        bytes_at(bytes_after_write(bytes, addr, data), addr, data.len() as int) == Some(data),
        forall|i: int|
            bytes.len() <= i < addr ==> #[trigger] bytes_after_write(bytes, addr, data)[i] == 0u8,
{
    let after = bytes_after_write(bytes, addr, data);
    assert(after.subrange(addr, addr + data.len()) =~= data);
}

/// Reading a range that is the same in two containers gives the same.
pub proof fn lemma_same_bytes_at(a: Seq<u8>, b: Seq<u8>, lo: int, hi: int, addr: int, count: int)
    requires
        same_within(a, b, lo, hi),
        0 <= addr,
        lo <= addr,
        0 <= count,
        addr + count <= hi,
    ensures
        bytes_at(a, addr, count) == bytes_at(b, addr, count),
        bytes_at(a, addr, count) is Some,
{
    assert(a.subrange(addr, addr + count) =~= b.subrange(addr, addr + count));
}

/// What is read from a shard depends on the bytes of that shard alone.
pub proof fn lemma_shard_reads_same<V: FileSerializable>(
    a: Seq<u8>,
    b: Seq<u8>,
    format: FileFormat,
    loc: int,
    link: int,
    n: int,
)
    requires
        0 <= link <= MAX_LINK_NUMBER,
        0 <= loc,
        same_within(a, b, loc, loc + shard_width::<V>(format, link)),
        0 <= n < spec_capacity(link),
    ensures
        spec_is_hash_written::<V>(a, format, loc, n) == spec_is_hash_written::<V>(
            b,
            format,
            loc,
            n,
        ),
        spec_get_hash::<V>(a, format, loc, n) == spec_get_hash::<V>(b, format, loc, n),
        spec_get_val::<V>(a, format, loc, n) == spec_get_val::<V>(b, format, loc, n),
        spec_get_next(a, format, loc) == spec_get_next(b, format, loc),
        spec_is_hash_written::<V>(a, format, loc, n) is Ok,
        spec_is_next_written(a, loc) is Ok,
{
    let hi = loc + shard_width::<V>(format, link);
    lemma_capacity_bounds(link);
    lemma_slot_within_shard::<V>(format, loc, link, n);
    lemma_slot_within_shard::<V>(format, loc, link, 0);
    lemma_same_bytes_at(
        a,
        b,
        loc,
        hi,
        hash_addr::<V>(format, loc, n),
        spec_size_on_disk::<TsdfHash>(format),
    );
    lemma_same_bytes_at(
        a,
        b,
        loc,
        hi,
        val_addr::<V>(format, loc, n),
        spec_size_on_disk::<V>(format),
    );
    lemma_same_bytes_at(a, b, loc, hi, loc + 1, spec_size_on_disk::<LinkPtr>(format));
    assert(a[flag_addr::<V>(format, loc, n)] == b[flag_addr::<V>(format, loc, n)]);
    assert(a[loc] == b[loc]);
}

/// What is read from a slot depends on the bytes of that slot alone.
pub proof fn lemma_slot_reads_same<V: FileSerializable>(
    a: Seq<u8>,
    b: Seq<u8>,
    format: FileFormat,
    loc: int,
    link: int,
    n: int,
)
    requires
        0 <= link <= MAX_LINK_NUMBER,
        0 <= loc,
        0 <= n < spec_capacity(link),
        same_within(
            a,
            b,
            hash_addr::<V>(format, loc, n),
            hash_addr::<V>(format, loc, n + 1),
        ),
    ensures
        spec_is_hash_written::<V>(a, format, loc, n) == spec_is_hash_written::<V>(
            b,
            format,
            loc,
            n,
        ),
        spec_get_hash::<V>(a, format, loc, n) == spec_get_hash::<V>(b, format, loc, n),
        spec_get_val::<V>(a, format, loc, n) == spec_get_val::<V>(
            b,
            format,
            loc,
            n,
        ),
{
    lemma_slot_within_shard::<V>(format, loc, link, n);
    let lo = hash_addr::<V>(format, loc, n);
    let hi = hash_addr::<V>(format, loc, n + 1);
    lemma_same_bytes_at(
        a,
        b,
        lo,
        hi,
        lo,
        spec_size_on_disk::<TsdfHash>(format),
    );
    lemma_same_bytes_at(
        a,
        b,
        lo,
        hi,
        val_addr::<V>(format, loc, n),
        spec_size_on_disk::<V>(format),
    );
    assert(a[flag_addr::<V>(format, loc, n)] == b[flag_addr::<V>(
        format,
        loc,
        n,
    )]);
}

/// The successor that is read from a shard depends on the bytes of the
/// shard's header alone.
pub proof fn lemma_next_reads_same(a: Seq<u8>, b: Seq<u8>, format: FileFormat, loc: int)
    requires
        0 <= loc,
        same_within(a, b, loc, loc + header_width(format)),
    ensures
        spec_get_next(a, format, loc) == spec_get_next(b, format, loc),
        spec_get_next(a, format, loc) is Ok ==> spec_is_next_written(a, loc) is Ok,
{
    lemma_same_bytes_at(
        a,
        b,
        loc,
        loc + header_width(format),
        loc + 1,
        spec_size_on_disk::<LinkPtr>(format),
    );
    assert(a[loc] == b[loc]);
}

/// Putting an entry into a slot of a shard that the container holds changes
/// the bytes of that slot and no others, and the slot then reads as
/// committed with that entry.
pub proof fn lemma_slot_filled<V: FileSerializable>(
    state: ImageState,
    format: FileFormat,
    loc: int,
    link: int,
    n: int,
    hash: TsdfHash,
    val: V,
)
    requires
        shard_within::<V>(format, loc, link, state.bytes.len() as int),
        0 <= n < spec_capacity(link),
        !hash.is_null(),
        val.well_formed(),
    ensures
        spec_slot_filled::<V>(state, format, loc, n, hash, val).bytes.len() == state.bytes.len(),
        same_outside(
            state.bytes,
            spec_slot_filled::<V>(state, format, loc, n, hash, val).bytes,
            hash_addr::<V>(format, loc, n),
            hash_addr::<V>(format, loc, n + 1),
        ),
        spec_get_hash::<V>(
            spec_slot_filled::<V>(state, format, loc, n, hash, val).bytes,
            format,
            loc,
            n,
        ) == Ok::<TsdfHash, TsdfError>(hash),
        spec_get_val::<V>(
            spec_slot_filled::<V>(state, format, loc, n, hash, val).bytes,
            format,
            loc,
            n,
        ) == Ok::<V, TsdfError>(val),
{
    lemma_slot_within_shard::<V>(format, loc, link, n);
    lemma_encoding_len(format, hash);
    lemma_encoding_len(format, val);
    lemma_decode_encode(format, hash);
    lemma_decode_encode(format, val);
    let ha = hash_addr::<V>(format, loc, n);
    let va = val_addr::<V>(format, loc, n);
    let fa = flag_addr::<V>(format, loc, n);
    let eh = spec_encoding(format, hash);
    let ev = spec_encoding(format, val);
    let b0 = state.bytes;
    let b1 = bytes_after_write(b0, va, ev);
    let b2 = bytes_after_write(b1, ha, eh);
    let b3 = bytes_after_write(b2, fa, seq![1u8]);
    assert(b3 == spec_slot_filled::<V>(state, format, loc, n, hash, val).bytes);
    lemma_write(b0, va, ev);
    lemma_write(b1, ha, eh);
    lemma_write(b2, fa, seq![1u8]);
    assert(b3.subrange(ha, ha + eh.len()) =~= eh);
    assert(b3.subrange(va, va + ev.len()) =~= ev);
    assert(b3[fa] == 1u8);
}

/// Clearing a slot of a shard that the container holds changes the bytes of
/// that slot and no others, and the slot then reads as not committed.
pub proof fn lemma_slot_cleared<V: FileSerializable>(
    state: ImageState,
    format: FileFormat,
    loc: int,
    link: int,
    n: int,
)
    requires
        shard_within::<V>(format, loc, link, state.bytes.len() as int),
        0 <= n < spec_capacity(link),
    ensures
        spec_slot_cleared::<V>(state, format, loc, n).bytes.len() == state.bytes.len(),
        same_outside(
            state.bytes,
            spec_slot_cleared::<V>(state, format, loc, n).bytes,
            hash_addr::<V>(format, loc, n),
            hash_addr::<V>(format, loc, n + 1),
        ),
        spec_is_hash_written::<V>(
            spec_slot_cleared::<V>(state, format, loc, n).bytes,
            format,
            loc,
            n,
        ) == Ok::<bool, TsdfError>(false),
{
    lemma_slot_within_shard::<V>(format, loc, link, n);
    lemma_encoding_len(format, TsdfHash::spec_null());
    lemma_encoding_len(format, V::spec_null());
    let ha = hash_addr::<V>(format, loc, n);
    let va = val_addr::<V>(format, loc, n);
    let fa = flag_addr::<V>(format, loc, n);
    let eh = spec_encoding(format, TsdfHash::spec_null());
    let ev = spec_encoding(format, V::spec_null());
    let b0 = state.bytes;
    let b1 = bytes_after_write(b0, fa, seq![0u8]);
    let b2 = bytes_after_write(b1, ha, eh);
    let b3 = bytes_after_write(b2, va, ev);
    assert(b3 == spec_slot_cleared::<V>(state, format, loc, n).bytes);
    lemma_write(b0, fa, seq![0u8]);
    lemma_write(b1, ha, eh);
    lemma_write(b2, va, ev);
    assert(b3[fa] == 0u8);
}

/// Publishing a successor on a shard that the container holds changes the
/// bytes of the shard's header and no others, and the shard then reads as
/// having that successor.
pub proof fn lemma_next_set<V: FileSerializable>(
    state: ImageState,
    format: FileFormat,
    loc: int,
    link: int,
    next: LinkPtr,
)
    requires
        shard_within::<V>(format, loc, link, state.bytes.len() as int),
        next.well_formed(),
    ensures
        spec_next_set(state, format, loc, next).bytes.len() == state.bytes.len(),
        same_outside(
            state.bytes,
            spec_next_set(state, format, loc, next).bytes,
            loc,
            loc + header_width(format),
        ),
        spec_get_next(spec_next_set(state, format, loc, next).bytes, format, loc) == Ok::<
            LinkPtr,
            TsdfError,
        >(next),
{
    lemma_capacity_bounds(link);
    lemma_slot_within_shard::<V>(format, loc, link, 0);
    lemma_encoding_len(format, next);
    lemma_decode_encode(format, next);
    let en = spec_encoding(format, next);
    let b0 = state.bytes;
    let b1 = bytes_after_write(b0, loc + 1, en);
    let b2 = bytes_after_write(b1, loc, seq![1u8]);
    assert(b2 == spec_next_set(state, format, loc, next).bytes);
    lemma_write(b0, loc + 1, en);
    lemma_write(b1, loc, seq![1u8]);
    assert(b2.subrange(loc + 1, loc + 1 + en.len()) =~= en);
    assert(b2[loc] == 1u8);
}

/// What laying out the first `count` slots of a shard does to the bytes: the
/// container reaches at least to the end of those slots, every one of them
/// reads as not committed, and no byte outside them that the container held
/// before has changed.
pub proof fn lemma_slots_blank<V: FileSerializable>(
    state: ImageState,
    format: FileFormat,
    loc: int,
    count: int,
)
    requires
        0 <= loc,
        0 <= count,
    ensures
        spec_slots_blank::<V>(state, format, loc, count).bytes.len() == (if count > 0
            && hash_addr::<V>(format, loc, count) > state.bytes.len() {
            hash_addr::<V>(format, loc, count)
        } else {
            state.bytes.len() as int
        }),
        same_outside(
            state.bytes,
            spec_slots_blank::<V>(state, format, loc, count).bytes,
            hash_addr::<V>(format, loc, 0),
            hash_addr::<V>(format, loc, count),
        ),
        forall|n: int|
            0 <= n < count ==> #[trigger] spec_is_hash_written::<V>(
                spec_slots_blank::<V>(state, format, loc, count).bytes,
                format,
                loc,
                n,
            ) == Ok::<bool, TsdfError>(false),
    decreases count,
{
    if count > 0 {
        let n = count - 1;
        lemma_slots_blank::<V>(state, format, loc, n);
        lemma_slots_ordered::<V>(format, loc, 0, n);
        lemma_slots_ordered::<V>(format, loc, n, count);
        lemma_encoding_len(format, TsdfHash::spec_null());
        lemma_encoding_len(format, V::spec_null());
        let before = spec_slots_blank::<V>(state, format, loc, n);
        let ha = hash_addr::<V>(format, loc, n);
        let va = val_addr::<V>(format, loc, n);
        let fa = flag_addr::<V>(format, loc, n);
        let eh = spec_encoding(format, TsdfHash::spec_null());
        let ev = spec_encoding(format, V::spec_null());
        let b0 = before.bytes;
        let b1 = bytes_after_write(b0, ha, eh);
        let b2 = bytes_after_write(b1, va, ev);
        let b3 = bytes_after_write(b2, fa, seq![0u8]);
        assert(b3 == spec_slots_blank::<V>(state, format, loc, count).bytes);
        lemma_write(b0, ha, eh);
        lemma_write(b1, va, ev);
        lemma_write(b2, fa, seq![0u8]);
        assert(b3[fa] == 0u8);
        assert forall|m: int| 0 <= m < count implies #[trigger] spec_is_hash_written::<V>(
            b3,
            format,
            loc,
            m,
        ) == Ok::<bool, TsdfError>(false) by {
            if m < n {
                lemma_slots_ordered::<V>(format, loc, m, n);
                lemma_slots_ordered::<V>(format, loc, m + 1, n);
                assert(spec_is_hash_written::<V>(b0, format, loc, m) == Ok::<bool, TsdfError>(
                    false,
                ));
                let fm = flag_addr::<V>(format, loc, m);
                assert(b1[fm] == b0[fm]);
                assert(b2[fm] == b1[fm]);
                assert(b3[fm] == b2[fm]);
            }
        }
    }
}

/// What initializing a shard does to the bytes: the container reaches at
/// least to the end of the shard, every slot reads as not committed, the
/// shard reads as having no successor, and no byte outside the shard that the
/// container held before has changed.
pub proof fn lemma_shard_initialized<V: FileSerializable>(
    state: ImageState,
    format: FileFormat,
    loc: int,
    link: int,
)
    requires
        0 <= loc,
        0 <= link <= MAX_LINK_NUMBER,
    ensures
        spec_shard_initialized::<V>(state, format, loc, link).bytes.len() == (if loc
            + shard_width::<V>(format, link) > state.bytes.len() {
            loc + shard_width::<V>(format, link)
        } else {
            state.bytes.len() as int
        }),
        same_outside(
            state.bytes,
            spec_shard_initialized::<V>(state, format, loc, link).bytes,
            loc,
            loc + shard_width::<V>(format, link),
        ),
        forall|n: int|
            0 <= n < spec_capacity(link) ==> #[trigger] spec_is_hash_written::<V>(
                spec_shard_initialized::<V>(state, format, loc, link).bytes,
                format,
                loc,
                n,
            ) == Ok::<bool, TsdfError>(false),
        spec_get_next(spec_shard_initialized::<V>(state, format, loc, link).bytes, format, loc)
            == Ok::<LinkPtr, TsdfError>(LinkPtr::spec_null()),
        spec_is_next_written(spec_shard_initialized::<V>(state, format, loc, link).bytes, loc)
            == Ok::<bool, TsdfError>(false),
{
    let slots = spec_capacity(link);
    lemma_capacity_bounds(link);
    lemma_slots_blank::<V>(state, format, loc, slots);
    lemma_slots_ordered::<V>(format, loc, 0, slots);
    let blank = spec_slots_blank::<V>(state, format, loc, slots).bytes;
    let done = bytes_after_write(blank, loc, seq![0u8]);
    assert(done == spec_shard_initialized::<V>(state, format, loc, link).bytes);
    lemma_write(blank, loc, seq![0u8]);
    assert(done[loc] == 0u8);
    assert forall|n: int| 0 <= n < slots implies #[trigger] spec_is_hash_written::<V>(
        done,
        format,
        loc,
        n,
    ) == Ok::<bool, TsdfError>(false) by {
        lemma_slots_ordered::<V>(format, loc, 0, n);
        lemma_slots_ordered::<V>(format, loc, n + 1, slots);
        lemma_slots_ordered::<V>(format, loc, n, n + 1);
        assert(spec_is_hash_written::<V>(blank, format, loc, n) == Ok::<bool, TsdfError>(false));
        let fa = flag_addr::<V>(format, loc, n);
        assert(done[fa] == blank[fa]);
    }
}

} // verus!
