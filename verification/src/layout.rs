//! Where the parts of a shard stand on disk.

use vstd::prelude::*;
use vstd::arithmetic::power2::{
    lemma2_to64, lemma2_to64_rest, lemma_pow2_strictly_increases, lemma_pow2_unfold, pow2,
};
use crate::format::FileFormat;
use crate::hash::TsdfHash;
use crate::link_ptr::LinkPtr;
use crate::serial::{size_on_disk_in, spec_size_on_disk, FileSerializable};

verus! {

/// The highest link number whose slot count still fits 64 bits.
pub const MAX_LINK_NUMBER: u32 = 60;

/// The number of slots of the shard with link number `link`: eight, doubled
/// with every link.
pub open spec fn spec_capacity(link: int) -> int {
    8 * (pow2(link as nat) as int)
}

/// The bytes that one slot takes: a hash, a value, and the commit flag.
pub open spec fn slot_width<V: FileSerializable>(format: FileFormat) -> int {
    spec_size_on_disk::<TsdfHash>(format) + spec_size_on_disk::<V>(format) + 1
}

/// The bytes that stand before the first slot: the flag of the next pointer,
/// and the pointer.
pub open spec fn header_width(format: FileFormat) -> int {
    1 + spec_size_on_disk::<LinkPtr>(format)
}

/// The bytes that the shard with link number `link` takes.
pub open spec fn shard_width<V: FileSerializable>(format: FileFormat, link: int) -> int {
    header_width(format) + spec_capacity(link) * slot_width::<V>(format)
}

/// Where the hash of slot `n` stands, in a shard at `loc`.
pub open spec fn hash_addr<V: FileSerializable>(format: FileFormat, loc: int, n: int) -> int {
    loc + header_width(format) + n * slot_width::<V>(format)
}

/// Where the value of slot `n` stands, in a shard at `loc`.
pub open spec fn val_addr<V: FileSerializable>(format: FileFormat, loc: int, n: int) -> int {
    hash_addr::<V>(format, loc, n) + spec_size_on_disk::<TsdfHash>(format)
}

/// Where the commit flag of slot `n` stands, in a shard at `loc`.
pub open spec fn flag_addr<V: FileSerializable>(format: FileFormat, loc: int, n: int) -> int {
    val_addr::<V>(format, loc, n) + spec_size_on_disk::<V>(format)
}

/// Whether a shard with link number `link` at `loc` lies within the first
/// `limit` bytes.
pub open spec fn shard_within<V: FileSerializable>(
    format: FileFormat,
    loc: int,
    link: int,
    limit: int,
) -> bool {
    &&& 0 <= link <= MAX_LINK_NUMBER
    &&& 0 <= loc
    &&& loc + shard_width::<V>(format, link) <= limit
}

/// The slot that a hash falls into, in the shard with link number `link`.
pub open spec fn spec_slot_index(hash: TsdfHash, link: int) -> int {
    hash.hash_value as int % spec_capacity(link)
}

/// Every slot count up to the highest link number fits 64 bits, and grows
/// with the link number.
pub proof fn lemma_capacity_bounds(link: int)
    requires
        0 <= link <= MAX_LINK_NUMBER,
    ensures
        8 <= spec_capacity(link) <= 0x8000_0000_0000_0000,
        link < MAX_LINK_NUMBER ==> spec_capacity(link + 1) == 2 * spec_capacity(link),
{
    lemma2_to64();
    lemma2_to64_rest();
    if link < 60 {
        lemma_pow2_strictly_increases(link as nat, 60);
        lemma_pow2_unfold((link + 1) as nat);
    }
    if link > 0 {
        lemma_pow2_strictly_increases(0, link as nat);
    }
}

/// The slots of a shard lie one after the other, behind its header and
/// within its width.
pub proof fn lemma_slot_within_shard<V: FileSerializable>(
    format: FileFormat,
    loc: int,
    link: int,
    n: int,
)
    requires
        0 <= link <= MAX_LINK_NUMBER,
        0 <= n < spec_capacity(link),
    ensures
        loc + header_width(format) <= hash_addr::<V>(format, loc, n),
        hash_addr::<V>(format, loc, n) + slot_width::<V>(format) == hash_addr::<V>(
            format,
            loc,
            n + 1,
        ),
        flag_addr::<V>(format, loc, n) + 1 == hash_addr::<V>(format, loc, n + 1),
        hash_addr::<V>(format, loc, n + 1) <= loc + shard_width::<V>(format, link),
{
    let w = slot_width::<V>(format);
    let c = spec_capacity(link);
    assert(0 <= n * w) by (nonlinear_arith)
        requires
            0 <= n,
            0 <= w,
    ;
    assert((n + 1) * w <= c * w) by (nonlinear_arith)
        requires
            n + 1 <= c,
            0 <= w,
    ;
    assert((n + 1) * w == n * w + w) by (nonlinear_arith);
}

/// A slot with a higher number stands at a higher address.
pub proof fn lemma_slots_ordered<V: FileSerializable>(format: FileFormat, loc: int, m: int, n: int)
    requires
        0 <= m <= n,
    ensures
        hash_addr::<V>(format, loc, m) <= hash_addr::<V>(format, loc, n),
        hash_addr::<V>(format, loc, m) + slot_width::<V>(format) == hash_addr::<V>(
            format,
            loc,
            m + 1,
        ),
        flag_addr::<V>(format, loc, m) + 1 == hash_addr::<V>(format, loc, m + 1),
        loc + header_width(format) <= hash_addr::<V>(format, loc, m),
{
    let w = slot_width::<V>(format);
    assert(m * w <= n * w) by (nonlinear_arith)
        requires
            m <= n,
            0 <= w,
    ;
    assert(0 <= m * w) by (nonlinear_arith)
        requires
            0 <= m,
            0 <= w,
    ;
    assert((m + 1) * w == m * w + w) by (nonlinear_arith);
}

/// The slot that a hash falls into is one of the shard's.
pub proof fn lemma_slot_index_in_range(hash: TsdfHash, link: int)
    requires
        0 <= link <= MAX_LINK_NUMBER,
    ensures
        0 <= spec_slot_index(hash, link) < spec_capacity(link),
{
    lemma_capacity_bounds(link);
}

/// The number of slots of the shard with link number `link_number`.
pub fn capacity(link_number: u32) -> (slots: u64)
    requires
        link_number <= MAX_LINK_NUMBER,
    ensures
        slots == spec_capacity(link_number as int),
{
    let mut slots: u64 = 8;
    let mut link: u32 = 0;
    proof {
        lemma2_to64();
    }
    while link < link_number
        invariant
            link <= link_number <= MAX_LINK_NUMBER,
            slots == spec_capacity(link as int),
        decreases link_number - link,
    {
        proof {
            lemma_capacity_bounds(link as int);
            lemma_capacity_bounds(link as int + 1);
        }
        slots = slots * 2;
        link = link + 1;
    }
    slots
}

/// The bytes that one slot takes under `format`, where that many fit 64
/// bits.
pub fn checked_slot_width<V: FileSerializable>(format: FileFormat) -> (width: Option<u64>)
    ensures
        width == (if slot_width::<V>(format) <= u64::MAX {
            Some(slot_width::<V>(format) as u64)
        } else {
            None
        }),
{
    let hash_size = size_on_disk_in::<TsdfHash>(format);
    let val_size = size_on_disk_in::<V>(format);
    match hash_size.checked_add(val_size) {
        None => None,
        Some(both) => both.checked_add(1),
    }
}

/// The bytes that the shard with link number `link_number` takes under
/// `format`, where the link number is not beyond the highest and that many
/// bytes fit 64 bits.
pub fn checked_shard_width<V: FileSerializable>(format: FileFormat, link_number: u32) -> (width:
    Option<u64>)
    ensures
        width == (if link_number <= MAX_LINK_NUMBER && shard_width::<V>(format, link_number as int)
            <= u64::MAX {
            Some(shard_width::<V>(format, link_number as int) as u64)
        } else {
            None
        }),
{
    if link_number > MAX_LINK_NUMBER {
        return None;
    }
    let slots = capacity(link_number);
    proof {
        lemma_capacity_bounds(link_number as int);
    }
    let header = 1 + size_on_disk_in::<LinkPtr>(format);
    match checked_slot_width::<V>(format) {
        None => {
            assert(spec_capacity(link_number as int) * slot_width::<V>(format) > u64::MAX)
                by (nonlinear_arith)
                requires
                    spec_capacity(link_number as int) >= 8,
                    slot_width::<V>(format) > u64::MAX,
            ;
            None
        },
        Some(slot) => match slots.checked_mul(slot) {
            None => None,
            Some(all) => header.checked_add(all),
        },
    }
}

} // verus!
