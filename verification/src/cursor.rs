//! The packed validation cursor: a transaction index in the low 32 bits and
//! a validation wave in the high 32 bits of one `u64`.

use vstd::prelude::*;

verus! {

/// Position of a transaction within the block.
pub type TxnIndex = u32;

/// Number of the attempt to execute a transaction.
pub type Incarnation = u32;

/// A transaction index together with an incarnation.
pub type Version = (TxnIndex, Incarnation);

/// Validation epoch.
pub type Wave = u32;

pub const TXN_IDX_MASK: u64 = 0xffff_ffff;

/// The packed value that holds `idx` and `wave`.
pub open spec fn packed(idx: TxnIndex, wave: Wave) -> u64 {
    (idx + wave * 0x1_0000_0000) as u64
}

/// Packs an index and a wave into one cursor value.
pub fn pack_validation_idx(idx: TxnIndex, wave: Wave) -> (r: u64)
    ensures
        r == packed(idx, wave),
{
    let lo: u64 = idx as u64;
    let hi: u64 = wave as u64;
    assert((lo | (hi << 32)) == lo + hi * 0x1_0000_0000) by (bit_vector)
        requires
            lo <= 0xffff_ffff,
            hi <= 0xffff_ffff,
    ;
    lo | (hi << 32)
}

/// Splits a cursor value into its index and its wave.
pub fn unpack_validation_idx(validation_idx: u64) -> (r: (TxnIndex, Wave))
    ensures
        r.0 == validation_idx % 0x1_0000_0000,
        r.1 == validation_idx / 0x1_0000_0000,
        packed(r.0, r.1) == validation_idx,
{
    let v: u64 = validation_idx;
    assert((v & 0xffff_ffff) == v % 0x1_0000_0000) by (bit_vector);
    assert((v >> 32) == v / 0x1_0000_0000) by (bit_vector);
    assert((v >> 32) <= 0xffff_ffff) by (bit_vector);
    ((validation_idx & TXN_IDX_MASK) as TxnIndex, (validation_idx >> 32) as Wave)
}

/// Packing and unpacking are inverse to each other.
pub proof fn lemma_pack_unpack(idx: TxnIndex, wave: Wave)
    ensures
        packed(idx, wave) % 0x1_0000_0000 == idx,
        packed(idx, wave) / 0x1_0000_0000 == wave,
{
}

} // verus!
