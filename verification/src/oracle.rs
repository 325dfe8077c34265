//! Reading and writing the oracle price record.
//!
//! The record is overwritten whole on every update: price and confidence
//! from the caller, the slot from the host's clock.  No staleness or
//! deviation check is made here; any permitted caller can set any price.

use crate::codec::write_at;
use crate::error::EngineError;
use crate::state::{spec_decode_oracle, spec_encode_oracle, OraclePrice, ORACLE_BYTES};
use vstd::prelude::*;

verus! {

/// Decode an oracle price record from a whole record buffer.
pub fn read_price(data: &[u8]) -> (r: Result<OraclePrice, EngineError>)
    ensures
        match r {
            Ok(p) => data@.len() == ORACLE_BYTES && p == spec_decode_oracle(data@),
            Err(e) => e == EngineError::InvalidAccountData && data@.len() != ORACLE_BYTES,
        },
{
    let n: usize = data.len();
    if n != ORACLE_BYTES {
        return Err(EngineError::InvalidAccountData);
    }
    let p = OraclePrice::decode_at(data, 0);
    proof {
        assert(data@.subrange(0, ORACLE_BYTES as int) =~= data@);
    }
    Ok(p)
}

/// The oracle bytes after an update: the whole record is replaced and any
/// bytes past the record stay.
pub open spec fn spec_written_price(
    data: Seq<u8>,
    price: i64,
    confidence: u64,
    now_slot: u64,
) -> Seq<u8> {
    spec_encode_oracle(OraclePrice { price, confidence, last_updated_slot: now_slot })
        + data.subrange(ORACLE_BYTES as int, data.len() as int)
}

/// Overwrite the oracle record in place: the caller's price and confidence,
/// and the host clock's slot.  Whatever the buffer held before, the record
/// afterwards is exactly the new one; a buffer too small to hold a record
/// fails with [`EngineError::InvalidAccountData`] and stays unchanged.
pub fn write_price(data: &mut Vec<u8>, price: i64, confidence: u64, now_slot: u64) -> (r: Result<
    (),
    EngineError,
>)
    ensures
        match r {
            Ok(()) => {
                &&& old(data)@.len() >= ORACLE_BYTES
                &&& final(data)@ == spec_written_price(old(data)@, price, confidence, now_slot)
            },
            Err(e) => {
                &&& e == EngineError::InvalidAccountData
                &&& old(data)@.len() < ORACLE_BYTES
                &&& final(data)@ == old(data)@
            },
        },
{
    let n: usize = data.len();
    if n < ORACLE_BYTES {
        return Err(EngineError::InvalidAccountData);
    }
    let rec = OraclePrice { price, confidence, last_updated_slot: now_slot };
    let mut enc: Vec<u8> = Vec::new();
    rec.encode_into(&mut enc);
    proof {
        assert(enc@ =~= Seq::<u8>::empty() + spec_encode_oracle(rec));
        crate::state::lemma_oracle_roundtrip(rec);
    }
    write_at(data, 0, enc.as_slice());
    proof {
        assert(data@ =~= spec_written_price(old(data)@, price, confidence, now_slot));
    }
    Ok(())
}

} // verus!
