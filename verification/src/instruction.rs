//! The venue's instruction set and its canonical byte encoding.
//!
//! An instruction is one tag byte followed by its fields, little-endian,
//! with nothing after them; a buffer decodes to an instruction exactly when
//! it is that instruction's canonical encoding.

use crate::codec::{
    get_i64, get_u128, get_u16, get_u64, get_u8, lemma_i64_le_inverse, put_bool, put_i64,
    put_u128, put_u16, put_u64, spec_bool_byte, spec_i64_from_le, spec_i64_le,
};
use crate::error::EngineError;
use vstd::bytes::{
    lemma_auto_spec_u128_to_from_le_bytes, lemma_auto_spec_u16_to_from_le_bytes,
    lemma_auto_spec_u64_to_from_le_bytes, spec_u128_from_le_bytes, spec_u128_to_le_bytes,
    spec_u16_from_le_bytes, spec_u16_to_le_bytes, spec_u64_from_le_bytes, spec_u64_to_le_bytes,
};
use vstd::prelude::*;

verus! {

/// Operations supported by the venue core, one per external call.
#[derive(Clone, Copy, Debug, PartialEq, Eq, Structural)]
pub enum EngineInstruction {
    InitializeMarket { fee_bps: u16 },
    Deposit { amount: u64 },
    Withdraw { amount: u64 },
    PlaceOrder { price_lots: i64, max_base_lots: i64, side_is_bid: bool },
    CancelOrder { order_id: u128 },
    UpdateOracle { price: i64, confidence: u64 },
    Liquidate { max_liq_amount: u64 },
}

/// Canonical bytes of an instruction: the variant's tag, then its fields.
pub open spec fn spec_encode_instruction(ix: EngineInstruction) -> Seq<u8> {
    match ix {
        EngineInstruction::InitializeMarket { fee_bps } => seq![0u8] + spec_u16_to_le_bytes(
            fee_bps,
        ),
        EngineInstruction::Deposit { amount } => seq![1u8] + spec_u64_to_le_bytes(amount),
        EngineInstruction::Withdraw { amount } => seq![2u8] + spec_u64_to_le_bytes(amount),
        EngineInstruction::PlaceOrder { price_lots, max_base_lots, side_is_bid } => seq![3u8]
            + spec_i64_le(price_lots) + spec_i64_le(max_base_lots) + seq![
            spec_bool_byte(side_is_bid),
        ],
        EngineInstruction::CancelOrder { order_id } => seq![4u8] + spec_u128_to_le_bytes(
            order_id,
        ),
        EngineInstruction::UpdateOracle { price, confidence } => seq![5u8] + spec_i64_le(price)
            + spec_u64_to_le_bytes(confidence),
        EngineInstruction::Liquidate { max_liq_amount } => seq![6u8] + spec_u64_to_le_bytes(
            max_liq_amount,
        ),
    }
}

/// Whether some instruction has `s` as its canonical bytes.
pub open spec fn spec_instruction_bytes_valid(s: Seq<u8>) -> bool {
    s.len() > 0 && {
        ||| s[0] == 0 && s.len() == 3
        ||| s[0] == 1 && s.len() == 9
        ||| s[0] == 2 && s.len() == 9
        ||| s[0] == 3 && s.len() == 18 && (s[17] == 0 || s[17] == 1)
        ||| s[0] == 4 && s.len() == 17
        ||| s[0] == 5 && s.len() == 17
        ||| s[0] == 6 && s.len() == 9
    }
}

/// The instruction held by a buffer, if any: the tag picks the variant and
/// the fields follow it little-endian, with nothing after them.
pub open spec fn spec_parse_instruction(s: Seq<u8>) -> Option<EngineInstruction> {
    if !spec_instruction_bytes_valid(s) {
        None
    } else if s[0] == 0 {
        Some(EngineInstruction::InitializeMarket { fee_bps: spec_u16_from_le_bytes(s.subrange(1, 3)) })
    } else if s[0] == 1 {
        Some(EngineInstruction::Deposit { amount: spec_u64_from_le_bytes(s.subrange(1, 9)) })
    } else if s[0] == 2 {
        Some(EngineInstruction::Withdraw { amount: spec_u64_from_le_bytes(s.subrange(1, 9)) })
    } else if s[0] == 3 {
        Some(
            EngineInstruction::PlaceOrder {
                price_lots: spec_i64_from_le(s.subrange(1, 9)),
                max_base_lots: spec_i64_from_le(s.subrange(9, 17)),
                side_is_bid: s[17] == 1,
            },
        )
    } else if s[0] == 4 {
        Some(EngineInstruction::CancelOrder { order_id: spec_u128_from_le_bytes(s.subrange(1, 17)) })
    } else if s[0] == 5 {
        Some(
            EngineInstruction::UpdateOracle {
                price: spec_i64_from_le(s.subrange(1, 9)),
                confidence: spec_u64_from_le_bytes(s.subrange(9, 17)),
            },
        )
    } else {
        Some(EngineInstruction::Liquidate { max_liq_amount: spec_u64_from_le_bytes(s.subrange(1, 9)) })
    }
}

/// Bytes outside the canonical forms encode no instruction at all.
proof fn lemma_no_encoding(s: Seq<u8>)
    requires
        !spec_instruction_bytes_valid(s),
    ensures
        forall|ix: EngineInstruction| s != #[trigger] spec_encode_instruction(ix),
{
    lemma_auto_spec_u16_to_from_le_bytes();
    lemma_auto_spec_u64_to_from_le_bytes();
    lemma_auto_spec_u128_to_from_le_bytes();
    assert forall|ix: EngineInstruction| s != #[trigger] spec_encode_instruction(ix) by {
        let e = spec_encode_instruction(ix);
        match ix {
            EngineInstruction::InitializeMarket { fee_bps } => {
                assert(e[0] == 0 && e.len() == 3);
            },
            EngineInstruction::Deposit { amount } => {
                assert(e[0] == 1 && e.len() == 9);
            },
            EngineInstruction::Withdraw { amount } => {
                assert(e[0] == 2 && e.len() == 9);
            },
            EngineInstruction::PlaceOrder { price_lots, max_base_lots, side_is_bid } => {
                assert(e[0] == 3 && e.len() == 18);
                assert(e[17] == spec_bool_byte(side_is_bid));
            },
            EngineInstruction::CancelOrder { order_id } => {
                assert(e[0] == 4 && e.len() == 17);
            },
            EngineInstruction::UpdateOracle { price, confidence } => {
                assert(e[0] == 5 && e.len() == 17);
            },
            EngineInstruction::Liquidate { max_liq_amount } => {
                assert(e[0] == 6 && e.len() == 9);
            },
        }
    }
}

impl EngineInstruction {
    /// This instruction's canonical bytes.
    pub fn pack(&self) -> (out: Vec<u8>)
        ensures
            out@ == spec_encode_instruction(*self),
    {
        let mut out: Vec<u8> = Vec::new();
        match self {
            EngineInstruction::InitializeMarket { fee_bps } => {
                out.push(0u8);
                put_u16(&mut out, *fee_bps);
            },
            EngineInstruction::Deposit { amount } => {
                out.push(1u8);
                put_u64(&mut out, *amount);
            },
            EngineInstruction::Withdraw { amount } => {
                out.push(2u8);
                put_u64(&mut out, *amount);
            },
            EngineInstruction::PlaceOrder { price_lots, max_base_lots, side_is_bid } => {
                out.push(3u8);
                put_i64(&mut out, *price_lots);
                put_i64(&mut out, *max_base_lots);
                put_bool(&mut out, *side_is_bid);
            },
            EngineInstruction::CancelOrder { order_id } => {
                out.push(4u8);
                put_u128(&mut out, *order_id);
            },
            EngineInstruction::UpdateOracle { price, confidence } => {
                out.push(5u8);
                put_i64(&mut out, *price);
                put_u64(&mut out, *confidence);
            },
            EngineInstruction::Liquidate { max_liq_amount } => {
                out.push(6u8);
                put_u64(&mut out, *max_liq_amount);
            },
        }
        assert(out@ =~= spec_encode_instruction(*self));
        out
    }

    /// Decode an instruction from its canonical bytes; any other buffer
    /// fails with [`EngineError::InvalidInstruction`].
    pub fn unpack(input: &[u8]) -> (r: Result<EngineInstruction, EngineError>)
        ensures
            match r {
                Ok(ix) => input@ == spec_encode_instruction(ix),
                Err(e) => {
                    &&& e == EngineError::InvalidInstruction
                    &&& forall|ix: EngineInstruction|
                        input@ != #[trigger] spec_encode_instruction(ix)
                },
            },
            match spec_parse_instruction(input@) {
                Some(ix) => r == Ok::<EngineInstruction, EngineError>(ix),
                None => r == Err::<EngineInstruction, EngineError>(
                    EngineError::InvalidInstruction,
                ),
            },
    {
        let n: usize = input.len();
        proof {
            lemma_auto_spec_u16_to_from_le_bytes();
            lemma_auto_spec_u64_to_from_le_bytes();
            lemma_auto_spec_u128_to_from_le_bytes();
        }
        if n == 0 {
            proof {
                lemma_no_encoding(input@);
            }
            return Err(EngineError::InvalidInstruction);
        }
        let tag = get_u8(input, 0);
        if tag == 0 && n == 3 {
            let ix = EngineInstruction::InitializeMarket { fee_bps: get_u16(input, 1) };
            proof {
                assert(input@.subrange(1, 3) =~= input@.skip(1));
                assert(input@ =~= spec_encode_instruction(ix));
            }
            Ok(ix)
        } else if tag == 1 && n == 9 {
            let ix = EngineInstruction::Deposit { amount: get_u64(input, 1) };
            proof {
                assert(input@ =~= spec_encode_instruction(ix));
            }
            Ok(ix)
        } else if tag == 2 && n == 9 {
            let ix = EngineInstruction::Withdraw { amount: get_u64(input, 1) };
            proof {
                assert(input@ =~= spec_encode_instruction(ix));
            }
            Ok(ix)
        } else if tag == 3 && n == 18 {
            let side_b = get_u8(input, 17);
            if side_b > 1 {
                proof {
                    lemma_no_encoding(input@);
                }
                return Err(EngineError::InvalidInstruction);
            }
            let ix = EngineInstruction::PlaceOrder {
                price_lots: get_i64(input, 1),
                max_base_lots: get_i64(input, 9),
                side_is_bid: side_b == 1,
            };
            proof {
                lemma_i64_le_inverse(input@.subrange(1, 9));
                lemma_i64_le_inverse(input@.subrange(9, 17));
                assert(input@ =~= spec_encode_instruction(ix));
            }
            Ok(ix)
        } else if tag == 4 && n == 17 {
            let ix = EngineInstruction::CancelOrder { order_id: get_u128(input, 1) };
            proof {
                assert(input@ =~= spec_encode_instruction(ix));
            }
            Ok(ix)
        } else if tag == 5 && n == 17 {
            let ix = EngineInstruction::UpdateOracle {
                price: get_i64(input, 1),
                confidence: get_u64(input, 9),
            };
            proof {
                lemma_i64_le_inverse(input@.subrange(1, 9));
                assert(input@ =~= spec_encode_instruction(ix));
            }
            Ok(ix)
        } else if tag == 6 && n == 9 {
            let ix = EngineInstruction::Liquidate { max_liq_amount: get_u64(input, 1) };
            proof {
                assert(input@ =~= spec_encode_instruction(ix));
            }
            Ok(ix)
        } else {
            proof {
                lemma_no_encoding(input@);
            }
            Err(EngineError::InvalidInstruction)
        }
    }
}

} // verus!
