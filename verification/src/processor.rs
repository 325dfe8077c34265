//! The instruction processor: a dispatcher over seven operations, each a
//! short transaction over the record buffers the host hands in.
//!
//! The host supplies, per account, the record bytes, the 32-byte key, and
//! two facts it alone can check: whether the account's storage is owned by
//! this program and whether it meets the minimum-balance rule.  The current
//! clock values come in as plain arguments.  Every operation first checks
//! ownership and decodes its records, and aborts whole on the first error:
//! on an error no buffer is changed.

use crate::codec::{spec_i64_from_le, AccountId};
use crate::error::EngineError;
use crate::instruction::{spec_parse_instruction, EngineInstruction};
use crate::matching::{in_i64, match_orders, spec_match};
use crate::oracle::{read_price, spec_written_price, write_price};
use crate::queue::{
    push_event, spec_decode_header, spec_encode_header, spec_push_all, EventQueueHeader,
    QUEUE_HEADER_BYTES,
};
use crate::state::{
    spec_decode_oracle, spec_encode_market, spec_encode_user, spec_market_bytes_valid,
    spec_user_bytes_valid, spec_user_matches_bytes, Event, Market, Order, UserAccount,
    EVENT_SLOT_BYTES, MARKET_BYTES, ORACLE_BYTES, USER_BYTES,
};
use vstd::bytes::spec_u16_to_le_bytes;
use vstd::prelude::*;

verus! {

broadcast use vstd::array::group_array_axioms;

/// One record handle as the host hands it in: the record bytes, the
/// account's key, and the host's two storage facts about it.
pub struct AccountView {
    pub key: AccountId,
    pub owner_is_program: bool,
    pub rent_exempt: bool,
    pub data: Vec<u8>,
}

/// Whether every byte of a record is zero: the lazy "not created yet" form.
pub open spec fn spec_all_zero(s: Seq<u8>) -> bool {
    forall|i: int| 0 <= i < s.len() ==> s[i] == 0u8
}

/// The empty order of a fresh slot.
pub open spec fn spec_default_order() -> Order {
    Order { id: 0, price_lots: 0, base_lots: 0, side_is_bid: false, is_active: false }
}

/// A user record with its quote position and timestamp replaced.
pub open spec fn spec_user_with_quote_ts(u: UserAccount, quote: i64, ts: i64) -> UserAccount {
    UserAccount { quote_position: quote, last_update_ts: ts, ..u }
}

/// A user record with both positions replaced.
pub open spec fn spec_user_with_positions(u: UserAccount, base: i64, quote: i64) -> UserAccount {
    UserAccount { base_position: base, quote_position: quote, ..u }
}

// ----------------------------------------------------------------------------
// InitializeMarket
// ----------------------------------------------------------------------------

/// The bytes of a freshly initialized market record.
pub open spec fn spec_new_market_bytes(admin: AccountId, oracle: AccountId, fee_bps: u16) -> Seq<
    u8,
> {
    admin@ + Seq::new(32, |i: int| 0u8) + Seq::new(32, |i: int| 0u8) + oracle@
        + spec_u16_to_le_bytes(fee_bps) + seq![1u8] + Seq::new(5, |i: int| 0u8)
}

/// What initializing a market does to its record bytes.
///
/// An all-zero record is treated as new: admin and oracle from the caller's
/// accounts, mints defaulted, the market active.  Any other record keeps its
/// admin and mints and has fee, oracle and active flag overwritten — no
/// admin-signature check is made at this layer.
pub open spec fn spec_initialize_market(
    owned: bool,
    rent_exempt: bool,
    data: Seq<u8>,
    admin: AccountId,
    oracle: AccountId,
    fee_bps: u16,
) -> Result<Seq<u8>, EngineError> {
    if !owned {
        Err(EngineError::InvalidOwner)
    } else if !rent_exempt {
        Err(EngineError::NotRentExempt)
    } else if spec_all_zero(data) {
        if data.len() < MARKET_BYTES {
            Err(EngineError::InvalidAccountData)
        } else {
            Ok(
                spec_new_market_bytes(admin, oracle, fee_bps) + data.subrange(
                    MARKET_BYTES as int,
                    data.len() as int,
                ),
            )
        }
    } else if !spec_market_bytes_valid(data) {
        Err(EngineError::InvalidAccountData)
    } else {
        Ok(
            data.subrange(0, 96) + oracle@ + spec_u16_to_le_bytes(fee_bps) + seq![1u8]
                + data.subrange(131, 136),
        )
    }
}

// ----------------------------------------------------------------------------
// Deposit / Withdraw
// ----------------------------------------------------------------------------

/// What a deposit does: add `amount` to the quote position and refresh the
/// timestamp, creating the user record lazily from all-zero bytes.
/// `Ok` carries the new record bytes' defining facts through
/// [`spec_deposit_ok_bytes`].
pub open spec fn spec_deposit_outcome(
    market_owned: bool,
    user_owned: bool,
    market_data: Seq<u8>,
    user_data: Seq<u8>,
    amount: u64,
) -> Result<(), EngineError> {
    if !market_owned || !user_owned {
        Err(EngineError::InvalidOwner)
    } else if !spec_market_bytes_valid(market_data) {
        Err(EngineError::InvalidAccountData)
    } else if spec_all_zero(user_data) {
        if user_data.len() < USER_BYTES {
            Err(EngineError::InvalidAccountData)
        } else if !in_i64(amount as int) {
            Err(EngineError::MathError)
        } else {
            Ok(())
        }
    } else if !spec_user_bytes_valid(user_data) {
        Err(EngineError::InvalidAccountData)
    } else if !in_i64(spec_i64_from_le(user_data.subrange(72, 80)) + amount) {
        Err(EngineError::MathError)
    } else {
        Ok(())
    }
}

/// The record written by a successful deposit, as a record value: the lazy
/// creation case builds a fresh record, the other case updates the record
/// the bytes held.
pub open spec fn spec_deposit_ok_bytes(
    out: Seq<u8>,
    market_key: AccountId,
    owner_key: AccountId,
    user_data: Seq<u8>,
    amount: u64,
    now_ts: i64,
) -> bool {
    if spec_all_zero(user_data) {
        exists|u: UserAccount|
            {
                &&& #[trigger] spec_user_matches_bytes(u, out.subrange(0, USER_BYTES as int))
                &&& u.owner == owner_key
                &&& u.market == market_key
                &&& u.base_position == 0
                &&& u.quote_position == amount as i64
                &&& u.last_update_ts == now_ts
                &&& u.open_orders@ =~= Seq::new(8, |i: int| spec_default_order())
                &&& out == spec_encode_user(u) + user_data.subrange(
                    USER_BYTES as int,
                    user_data.len() as int,
                )
            }
    } else {
        exists|u: UserAccount|
            {
                &&& #[trigger] spec_user_matches_bytes(u, user_data)
                &&& out == spec_encode_user(
                    spec_user_with_quote_ts(
                        u,
                        (u.quote_position + amount) as i64,
                        now_ts,
                    ),
                )
            }
    }
}

/// What a withdraw does: subtract `amount` from the quote position,
/// unconditionally — no minimum-balance check — and refresh the timestamp.
pub open spec fn spec_withdraw_outcome(
    market_owned: bool,
    user_owned: bool,
    user_data: Seq<u8>,
    amount: u64,
) -> Result<(), EngineError> {
    if !market_owned || !user_owned {
        Err(EngineError::InvalidOwner)
    } else if !spec_user_bytes_valid(user_data) {
        Err(EngineError::InvalidAccountData)
    } else if !in_i64(spec_i64_from_le(user_data.subrange(72, 80)) - amount) {
        Err(EngineError::MathError)
    } else {
        Ok(())
    }
}

/// The record written by a successful withdraw.
pub open spec fn spec_withdraw_ok_bytes(
    out: Seq<u8>,
    user_data: Seq<u8>,
    amount: u64,
    now_ts: i64,
) -> bool {
    exists|u: UserAccount|
        {
            &&& #[trigger] spec_user_matches_bytes(u, user_data)
            &&& out == spec_encode_user(
                spec_user_with_quote_ts(u, (u.quote_position - amount) as i64, now_ts),
            )
        }
}


/// One order slot after a cancel: a matching id is deactivated and zeroed.
pub open spec fn spec_cancel_one(o: Order, order_id: u128) -> Order {
    if o.id == order_id {
        Order { base_lots: 0, is_active: false, ..o }
    } else {
        o
    }
}

/// Whether `u2` is `u` with every order of the given id cancelled.
pub open spec fn spec_user_cancelled(u: UserAccount, u2: UserAccount, order_id: u128) -> bool {
    &&& u2.owner == u.owner
    &&& u2.market == u.market
    &&& u2.base_position == u.base_position
    &&& u2.quote_position == u.quote_position
    &&& u2.last_update_ts == u.last_update_ts
    &&& forall|k: int|
        0 <= k < 8 ==> u2.open_orders@[k] == spec_cancel_one(u.open_orders@[k], order_id)
}

/// Cancel is idempotent: cancelling an id in a record already cancelled for
/// that id changes nothing.
pub proof fn lemma_cancel_idempotent(
    u: UserAccount,
    u2: UserAccount,
    u3: UserAccount,
    order_id: u128,
)
    requires
        spec_user_cancelled(u, u2, order_id),
        spec_user_cancelled(u2, u3, order_id),
    ensures
        u3 == u2,
{
    assert forall|k: int| 0 <= k < 8 implies u3.open_orders@[k] == u2.open_orders@[k] by {
        assert(u2.open_orders@[k] == spec_cancel_one(u.open_orders@[k], order_id));
        assert(u3.open_orders@[k] == spec_cancel_one(u2.open_orders@[k], order_id));
    }
    assert(u3.open_orders =~= u2.open_orders);
}

/// What a cancel may reject: bad ownership or an undecodable user record.
pub open spec fn spec_cancel_outcome(
    market_owned: bool,
    user_owned: bool,
    user_data: Seq<u8>,
) -> Result<(), EngineError> {
    if !market_owned || !user_owned {
        Err(EngineError::InvalidOwner)
    } else if !spec_user_bytes_valid(user_data) {
        Err(EngineError::InvalidAccountData)
    } else {
        Ok(())
    }
}

/// The record written by a successful cancel.
pub open spec fn spec_cancel_ok_bytes(out: Seq<u8>, user_data: Seq<u8>, order_id: u128) -> bool {
    exists|u: UserAccount, u2: UserAccount|
        #![trigger spec_user_matches_bytes(u, user_data), spec_user_cancelled(u, u2, order_id)]
        {
            &&& spec_user_matches_bytes(u, user_data)
            &&& spec_user_cancelled(u, u2, order_id)
            &&& out == spec_encode_user(u2)
        }
}

/// What an oracle update does to the record bytes: fails on unowned
/// storage or a buffer too small for a record, else replaces the record.
pub open spec fn spec_update_oracle_outcome(
    oracle_owned: bool,
    oracle_data: Seq<u8>,
    price: i64,
    confidence: u64,
    now_slot: u64,
) -> Result<Seq<u8>, EngineError> {
    if !oracle_owned {
        Err(EngineError::InvalidOwner)
    } else if oracle_data.len() < ORACLE_BYTES {
        Err(EngineError::InvalidAccountData)
    } else {
        Ok(spec_written_price(oracle_data, price, confidence, now_slot))
    }
}

/// What a liquidation may reject: bad ownership, undecodable records, or a
/// transfer that leaves the 64-bit range.
pub open spec fn spec_liquidate_outcome(
    market_owned: bool,
    liqor_owned: bool,
    liqee_owned: bool,
    market_data: Seq<u8>,
    liqor_data: Seq<u8>,
    liqee_data: Seq<u8>,
    oracle_data: Seq<u8>,
    max_liq_amount: u64,
) -> Result<(), EngineError> {
    if !market_owned || !liqor_owned || !liqee_owned {
        Err(EngineError::InvalidOwner)
    } else if !spec_market_bytes_valid(market_data) {
        Err(EngineError::InvalidAccountData)
    } else if oracle_data.len() != ORACLE_BYTES {
        Err(EngineError::InvalidAccountData)
    } else if !spec_user_bytes_valid(liqor_data) {
        Err(EngineError::InvalidAccountData)
    } else if !spec_user_bytes_valid(liqee_data) {
        Err(EngineError::InvalidAccountData)
    } else {
        let price = spec_decode_oracle(oracle_data).price;
        let amount = max_liq_amount as int;
        let quote = amount * price;
        let rb = spec_i64_from_le(liqor_data.subrange(64, 72)) + amount;
        let rq = spec_i64_from_le(liqor_data.subrange(72, 80)) - quote;
        let eb = spec_i64_from_le(liqee_data.subrange(64, 72)) - amount;
        let eq2 = spec_i64_from_le(liqee_data.subrange(72, 80)) + quote;
        if !in_i64(amount) || !in_i64(quote) || !in_i64(rb) || !in_i64(rq) || !in_i64(eb)
            || !in_i64(eq2) {
            Err(EngineError::MathError)
        } else {
            Ok(())
        }
    }
}

/// The records written by a successful liquidation: `max_liq_amount` of base
/// moves from the liquidatee to the liquidator, the corresponding quote at
/// the oracle price moves the other way, with no health check gating it.
pub open spec fn spec_liquidate_ok_bytes(
    liqor_out: Seq<u8>,
    liqee_out: Seq<u8>,
    liqor_data: Seq<u8>,
    liqee_data: Seq<u8>,
    oracle_data: Seq<u8>,
    max_liq_amount: u64,
) -> bool {
    let price = spec_decode_oracle(oracle_data).price;
    let amount = max_liq_amount as int;
    let quote = amount * price;
    exists|ur: UserAccount, ue: UserAccount|
        #![trigger spec_user_matches_bytes(ur, liqor_data), spec_user_matches_bytes(ue, liqee_data)]
        {
            &&& spec_user_matches_bytes(ur, liqor_data)
            &&& spec_user_matches_bytes(ue, liqee_data)
            &&& liqor_out == spec_encode_user(
                spec_user_with_positions(
                    ur,
                    (ur.base_position + amount) as i64,
                    (ur.quote_position - quote) as i64,
                ),
            )
            &&& liqee_out == spec_encode_user(
                spec_user_with_positions(
                    ue,
                    (ue.base_position - amount) as i64,
                    (ue.quote_position + quote) as i64,
                ),
            )
        }
}

/// What placing an order may reject before any matching happens.  Every
/// record the operation touches — market, taker, event queue, and each
/// maker — must live in storage owned by this program.
pub open spec fn spec_place_order_pre(
    market_owned: bool,
    taker_owned: bool,
    queue_owned: bool,
    makers_owned: Seq<bool>,
    market_data: Seq<u8>,
    taker_data: Seq<u8>,
    maker_datas: Seq<Seq<u8>>,
    queue_data: Seq<u8>,
) -> Result<(), EngineError> {
    if !market_owned || !taker_owned || !queue_owned || (exists|k: int|
        0 <= k < makers_owned.len() && !(#[trigger] makers_owned[k])) {
        Err(EngineError::InvalidOwner)
    } else if !spec_market_bytes_valid(market_data) {
        Err(EngineError::InvalidAccountData)
    } else if market_data[130] != 1 {
        Err(EngineError::MarketInactive)
    } else if !spec_user_bytes_valid(taker_data) {
        Err(EngineError::InvalidAccountData)
    } else if exists|k: int|
        0 <= k < maker_datas.len() && !spec_user_bytes_valid(#[trigger] maker_datas[k]) {
        Err(EngineError::InvalidAccountData)
    } else if queue_data.len() < QUEUE_HEADER_BYTES {
        Err(EngineError::InvalidAccountData)
    } else {
        let h0 = spec_decode_header(queue_data.subrange(0, QUEUE_HEADER_BYTES as int));
        if h0.capacity == 0 || QUEUE_HEADER_BYTES + h0.capacity * (EVENT_SLOT_BYTES as int)
            > queue_data.len() {
            Err(EngineError::InvalidAccountData)
        } else {
            Ok(())
        }
    }
}

/// The buffers written by a place-order call whose pre-checks passed, for
/// the records the input bytes hold: the matching model decides between a
/// math failure and the new taker, maker and queue contents.
pub open spec fn spec_place_order_result(
    r: Result<(Vec<u8>, Vec<Vec<u8>>, Vec<u8>), EngineError>,
    taker_data: Seq<u8>,
    maker_datas: Seq<Seq<u8>>,
    queue_data: Seq<u8>,
    max_base_lots: i64,
    side_is_bid: bool,
    now_ts: i64,
) -> bool {
    forall|t: UserAccount, ms: Seq<UserAccount>|
        #![trigger spec_match(t, ms, max_base_lots, 0, Seq::<Event>::empty(), side_is_bid)]
        (spec_user_matches_bytes(t, taker_data) && ms.len() == maker_datas.len()
            && (forall|k: int|
            0 <= k < ms.len() ==> spec_user_matches_bytes(
                #[trigger] ms[k],
                maker_datas[k],
            ))) ==> match spec_match(
            t,
            ms,
            max_base_lots,
            0,
            Seq::<Event>::empty(),
            side_is_bid,
        ) {
            None => r == Err::<(Vec<u8>, Vec<Vec<u8>>, Vec<u8>), EngineError>(
                EngineError::MathError,
            ),
            Some(st) => {
                &&& r is Ok
                &&& ({
                    let (taker_out, makers_out, queue_out) = r->Ok_0;
                    let h0 = spec_decode_header(
                        queue_data.subrange(0, QUEUE_HEADER_BYTES as int),
                    );
                    let (hh, tt, rr) = spec_push_all(
                        h0.head,
                        h0.tail,
                        h0.capacity,
                        queue_data.subrange(QUEUE_HEADER_BYTES as int, queue_data.len() as int),
                        st.events,
                    );
                    &&& taker_out@ == spec_encode_user(
                        UserAccount { last_update_ts: now_ts, ..st.taker },
                    )
                    &&& makers_out@.len() == maker_datas.len()
                    &&& forall|k: int|
                        0 <= k < makers_out@.len() ==> (#[trigger] makers_out@[k])@
                            == spec_encode_user(st.makers[k])
                    &&& queue_out@ == spec_encode_header(
                        EventQueueHeader { head: hh, tail: tt, capacity: h0.capacity },
                    ) + rr
                })
            },
        }
}

/// Whether keys and host storage facts carry over unchanged.
pub open spec fn spec_meta_preserved(a: Seq<AccountView>, b: Seq<AccountView>) -> bool {
    &&& b.len() == a.len()
    &&& forall|i: int|
        0 <= i < a.len() ==> {
            &&& (#[trigger] b[i]).key == a[i].key
            &&& b[i].owner_is_program == a[i].owner_is_program
            &&& b[i].rent_exempt == a[i].rent_exempt
        }
}

/// Whether every account's record bytes carry over unchanged.
pub open spec fn spec_data_unchanged(a: Seq<AccountView>, b: Seq<AccountView>) -> bool {
    forall|i: int| 0 <= i < a.len() ==> (#[trigger] b[i]).data@ == a[i].data@
}

/// Whether every account's record bytes but at most two carry over.
pub open spec fn spec_data_unchanged_except(
    a: Seq<AccountView>,
    b: Seq<AccountView>,
    x: int,
    y: int,
) -> bool {
    forall|i: int| 0 <= i < a.len() && i != x && i != y ==> (#[trigger] b[i]).data@ == a[i].data@
}

/// The accounts written by a dispatched place-order, for the records the
/// input bytes hold.
pub open spec fn spec_place_order_accounts(
    r: Result<(), EngineError>,
    a: Seq<AccountView>,
    b: Seq<AccountView>,
    max_base_lots: i64,
    side_is_bid: bool,
    now_ts: i64,
) -> bool {
    forall|t: UserAccount, ms: Seq<UserAccount>|
        #![trigger spec_match(t, ms, max_base_lots, 0, Seq::<Event>::empty(), side_is_bid)]
        (spec_user_matches_bytes(t, a[1].data@) && ms.len() == a.len() - 3 && (forall|j: int|
            0 <= j < ms.len() ==> spec_user_matches_bytes(
                #[trigger] ms[j],
                a[3 + j].data@,
            ))) ==> match spec_match(t, ms, max_base_lots, 0, Seq::<Event>::empty(), side_is_bid) {
            None => r == Err::<(), EngineError>(EngineError::MathError)
                && spec_data_unchanged(a, b),
            Some(st) => {
                let h0 = spec_decode_header(a[2].data@.subrange(0, QUEUE_HEADER_BYTES as int));
                let (hh, tt, rr) = spec_push_all(
                    h0.head,
                    h0.tail,
                    h0.capacity,
                    a[2].data@.subrange(QUEUE_HEADER_BYTES as int, a[2].data@.len() as int),
                    st.events,
                );
                &&& r == Ok::<(), EngineError>(())
                &&& b[0].data@ == a[0].data@
                &&& b[1].data@ == spec_encode_user(
                    UserAccount { last_update_ts: now_ts, ..st.taker },
                )
                &&& b[2].data@ == spec_encode_header(
                    EventQueueHeader { head: hh, tail: tt, capacity: h0.capacity },
                ) + rr
                &&& forall|j: int|
                    0 <= j < a.len() - 3 ==> (#[trigger] b[3 + j].data@) == spec_encode_user(
                        st.makers[j],
                    )
            },
        }
}

/// The instruction processor.
pub struct Processor;

impl Processor {
    /// Initialize or overwrite a market record; see
    /// [`spec_initialize_market`] for the exact outcome.
    pub fn process_initialize_market(
        market_owned: bool,
        market_rent_exempt: bool,
        market_data: &Vec<u8>,
        admin_key: &AccountId,
        oracle_key: &AccountId,
        fee_bps: u16,
    ) -> (r: Result<Vec<u8>, EngineError>)
        ensures
            match spec_initialize_market(
                market_owned,
                market_rent_exempt,
                market_data@,
                *admin_key,
                *oracle_key,
                fee_bps,
            ) {
                Ok(b) => r is Ok && r->Ok_0@ == b,
                Err(e) => r == Err::<Vec<u8>, EngineError>(e),
            },
    {
        if !market_owned {
            return Err(EngineError::InvalidOwner);
        }
        if !market_rent_exempt {
            return Err(EngineError::NotRentExempt);
        }
        let n: usize = market_data.len();
        if crate::codec::is_zeroed(market_data.as_slice()) {
            if n < MARKET_BYTES {
                return Err(EngineError::InvalidAccountData);
            }
            let market = Market {
                admin: *admin_key,
                base_mint: [0u8; 32],
                quote_mint: [0u8; 32],
                oracle: *oracle_key,
                fee_bps,
                is_active: true,
                padding: [0u8; 5],
            };
            let mut out: Vec<u8> = Vec::new();
            market.encode_into(&mut out);
            proof {
                assert(out@ =~= Seq::<u8>::empty() + spec_encode_market(market));
                assert(market.base_mint@ =~= Seq::new(32, |i: int| 0u8));
                assert(market.padding@ =~= Seq::new(5, |i: int| 0u8));
                assert(out@ =~= spec_new_market_bytes(*admin_key, *oracle_key, fee_bps));
            }
            out.extend_from_slice(
                vstd::slice::slice_subrange(market_data.as_slice(), MARKET_BYTES, n),
            );
            proof {
                assert(out@ =~= spec_new_market_bytes(*admin_key, *oracle_key, fee_bps)
                    + market_data@.subrange(MARKET_BYTES as int, market_data@.len() as int));
            }
            return Ok(out);
        }
        if n != MARKET_BYTES {
            return Err(EngineError::InvalidAccountData);
        }
        match Market::decode_at(market_data.as_slice(), 0) {
            Some(_) => {},
            None => {
                proof {
                    assert(market_data@.subrange(0, MARKET_BYTES as int) =~= market_data@);
                }
                return Err(EngineError::InvalidAccountData);
            },
        }
        proof {
            assert(market_data@.subrange(0, MARKET_BYTES as int) =~= market_data@);
        }
        let mut out: Vec<u8> = Vec::new();
        out.extend_from_slice(vstd::slice::slice_subrange(market_data.as_slice(), 0, 96));
        crate::codec::put_id(&mut out, oracle_key);
        crate::codec::put_u16(&mut out, fee_bps);
        out.push(1u8);
        out.extend_from_slice(vstd::slice::slice_subrange(market_data.as_slice(), 131, 136));
        proof {
            assert(out@ =~= market_data@.subrange(0, 96) + oracle_key@ + spec_u16_to_le_bytes(
                fee_bps,
            ) + seq![1u8] + market_data@.subrange(131, 136));
        }
        Ok(out)
    }

    /// Add to a user's quote balance, creating the record lazily; see
    /// [`spec_deposit_outcome`] and [`spec_deposit_ok_bytes`].
    pub fn process_deposit(
        market_owned: bool,
        user_owned: bool,
        market_data: &Vec<u8>,
        user_data: &Vec<u8>,
        market_key: &AccountId,
        owner_key: &AccountId,
        amount: u64,
        now_ts: i64,
    ) -> (r: Result<Vec<u8>, EngineError>)
        ensures
            match spec_deposit_outcome(
                market_owned,
                user_owned,
                market_data@,
                user_data@,
                amount,
            ) {
                Ok(()) => r is Ok && r->Ok_0@.len() == user_data@.len()
                    && spec_deposit_ok_bytes(
                    r->Ok_0@,
                    *market_key,
                    *owner_key,
                    user_data@,
                    amount,
                    now_ts,
                ),
                Err(e) => r == Err::<Vec<u8>, EngineError>(e),
            },
    {
        if !market_owned || !user_owned {
            return Err(EngineError::InvalidOwner);
        }
        if market_data.len() != MARKET_BYTES {
            return Err(EngineError::InvalidAccountData);
        }
        match Market::decode_at(market_data.as_slice(), 0) {
            Some(_) => {},
            None => {
                proof {
                    assert(market_data@.subrange(0, MARKET_BYTES as int) =~= market_data@);
                }
                return Err(EngineError::InvalidAccountData);
            },
        }
        proof {
            assert(market_data@.subrange(0, MARKET_BYTES as int) =~= market_data@);
        }
        let un: usize = user_data.len();
        if crate::codec::is_zeroed(user_data.as_slice()) {
            if un < USER_BYTES {
                return Err(EngineError::InvalidAccountData);
            }
            if amount > i64::MAX as u64 {
                return Err(EngineError::MathError);
            }
            let d = Order {
                id: 0,
                price_lots: 0,
                base_lots: 0,
                side_is_bid: false,
                is_active: false,
            };
            let u = UserAccount {
                owner: *owner_key,
                market: *market_key,
                base_position: 0,
                quote_position: amount as i64,
                last_update_ts: now_ts,
                open_orders: [d; 8],
            };
            let mut out: Vec<u8> = Vec::new();
            u.encode_into(&mut out);
            proof {
                crate::state::lemma_user_roundtrip(u, u);
                assert(out@ =~= Seq::<u8>::empty() + spec_encode_user(u));
            }
            out.extend_from_slice(vstd::slice::slice_subrange(user_data.as_slice(), USER_BYTES, un));
            proof {
                assert(out@ =~= spec_encode_user(u) + user_data@.subrange(
                    USER_BYTES as int,
                    user_data@.len() as int,
                ));
                assert(out@.subrange(0, USER_BYTES as int) =~= spec_encode_user(u));
                assert(u.open_orders@ =~= Seq::new(8, |i: int| spec_default_order()));
                assert(spec_deposit_ok_bytes(
                    out@,
                    *market_key,
                    *owner_key,
                    user_data@,
                    amount,
                    now_ts,
                ));
            }
            return Ok(out);
        }
        if un != USER_BYTES {
            proof {
                assert(!spec_user_bytes_valid(user_data@));
            }
            return Err(EngineError::InvalidAccountData);
        }
        let u = match UserAccount::decode_at(user_data.as_slice(), 0) {
            Some(u) => u,
            None => {
                proof {
                    assert(user_data@.subrange(0, USER_BYTES as int) =~= user_data@);
                }
                return Err(EngineError::InvalidAccountData);
            },
        };
        proof {
            assert(user_data@.subrange(0, USER_BYTES as int) =~= user_data@);
            assert(user_data@.subrange(72, 80) =~= user_data@.subrange(0, USER_BYTES as int)
                .subrange(72, 80));
        }
        let q: i128 = (u.quote_position as i128) + (amount as i128);
        if q > i64::MAX as i128 || q < i64::MIN as i128 {
            return Err(EngineError::MathError);
        }
        let u2 = UserAccount {
            quote_position: q as i64,
            last_update_ts: now_ts,
            ..u
        };
        let mut out: Vec<u8> = Vec::new();
        u2.encode_into(&mut out);
        proof {
            crate::state::lemma_user_roundtrip(u2, u2);
            assert(out@ =~= Seq::<u8>::empty() + spec_encode_user(u2));
            assert(u2 == spec_user_with_quote_ts(u, (u.quote_position + amount) as i64, now_ts));
            assert(spec_user_matches_bytes(u, user_data@));
        }
        Ok(out)
    }

    /// Subtract from a user's quote balance, unconditionally; see
    /// [`spec_withdraw_outcome`] and [`spec_withdraw_ok_bytes`].
    pub fn process_withdraw(
        market_owned: bool,
        user_owned: bool,
        user_data: &Vec<u8>,
        amount: u64,
        now_ts: i64,
    ) -> (r: Result<Vec<u8>, EngineError>)
        ensures
            match spec_withdraw_outcome(market_owned, user_owned, user_data@, amount) {
                Ok(()) => r is Ok && r->Ok_0@.len() == USER_BYTES
                    && spec_withdraw_ok_bytes(r->Ok_0@, user_data@, amount, now_ts),
                Err(e) => r == Err::<Vec<u8>, EngineError>(e),
            },
    {
        if !market_owned || !user_owned {
            return Err(EngineError::InvalidOwner);
        }
        if user_data.len() != USER_BYTES {
            return Err(EngineError::InvalidAccountData);
        }
        let u = match UserAccount::decode_at(user_data.as_slice(), 0) {
            Some(u) => u,
            None => {
                proof {
                    assert(user_data@.subrange(0, USER_BYTES as int) =~= user_data@);
                }
                return Err(EngineError::InvalidAccountData);
            },
        };
        proof {
            assert(user_data@.subrange(0, USER_BYTES as int) =~= user_data@);
            assert(user_data@.subrange(72, 80) =~= user_data@.subrange(0, USER_BYTES as int)
                .subrange(72, 80));
        }
        let q: i128 = (u.quote_position as i128) - (amount as i128);
        if q > i64::MAX as i128 || q < i64::MIN as i128 {
            return Err(EngineError::MathError);
        }
        let u2 = UserAccount {
            quote_position: q as i64,
            last_update_ts: now_ts,
            ..u
        };
        let mut out: Vec<u8> = Vec::new();
        u2.encode_into(&mut out);
        proof {
            crate::state::lemma_user_roundtrip(u2, u2);
            assert(out@ =~= Seq::<u8>::empty() + spec_encode_user(u2));
            assert(u2 == spec_user_with_quote_ts(u, (u.quote_position - amount) as i64, now_ts));
        }
        Ok(out)
    }

    /// Deactivate and zero every order slot of the caller's whose id
    /// matches; duplicate ids are all cancelled; see [`spec_cancel_outcome`]
    /// and [`spec_cancel_ok_bytes`].
    #[verifier::loop_isolation(false)]
    pub fn process_cancel_order(
        market_owned: bool,
        user_owned: bool,
        user_data: &Vec<u8>,
        order_id: u128,
    ) -> (r: Result<Vec<u8>, EngineError>)
        ensures
            match spec_cancel_outcome(market_owned, user_owned, user_data@) {
                Ok(()) => r is Ok && r->Ok_0@.len() == USER_BYTES
                    && spec_cancel_ok_bytes(r->Ok_0@, user_data@, order_id),
                Err(e) => r == Err::<Vec<u8>, EngineError>(e),
            },
    {
        if !market_owned || !user_owned {
            return Err(EngineError::InvalidOwner);
        }
        if user_data.len() != USER_BYTES {
            return Err(EngineError::InvalidAccountData);
        }
        let u = match UserAccount::decode_at(user_data.as_slice(), 0) {
            Some(u) => u,
            None => {
                proof {
                    assert(user_data@.subrange(0, USER_BYTES as int) =~= user_data@);
                }
                return Err(EngineError::InvalidAccountData);
            },
        };
        proof {
            assert(user_data@.subrange(0, USER_BYTES as int) =~= user_data@);
        }
        let mut u2 = u;
        let mut k: usize = 0;
        while k < 8
            invariant
                k <= 8,
                u2.owner == u.owner,
                u2.market == u.market,
                u2.base_position == u.base_position,
                u2.quote_position == u.quote_position,
                u2.last_update_ts == u.last_update_ts,
                forall|j: int|
                    0 <= j < k ==> u2.open_orders@[j] == spec_cancel_one(
                        u.open_orders@[j],
                        order_id,
                    ),
                forall|j: int| k <= j < 8 ==> u2.open_orders@[j] == u.open_orders@[j],
            decreases 8 - k,
        {
            let o: Order = u2.open_orders[k];
            if o.id == order_id {
                u2.open_orders[k] = Order { base_lots: 0, is_active: false, ..o };
            }
            k += 1;
        }
        let mut out: Vec<u8> = Vec::new();
        u2.encode_into(&mut out);
        proof {
            crate::state::lemma_user_roundtrip(u2, u2);
            assert(out@ =~= Seq::<u8>::empty() + spec_encode_user(u2));
            assert(spec_user_cancelled(u, u2, order_id));
        }
        Ok(out)
    }

    /// Overwrite the oracle record with the caller's price and confidence
    /// and the clock's slot.  The oracle record's storage must be owned by
    /// this program; beyond that, no staleness or deviation check gates it.
    pub fn process_update_oracle(
        oracle_owned: bool,
        oracle_data: &Vec<u8>,
        price: i64,
        confidence: u64,
        now_slot: u64,
    ) -> (r: Result<Vec<u8>, EngineError>)
        ensures
            match spec_update_oracle_outcome(
                oracle_owned,
                oracle_data@,
                price,
                confidence,
                now_slot,
            ) {
                Ok(b) => r is Ok && r->Ok_0@ == b,
                Err(e) => r == Err::<Vec<u8>, EngineError>(e),
            },
    {
        if !oracle_owned {
            return Err(EngineError::InvalidOwner);
        }
        let mut out: Vec<u8> = Vec::new();
        out.extend_from_slice(oracle_data.as_slice());
        proof {
            assert(out@ =~= oracle_data@);
        }
        match write_price(&mut out, price, confidence, now_slot) {
            Ok(()) => Ok(out),
            Err(e) => Err(e),
        }
    }

    /// Transfer `max_liq_amount` of base from the liquidatee to the
    /// liquidator and the quote value at the oracle price the other way,
    /// unconditionally; see [`spec_liquidate_outcome`] and
    /// [`spec_liquidate_ok_bytes`].
    pub fn process_liquidate(
        market_owned: bool,
        liqor_owned: bool,
        liqee_owned: bool,
        market_data: &Vec<u8>,
        liqor_data: &Vec<u8>,
        liqee_data: &Vec<u8>,
        oracle_data: &Vec<u8>,
        max_liq_amount: u64,
    ) -> (r: Result<(Vec<u8>, Vec<u8>), EngineError>)
        ensures
            match spec_liquidate_outcome(
                market_owned,
                liqor_owned,
                liqee_owned,
                market_data@,
                liqor_data@,
                liqee_data@,
                oracle_data@,
                max_liq_amount,
            ) {
                Ok(()) => r is Ok && spec_liquidate_ok_bytes(
                    r->Ok_0.0@,
                    r->Ok_0.1@,
                    liqor_data@,
                    liqee_data@,
                    oracle_data@,
                    max_liq_amount,
                ),
                Err(e) => r == Err::<(Vec<u8>, Vec<u8>), EngineError>(e),
            },
    {
        if !market_owned || !liqor_owned || !liqee_owned {
            return Err(EngineError::InvalidOwner);
        }
        if market_data.len() != MARKET_BYTES {
            return Err(EngineError::InvalidAccountData);
        }
        match Market::decode_at(market_data.as_slice(), 0) {
            Some(_) => {},
            None => {
                proof {
                    assert(market_data@.subrange(0, MARKET_BYTES as int) =~= market_data@);
                }
                return Err(EngineError::InvalidAccountData);
            },
        }
        proof {
            assert(market_data@.subrange(0, MARKET_BYTES as int) =~= market_data@);
        }
        let price: i64 = match read_price(oracle_data.as_slice()) {
            Ok(p) => p.price,
            Err(e) => {
                return Err(e);
            },
        };
        if liqor_data.len() != USER_BYTES {
            return Err(EngineError::InvalidAccountData);
        }
        let ur = match UserAccount::decode_at(liqor_data.as_slice(), 0) {
            Some(u) => u,
            None => {
                proof {
                    assert(liqor_data@.subrange(0, USER_BYTES as int) =~= liqor_data@);
                }
                return Err(EngineError::InvalidAccountData);
            },
        };
        if liqee_data.len() != USER_BYTES {
            return Err(EngineError::InvalidAccountData);
        }
        let ue = match UserAccount::decode_at(liqee_data.as_slice(), 0) {
            Some(u) => u,
            None => {
                proof {
                    assert(liqee_data@.subrange(0, USER_BYTES as int) =~= liqee_data@);
                }
                return Err(EngineError::InvalidAccountData);
            },
        };
        proof {
            assert(liqor_data@.subrange(0, USER_BYTES as int) =~= liqor_data@);
            assert(liqee_data@.subrange(0, USER_BYTES as int) =~= liqee_data@);
            assert(liqor_data@.subrange(64, 72) =~= liqor_data@.subrange(0, USER_BYTES as int)
                .subrange(64, 72));
            assert(liqor_data@.subrange(72, 80) =~= liqor_data@.subrange(0, USER_BYTES as int)
                .subrange(72, 80));
            assert(liqee_data@.subrange(64, 72) =~= liqee_data@.subrange(0, USER_BYTES as int)
                .subrange(64, 72));
            assert(liqee_data@.subrange(72, 80) =~= liqee_data@.subrange(0, USER_BYTES as int)
                .subrange(72, 80));
        }
        if max_liq_amount > i64::MAX as u64 {
            return Err(EngineError::MathError);
        }
        let amount: i128 = max_liq_amount as i128;
        proof {
            assert(amount * (price as i128) <= 0x40000000000000000000000000000000int
                && amount * (price as i128) >= -0x40000000000000000000000000000000int)
                by (nonlinear_arith)
                requires
                    0 <= amount <= 0x7fffffffffffffff,
                    -0x8000000000000000 <= price as int <= 0x7fffffffffffffff,
            ;
        }
        let quote: i128 = amount * (price as i128);
        let rb: i128 = (ur.base_position as i128) + amount;
        let rq: i128 = (ur.quote_position as i128) - quote;
        let eb: i128 = (ue.base_position as i128) - amount;
        let eq2: i128 = (ue.quote_position as i128) + quote;
        let lo: i128 = i64::MIN as i128;
        let hi: i128 = i64::MAX as i128;
        if quote < lo || quote > hi || rb < lo || rb > hi || rq < lo || rq > hi || eb < lo || eb
            > hi || eq2 < lo || eq2 > hi {
            return Err(EngineError::MathError);
        }
        let ur2 = UserAccount { base_position: rb as i64, quote_position: rq as i64, ..ur };
        let ue2 = UserAccount { base_position: eb as i64, quote_position: eq2 as i64, ..ue };
        let mut liqor_out: Vec<u8> = Vec::new();
        ur2.encode_into(&mut liqor_out);
        let mut liqee_out: Vec<u8> = Vec::new();
        ue2.encode_into(&mut liqee_out);
        proof {
            assert(liqor_out@ =~= Seq::<u8>::empty() + spec_encode_user(ur2));
            assert(liqee_out@ =~= Seq::<u8>::empty() + spec_encode_user(ue2));
            assert(ur2 == spec_user_with_positions(
                ur,
                (ur.base_position + max_liq_amount as int) as i64,
                (ur.quote_position - (max_liq_amount as int)
                    * (spec_decode_oracle(oracle_data@).price as int)) as i64,
            ));
            assert(ue2 == spec_user_with_positions(
                ue,
                (ue.base_position - max_liq_amount as int) as i64,
                (ue.quote_position + (max_liq_amount as int)
                    * (spec_decode_oracle(oracle_data@).price as int)) as i64,
            ));
        }
        Ok((liqor_out, liqee_out))
    }

    /// Match a taker order against the supplied maker accounts and append
    /// the resulting trade events to the ring buffer.  The taker's own
    /// `price_lots` is not consulted: every trade runs at the resting
    /// order's price.  The market, taker, event queue and every maker
    /// record must live in program-owned storage, the owner flags listed
    /// slot for slot with the maker buffers.  See [`spec_place_order_pre`]
    /// and [`spec_place_order_result`].
    #[verifier::loop_isolation(false)]
    #[verifier::rlimit(100)]
    pub fn process_place_order(
        market_owned: bool,
        taker_owned: bool,
        queue_owned: bool,
        makers_owned: &Vec<bool>,
        market_data: &Vec<u8>,
        taker_data: &Vec<u8>,
        maker_datas: &Vec<Vec<u8>>,
        queue_data: &Vec<u8>,
        price_lots: i64,
        max_base_lots: i64,
        side_is_bid: bool,
        now_ts: i64,
    ) -> (r: Result<(Vec<u8>, Vec<Vec<u8>>, Vec<u8>), EngineError>)
        requires
            makers_owned@.len() == maker_datas@.len(),
        ensures
            match spec_place_order_pre(
                market_owned,
                taker_owned,
                queue_owned,
                makers_owned@,
                market_data@,
                taker_data@,
                maker_datas.deep_view(),
                queue_data@,
            ) {
                Ok(()) => spec_place_order_result(
                    r,
                    taker_data@,
                    maker_datas.deep_view(),
                    queue_data@,
                    max_base_lots,
                    side_is_bid,
                    now_ts,
                ),
                Err(e) => r == Err::<(Vec<u8>, Vec<Vec<u8>>, Vec<u8>), EngineError>(e),
            },
            r is Ok ==> (r->Ok_0.1)@.len() == maker_datas@.len(),
    {
        if !market_owned || !taker_owned || !queue_owned {
            return Err(EngineError::InvalidOwner);
        }
        let own_n: usize = makers_owned.len();
        let mut ko: usize = 0;
        while ko < own_n
            invariant
                ko <= own_n,
                own_n == makers_owned@.len(),
                forall|j: int| 0 <= j < ko ==> makers_owned@[j],
            decreases own_n - ko,
        {
            if !makers_owned[ko] {
                return Err(EngineError::InvalidOwner);
            }
            ko += 1;
        }
        if market_data.len() != MARKET_BYTES {
            return Err(EngineError::InvalidAccountData);
        }
        let market = match Market::decode_at(market_data.as_slice(), 0) {
            Some(m) => m,
            None => {
                proof {
                    assert(market_data@.subrange(0, MARKET_BYTES as int) =~= market_data@);
                }
                return Err(EngineError::InvalidAccountData);
            },
        };
        proof {
            assert(market_data@.subrange(0, MARKET_BYTES as int) =~= market_data@);
        }
        if !market.is_active {
            return Err(EngineError::MarketInactive);
        }
        if taker_data.len() != USER_BYTES {
            return Err(EngineError::InvalidAccountData);
        }
        let mut taker = match UserAccount::decode_at(taker_data.as_slice(), 0) {
            Some(u) => u,
            None => {
                proof {
                    assert(taker_data@.subrange(0, USER_BYTES as int) =~= taker_data@);
                }
                return Err(EngineError::InvalidAccountData);
            },
        };
        proof {
            assert(taker_data@.subrange(0, USER_BYTES as int) =~= taker_data@);
        }
        let mn: usize = maker_datas.len();
        let mut makers: Vec<UserAccount> = Vec::new();
        let mut k: usize = 0;
        while k < mn
            invariant
                k <= mn,
                makers@.len() == k,
                forall|j: int|
                    0 <= j < k ==> spec_user_bytes_valid(#[trigger] maker_datas.deep_view()[j]),
                forall|j: int|
                    0 <= j < k ==> spec_user_matches_bytes(
                        #[trigger] makers@[j],
                        maker_datas.deep_view()[j],
                    ),
            decreases mn - k,
        {
            let md: &Vec<u8> = &maker_datas[k];
            proof {
                assert(maker_datas.deep_view()[k as int] == md@);
            }
            if md.len() != USER_BYTES {
                return Err(EngineError::InvalidAccountData);
            }
            match UserAccount::decode_at(md.as_slice(), 0) {
                Some(u) => {
                    proof {
                        assert(md@.subrange(0, USER_BYTES as int) =~= md@);
                    }
                    makers.push(u);
                },
                None => {
                    proof {
                        assert(md@.subrange(0, USER_BYTES as int) =~= md@);
                    }
                    return Err(EngineError::InvalidAccountData);
                },
            }
            k += 1;
        }
        if queue_data.len() < QUEUE_HEADER_BYTES {
            return Err(EngineError::InvalidAccountData);
        }
        let header0 = EventQueueHeader::decode_at(queue_data.as_slice(), 0);
        let qlen: usize = queue_data.len();
        if header0.capacity == 0 || (header0.capacity as u128) * (EVENT_SLOT_BYTES as u128)
            + (QUEUE_HEADER_BYTES as u128) > (qlen as u128) {
            return Err(EngineError::InvalidAccountData);
        }
        let ghost taker0 = taker;
        let ghost makers0 = makers@;
        let mut events: Vec<Event> = Vec::new();
        let mut quote_total: i64 = 0;
        let remaining = match match_orders(
            &mut taker,
            &mut makers,
            max_base_lots,
            &mut quote_total,
            side_is_bid,
            &mut events,
        ) {
            Ok(rem) => rem,
            Err(e) => {
                proof {
                    assert forall|t: UserAccount, ms: Seq<UserAccount>|
                        #![trigger spec_match(t, ms, max_base_lots, 0, Seq::<Event>::empty(), side_is_bid)]
                        (spec_user_matches_bytes(t, taker_data@) && ms.len()
                            == maker_datas.deep_view().len() && (forall|j: int|
                            0 <= j < ms.len() ==> spec_user_matches_bytes(
                                #[trigger] ms[j],
                                maker_datas.deep_view()[j],
                            ))) implies t == taker0 && ms == makers0 by {
                        crate::state::lemma_user_matches_unique(t, taker0, taker_data@);
                        assert forall|j: int| 0 <= j < ms.len() implies ms[j] == makers0[j] by {
                            crate::state::lemma_user_matches_unique(
                                ms[j],
                                makers0[j],
                                maker_datas.deep_view()[j],
                            );
                        }
                        assert(ms =~= makers0);
                    }
                }
                return Err(EngineError::MathError);
            },
        };
        let ghost st = spec_match(
            taker0,
            makers0,
            max_base_lots,
            0,
            Seq::<Event>::empty(),
            side_is_bid,
        )->Some_0;
        proof {
            crate::matching::lemma_match_conservation(
                taker0,
                makers0,
                max_base_lots,
                0,
                Seq::<Event>::empty(),
                side_is_bid,
            );
        }
        taker.last_update_ts = now_ts;
        let mut taker_out: Vec<u8> = Vec::new();
        taker.encode_into(&mut taker_out);
        proof {
            assert(taker_out@ =~= Seq::<u8>::empty() + spec_encode_user(taker));
            assert(taker == UserAccount { last_update_ts: now_ts, ..st.taker });
        }
        let mut makers_out: Vec<Vec<u8>> = Vec::new();
        let mut k2: usize = 0;
        while k2 < mn
            invariant
                k2 <= mn,
                makers@.len() == mn,
                makers@ == st.makers,
                makers_out@.len() == k2,
                forall|j: int|
                    0 <= j < k2 ==> (#[trigger] makers_out@[j])@ == spec_encode_user(
                        st.makers[j],
                    ),
            decreases mn - k2,
        {
            let m: UserAccount = makers[k2];
            let mut mo: Vec<u8> = Vec::new();
            m.encode_into(&mut mo);
            proof {
                assert(mo@ =~= Seq::<u8>::empty() + spec_encode_user(m));
            }
            makers_out.push(mo);
            k2 += 1;
        }
        let mut header = header0;
        let mut region: Vec<u8> = vstd::slice::slice_to_vec(
            vstd::slice::slice_subrange(queue_data.as_slice(), QUEUE_HEADER_BYTES, qlen),
        );
        let ghost region0 = region@;
        let en: usize = events.len();
        let mut i: usize = 0;
        while i < en
            invariant
                i <= en,
                events@.len() == en,
                header.capacity == header0.capacity,
                header.capacity > 0,
                region@.len() == region0.len(),
                header0.capacity * (EVENT_SLOT_BYTES as int) <= region0.len(),
                (header.head, header.tail, region@) == spec_push_all(
                    header0.head,
                    header0.tail,
                    header0.capacity,
                    region0,
                    events@.take(i as int),
                ),
            decreases en - i,
        {
            proof {
                assert(events@.take(i as int + 1) =~= events@.take(i as int).push(
                    events@[i as int],
                ));
                crate::queue::lemma_push_all_snoc(
                    header0.head,
                    header0.tail,
                    header0.capacity,
                    region0,
                    events@.take(i as int),
                    events@[i as int],
                );
            }
            push_event(&mut header, &mut region, &events[i]);
            i += 1;
        }
        proof {
            assert(events@.take(en as int) =~= events@);
            assert(events@ == st.events);
        }
        let mut queue_out: Vec<u8> = Vec::new();
        header.encode_into(&mut queue_out);
        let ghost region_final = region@;
        queue_out.append(&mut region);
        proof {
            assert(queue_out@ =~= Seq::<u8>::empty() + spec_encode_header(header)
                + region_final);
            assert(region0 =~= queue_data@.subrange(
                QUEUE_HEADER_BYTES as int,
                queue_data@.len() as int,
            ));
            assert(queue_data@.subrange(0, QUEUE_HEADER_BYTES as int) == queue_data@.subrange(
                0,
                QUEUE_HEADER_BYTES as int,
            ));
            assert forall|t: UserAccount, ms: Seq<UserAccount>|
                #![trigger spec_match(t, ms, max_base_lots, 0, Seq::<Event>::empty(), side_is_bid)]
                (spec_user_matches_bytes(t, taker_data@) && ms.len()
                    == maker_datas.deep_view().len() && (forall|j: int|
                    0 <= j < ms.len() ==> spec_user_matches_bytes(
                        #[trigger] ms[j],
                        maker_datas.deep_view()[j],
                    ))) implies t == taker0 && ms == makers0 by {
                crate::state::lemma_user_matches_unique(t, taker0, taker_data@);
                assert forall|j: int| 0 <= j < ms.len() implies ms[j] == makers0[j] by {
                    crate::state::lemma_user_matches_unique(
                        ms[j],
                        makers0[j],
                        maker_datas.deep_view()[j],
                    );
                }
                assert(ms =~= makers0);
            }
        }
        Ok((taker_out, makers_out, queue_out))
    }

    /// Decode one instruction and run it over the supplied accounts,
    /// positionally, writing back every record it changes; on any error no
    /// record changes.  Too few accounts for the decoded operation fail
    /// with [`EngineError::InvalidInstruction`].
    #[verifier::rlimit(100)]
    pub fn process(
        accounts: &mut Vec<AccountView>,
        instruction_data: &[u8],
        now_ts: i64,
        now_slot: u64,
    ) -> (r: Result<(), EngineError>)
        ensures
            spec_meta_preserved(old(accounts)@, final(accounts)@),
            ({
                let a = old(accounts)@;
                let b = final(accounts)@;
                let n = a.len() as int;
                match spec_parse_instruction(instruction_data@) {
                    None => r == Err::<(), EngineError>(EngineError::InvalidInstruction)
                        && spec_data_unchanged(a, b),
                    Some(ix) => match ix {
                        EngineInstruction::InitializeMarket { fee_bps } => if n < 3 {
                            r == Err::<(), EngineError>(EngineError::InvalidInstruction)
                                && spec_data_unchanged(a, b)
                        } else {
                            match spec_initialize_market(
                                a[0].owner_is_program,
                                a[0].rent_exempt,
                                a[0].data@,
                                a[1].key,
                                a[2].key,
                                fee_bps,
                            ) {
                                Ok(out) => r == Ok::<(), EngineError>(()) && b[0].data@ == out
                                    && spec_data_unchanged_except(a, b, 0, 0),
                                Err(e) => r == Err::<(), EngineError>(e)
                                    && spec_data_unchanged(a, b),
                            }
                        },
                        EngineInstruction::Deposit { amount } => if n < 3 {
                            r == Err::<(), EngineError>(EngineError::InvalidInstruction)
                                && spec_data_unchanged(a, b)
                        } else {
                            match spec_deposit_outcome(
                                a[0].owner_is_program,
                                a[1].owner_is_program,
                                a[0].data@,
                                a[1].data@,
                                amount,
                            ) {
                                Ok(()) => r == Ok::<(), EngineError>(()) && b[1].data@.len()
                                    == a[1].data@.len() && spec_deposit_ok_bytes(
                                    b[1].data@,
                                    a[0].key,
                                    a[2].key,
                                    a[1].data@,
                                    amount,
                                    now_ts,
                                ) && spec_data_unchanged_except(a, b, 1, 1),
                                Err(e) => r == Err::<(), EngineError>(e)
                                    && spec_data_unchanged(a, b),
                            }
                        },
                        EngineInstruction::Withdraw { amount } => if n < 3 {
                            r == Err::<(), EngineError>(EngineError::InvalidInstruction)
                                && spec_data_unchanged(a, b)
                        } else {
                            match spec_withdraw_outcome(
                                a[0].owner_is_program,
                                a[1].owner_is_program,
                                a[1].data@,
                                amount,
                            ) {
                                Ok(()) => r == Ok::<(), EngineError>(())
                                    && spec_withdraw_ok_bytes(
                                    b[1].data@,
                                    a[1].data@,
                                    amount,
                                    now_ts,
                                ) && spec_data_unchanged_except(a, b, 1, 1),
                                Err(e) => r == Err::<(), EngineError>(e)
                                    && spec_data_unchanged(a, b),
                            }
                        },
                        EngineInstruction::PlaceOrder {
                            price_lots,
                            max_base_lots,
                            side_is_bid,
                        } => if n < 3 {
                            r == Err::<(), EngineError>(EngineError::InvalidInstruction)
                                && spec_data_unchanged(a, b)
                        } else {
                            match spec_place_order_pre(
                                a[0].owner_is_program,
                                a[1].owner_is_program,
                                a[2].owner_is_program,
                                Seq::new((n - 3) as nat, |j: int| a[3 + j].owner_is_program),
                                a[0].data@,
                                a[1].data@,
                                Seq::new((n - 3) as nat, |j: int| a[3 + j].data@),
                                a[2].data@,
                            ) {
                                Ok(()) => spec_place_order_accounts(
                                    r,
                                    a,
                                    b,
                                    max_base_lots,
                                    side_is_bid,
                                    now_ts,
                                ),
                                Err(e) => r == Err::<(), EngineError>(e)
                                    && spec_data_unchanged(a, b),
                            }
                        },
                        EngineInstruction::CancelOrder { order_id } => if n < 2 {
                            r == Err::<(), EngineError>(EngineError::InvalidInstruction)
                                && spec_data_unchanged(a, b)
                        } else {
                            match spec_cancel_outcome(
                                a[0].owner_is_program,
                                a[1].owner_is_program,
                                a[1].data@,
                            ) {
                                Ok(()) => r == Ok::<(), EngineError>(())
                                    && spec_cancel_ok_bytes(b[1].data@, a[1].data@, order_id)
                                    && spec_data_unchanged_except(a, b, 1, 1),
                                Err(e) => r == Err::<(), EngineError>(e)
                                    && spec_data_unchanged(a, b),
                            }
                        },
                        EngineInstruction::UpdateOracle { price, confidence } => if n < 1 {
                            r == Err::<(), EngineError>(EngineError::InvalidInstruction)
                                && spec_data_unchanged(a, b)
                        } else {
                            match spec_update_oracle_outcome(
                                a[0].owner_is_program,
                                a[0].data@,
                                price,
                                confidence,
                                now_slot,
                            ) {
                                Ok(out) => r == Ok::<(), EngineError>(()) && b[0].data@ == out
                                    && spec_data_unchanged_except(a, b, 0, 0),
                                Err(e) => r == Err::<(), EngineError>(e)
                                    && spec_data_unchanged(a, b),
                            }
                        },
                        EngineInstruction::Liquidate { max_liq_amount } => if n < 4 {
                            r == Err::<(), EngineError>(EngineError::InvalidInstruction)
                                && spec_data_unchanged(a, b)
                        } else {
                            match spec_liquidate_outcome(
                                a[0].owner_is_program,
                                a[1].owner_is_program,
                                a[2].owner_is_program,
                                a[0].data@,
                                a[1].data@,
                                a[2].data@,
                                a[3].data@,
                                max_liq_amount,
                            ) {
                                Ok(()) => r == Ok::<(), EngineError>(())
                                    && spec_liquidate_ok_bytes(
                                    b[1].data@,
                                    b[2].data@,
                                    a[1].data@,
                                    a[2].data@,
                                    a[3].data@,
                                    max_liq_amount,
                                ) && spec_data_unchanged_except(a, b, 1, 2),
                                Err(e) => r == Err::<(), EngineError>(e)
                                    && spec_data_unchanged(a, b),
                            }
                        },
                    },
                }
            }),
    {
        let ix = match EngineInstruction::unpack(instruction_data) {
            Ok(ix) => ix,
            Err(e) => {
                return Err(e);
            },
        };
        let n: usize = accounts.len();
        match ix {
            EngineInstruction::InitializeMarket { fee_bps } => {
                if n < 3 {
                    return Err(EngineError::InvalidInstruction);
                }
                let out = Self::process_initialize_market(
                    accounts[0].owner_is_program,
                    accounts[0].rent_exempt,
                    &accounts[0].data,
                    &accounts[1].key,
                    &accounts[2].key,
                    fee_bps,
                );
                match out {
                    Ok(v) => {
                        accounts[0].data = v;
                        Ok(())
                    },
                    Err(e) => Err(e),
                }
            },
            EngineInstruction::Deposit { amount } => {
                if n < 3 {
                    return Err(EngineError::InvalidInstruction);
                }
                let out = Self::process_deposit(
                    accounts[0].owner_is_program,
                    accounts[1].owner_is_program,
                    &accounts[0].data,
                    &accounts[1].data,
                    &accounts[0].key,
                    &accounts[2].key,
                    amount,
                    now_ts,
                );
                match out {
                    Ok(v) => {
                        accounts[1].data = v;
                        Ok(())
                    },
                    Err(e) => Err(e),
                }
            },
            EngineInstruction::Withdraw { amount } => {
                if n < 3 {
                    return Err(EngineError::InvalidInstruction);
                }
                let out = Self::process_withdraw(
                    accounts[0].owner_is_program,
                    accounts[1].owner_is_program,
                    &accounts[1].data,
                    amount,
                    now_ts,
                );
                match out {
                    Ok(v) => {
                        accounts[1].data = v;
                        Ok(())
                    },
                    Err(e) => Err(e),
                }
            },
            EngineInstruction::PlaceOrder { price_lots, max_base_lots, side_is_bid } => {
                if n < 3 {
                    return Err(EngineError::InvalidInstruction);
                }
                let mut maker_datas: Vec<Vec<u8>> = Vec::new();
                let mut makers_owned: Vec<bool> = Vec::new();
                let mut k: usize = 3;
                while k < n
                    invariant
                        3 <= k <= n,
                        n == accounts@.len(),
                        maker_datas@.len() == k - 3,
                        makers_owned@.len() == k - 3,
                        forall|j: int|
                            0 <= j < k - 3 ==> (#[trigger] maker_datas@[j])@ == accounts@[3
                                + j].data@,
                        forall|j: int|
                            0 <= j < k - 3 ==> (#[trigger] makers_owned@[j]) == accounts@[3
                                + j].owner_is_program,
                    decreases n - k,
                {
                    let mut md: Vec<u8> = Vec::new();
                    md.extend_from_slice(accounts[k].data.as_slice());
                    proof {
                        assert(md@ =~= accounts@[k as int].data@);
                    }
                    maker_datas.push(md);
                    makers_owned.push(accounts[k].owner_is_program);
                    k += 1;
                }
                proof {
                    assert(maker_datas.deep_view() =~~= Seq::new(
                        (n - 3) as nat,
                        |j: int| accounts@[3 + j].data@,
                    ));
                    assert(makers_owned@ =~= Seq::new(
                        (n - 3) as nat,
                        |j: int| accounts@[3 + j].owner_is_program,
                    ));
                }
                let out = Self::process_place_order(
                    accounts[0].owner_is_program,
                    accounts[1].owner_is_program,
                    accounts[2].owner_is_program,
                    &makers_owned,
                    &accounts[0].data,
                    &accounts[1].data,
                    &maker_datas,
                    &accounts[2].data,
                    price_lots,
                    max_base_lots,
                    side_is_bid,
                    now_ts,
                );
                match out {
                    Ok((taker_out, makers_out, queue_out)) => {
                        accounts[1].data = taker_out;
                        accounts[2].data = queue_out;
                        let ghost pre = accounts@;
                        let mut makers_out = makers_out;
                        let ghost mouts0 = makers_out@;
                        let mut k2: usize = 0;
                        while k2 < n - 3
                            invariant
                                k2 <= n - 3,
                                n == accounts@.len(),
                                makers_out@.len() == n - 3,
                                mouts0.len() == n - 3,
                                spec_meta_preserved(pre, accounts@),
                                accounts@[0].data@ == pre[0].data@,
                                accounts@[1].data@ == pre[1].data@,
                                accounts@[2].data@ == pre[2].data@,
                                forall|j: int|
                                    k2 <= j < n - 3 ==> (#[trigger] accounts@[3 + j]).data@
                                        == pre[3 + j].data@,
                                forall|j: int|
                                    k2 <= j < n - 3 ==> (#[trigger] makers_out@[j])@
                                        == mouts0[j]@,
                                forall|j: int|
                                    0 <= j < k2 ==> (#[trigger] accounts@[3 + j]).data@
                                        == mouts0[j]@,
                            decreases n - 3 - k2,
                        {
                            let mut tmp: Vec<u8> = Vec::new();
                            std::mem::swap(&mut tmp, &mut makers_out[k2]);
                            accounts[3 + k2].data = tmp;
                            k2 += 1;
                        }
                        Ok(())
                    },
                    Err(e) => Err(e),
                }
            },
            EngineInstruction::CancelOrder { order_id } => {
                if n < 2 {
                    return Err(EngineError::InvalidInstruction);
                }
                let out = Self::process_cancel_order(
                    accounts[0].owner_is_program,
                    accounts[1].owner_is_program,
                    &accounts[1].data,
                    order_id,
                );
                match out {
                    Ok(v) => {
                        accounts[1].data = v;
                        Ok(())
                    },
                    Err(e) => Err(e),
                }
            },
            EngineInstruction::UpdateOracle { price, confidence } => {
                if n < 1 {
                    return Err(EngineError::InvalidInstruction);
                }
                let out = Self::process_update_oracle(
                    accounts[0].owner_is_program,
                    &accounts[0].data,
                    price,
                    confidence,
                    now_slot,
                );
                match out {
                    Ok(v) => {
                        accounts[0].data = v;
                        Ok(())
                    },
                    Err(e) => Err(e),
                }
            },
            EngineInstruction::Liquidate { max_liq_amount } => {
                if n < 4 {
                    return Err(EngineError::InvalidInstruction);
                }
                let out = Self::process_liquidate(
                    accounts[0].owner_is_program,
                    accounts[1].owner_is_program,
                    accounts[2].owner_is_program,
                    &accounts[0].data,
                    &accounts[1].data,
                    &accounts[2].data,
                    &accounts[3].data,
                    max_liq_amount,
                );
                match out {
                    Ok((liqor_out, liqee_out)) => {
                        accounts[1].data = liqor_out;
                        accounts[2].data = liqee_out;
                        Ok(())
                    },
                    Err(e) => Err(e),
                }
            },
        }
    }
}

} // verus!
