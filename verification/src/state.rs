//! The venue's records and their canonical fixed-width layouts.
//!
//! Every record encodes to a byte string of a fixed size, field after field
//! in declaration order, so that any value round-trips through its encoding.
//! Booleans take one byte, `0` or `1`; any other byte fails decoding, so a
//! record's bytes are canonical exactly when they decode.

use crate::codec::{
    get_i64, get_u128, get_u16, get_u64, get_u8, put_bool, put_i64, put_u128, put_u16, put_u64,
    put_id, get_id, spec_bool_byte, spec_i64_from_le, spec_i64_le, AccountId,
    lemma_i64_le_roundtrip, lemma_i64_repr_roundtrip, lemma_concat_sub_left,
    lemma_concat_sub_right, lemma_sub_sub,
};
use vstd::bytes::*;
use vstd::prelude::*;

verus! {

/// Encoded size of an [`Order`].
pub const ORDER_BYTES: usize = 34;

/// Encoded size of a [`Market`].
pub const MARKET_BYTES: usize = 136;

/// Encoded size of a [`UserAccount`].
pub const USER_BYTES: usize = 360;

/// Encoded size of an [`OraclePrice`].
pub const ORACLE_BYTES: usize = 24;

/// Whether a byte is a valid boolean encoding.
pub open spec fn spec_byte_is_bool(b: u8) -> bool {
    b == 0 || b == 1
}

/// Configuration for a single trading market.
#[derive(Clone, Copy, Debug)]
pub struct Market {
    pub admin: AccountId,
    pub base_mint: AccountId,
    pub quote_mint: AccountId,
    pub oracle: AccountId,
    pub fee_bps: u16,
    pub is_active: bool,
    pub padding: [u8; 5],
}

/// User account tracking positions and open orders.
#[derive(Clone, Copy, Debug)]
pub struct UserAccount {
    pub owner: AccountId,
    pub market: AccountId,
    pub base_position: i64,
    pub quote_position: i64,
    pub last_update_ts: i64,
    pub open_orders: [Order; 8],
}

/// One resting order inside a user account's slot array.
#[derive(Clone, Copy, Debug)]
pub struct Order {
    pub id: u128,
    pub price_lots: i64,
    pub base_lots: i64,
    pub side_is_bid: bool,
    pub is_active: bool,
}

impl Default for Order {
    /// The all-zero, inactive order of an empty slot.
    fn default() -> (o: Order)
        ensures
            o.id == 0,
            o.price_lots == 0,
            o.base_lots == 0,
            !o.side_is_bid,
            !o.is_active,
    {
        Order { id: 0, price_lots: 0, base_lots: 0, side_is_bid: false, is_active: false }
    }
}

/// Oracle price record.
#[derive(Clone, Copy, Debug)]
pub struct OraclePrice {
    pub price: i64,
    pub confidence: u64,
    pub last_updated_slot: u64,
}

// ----------------------------------------------------------------------------
// Order layout: id 0..16, price_lots 16..24, base_lots 24..32,
// side_is_bid 32, is_active 33.
// ----------------------------------------------------------------------------

/// Canonical bytes of an order.
pub open spec fn spec_encode_order(o: Order) -> Seq<u8> {
    spec_u128_to_le_bytes(o.id) + spec_i64_le(o.price_lots) + spec_i64_le(o.base_lots) + seq![
        spec_bool_byte(o.side_is_bid),
    ] + seq![spec_bool_byte(o.is_active)]
}

/// Whether 34 bytes decode to some order.
pub open spec fn spec_order_bytes_valid(s: Seq<u8>) -> bool {
    &&& s.len() == ORDER_BYTES
    &&& spec_byte_is_bool(s[32])
    &&& spec_byte_is_bool(s[33])
}

/// The order held by 34 valid bytes.
pub open spec fn spec_decode_order(s: Seq<u8>) -> Order {
    Order {
        id: spec_u128_from_le_bytes(s.subrange(0, 16)),
        price_lots: spec_i64_from_le(s.subrange(16, 24)),
        base_lots: spec_i64_from_le(s.subrange(24, 32)),
        side_is_bid: s[32] == 1,
        is_active: s[33] == 1,
    }
}

impl Order {
    /// Append this order's canonical bytes.
    pub fn encode_into(&self, out: &mut Vec<u8>)
        ensures
            final(out)@ == old(out)@ + spec_encode_order(*self),
    {
        put_u128(out, self.id);
        put_i64(out, self.price_lots);
        put_i64(out, self.base_lots);
        put_bool(out, self.side_is_bid);
        put_bool(out, self.is_active);
        assert(out@ =~= old(out)@ + spec_encode_order(*self));
    }

    /// Decode the order stored at `off`, if those bytes are valid.
    pub fn decode_at(data: &[u8], off: usize) -> (r: Option<Order>)
        requires
            off + ORDER_BYTES <= data@.len(),
        ensures
            match r {
                Some(o) => spec_order_bytes_valid(data@.subrange(off as int, off + ORDER_BYTES))
                    && o == spec_decode_order(data@.subrange(off as int, off + ORDER_BYTES)),
                None => !spec_order_bytes_valid(data@.subrange(off as int, off + ORDER_BYTES)),
            },
    {
        let n: usize = data.len();
        let ghost s = data@.subrange(off as int, off + ORDER_BYTES);
        let side_b = get_u8(data, off + 32);
        let active_b = get_u8(data, off + 33);
        if side_b > 1 || active_b > 1 {
            return None;
        }
        let o = Order {
            id: get_u128(data, off),
            price_lots: get_i64(data, off + 16),
            base_lots: get_i64(data, off + 24),
            side_is_bid: side_b == 1,
            is_active: active_b == 1,
        };
        proof {
            assert(s.subrange(0, 16) =~= data@.subrange(off as int, off + 16));
            assert(s.subrange(16, 24) =~= data@.subrange(off + 16, off + 24));
            assert(s.subrange(24, 32) =~= data@.subrange(off + 24, off + 32));
            assert(s[32] == data@[off + 32]);
            assert(s[33] == data@[off + 33]);
        }
        Some(o)
    }
}

/// An order's canonical bytes are valid and decode back to the same order.
pub proof fn lemma_order_roundtrip(o: Order)
    ensures
        spec_encode_order(o).len() == ORDER_BYTES,
        spec_order_bytes_valid(spec_encode_order(o)),
        spec_decode_order(spec_encode_order(o)) == o,
{
    lemma_auto_spec_u128_to_from_le_bytes();
    lemma_auto_spec_u64_to_from_le_bytes();
    let s = spec_encode_order(o);
    assert(s.subrange(0, 16) =~= spec_u128_to_le_bytes(o.id));
    assert(s.subrange(16, 24) =~= spec_i64_le(o.price_lots));
    assert(s.subrange(24, 32) =~= spec_i64_le(o.base_lots));
    lemma_i64_le_roundtrip(o.price_lots);
    lemma_i64_le_roundtrip(o.base_lots);
}

// ----------------------------------------------------------------------------
// OraclePrice layout: price 0..8, confidence 8..16, last_updated_slot 16..24.
// ----------------------------------------------------------------------------

/// Canonical bytes of an oracle price record.
pub open spec fn spec_encode_oracle(p: OraclePrice) -> Seq<u8> {
    spec_i64_le(p.price) + spec_u64_to_le_bytes(p.confidence) + spec_u64_to_le_bytes(
        p.last_updated_slot,
    )
}

/// The oracle record held by 24 bytes; every 24-byte string is valid.
pub open spec fn spec_decode_oracle(s: Seq<u8>) -> OraclePrice {
    OraclePrice {
        price: spec_i64_from_le(s.subrange(0, 8)),
        confidence: spec_u64_from_le_bytes(s.subrange(8, 16)),
        last_updated_slot: spec_u64_from_le_bytes(s.subrange(16, 24)),
    }
}

impl OraclePrice {
    /// Append this record's canonical bytes.
    pub fn encode_into(&self, out: &mut Vec<u8>)
        ensures
            final(out)@ == old(out)@ + spec_encode_oracle(*self),
    {
        put_i64(out, self.price);
        put_u64(out, self.confidence);
        put_u64(out, self.last_updated_slot);
        assert(out@ =~= old(out)@ + spec_encode_oracle(*self));
    }

    /// Decode the record stored at `off`.
    pub fn decode_at(data: &[u8], off: usize) -> (p: OraclePrice)
        requires
            off + ORACLE_BYTES <= data@.len(),
        ensures
            p == spec_decode_oracle(data@.subrange(off as int, off + ORACLE_BYTES)),
    {
        let n: usize = data.len();
        let ghost s = data@.subrange(off as int, off + ORACLE_BYTES);
        let p = OraclePrice {
            price: get_i64(data, off),
            confidence: get_u64(data, off + 8),
            last_updated_slot: get_u64(data, off + 16),
        };
        proof {
            assert(s.subrange(0, 8) =~= data@.subrange(off as int, off + 8));
            assert(s.subrange(8, 16) =~= data@.subrange(off + 8, off + 16));
            assert(s.subrange(16, 24) =~= data@.subrange(off + 16, off + 24));
        }
        p
    }
}

/// An oracle record's canonical bytes decode back to the same record.
pub proof fn lemma_oracle_roundtrip(p: OraclePrice)
    ensures
        spec_encode_oracle(p).len() == ORACLE_BYTES,
        spec_decode_oracle(spec_encode_oracle(p)) == p,
{
    lemma_auto_spec_u64_to_from_le_bytes();
    let s = spec_encode_oracle(p);
    assert(s.subrange(0, 8) =~= spec_i64_le(p.price));
    assert(s.subrange(8, 16) =~= spec_u64_to_le_bytes(p.confidence));
    assert(s.subrange(16, 24) =~= spec_u64_to_le_bytes(p.last_updated_slot));
    lemma_i64_le_roundtrip(p.price);
}


// ----------------------------------------------------------------------------
// Market layout: admin 0..32, base_mint 32..64, quote_mint 64..96,
// oracle 96..128, fee_bps 128..130, is_active 130, padding 131..136.
// ----------------------------------------------------------------------------

/// Canonical bytes of a market record.
pub open spec fn spec_encode_market(m: Market) -> Seq<u8> {
    m.admin@ + m.base_mint@ + m.quote_mint@ + m.oracle@ + spec_u16_to_le_bytes(m.fee_bps) + seq![
        spec_bool_byte(m.is_active),
    ] + m.padding@
}

/// Whether 136 bytes decode to some market record.
pub open spec fn spec_market_bytes_valid(s: Seq<u8>) -> bool {
    &&& s.len() == MARKET_BYTES
    &&& spec_byte_is_bool(s[130])
}

/// Whether `m` is the market record held by the bytes `s`.
pub open spec fn spec_market_matches_bytes(m: Market, s: Seq<u8>) -> bool {
    &&& s.len() == MARKET_BYTES
    &&& m.admin@ == s.subrange(0, 32)
    &&& m.base_mint@ == s.subrange(32, 64)
    &&& m.quote_mint@ == s.subrange(64, 96)
    &&& m.oracle@ == s.subrange(96, 128)
    &&& m.fee_bps == spec_u16_from_le_bytes(s.subrange(128, 130))
    &&& m.is_active == (s[130] == 1)
    &&& m.padding@ == s.subrange(131, 136)
}

impl Market {
    /// Append this record's canonical bytes.
    pub fn encode_into(&self, out: &mut Vec<u8>)
        ensures
            final(out)@ == old(out)@ + spec_encode_market(*self),
    {
        put_id(out, &self.admin);
        put_id(out, &self.base_mint);
        put_id(out, &self.quote_mint);
        put_id(out, &self.oracle);
        put_u16(out, self.fee_bps);
        put_bool(out, self.is_active);
        out.push(self.padding[0]);
        out.push(self.padding[1]);
        out.push(self.padding[2]);
        out.push(self.padding[3]);
        out.push(self.padding[4]);
        assert(out@ =~= old(out)@ + spec_encode_market(*self));
    }

    /// Decode the market record stored at `off`, if those bytes are valid.
    #[verifier::loop_isolation(false)]
    pub fn decode_at(data: &[u8], off: usize) -> (r: Option<Market>)
        requires
            off + MARKET_BYTES <= data@.len(),
        ensures
            match r {
                Some(m) => spec_market_bytes_valid(data@.subrange(off as int, off + MARKET_BYTES))
                    && spec_market_matches_bytes(
                    m,
                    data@.subrange(off as int, off + MARKET_BYTES),
                ),
                None => !spec_market_bytes_valid(data@.subrange(off as int, off + MARKET_BYTES)),
            },
    {
        let n: usize = data.len();
        let ghost s = data@.subrange(off as int, off + MARKET_BYTES);
        let active_b = get_u8(data, off + 130);
        if active_b > 1 {
            return None;
        }
        let mut padding: [u8; 5] = [0u8; 5];
        let mut i: usize = 0;
        while i < 5
            invariant
                i <= 5,
                off + MARKET_BYTES <= data@.len(),
                padding@.len() == 5,
                forall|j: int| 0 <= j < i ==> padding@[j] == data@[off + 131 + j],
            decreases 5 - i,
        {
            padding[i] = data[off + 131 + i];
            i += 1;
        }
        let m = Market {
            admin: get_id(data, off),
            base_mint: get_id(data, off + 32),
            quote_mint: get_id(data, off + 64),
            oracle: get_id(data, off + 96),
            fee_bps: get_u16(data, off + 128),
            is_active: active_b == 1,
            padding,
        };
        proof {
            assert(s.subrange(0, 32) =~= data@.subrange(off as int, off + 32));
            assert(s.subrange(32, 64) =~= data@.subrange(off + 32, off + 64));
            assert(s.subrange(64, 96) =~= data@.subrange(off + 64, off + 96));
            assert(s.subrange(96, 128) =~= data@.subrange(off + 96, off + 128));
            assert(s.subrange(128, 130) =~= data@.subrange(off + 128, off + 130));
            assert(s.subrange(131, 136) =~= data@.subrange(off + 131, off + 136));
            assert(m.padding@ =~= s.subrange(131, 136));
            assert(s[130] == data@[off + 130]);
        }
        Some(m)
    }
}

/// A market record's canonical bytes are valid and decode back to it alone.
pub proof fn lemma_market_roundtrip(m: Market, m2: Market)
    ensures
        spec_encode_market(m).len() == MARKET_BYTES,
        spec_market_bytes_valid(spec_encode_market(m)),
        spec_market_matches_bytes(m, spec_encode_market(m)),
        spec_market_matches_bytes(m2, spec_encode_market(m)) ==> m2 == m,
{
    lemma_auto_spec_u16_to_from_le_bytes();
    let s = spec_encode_market(m);
    assert(s.subrange(0, 32) =~= m.admin@);
    assert(s.subrange(32, 64) =~= m.base_mint@);
    assert(s.subrange(64, 96) =~= m.quote_mint@);
    assert(s.subrange(96, 128) =~= m.oracle@);
    assert(s.subrange(128, 130) =~= spec_u16_to_le_bytes(m.fee_bps));
    assert(s.subrange(131, 136) =~= m.padding@);
    if spec_market_matches_bytes(m2, s) {
        assert(m2.admin =~= m.admin);
        assert(m2.base_mint =~= m.base_mint);
        assert(m2.quote_mint =~= m.quote_mint);
        assert(m2.oracle =~= m.oracle);
        assert(m2.padding =~= m.padding);
    }
}

// ----------------------------------------------------------------------------
// UserAccount layout: owner 0..32, market 32..64, base_position 64..72,
// quote_position 72..80, last_update_ts 80..88, eight orders from 88 on,
// 34 bytes each.
// ----------------------------------------------------------------------------

/// Bytes of order slot `k` inside an encoded user account.
pub open spec fn spec_user_order_bytes(s: Seq<u8>, k: int) -> Seq<u8> {
    s.subrange(88 + 34 * k, 88 + 34 * k + 34)
}

/// Canonical bytes of a user account.
pub open spec fn spec_encode_user(u: UserAccount) -> Seq<u8> {
    u.owner@ + u.market@ + spec_i64_le(u.base_position) + spec_i64_le(u.quote_position)
        + spec_i64_le(u.last_update_ts) + spec_encode_order(u.open_orders@[0]) + spec_encode_order(
        u.open_orders@[1],
    ) + spec_encode_order(u.open_orders@[2]) + spec_encode_order(u.open_orders@[3])
        + spec_encode_order(u.open_orders@[4]) + spec_encode_order(u.open_orders@[5])
        + spec_encode_order(u.open_orders@[6]) + spec_encode_order(u.open_orders@[7])
}

/// Whether 360 bytes decode to some user account.
pub open spec fn spec_user_bytes_valid(s: Seq<u8>) -> bool {
    &&& s.len() == USER_BYTES
    &&& forall|k: int| 0 <= k < 8 ==> spec_order_bytes_valid(#[trigger] spec_user_order_bytes(s, k))
}

/// Whether `u` is the user account held by the bytes `s`.
pub open spec fn spec_user_matches_bytes(u: UserAccount, s: Seq<u8>) -> bool {
    &&& s.len() == USER_BYTES
    &&& u.owner@ == s.subrange(0, 32)
    &&& u.market@ == s.subrange(32, 64)
    &&& u.base_position == spec_i64_from_le(s.subrange(64, 72))
    &&& u.quote_position == spec_i64_from_le(s.subrange(72, 80))
    &&& u.last_update_ts == spec_i64_from_le(s.subrange(80, 88))
    &&& forall|k: int|
        0 <= k < 8 ==> u.open_orders@[k] == spec_decode_order(
            #[trigger] spec_user_order_bytes(s, k),
        )
}

impl UserAccount {
    /// Append this record's canonical bytes.
    pub fn encode_into(&self, out: &mut Vec<u8>)
        ensures
            final(out)@ == old(out)@ + spec_encode_user(*self),
    {
        put_id(out, &self.owner);
        put_id(out, &self.market);
        put_i64(out, self.base_position);
        put_i64(out, self.quote_position);
        put_i64(out, self.last_update_ts);
        self.open_orders[0].encode_into(out);
        self.open_orders[1].encode_into(out);
        self.open_orders[2].encode_into(out);
        self.open_orders[3].encode_into(out);
        self.open_orders[4].encode_into(out);
        self.open_orders[5].encode_into(out);
        self.open_orders[6].encode_into(out);
        self.open_orders[7].encode_into(out);
        assert(out@ =~= old(out)@ + spec_encode_user(*self));
    }

    /// Decode the user account stored at `off`, if those bytes are valid.
    #[verifier::loop_isolation(false)]
    pub fn decode_at(data: &[u8], off: usize) -> (r: Option<UserAccount>)
        requires
            off + USER_BYTES <= data@.len(),
        ensures
            match r {
                Some(u) => spec_user_bytes_valid(data@.subrange(off as int, off + USER_BYTES))
                    && spec_user_matches_bytes(u, data@.subrange(off as int, off + USER_BYTES)),
                None => !spec_user_bytes_valid(data@.subrange(off as int, off + USER_BYTES)),
            },
    {
        let n: usize = data.len();
        let ghost s = data@.subrange(off as int, off + USER_BYTES);
        let mut orders: [Order; 8] = [Order {
            id: 0,
            price_lots: 0,
            base_lots: 0,
            side_is_bid: false,
            is_active: false,
        }; 8];
        let mut k: usize = 0;
        while k < 8
            invariant
                k <= 8,
                off + USER_BYTES <= data@.len(),
                s == data@.subrange(off as int, off + USER_BYTES),
                orders@.len() == 8,
                forall|j: int|
                    0 <= j < k ==> spec_order_bytes_valid(#[trigger] spec_user_order_bytes(s, j)),
                forall|j: int|
                    0 <= j < k ==> orders@[j] == spec_decode_order(
                        #[trigger] spec_user_order_bytes(s, j),
                    ),
            decreases 8 - k,
        {
            let r = Order::decode_at(data, off + 88 + 34 * k);
            proof {
                assert(spec_user_order_bytes(s, k as int) =~= data@.subrange(
                    off + 88 + 34 * (k as int),
                    off + 88 + 34 * (k as int) + 34,
                ));
            }
            match r {
                Some(o) => {
                    orders[k] = o;
                },
                None => {
                    return None;
                },
            }
            k += 1;
        }
        let u = UserAccount {
            owner: get_id(data, off),
            market: get_id(data, off + 32),
            base_position: get_i64(data, off + 64),
            quote_position: get_i64(data, off + 72),
            last_update_ts: get_i64(data, off + 80),
            open_orders: orders,
        };
        proof {
            assert(s.subrange(0, 32) =~= data@.subrange(off as int, off + 32));
            assert(s.subrange(32, 64) =~= data@.subrange(off + 32, off + 64));
            assert(s.subrange(64, 72) =~= data@.subrange(off + 64, off + 72));
            assert(s.subrange(72, 80) =~= data@.subrange(off + 72, off + 80));
            assert(s.subrange(80, 88) =~= data@.subrange(off + 80, off + 88));
        }
        Some(u)
    }
}

/// One byte string holds at most one user record.
pub proof fn lemma_user_matches_unique(u1: UserAccount, u2: UserAccount, s: Seq<u8>)
    requires
        spec_user_matches_bytes(u1, s),
        spec_user_matches_bytes(u2, s),
    ensures
        u1 == u2,
{
    assert(u1.owner =~= u2.owner);
    assert(u1.market =~= u2.market);
    assert forall|k: int| 0 <= k < 8 implies u1.open_orders@[k] == u2.open_orders@[k] by {
        assert(u1.open_orders@[k] == spec_decode_order(spec_user_order_bytes(s, k)));
        assert(u2.open_orders@[k] == spec_decode_order(spec_user_order_bytes(s, k)));
    }
    assert(u1.open_orders =~= u2.open_orders);
}

/// Where each field of a user account stands inside its canonical bytes.
pub proof fn lemma_user_enc_layout(u: UserAccount)
    ensures
        spec_encode_user(u).len() == USER_BYTES,
        spec_encode_user(u).subrange(0, 32) == u.owner@,
        spec_encode_user(u).subrange(32, 64) == u.market@,
        spec_encode_user(u).subrange(64, 72) == spec_i64_le(u.base_position),
        spec_encode_user(u).subrange(72, 80) == spec_i64_le(u.quote_position),
        spec_encode_user(u).subrange(80, 88) == spec_i64_le(u.last_update_ts),
        forall|k: int|
            0 <= k < 8 ==> #[trigger] spec_user_order_bytes(spec_encode_user(u), k)
                == spec_encode_order(u.open_orders@[k]),
{
    let e = spec_encode_user(u);
    let ob = u.owner@;
    let mb = u.market@;
    let bp = spec_i64_le(u.base_position);
    let qp = spec_i64_le(u.quote_position);
    let ts = spec_i64_le(u.last_update_ts);
    let e0 = spec_encode_order(u.open_orders@[0]);
    let e1 = spec_encode_order(u.open_orders@[1]);
    let e2 = spec_encode_order(u.open_orders@[2]);
    let e3 = spec_encode_order(u.open_orders@[3]);
    let e4 = spec_encode_order(u.open_orders@[4]);
    let e5 = spec_encode_order(u.open_orders@[5]);
    let e6 = spec_encode_order(u.open_orders@[6]);
    let e7 = spec_encode_order(u.open_orders@[7]);
    lemma_i64_le_roundtrip(u.base_position);
    lemma_i64_le_roundtrip(u.quote_position);
    lemma_i64_le_roundtrip(u.last_update_ts);
    lemma_order_roundtrip(u.open_orders@[0]);
    lemma_order_roundtrip(u.open_orders@[1]);
    lemma_order_roundtrip(u.open_orders@[2]);
    lemma_order_roundtrip(u.open_orders@[3]);
    lemma_order_roundtrip(u.open_orders@[4]);
    lemma_order_roundtrip(u.open_orders@[5]);
    lemma_order_roundtrip(u.open_orders@[6]);
    lemma_order_roundtrip(u.open_orders@[7]);
    let h2 = ob + mb;
    let h3 = h2 + bp;
    let h4 = h3 + qp;
    let h5 = h4 + ts;
    let a0 = h5 + e0;
    let a1 = a0 + e1;
    let a2 = a1 + e2;
    let a3 = a2 + e3;
    let a4 = a3 + e4;
    let a5 = a4 + e5;
    let a6 = a5 + e6;
    assert(e == a6 + e7);
    // The eight order slots.
    lemma_concat_sub_right(a6, e7, 326, 360);
    assert(e7.subrange(0, 34) =~= e7);
    lemma_concat_sub_left(a6, e7, 292, 326);
    lemma_concat_sub_right(a5, e6, 292, 326);
    assert(e6.subrange(0, 34) =~= e6);
    lemma_concat_sub_left(a6, e7, 258, 292);
    lemma_concat_sub_left(a5, e6, 258, 292);
    lemma_concat_sub_right(a4, e5, 258, 292);
    assert(e5.subrange(0, 34) =~= e5);
    lemma_concat_sub_left(a6, e7, 224, 258);
    lemma_concat_sub_left(a5, e6, 224, 258);
    lemma_concat_sub_left(a4, e5, 224, 258);
    lemma_concat_sub_right(a3, e4, 224, 258);
    assert(e4.subrange(0, 34) =~= e4);
    lemma_concat_sub_left(a6, e7, 190, 224);
    lemma_concat_sub_left(a5, e6, 190, 224);
    lemma_concat_sub_left(a4, e5, 190, 224);
    lemma_concat_sub_left(a3, e4, 190, 224);
    lemma_concat_sub_right(a2, e3, 190, 224);
    assert(e3.subrange(0, 34) =~= e3);
    lemma_concat_sub_left(a6, e7, 156, 190);
    lemma_concat_sub_left(a5, e6, 156, 190);
    lemma_concat_sub_left(a4, e5, 156, 190);
    lemma_concat_sub_left(a3, e4, 156, 190);
    lemma_concat_sub_left(a2, e3, 156, 190);
    lemma_concat_sub_right(a1, e2, 156, 190);
    assert(e2.subrange(0, 34) =~= e2);
    lemma_concat_sub_left(a6, e7, 122, 156);
    lemma_concat_sub_left(a5, e6, 122, 156);
    lemma_concat_sub_left(a4, e5, 122, 156);
    lemma_concat_sub_left(a3, e4, 122, 156);
    lemma_concat_sub_left(a2, e3, 122, 156);
    lemma_concat_sub_left(a1, e2, 122, 156);
    lemma_concat_sub_right(a0, e1, 122, 156);
    assert(e1.subrange(0, 34) =~= e1);
    lemma_concat_sub_left(a6, e7, 88, 122);
    lemma_concat_sub_left(a5, e6, 88, 122);
    lemma_concat_sub_left(a4, e5, 88, 122);
    lemma_concat_sub_left(a3, e4, 88, 122);
    lemma_concat_sub_left(a2, e3, 88, 122);
    lemma_concat_sub_left(a1, e2, 88, 122);
    lemma_concat_sub_left(a0, e1, 88, 122);
    lemma_concat_sub_right(h5, e0, 88, 122);
    assert(e0.subrange(0, 34) =~= e0);
    // The fixed header.
    lemma_concat_sub_left(a6, e7, 0, 88);
    lemma_concat_sub_left(a5, e6, 0, 88);
    lemma_concat_sub_left(a4, e5, 0, 88);
    lemma_concat_sub_left(a3, e4, 0, 88);
    lemma_concat_sub_left(a2, e3, 0, 88);
    lemma_concat_sub_left(a1, e2, 0, 88);
    lemma_concat_sub_left(a0, e1, 0, 88);
    lemma_concat_sub_left(h5, e0, 0, 88);
    assert(h5.subrange(0, 88) =~= h5);
    assert(e.subrange(0, 88) == h5);
    lemma_concat_sub_left(h4, ts, 0, 32);
    lemma_concat_sub_left(h3, qp, 0, 32);
    lemma_concat_sub_left(h2, bp, 0, 32);
    lemma_concat_sub_left(ob, mb, 0, 32);
    assert(ob.subrange(0, 32) =~= ob);
    lemma_concat_sub_left(h4, ts, 32, 64);
    lemma_concat_sub_left(h3, qp, 32, 64);
    lemma_concat_sub_left(h2, bp, 32, 64);
    lemma_concat_sub_right(ob, mb, 32, 64);
    assert(mb.subrange(0, 32) =~= mb);
    lemma_concat_sub_left(h4, ts, 64, 72);
    lemma_concat_sub_left(h3, qp, 64, 72);
    lemma_concat_sub_right(h2, bp, 64, 72);
    assert(bp.subrange(0, 8) =~= bp);
    lemma_concat_sub_left(h4, ts, 72, 80);
    lemma_concat_sub_right(h3, qp, 72, 80);
    assert(qp.subrange(0, 8) =~= qp);
    lemma_concat_sub_right(h4, ts, 80, 88);
    assert(ts.subrange(0, 8) =~= ts);
    lemma_sub_sub(e, 0, 88, 0, 32);
    lemma_sub_sub(e, 0, 88, 32, 64);
    lemma_sub_sub(e, 0, 88, 64, 72);
    lemma_sub_sub(e, 0, 88, 72, 80);
    lemma_sub_sub(e, 0, 88, 80, 88);
}

/// A user account's canonical bytes are valid and decode back to it alone.
pub proof fn lemma_user_roundtrip(u: UserAccount, u2: UserAccount)
    ensures
        spec_encode_user(u).len() == USER_BYTES,
        spec_user_bytes_valid(spec_encode_user(u)),
        spec_user_matches_bytes(u, spec_encode_user(u)),
        spec_user_matches_bytes(u2, spec_encode_user(u)) ==> u2 == u,
{
    let s = spec_encode_user(u);
    lemma_user_enc_layout(u);
    lemma_i64_le_roundtrip(u.base_position);
    lemma_i64_le_roundtrip(u.quote_position);
    lemma_i64_le_roundtrip(u.last_update_ts);
    assert forall|k: int| 0 <= k < 8 implies spec_order_bytes_valid(
        #[trigger] spec_user_order_bytes(s, k),
    ) && spec_decode_order(spec_user_order_bytes(s, k)) == u.open_orders@[k] by {
        lemma_order_roundtrip(u.open_orders@[k]);
    }
    if spec_user_matches_bytes(u2, s) {
        assert(u2.owner =~= u.owner);
        assert(u2.market =~= u.market);
        assert forall|k: int| 0 <= k < 8 implies u2.open_orders@[k] == u.open_orders@[k] by {
            assert(u2.open_orders@[k] == spec_decode_order(spec_user_order_bytes(s, k)));
        }
        assert(u2.open_orders =~= u.open_orders);
    }
}


// ----------------------------------------------------------------------------
// Event layout: one byte of variant tag, then the variant's fields, padded
// with zero bytes to the uniform slot width.  The slot width is the largest
// encoding over all variants, so every event fits in one slot:
// Trade: tag 0, maker 1..33, taker 33..65, price_lots 65..73, base_lots 73..81.
// FundingUpdate: tag 1, market 1..33, funding_rate_bps 33..41, zeros 41..81.
// ----------------------------------------------------------------------------

/// Uniform encoded slot size of an [`Event`]: the largest variant's encoding.
pub const EVENT_SLOT_BYTES: usize = 81;

/// Settlement events appended to the ring buffer queue.
#[derive(Clone, Copy, Debug)]
pub enum Event {
    Trade { maker: AccountId, taker: AccountId, price_lots: i64, base_lots: i64 },
    FundingUpdate { market: AccountId, funding_rate_bps: i64 },
}

/// Canonical slot bytes of an event, padded to the uniform width.
pub open spec fn spec_encode_event(e: Event) -> Seq<u8> {
    match e {
        Event::Trade { maker, taker, price_lots, base_lots } => seq![0u8] + maker@ + taker@
            + spec_i64_le(price_lots) + spec_i64_le(base_lots),
        Event::FundingUpdate { market, funding_rate_bps } => seq![1u8] + market@ + spec_i64_le(
            funding_rate_bps,
        ) + Seq::new(40, |i: int| 0u8),
    }
}

/// Whether a slot's bytes decode to some event.
pub open spec fn spec_event_bytes_valid(s: Seq<u8>) -> bool {
    &&& s.len() == EVENT_SLOT_BYTES
    &&& spec_byte_is_bool(s[0])
}

/// Whether `e` is the event held by the slot bytes `s`.
pub open spec fn spec_event_matches_bytes(e: Event, s: Seq<u8>) -> bool {
    &&& s.len() == EVENT_SLOT_BYTES
    &&& match e {
        Event::Trade { maker, taker, price_lots, base_lots } => {
            &&& s[0] == 0
            &&& maker@ == s.subrange(1, 33)
            &&& taker@ == s.subrange(33, 65)
            &&& price_lots == spec_i64_from_le(s.subrange(65, 73))
            &&& base_lots == spec_i64_from_le(s.subrange(73, 81))
        },
        Event::FundingUpdate { market, funding_rate_bps } => {
            &&& s[0] == 1
            &&& market@ == s.subrange(1, 33)
            &&& funding_rate_bps == spec_i64_from_le(s.subrange(33, 41))
        },
    }
}

impl Event {
    /// The uniform slot width shared by every variant; the largest variant
    /// sets it, and smaller variants are padded up to it.
    pub fn serialized_size() -> (n: usize)
        ensures
            n == EVENT_SLOT_BYTES,
    {
        EVENT_SLOT_BYTES
    }

    /// Append this event's canonical slot bytes.
    #[verifier::loop_isolation(false)]
    pub fn encode_into(&self, out: &mut Vec<u8>)
        ensures
            final(out)@ == old(out)@ + spec_encode_event(*self),
            final(out)@.len() == old(out)@.len() + EVENT_SLOT_BYTES,
    {
        match self {
            Event::Trade { maker, taker, price_lots, base_lots } => {
                out.push(0u8);
                put_id(out, maker);
                put_id(out, taker);
                put_i64(out, *price_lots);
                put_i64(out, *base_lots);
                assert(out@ =~= old(out)@ + spec_encode_event(*self));
            },
            Event::FundingUpdate { market, funding_rate_bps } => {
                out.push(1u8);
                put_id(out, market);
                put_i64(out, *funding_rate_bps);
                let ghost pre = out@;
                let mut i: usize = 0;
                while i < 40
                    invariant
                        i <= 40,
                        out@ =~= pre + Seq::new(i as nat, |j: int| 0u8),
                    decreases 40 - i,
                {
                    out.push(0u8);
                    assert(out@ =~= pre + Seq::new((i + 1) as nat, |j: int| 0u8));
                    i += 1;
                }
                assert(out@ =~= old(out)@ + spec_encode_event(*self));
            },
        }
        proof {
            lemma_event_slot_uniform(*self);
        }
    }

    /// Decode the event slot stored at `off`, if its bytes are valid.
    pub fn decode_at(data: &[u8], off: usize) -> (r: Option<Event>)
        requires
            off + EVENT_SLOT_BYTES <= data@.len(),
        ensures
            match r {
                Some(e) => spec_event_bytes_valid(
                    data@.subrange(off as int, off + EVENT_SLOT_BYTES),
                ) && spec_event_matches_bytes(
                    e,
                    data@.subrange(off as int, off + EVENT_SLOT_BYTES),
                ),
                None => !spec_event_bytes_valid(
                    data@.subrange(off as int, off + EVENT_SLOT_BYTES),
                ),
            },
    {
        let n: usize = data.len();
        let ghost s = data@.subrange(off as int, off + EVENT_SLOT_BYTES);
        let tag = get_u8(data, off);
        proof {
            assert(s[0] == data@[off as int]);
            assert(s.subrange(1, 33) =~= data@.subrange(off + 1, off + 33));
            assert(s.subrange(33, 65) =~= data@.subrange(off + 33, off + 65));
            assert(s.subrange(65, 73) =~= data@.subrange(off + 65, off + 73));
            assert(s.subrange(73, 81) =~= data@.subrange(off + 73, off + 81));
            assert(s.subrange(33, 41) =~= data@.subrange(off + 33, off + 41));
        }
        if tag == 0 {
            Some(
                Event::Trade {
                    maker: get_id(data, off + 1),
                    taker: get_id(data, off + 33),
                    price_lots: get_i64(data, off + 65),
                    base_lots: get_i64(data, off + 73),
                },
            )
        } else if tag == 1 {
            Some(
                Event::FundingUpdate {
                    market: get_id(data, off + 1),
                    funding_rate_bps: get_i64(data, off + 33),
                },
            )
        } else {
            None
        }
    }
}

/// Every event variant encodes to exactly the uniform slot width.
pub proof fn lemma_event_slot_uniform(e: Event)
    ensures
        spec_encode_event(e).len() == EVENT_SLOT_BYTES,
{
    lemma_auto_spec_u64_to_from_le_bytes();
}

/// An event's canonical slot bytes are valid and decode back to it alone.
pub proof fn lemma_event_roundtrip(e: Event, e2: Event)
    ensures
        spec_encode_event(e).len() == EVENT_SLOT_BYTES,
        spec_event_bytes_valid(spec_encode_event(e)),
        spec_event_matches_bytes(e, spec_encode_event(e)),
        spec_event_matches_bytes(e2, spec_encode_event(e)) ==> e2 == e,
{
    lemma_event_slot_uniform(e);
    let s = spec_encode_event(e);
    match e {
        Event::Trade { maker, taker, price_lots, base_lots } => {
            lemma_i64_le_roundtrip(price_lots);
            lemma_i64_le_roundtrip(base_lots);
            assert(s.subrange(1, 33) =~= maker@);
            assert(s.subrange(33, 65) =~= taker@);
            assert(s.subrange(65, 73) =~= spec_i64_le(price_lots));
            assert(s.subrange(73, 81) =~= spec_i64_le(base_lots));
        },
        Event::FundingUpdate { market, funding_rate_bps } => {
            lemma_i64_le_roundtrip(funding_rate_bps);
            assert(s.subrange(1, 33) =~= market@);
            assert(s.subrange(33, 41) =~= spec_i64_le(funding_rate_bps));
        },
    }
    if spec_event_matches_bytes(e2, s) {
        match (e2, e) {
            (
                Event::Trade { maker: m2, taker: t2, price_lots: p2, base_lots: b2 },
                Event::Trade { maker: m1, taker: t1, price_lots: p1, base_lots: b1 },
            ) => {
                assert(m2 =~= m1);
                assert(t2 =~= t1);
            },
            (
                Event::FundingUpdate { market: m2, funding_rate_bps: r2 },
                Event::FundingUpdate { market: m1, funding_rate_bps: r1 },
            ) => {
                assert(m2 =~= m1);
            },
            _ => {},
        }
    }
}

} // verus!
