use matching_engine::error::EngineError;
use matching_engine::instruction::EngineInstruction;
use matching_engine::queue::{push_event, EventQueueHeader};
use matching_engine::state::{
    Event, Market, OraclePrice, Order, UserAccount, EVENT_SLOT_BYTES, MARKET_BYTES, ORACLE_BYTES,
    ORDER_BYTES, USER_BYTES,
};

fn key(b: u8) -> [u8; 32] {
    [b; 32]
}

#[test]
fn order_record_roundtrip() {
    let o = Order {
        id: 0xDEAD_BEEF_0123_4567_89AB_CDEF_u128,
        price_lots: -42,
        base_lots: i64::MAX,
        side_is_bid: true,
        is_active: true,
    };
    let mut bytes = Vec::new();
    o.encode_into(&mut bytes);
    assert_eq!(bytes.len(), ORDER_BYTES);
    let o2 = Order::decode_at(&bytes, 0).expect("decode");
    assert_eq!(o2.id, o.id);
    assert_eq!(o2.price_lots, o.price_lots);
    assert_eq!(o2.base_lots, o.base_lots);
    assert_eq!(o2.side_is_bid, o.side_is_bid);
    assert_eq!(o2.is_active, o.is_active);
}

#[test]
fn order_rejects_bad_bool_byte() {
    let o = Order::default();
    let mut bytes = Vec::new();
    o.encode_into(&mut bytes);
    bytes[33] = 2;
    assert!(Order::decode_at(&bytes, 0).is_none());
}

#[test]
fn market_record_roundtrip() {
    let m = Market {
        admin: key(1),
        base_mint: key(2),
        quote_mint: key(3),
        oracle: key(4),
        fee_bps: 25,
        is_active: true,
        padding: [0; 5],
    };
    let mut bytes = Vec::new();
    m.encode_into(&mut bytes);
    assert_eq!(bytes.len(), MARKET_BYTES);
    // fee_bps sits little-endian right after the four keys.
    assert_eq!(bytes[128], 25);
    assert_eq!(bytes[129], 0);
    let m2 = Market::decode_at(&bytes, 0).expect("decode");
    assert_eq!(m2.admin, m.admin);
    assert_eq!(m2.base_mint, m.base_mint);
    assert_eq!(m2.quote_mint, m.quote_mint);
    assert_eq!(m2.oracle, m.oracle);
    assert_eq!(m2.fee_bps, m.fee_bps);
    assert_eq!(m2.is_active, m.is_active);
}

#[test]
fn user_record_roundtrip() {
    let mut orders = [Order::default(); 8];
    orders[2] = Order {
        id: 9,
        price_lots: 77,
        base_lots: -5,
        side_is_bid: false,
        is_active: true,
    };
    let u = UserAccount {
        owner: key(7),
        market: key(8),
        base_position: -1000,
        quote_position: i64::MIN,
        last_update_ts: 1_700_000_000,
        open_orders: orders,
    };
    let mut bytes = Vec::new();
    u.encode_into(&mut bytes);
    assert_eq!(bytes.len(), USER_BYTES);
    let u2 = UserAccount::decode_at(&bytes, 0).expect("decode");
    assert_eq!(u2.owner, u.owner);
    assert_eq!(u2.market, u.market);
    assert_eq!(u2.base_position, u.base_position);
    assert_eq!(u2.quote_position, u.quote_position);
    assert_eq!(u2.last_update_ts, u.last_update_ts);
    for k in 0..8 {
        assert_eq!(u2.open_orders[k].id, u.open_orders[k].id);
        assert_eq!(u2.open_orders[k].price_lots, u.open_orders[k].price_lots);
        assert_eq!(u2.open_orders[k].base_lots, u.open_orders[k].base_lots);
        assert_eq!(u2.open_orders[k].side_is_bid, u.open_orders[k].side_is_bid);
        assert_eq!(u2.open_orders[k].is_active, u.open_orders[k].is_active);
    }
}

#[test]
fn oracle_record_roundtrip_and_layout() {
    let p = OraclePrice {
        price: 1,
        confidence: 258,
        last_updated_slot: u64::MAX,
    };
    let mut bytes = Vec::new();
    p.encode_into(&mut bytes);
    assert_eq!(bytes.len(), ORACLE_BYTES);
    // price = 1, little-endian signed.
    assert_eq!(&bytes[0..8], &[1, 0, 0, 0, 0, 0, 0, 0]);
    // confidence = 258 = 0x0102.
    assert_eq!(&bytes[8..10], &[2, 1]);
    let p2 = OraclePrice::decode_at(&bytes, 0);
    assert_eq!(p2.price, p.price);
    assert_eq!(p2.confidence, p.confidence);
    assert_eq!(p2.last_updated_slot, p.last_updated_slot);
}

#[test]
fn negative_price_encodes_twos_complement() {
    let p = OraclePrice {
        price: -1,
        confidence: 0,
        last_updated_slot: 0,
    };
    let mut bytes = Vec::new();
    p.encode_into(&mut bytes);
    assert_eq!(&bytes[0..8], &[0xff; 8]);
    assert_eq!(OraclePrice::decode_at(&bytes, 0).price, -1);
}

#[test]
fn event_slot_roundtrip_both_variants() {
    assert_eq!(Event::serialized_size(), EVENT_SLOT_BYTES);

    let t = Event::Trade {
        maker: key(1),
        taker: key(2),
        price_lots: 50,
        base_lots: 10,
    };
    let mut bytes = Vec::new();
    t.encode_into(&mut bytes);
    assert_eq!(bytes.len(), EVENT_SLOT_BYTES);
    match Event::decode_at(&bytes, 0).expect("decode") {
        Event::Trade {
            maker,
            taker,
            price_lots,
            base_lots,
        } => {
            assert_eq!(maker, key(1));
            assert_eq!(taker, key(2));
            assert_eq!(price_lots, 50);
            assert_eq!(base_lots, 10);
        }
        _ => panic!("unexpected variant"),
    }

    let f = Event::FundingUpdate {
        market: key(3),
        funding_rate_bps: -12,
    };
    let mut fb = Vec::new();
    f.encode_into(&mut fb);
    assert_eq!(fb.len(), EVENT_SLOT_BYTES);
    match Event::decode_at(&fb, 0).expect("decode") {
        Event::FundingUpdate {
            market,
            funding_rate_bps,
        } => {
            assert_eq!(market, key(3));
            assert_eq!(funding_rate_bps, -12);
        }
        _ => panic!("unexpected variant"),
    }
}

#[test]
fn event_rejects_unknown_tag() {
    let t = Event::Trade {
        maker: key(1),
        taker: key(2),
        price_lots: 50,
        base_lots: 10,
    };
    let mut bytes = Vec::new();
    t.encode_into(&mut bytes);
    bytes[0] = 9;
    assert!(Event::decode_at(&bytes, 0).is_none());
}

#[test]
fn instruction_all_variants_roundtrip() {
    let cases = vec![
        EngineInstruction::InitializeMarket { fee_bps: 30 },
        EngineInstruction::Deposit { amount: u64::MAX },
        EngineInstruction::Withdraw { amount: 0 },
        EngineInstruction::PlaceOrder {
            price_lots: -1,
            max_base_lots: i64::MIN,
            side_is_bid: false,
        },
        EngineInstruction::CancelOrder { order_id: u128::MAX },
        EngineInstruction::UpdateOracle {
            price: 50,
            confidence: 3,
        },
        EngineInstruction::Liquidate { max_liq_amount: 10 },
    ];
    for ix in cases {
        let bytes = ix.pack();
        assert_eq!(EngineInstruction::unpack(&bytes), Ok(ix));
    }
}

#[test]
fn instruction_rejects_garbage() {
    assert_eq!(
        EngineInstruction::unpack(&[]),
        Err(EngineError::InvalidInstruction)
    );
    assert_eq!(
        EngineInstruction::unpack(&[7, 0, 0]),
        Err(EngineError::InvalidInstruction)
    );
    // A PlaceOrder body whose side byte is neither 0 nor 1.
    let mut bytes = EngineInstruction::PlaceOrder {
        price_lots: 1,
        max_base_lots: 1,
        side_is_bid: true,
    }
    .pack();
    bytes[17] = 2;
    assert_eq!(
        EngineInstruction::unpack(&bytes),
        Err(EngineError::InvalidInstruction)
    );
    // A truncated Deposit.
    assert_eq!(
        EngineInstruction::unpack(&[1, 0, 0]),
        Err(EngineError::InvalidInstruction)
    );
}

#[test]
fn queue_header_init_and_roundtrip() {
    let mut h = EventQueueHeader {
        head: 5,
        tail: 9,
        capacity: 7,
    };
    h.init(64);
    assert_eq!(h.head, 0);
    assert_eq!(h.tail, 0);
    assert_eq!(h.capacity, 64);
    let mut bytes = Vec::new();
    h.encode_into(&mut bytes);
    assert_eq!(bytes.len(), 24);
    let h2 = EventQueueHeader::decode_at(&bytes, 0);
    assert_eq!(h2.head, 0);
    assert_eq!(h2.tail, 0);
    assert_eq!(h2.capacity, 64);
}

#[test]
fn queue_overwrite_drops_oldest() {
    // Push capacity + 2 events into an initially empty queue of capacity 4:
    // the oldest 2 are dropped and tail - head == capacity.
    let capacity: u64 = 4;
    let mut header = EventQueueHeader {
        head: 0,
        tail: 0,
        capacity,
    };
    let mut region = vec![0u8; (capacity as usize) * EVENT_SLOT_BYTES];
    let total = 6u64;
    for i in 0..total {
        let e = Event::Trade {
            maker: key(1),
            taker: key(2),
            price_lots: 50,
            base_lots: i as i64,
        };
        push_event(&mut header, &mut region, &e);
    }
    assert_eq!(header.tail, total);
    assert_eq!(header.head, total - capacity);
    assert_eq!(header.tail - header.head, capacity);
    for j in 0..capacity {
        let idx = ((header.head + j) % capacity) as usize;
        match Event::decode_at(&region, idx * EVENT_SLOT_BYTES).expect("decode") {
            Event::Trade { base_lots, .. } => {
                assert_eq!(base_lots, (header.head + j) as i64);
            }
            _ => panic!("unexpected variant"),
        }
    }
}

#[test]
fn queue_push_wraps_slot_index() {
    let capacity: u64 = 2;
    let mut header = EventQueueHeader {
        head: 0,
        tail: 3,
        capacity,
    };
    let mut region = vec![0u8; (capacity as usize) * EVENT_SLOT_BYTES];
    let e = Event::FundingUpdate {
        market: key(5),
        funding_rate_bps: 8,
    };
    push_event(&mut header, &mut region, &e);
    // tail was 3, so the event lands in slot 3 % 2 == 1.
    match Event::decode_at(&region, EVENT_SLOT_BYTES).expect("decode") {
        Event::FundingUpdate {
            funding_rate_bps, ..
        } => assert_eq!(funding_rate_bps, 8),
        _ => panic!("unexpected variant"),
    }
    assert_eq!(header.tail, 4);
    assert_eq!(header.head, 1);
}
