use matching_engine::error::EngineError;
use matching_engine::instruction::EngineInstruction;
use matching_engine::oracle::{read_price, write_price};
use matching_engine::processor::{AccountView, Processor};
use matching_engine::state::{
    Market, OraclePrice, Order, UserAccount, MARKET_BYTES, ORACLE_BYTES, USER_BYTES,
};

fn key(b: u8) -> [u8; 32] {
    [b; 32]
}

fn market_bytes(active: bool) -> Vec<u8> {
    let m = Market {
        admin: key(1),
        base_mint: key(2),
        quote_mint: key(3),
        oracle: key(4),
        fee_bps: 10,
        is_active: active,
        padding: [0; 5],
    };
    let mut out = Vec::new();
    m.encode_into(&mut out);
    out
}

fn user_bytes(owner: [u8; 32], base: i64, quote: i64, orders: [Order; 8]) -> Vec<u8> {
    let u = UserAccount {
        owner,
        market: key(9),
        base_position: base,
        quote_position: quote,
        last_update_ts: 0,
        open_orders: orders,
    };
    let mut out = Vec::new();
    u.encode_into(&mut out);
    out
}

fn oracle_bytes(price: i64) -> Vec<u8> {
    let p = OraclePrice {
        price,
        confidence: 1,
        last_updated_slot: 0,
    };
    let mut out = Vec::new();
    p.encode_into(&mut out);
    out
}

#[test]
fn initialize_market_from_zeroed_storage() {
    let data = vec![0u8; MARKET_BYTES];
    let out = Processor::process_initialize_market(true, true, &data, &key(1), &key(4), 25)
        .expect("init");
    let m = Market::decode_at(&out, 0).expect("decode");
    assert_eq!(m.admin, key(1));
    assert_eq!(m.oracle, key(4));
    assert_eq!(m.fee_bps, 25);
    assert!(m.is_active);
    assert_eq!(m.base_mint, [0u8; 32]);
}

#[test]
fn initialize_market_overwrites_existing() {
    let data = market_bytes(false);
    let out = Processor::process_initialize_market(true, true, &data, &key(8), &key(6), 99)
        .expect("init");
    let m = Market::decode_at(&out, 0).expect("decode");
    // The existing admin is kept; fee, oracle and active flag are replaced.
    assert_eq!(m.admin, key(1));
    assert_eq!(m.oracle, key(6));
    assert_eq!(m.fee_bps, 99);
    assert!(m.is_active);
}

#[test]
fn initialize_market_checks_owner_and_rent() {
    let data = vec![0u8; MARKET_BYTES];
    assert_eq!(
        Processor::process_initialize_market(false, true, &data, &key(1), &key(4), 0),
        Err(EngineError::InvalidOwner)
    );
    assert_eq!(
        Processor::process_initialize_market(true, false, &data, &key(1), &key(4), 0),
        Err(EngineError::NotRentExempt)
    );
}

#[test]
fn deposit_creates_user_lazily() {
    let market = market_bytes(true);
    let user = vec![0u8; USER_BYTES];
    let out = Processor::process_deposit(true, true, &market, &user, &key(9), &key(5), 500, 42)
        .expect("deposit");
    let u = UserAccount::decode_at(&out, 0).expect("decode");
    assert_eq!(u.owner, key(5));
    assert_eq!(u.market, key(9));
    assert_eq!(u.base_position, 0);
    assert_eq!(u.quote_position, 500);
    assert_eq!(u.last_update_ts, 42);
    for k in 0..8 {
        assert!(!u.open_orders[k].is_active);
    }
}

#[test]
fn deposit_adds_to_existing_quote() {
    let market = market_bytes(true);
    let user = user_bytes(key(5), 3, -200, [Order::default(); 8]);
    let out = Processor::process_deposit(true, true, &market, &user, &key(9), &key(5), 500, 7)
        .expect("deposit");
    let u = UserAccount::decode_at(&out, 0).expect("decode");
    assert_eq!(u.quote_position, 300);
    assert_eq!(u.base_position, 3);
    assert_eq!(u.last_update_ts, 7);
}

#[test]
fn deposit_overflow_is_math_error() {
    let market = market_bytes(true);
    let user = user_bytes(key(5), 0, i64::MAX, [Order::default(); 8]);
    assert_eq!(
        Processor::process_deposit(true, true, &market, &user, &key(9), &key(5), 1, 0),
        Err(EngineError::MathError)
    );
}

#[test]
fn withdraw_subtracts_unconditionally() {
    let user = user_bytes(key(5), 0, 100, [Order::default(); 8]);
    let out = Processor::process_withdraw(true, true, &user, 250, 11).expect("withdraw");
    let u = UserAccount::decode_at(&out, 0).expect("decode");
    // No minimum-balance check: the position goes negative.
    assert_eq!(u.quote_position, -150);
    assert_eq!(u.last_update_ts, 11);
}

#[test]
fn withdraw_rejects_undecodable_user() {
    let user = vec![1u8; 10];
    assert_eq!(
        Processor::process_withdraw(true, true, &user, 1, 0),
        Err(EngineError::InvalidAccountData)
    );
}

#[test]
fn cancel_zeroes_every_matching_slot() {
    let mut orders = [Order::default(); 8];
    orders[1] = Order {
        id: 77,
        price_lots: 5,
        base_lots: 9,
        side_is_bid: true,
        is_active: true,
    };
    orders[4] = Order {
        id: 77,
        price_lots: 6,
        base_lots: 3,
        side_is_bid: false,
        is_active: true,
    };
    orders[5] = Order {
        id: 78,
        price_lots: 6,
        base_lots: 3,
        side_is_bid: false,
        is_active: true,
    };
    let user = user_bytes(key(5), 0, 0, orders);
    let out = Processor::process_cancel_order(true, true, &user, 77).expect("cancel");
    let u = UserAccount::decode_at(&out, 0).expect("decode");
    assert!(!u.open_orders[1].is_active);
    assert_eq!(u.open_orders[1].base_lots, 0);
    assert_eq!(u.open_orders[1].price_lots, 5);
    assert!(!u.open_orders[4].is_active);
    assert_eq!(u.open_orders[4].base_lots, 0);
    assert!(u.open_orders[5].is_active);
    assert_eq!(u.open_orders[5].base_lots, 3);
}

#[test]
fn cancel_twice_equals_cancel_once() {
    let mut orders = [Order::default(); 8];
    orders[0] = Order {
        id: 42,
        price_lots: 5,
        base_lots: 9,
        side_is_bid: true,
        is_active: true,
    };
    let user = user_bytes(key(5), 0, 0, orders);
    let once = Processor::process_cancel_order(true, true, &user, 42).expect("cancel");
    let twice = Processor::process_cancel_order(true, true, &once, 42).expect("cancel");
    assert_eq!(once, twice);
}

#[test]
fn oracle_write_then_read() {
    let mut data = vec![0u8; ORACLE_BYTES];
    write_price(&mut data, 50, 3, 1234).expect("write");
    let p = read_price(&data).expect("read");
    assert_eq!(p.price, 50);
    assert_eq!(p.confidence, 3);
    assert_eq!(p.last_updated_slot, 1234);

    assert_eq!(
        read_price(&data[0..10]).err(),
        Some(EngineError::InvalidAccountData)
    );
    let mut short = vec![0u8; 10];
    assert_eq!(
        write_price(&mut short, 1, 1, 1),
        Err(EngineError::InvalidAccountData)
    );
}

#[test]
fn liquidate_transfers_at_oracle_price() {
    // max_liq_amount = 10 at oracle price 50: ten lots of base move to the
    // liquidator against 500 quote, whatever the liquidatee's balances.
    let market = market_bytes(true);
    let liqor = user_bytes(key(5), 0, 0, [Order::default(); 8]);
    let liqee = user_bytes(key(6), -3, -7, [Order::default(); 8]);
    let oracle = oracle_bytes(50);
    let (liqor_out, liqee_out) = Processor::process_liquidate(
        true, true, true, &market, &liqor, &liqee, &oracle, 10,
    )
    .expect("liquidate");
    let ur = UserAccount::decode_at(&liqor_out, 0).expect("decode");
    let ue = UserAccount::decode_at(&liqee_out, 0).expect("decode");
    assert_eq!(ur.base_position, 10);
    assert_eq!(ur.quote_position, -500);
    assert_eq!(ue.base_position, -13);
    assert_eq!(ue.quote_position, 493);
}

#[test]
fn liquidate_checks_all_three_owners() {
    let market = market_bytes(true);
    let liqor = user_bytes(key(5), 0, 0, [Order::default(); 8]);
    let liqee = user_bytes(key(6), 0, 0, [Order::default(); 8]);
    let oracle = oracle_bytes(50);
    assert_eq!(
        Processor::process_liquidate(true, true, false, &market, &liqor, &liqee, &oracle, 1),
        Err(EngineError::InvalidOwner)
    );
}

#[test]
fn place_order_requires_active_market() {
    let market = market_bytes(false);
    let taker = user_bytes(key(5), 0, 0, [Order::default(); 8]);
    let queue = vec![0u8; 24 + 4 * 81];
    let makers: Vec<Vec<u8>> = Vec::new();
    let makers_owned: Vec<bool> = Vec::new();
    assert_eq!(
        Processor::process_place_order(
            true, true, true, &makers_owned, &market, &taker, &makers, &queue, 50, 10, true, 0,
        )
        .err(),
        Some(EngineError::MarketInactive)
    );
}

#[test]
fn place_order_requires_owned_queue_and_makers() {
    let market = market_bytes(true);
    let taker = user_bytes(key(5), 0, 0, [Order::default(); 8]);
    let mut queue = vec![0u8; 24 + 4 * 81];
    queue[16] = 4;
    let makers = vec![user_bytes(key(6), 0, 0, [Order::default(); 8])];

    // The event queue's storage must be owned by the program.
    let makers_owned = vec![true];
    assert_eq!(
        Processor::process_place_order(
            true, true, false, &makers_owned, &market, &taker, &makers, &queue, 50, 10, true, 0,
        )
        .err(),
        Some(EngineError::InvalidOwner)
    );

    // So must every maker record's.
    let makers_owned = vec![false];
    assert_eq!(
        Processor::process_place_order(
            true, true, true, &makers_owned, &market, &taker, &makers, &queue, 50, 10, true, 0,
        )
        .err(),
        Some(EngineError::InvalidOwner)
    );
}

#[test]
fn update_oracle_requires_owner() {
    let data = vec![0u8; ORACLE_BYTES];
    assert_eq!(
        Processor::process_update_oracle(false, &data, 50, 1, 7).err(),
        Some(EngineError::InvalidOwner)
    );
    let mut accounts = vec![account(false, vec![0u8; ORACLE_BYTES], key(4))];
    let ix = EngineInstruction::UpdateOracle {
        price: 50,
        confidence: 2,
    }
    .pack();
    assert_eq!(
        Processor::process(&mut accounts, &ix, 0, 0),
        Err(EngineError::InvalidOwner)
    );
}

fn account(owned: bool, data: Vec<u8>, k: [u8; 32]) -> AccountView {
    AccountView {
        key: k,
        owner_is_program: owned,
        rent_exempt: true,
        data,
    }
}

#[test]
fn dispatch_deposit_end_to_end() {
    let mut accounts = vec![
        account(true, market_bytes(true), key(9)),
        account(true, vec![0u8; USER_BYTES], key(5)),
        account(false, Vec::new(), key(5)),
    ];
    let data = EngineInstruction::Deposit { amount: 500 }.pack();
    Processor::process(&mut accounts, &data, 42, 0).expect("process");
    let u = UserAccount::decode_at(&accounts[1].data, 0).expect("decode");
    assert_eq!(u.quote_position, 500);
    assert_eq!(u.owner, key(5));
    assert_eq!(u.market, key(9));
}

#[test]
fn dispatch_place_order_writes_queue_and_accounts() {
    let mut orders = [Order::default(); 8];
    orders[0] = Order {
        id: 1,
        price_lots: 50,
        base_lots: 20,
        side_is_bid: false,
        is_active: true,
    };
    let mut queue = vec![0u8; 24 + 4 * 81];
    // head = 0, tail = 0, capacity = 4.
    queue[16] = 4;
    let mut accounts = vec![
        account(true, market_bytes(true), key(9)),
        account(true, user_bytes(key(5), 0, 0, [Order::default(); 8]), key(5)),
        account(true, queue, key(8)),
        account(true, user_bytes(key(6), 100, 0, orders), key(6)),
    ];
    let data = EngineInstruction::PlaceOrder {
        price_lots: 50,
        max_base_lots: 10,
        side_is_bid: true,
    }
    .pack();
    Processor::process(&mut accounts, &data, 42, 0).expect("process");

    let taker = UserAccount::decode_at(&accounts[1].data, 0).expect("decode");
    assert_eq!(taker.base_position, 10);
    assert_eq!(taker.quote_position, -500);
    assert_eq!(taker.last_update_ts, 42);
    let maker = UserAccount::decode_at(&accounts[3].data, 0).expect("decode");
    assert_eq!(maker.base_position, 90);
    assert_eq!(maker.quote_position, 500);
    assert_eq!(maker.open_orders[0].base_lots, 10);

    let header = matching_engine::queue::EventQueueHeader::decode_at(&accounts[2].data, 0);
    assert_eq!(header.head, 0);
    assert_eq!(header.tail, 1);
    match matching_engine::state::Event::decode_at(&accounts[2].data, 24).expect("decode") {
        matching_engine::state::Event::Trade {
            maker: mk,
            taker: tk,
            price_lots,
            base_lots,
        } => {
            assert_eq!(mk, key(6));
            assert_eq!(tk, key(5));
            assert_eq!(price_lots, 50);
            assert_eq!(base_lots, 10);
        }
        _ => panic!("unexpected variant"),
    }
}

#[test]
fn dispatch_update_oracle_and_liquidate() {
    let mut accounts = vec![account(true, vec![0u8; ORACLE_BYTES], key(4))];
    let data = EngineInstruction::UpdateOracle {
        price: 50,
        confidence: 2,
    }
    .pack();
    Processor::process(&mut accounts, &data, 0, 777).expect("process");
    let p = read_price(&accounts[0].data).expect("read");
    assert_eq!(p.price, 50);
    assert_eq!(p.confidence, 2);
    assert_eq!(p.last_updated_slot, 777);

    let mut accounts = vec![
        account(true, market_bytes(true), key(9)),
        account(true, user_bytes(key(5), 0, 0, [Order::default(); 8]), key(5)),
        account(true, user_bytes(key(6), 0, 0, [Order::default(); 8]), key(6)),
        account(false, oracle_bytes(50), key(4)),
    ];
    let data = EngineInstruction::Liquidate { max_liq_amount: 10 }.pack();
    Processor::process(&mut accounts, &data, 0, 0).expect("process");
    let ur = UserAccount::decode_at(&accounts[1].data, 0).expect("decode");
    let ue = UserAccount::decode_at(&accounts[2].data, 0).expect("decode");
    assert_eq!(ur.base_position, 10);
    assert_eq!(ur.quote_position, -500);
    assert_eq!(ue.base_position, -10);
    assert_eq!(ue.quote_position, 500);
}

#[test]
fn dispatch_rejects_bad_instruction_and_missing_accounts() {
    let mut accounts = vec![account(true, market_bytes(true), key(9))];
    assert_eq!(
        Processor::process(&mut accounts, &[200, 1], 0, 0),
        Err(EngineError::InvalidInstruction)
    );
    let data = EngineInstruction::Deposit { amount: 1 }.pack();
    assert_eq!(
        Processor::process(&mut accounts, &data, 0, 0),
        Err(EngineError::InvalidInstruction)
    );
}

#[test]
fn error_codes_are_stable() {
    assert_eq!(EngineError::InvalidInstruction.code(), 0);
    assert_eq!(EngineError::NotRentExempt.code(), 1);
    assert_eq!(EngineError::InvalidOwner.code(), 2);
    assert_eq!(EngineError::InvalidAccountData.code(), 3);
    assert_eq!(EngineError::MathError.code(), 4);
    assert_eq!(EngineError::MarketInactive.code(), 5);
    assert_eq!(EngineError::Unauthorized.code(), 6);
}

#[test]
fn dispatch_initialize_withdraw_and_cancel() {
    // InitializeMarket over zeroed storage.
    let mut accounts = vec![
        account(true, vec![0u8; MARKET_BYTES], key(9)),
        account(false, Vec::new(), key(1)),
        account(false, Vec::new(), key(4)),
    ];
    let data = EngineInstruction::InitializeMarket { fee_bps: 12 }.pack();
    Processor::process(&mut accounts, &data, 0, 0).expect("process");
    let m = Market::decode_at(&accounts[0].data, 0).expect("decode");
    assert_eq!(m.admin, key(1));
    assert_eq!(m.oracle, key(4));
    assert_eq!(m.fee_bps, 12);

    // Withdraw from an existing user.
    let mut accounts = vec![
        account(true, market_bytes(true), key(9)),
        account(true, user_bytes(key(5), 0, 40, [Order::default(); 8]), key(5)),
        account(false, Vec::new(), key(5)),
    ];
    let data = EngineInstruction::Withdraw { amount: 100 }.pack();
    Processor::process(&mut accounts, &data, 8, 0).expect("process");
    let u = UserAccount::decode_at(&accounts[1].data, 0).expect("decode");
    assert_eq!(u.quote_position, -60);
    assert_eq!(u.last_update_ts, 8);

    // CancelOrder on the caller's own slots.
    let mut orders = [Order::default(); 8];
    orders[0] = Order {
        id: 5,
        price_lots: 1,
        base_lots: 2,
        side_is_bid: true,
        is_active: true,
    };
    let mut accounts = vec![
        account(true, market_bytes(true), key(9)),
        account(true, user_bytes(key(5), 0, 0, orders), key(5)),
    ];
    let data = EngineInstruction::CancelOrder { order_id: 5 }.pack();
    Processor::process(&mut accounts, &data, 0, 0).expect("process");
    let u = UserAccount::decode_at(&accounts[1].data, 0).expect("decode");
    assert!(!u.open_orders[0].is_active);
    assert_eq!(u.open_orders[0].base_lots, 0);
}

#[test]
fn dispatch_place_order_rejects_unowned_records() {
    let mut orders = [Order::default(); 8];
    orders[0] = Order {
        id: 1,
        price_lots: 50,
        base_lots: 20,
        side_is_bid: false,
        is_active: true,
    };
    let mut queue = vec![0u8; 24 + 4 * 81];
    queue[16] = 4;
    let ix = EngineInstruction::PlaceOrder {
        price_lots: 50,
        max_base_lots: 10,
        side_is_bid: true,
    }
    .pack();

    // Queue storage not owned by the program.
    let mut accounts = vec![
        account(true, market_bytes(true), key(9)),
        account(true, user_bytes(key(5), 0, 0, [Order::default(); 8]), key(5)),
        account(false, queue.clone(), key(8)),
        account(true, user_bytes(key(6), 100, 0, orders), key(6)),
    ];
    assert_eq!(
        Processor::process(&mut accounts, &ix, 0, 0),
        Err(EngineError::InvalidOwner)
    );
    // Nothing was written.
    let maker = UserAccount::decode_at(&accounts[3].data, 0).expect("decode");
    assert_eq!(maker.base_position, 100);

    // A maker record not owned by the program.
    let mut accounts = vec![
        account(true, market_bytes(true), key(9)),
        account(true, user_bytes(key(5), 0, 0, [Order::default(); 8]), key(5)),
        account(true, queue, key(8)),
        account(false, user_bytes(key(6), 100, 0, orders), key(6)),
    ];
    assert_eq!(
        Processor::process(&mut accounts, &ix, 0, 0),
        Err(EngineError::InvalidOwner)
    );
}
