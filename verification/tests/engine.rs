use matching_engine::instruction::EngineInstruction;
use matching_engine::matching::match_orders;
use matching_engine::state::{Order, UserAccount};

fn key(b: u8) -> [u8; 32] {
    [b; 32]
}

#[test]
fn instruction_roundtrip() {
    let ix = EngineInstruction::PlaceOrder {
        price_lots: 100,
        max_base_lots: 10,
        side_is_bid: true,
    };

    let encoded = ix.pack();
    let decoded = EngineInstruction::unpack(&encoded).expect("deserialize");

    match decoded {
        EngineInstruction::PlaceOrder {
            price_lots,
            max_base_lots,
            side_is_bid,
        } => {
            assert_eq!(price_lots, 100);
            assert_eq!(max_base_lots, 10);
            assert!(side_is_bid);
        }
        _ => panic!("unexpected variant"),
    }
}

#[test]
fn simple_matching_flow() {
    let mut taker = UserAccount {
        owner: key(1),
        market: key(2),
        base_position: 0,
        quote_position: 0,
        last_update_ts: 0,
        open_orders: [Order::default(); 8],
    };

    let maker = UserAccount {
        owner: key(3),
        market: taker.market,
        base_position: 100,
        quote_position: 0,
        last_update_ts: 0,
        open_orders: [Order {
            id: 1,
            price_lots: 50,
            base_lots: 20,
            side_is_bid: false,
            is_active: true,
        }; 8],
    };

    let mut makers = vec![maker];
    let mut events = Vec::new();
    let mut max_quote_change = 0i64;

    match_orders(
        &mut taker,
        &mut makers,
        10,
        &mut max_quote_change,
        true,
        &mut events,
    )
    .expect("match");

    assert_eq!(taker.base_position, 10);
    assert_eq!(taker.quote_position, -500);
    assert_eq!(makers[0].base_position, 90);
    assert_eq!(makers[0].quote_position, 500);
    assert_eq!(events.len(), 1);
}

#[test]
fn partial_fill_keeps_order_active() {
    // One active ask of 20 lots at price 50; a bid for 10 lots takes half.
    let mut taker = UserAccount {
        owner: key(1),
        market: key(2),
        base_position: 0,
        quote_position: 0,
        last_update_ts: 0,
        open_orders: [Order::default(); 8],
    };
    let mut orders = [Order::default(); 8];
    orders[0] = Order {
        id: 1,
        price_lots: 50,
        base_lots: 20,
        side_is_bid: false,
        is_active: true,
    };
    let maker = UserAccount {
        owner: key(3),
        market: key(2),
        base_position: 100,
        quote_position: 0,
        last_update_ts: 0,
        open_orders: orders,
    };
    let mut makers = vec![maker];
    let mut events = Vec::new();
    let mut max_quote_change = 0i64;

    let remaining = match_orders(
        &mut taker,
        &mut makers,
        10,
        &mut max_quote_change,
        true,
        &mut events,
    )
    .expect("match");

    assert_eq!(remaining, 0);
    assert_eq!(taker.base_position, 10);
    assert_eq!(taker.quote_position, -500);
    assert_eq!(makers[0].base_position, 90);
    assert_eq!(makers[0].quote_position, 500);
    assert_eq!(events.len(), 1);
    assert_eq!(makers[0].open_orders[0].base_lots, 10);
    assert!(makers[0].open_orders[0].is_active);
    assert_eq!(max_quote_change, 500);
}

#[test]
fn full_fill_deactivates_order_and_leaves_remainder() {
    // The same ask fully consumed by a bid for 25 lots: capped at 20,
    // the order deactivated, 5 lots left unfilled, no resting order made.
    let mut taker = UserAccount {
        owner: key(1),
        market: key(2),
        base_position: 0,
        quote_position: 0,
        last_update_ts: 0,
        open_orders: [Order::default(); 8],
    };
    let mut orders = [Order::default(); 8];
    orders[0] = Order {
        id: 1,
        price_lots: 50,
        base_lots: 20,
        side_is_bid: false,
        is_active: true,
    };
    let maker = UserAccount {
        owner: key(3),
        market: key(2),
        base_position: 100,
        quote_position: 0,
        last_update_ts: 0,
        open_orders: orders,
    };
    let mut makers = vec![maker];
    let mut events = Vec::new();
    let mut max_quote_change = 0i64;

    let remaining = match_orders(
        &mut taker,
        &mut makers,
        25,
        &mut max_quote_change,
        true,
        &mut events,
    )
    .expect("match");

    assert_eq!(remaining, 5);
    assert_eq!(taker.base_position, 20);
    assert_eq!(taker.quote_position, -1000);
    assert_eq!(makers[0].base_position, 80);
    assert_eq!(makers[0].quote_position, 1000);
    assert_eq!(makers[0].open_orders[0].base_lots, 0);
    assert!(!makers[0].open_orders[0].is_active);
    assert_eq!(events.len(), 1);
    assert_eq!(taker.base_position + makers[0].base_position, 100);
    assert_eq!(taker.quote_position + makers[0].quote_position, 0);
}

#[test]
fn same_side_orders_never_match() {
    let mut taker = UserAccount {
        owner: key(1),
        market: key(2),
        base_position: 0,
        quote_position: 0,
        last_update_ts: 0,
        open_orders: [Order::default(); 8],
    };
    let mut orders = [Order::default(); 8];
    orders[0] = Order {
        id: 7,
        price_lots: 50,
        base_lots: 20,
        side_is_bid: true,
        is_active: true,
    };
    let maker = UserAccount {
        owner: key(3),
        market: key(2),
        base_position: 100,
        quote_position: 0,
        last_update_ts: 0,
        open_orders: orders,
    };
    let mut makers = vec![maker];
    let mut events = Vec::new();
    let mut max_quote_change = 0i64;

    let remaining = match_orders(
        &mut taker,
        &mut makers,
        10,
        &mut max_quote_change,
        true,
        &mut events,
    )
    .expect("match");

    assert_eq!(remaining, 10);
    assert_eq!(taker.base_position, 0);
    assert_eq!(makers[0].base_position, 100);
    assert!(events.is_empty());
}

#[test]
fn match_overflow_fails_whole_call() {
    let mut taker = UserAccount {
        owner: key(1),
        market: key(2),
        base_position: i64::MAX,
        quote_position: 0,
        last_update_ts: 0,
        open_orders: [Order::default(); 8],
    };
    let mut orders = [Order::default(); 8];
    orders[0] = Order {
        id: 1,
        price_lots: 1,
        base_lots: 5,
        side_is_bid: false,
        is_active: true,
    };
    let maker = UserAccount {
        owner: key(3),
        market: key(2),
        base_position: 100,
        quote_position: 0,
        last_update_ts: 0,
        open_orders: orders,
    };
    let mut makers = vec![maker];
    let mut events = Vec::new();
    let mut max_quote_change = 0i64;

    let r = match_orders(
        &mut taker,
        &mut makers,
        5,
        &mut max_quote_change,
        true,
        &mut events,
    );
    assert_eq!(r, Err(matching_engine::error::EngineError::MathError));
}

#[test]
fn find_user_returns_first_index() {
    let mk = |b: u8| UserAccount {
        owner: key(b),
        market: key(2),
        base_position: 0,
        quote_position: 0,
        last_update_ts: 0,
        open_orders: [Order::default(); 8],
    };
    let users = vec![mk(5), mk(6), mk(6)];
    assert_eq!(matching_engine::matching::find_user(&users, &key(6)), Some(1));
    assert_eq!(matching_engine::matching::find_user(&users, &key(9)), None);
}

#[test]
fn matching_walks_makers_in_supplied_order() {
    // Two makers, the second one cheaper: list order wins, not price.
    let mut taker = UserAccount {
        owner: key(1),
        market: key(2),
        base_position: 0,
        quote_position: 0,
        last_update_ts: 0,
        open_orders: [Order::default(); 8],
    };
    let mut first_orders = [Order::default(); 8];
    first_orders[0] = Order {
        id: 1,
        price_lots: 60,
        base_lots: 4,
        side_is_bid: false,
        is_active: true,
    };
    let mut second_orders = [Order::default(); 8];
    second_orders[3] = Order {
        id: 2,
        price_lots: 40,
        base_lots: 10,
        side_is_bid: false,
        is_active: true,
    };
    let mut makers = vec![
        UserAccount {
            owner: key(3),
            market: key(2),
            base_position: 50,
            quote_position: 0,
            last_update_ts: 0,
            open_orders: first_orders,
        },
        UserAccount {
            owner: key(4),
            market: key(2),
            base_position: 50,
            quote_position: 0,
            last_update_ts: 0,
            open_orders: second_orders,
        },
    ];
    let mut events = Vec::new();
    let mut max_quote_change = 0i64;

    let remaining = match_orders(
        &mut taker,
        &mut makers,
        7,
        &mut max_quote_change,
        true,
        &mut events,
    )
    .expect("match");

    // 4 lots at 60 from the first maker, then 3 lots at 40 from the second.
    assert_eq!(remaining, 0);
    assert_eq!(taker.base_position, 7);
    assert_eq!(taker.quote_position, -(4 * 60 + 3 * 40));
    assert_eq!(makers[0].base_position, 46);
    assert_eq!(makers[0].quote_position, 240);
    assert!(!makers[0].open_orders[0].is_active);
    assert_eq!(makers[1].base_position, 47);
    assert_eq!(makers[1].quote_position, 120);
    assert_eq!(makers[1].open_orders[3].base_lots, 7);
    assert!(makers[1].open_orders[3].is_active);
    assert_eq!(events.len(), 2);
    assert_eq!(max_quote_change, 4 * 60 + 3 * 40);
    // Zero-sum transfer over the whole set.
    let base_sum: i64 =
        taker.base_position + makers[0].base_position + makers[1].base_position;
    let quote_sum: i64 =
        taker.quote_position + makers[0].quote_position + makers[1].quote_position;
    assert_eq!(base_sum, 100);
    assert_eq!(quote_sum, 0);
}
