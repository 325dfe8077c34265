//! The matching engine: a taker's quantity against resting maker orders.
//!
//! Makers are visited in the order the caller supplies them, each maker's
//! eight order slots in slot order; there is no price-time priority.  Every
//! trade runs at the resting order's price.  The whole routine is modelled
//! by [`spec_match`], a step-by-step function of the starting state alone;
//! the executable routine returns exactly that model's outcome, and fails
//! with [`EngineError::MathError`] exactly where the model meets a position
//! or total outside the signed 64-bit range.

use crate::error::EngineError;
use crate::state::{Event, Order, UserAccount};
use vstd::prelude::*;

verus! {

broadcast use vstd::array::group_array_axioms;

/// Everything the matching loop reads and writes, as one value.
pub struct MatchState {
    pub taker: UserAccount,
    pub makers: Seq<UserAccount>,
    pub remaining: i64,
    pub quote_total: i64,
    pub events: Seq<Event>,
}

/// Whether a mathematical integer fits a signed 64-bit value.
pub open spec fn in_i64(x: int) -> bool {
    i64::MIN <= x <= i64::MAX
}

/// Whether a resting order can still trade against a taker of this side.
pub open spec fn spec_order_matchable(o: Order, taker_side_is_bid: bool) -> bool {
    o.is_active && o.side_is_bid != taker_side_is_bid && o.base_lots > 0
}

/// One visit of maker `i`'s slot `j`: skip, trade, or fail on overflow.
pub open spec fn spec_match_step(st: MatchState, side_is_bid: bool, i: int, j: int) -> Option<
    MatchState,
> {
    let m = st.makers[i];
    let o = m.open_orders@[j];
    if !o.is_active || o.side_is_bid == side_is_bid {
        Some(st)
    } else {
        let trade: i64 = if st.remaining <= o.base_lots {
            st.remaining
        } else {
            o.base_lots
        };
        if trade <= 0 {
            Some(st)
        } else {
            let quote: int = trade * o.price_lots;
            let tb: int = if side_is_bid {
                st.taker.base_position + trade
            } else {
                st.taker.base_position - trade
            };
            let tq: int = if side_is_bid {
                st.taker.quote_position - quote
            } else {
                st.taker.quote_position + quote
            };
            let mb: int = if side_is_bid {
                m.base_position - trade
            } else {
                m.base_position + trade
            };
            let mq: int = if side_is_bid {
                m.quote_position + quote
            } else {
                m.quote_position - quote
            };
            let qabs: int = if quote >= 0 {
                quote
            } else {
                -quote
            };
            let qtot: int = st.quote_total + qabs;
            if !in_i64(quote) || !in_i64(tb) || !in_i64(tq) || !in_i64(mb) || !in_i64(mq)
                || !in_i64(qtot) {
                None
            } else {
                let o2 = Order {
                    base_lots: (o.base_lots - trade) as i64,
                    is_active: o.base_lots != trade,
                    ..o
                };
                let m2 = UserAccount {
                    base_position: mb as i64,
                    quote_position: mq as i64,
                    open_orders: vstd::array::spec_array_update(m.open_orders, j, o2),
                    ..m
                };
                let t2 = UserAccount {
                    base_position: tb as i64,
                    quote_position: tq as i64,
                    ..st.taker
                };
                let ev = Event::Trade {
                    maker: m.owner,
                    taker: st.taker.owner,
                    price_lots: o.price_lots,
                    base_lots: trade,
                };
                Some(
                    MatchState {
                        taker: t2,
                        makers: st.makers.update(i, m2),
                        remaining: (st.remaining - trade) as i64,
                        quote_total: qtot as i64,
                        events: st.events.push(ev),
                    },
                )
            }
        }
    }
}

/// The rest of the match, starting at maker `i`, slot `j`.
pub open spec fn spec_match_from(st: MatchState, side_is_bid: bool, i: int, j: int) -> Option<
    MatchState,
>
    decreases st.makers.len() - i, 8 - j
    when 0 <= i && 0 <= j <= 8
{
    if i >= st.makers.len() {
        Some(st)
    } else if j == 0 && st.remaining <= 0 {
        Some(st)
    } else if j == 8 {
        spec_match_from(st, side_is_bid, i + 1, 0)
    } else {
        match spec_match_step(st, side_is_bid, i, j) {
            Some(st2) => spec_match_from(st2, side_is_bid, i, j + 1),
            None => None,
        }
    }
}

/// The whole match of a taker against a maker list.
pub open spec fn spec_match(
    taker: UserAccount,
    makers: Seq<UserAccount>,
    remaining_base_lots: i64,
    quote_total: i64,
    events: Seq<Event>,
    side_is_bid: bool,
) -> Option<MatchState> {
    spec_match_from(
        MatchState { taker, makers, remaining: remaining_base_lots, quote_total, events },
        side_is_bid,
        0,
        0,
    )
}

/// What matching never touches, however it ends: the taker's identity,
/// slots and timestamp; every maker's identity and timestamp; each order's
/// id, price and side; and every event already in the list, which is only
/// appended to.  This holds on the success path and on the error path
/// alike, where the trades up to the failing step have been applied.
pub open spec fn spec_match_frame(
    taker0: UserAccount,
    makers0: Seq<UserAccount>,
    events0: Seq<Event>,
    taker: UserAccount,
    makers: Seq<UserAccount>,
    events: Seq<Event>,
) -> bool {
    &&& taker.owner == taker0.owner
    &&& taker.market == taker0.market
    &&& taker.last_update_ts == taker0.last_update_ts
    &&& taker.open_orders == taker0.open_orders
    &&& makers.len() == makers0.len()
    &&& forall|i: int|
        0 <= i < makers.len() ==> {
            &&& (#[trigger] makers[i]).owner == makers0[i].owner
            &&& makers[i].market == makers0[i].market
            &&& makers[i].last_update_ts == makers0[i].last_update_ts
        }
    &&& forall|i: int, j: int|
        0 <= i < makers.len() && 0 <= j < 8 ==> {
            &&& (#[trigger] makers[i].open_orders@[j]).id == makers0[i].open_orders@[j].id
            &&& makers[i].open_orders@[j].price_lots == makers0[i].open_orders@[j].price_lots
            &&& makers[i].open_orders@[j].side_is_bid == makers0[i].open_orders@[j].side_is_bid
        }
    &&& events0.len() <= events.len()
    &&& events.subrange(0, events0.len() as int) == events0
}

/// Match a taker's remaining base quantity against the makers' resting
/// orders, in list order, trading at each resting order's own price.
///
/// Returns the unmatched remainder; every position update is checked, and
/// any overflow fails the whole call with [`EngineError::MathError`]; on
/// that error the call's partial work is bounded by [`spec_match_frame`].
#[verifier::loop_isolation(false)]
#[verifier::rlimit(100)]
pub fn match_orders(
    taker: &mut UserAccount,
    makers: &mut Vec<UserAccount>,
    remaining_base_lots: i64,
    max_quote_change: &mut i64,
    side_is_bid: bool,
    events: &mut Vec<Event>,
) -> (r: Result<i64, EngineError>)
    ensures
        match spec_match(
            *old(taker),
            old(makers)@,
            remaining_base_lots,
            *old(max_quote_change),
            old(events)@,
            side_is_bid,
        ) {
            Some(st) => {
                &&& r == Ok::<i64, EngineError>(st.remaining)
                &&& *final(taker) == st.taker
                &&& final(makers)@ == st.makers
                &&& *final(max_quote_change) == st.quote_total
                &&& final(events)@ == st.events
            },
            None => r == Err::<i64, EngineError>(EngineError::MathError),
        },
        spec_match_frame(
            *old(taker),
            old(makers)@,
            old(events)@,
            *final(taker),
            final(makers)@,
            final(events)@,
        ),
{
    let ghost init = MatchState {
        taker: *taker,
        makers: makers@,
        remaining: remaining_base_lots,
        quote_total: *max_quote_change,
        events: events@,
    };
    proof {
        assert(events@.subrange(0, events@.len() as int) =~= events@);
    }
    let mut remaining: i64 = remaining_base_lots;
    let n: usize = makers.len();
    let mut i: usize = 0;
    while i < n && remaining > 0
        invariant
            i <= n,
            makers@.len() == n,
            spec_match_from(
                MatchState {
                    taker: *taker,
                    makers: makers@,
                    remaining: remaining,
                    quote_total: *max_quote_change,
                    events: events@,
                },
                side_is_bid,
                i as int,
                0,
            ) == spec_match_from(init, side_is_bid, 0, 0),
            spec_match_frame(init.taker, init.makers, init.events, *taker, makers@, events@),
        decreases n - i,
    {
        let mut j: usize = 0;
        while j < 8
            invariant
                i < n,
                j <= 8,
                makers@.len() == n,
                spec_match_from(
                    MatchState {
                        taker: *taker,
                        makers: makers@,
                        remaining: remaining,
                        quote_total: *max_quote_change,
                        events: events@,
                    },
                    side_is_bid,
                    i as int,
                    j as int,
                ) == spec_match_from(init, side_is_bid, 0, 0),
                spec_match_frame(
                    init.taker,
                    init.makers,
                    init.events,
                    *taker,
                    makers@,
                    events@,
                ),
                j == 0 ==> remaining > 0,
            decreases 8 - j,
        {
            let ghost pre = MatchState {
                taker: *taker,
                makers: makers@,
                remaining: remaining,
                quote_total: *max_quote_change,
                events: events@,
            };
            let mcur: UserAccount = makers[i];
            let o: Order = mcur.open_orders[j];
            if o.is_active && o.side_is_bid != side_is_bid {
                let trade: i64 = if remaining <= o.base_lots {
                    remaining
                } else {
                    o.base_lots
                };
                if trade > 0 {
                    proof {
                        assert((trade as int) * (o.price_lots as int)
                            <= 0x40000000000000000000000000000000int && (trade as int) * (
                        o.price_lots as int) >= -0x40000000000000000000000000000000int)
                            by (nonlinear_arith)
                            requires
                                -0x8000000000000000 <= trade as int <= 0x7fffffffffffffff,
                                -0x8000000000000000 <= o.price_lots as int
                                    <= 0x7fffffffffffffff,
                        ;
                    }
                    let q128: i128 = (trade as i128) * (o.price_lots as i128);
                    let tb: i128 = if side_is_bid {
                        (taker.base_position as i128) + (trade as i128)
                    } else {
                        (taker.base_position as i128) - (trade as i128)
                    };
                    let tq: i128 = if side_is_bid {
                        (taker.quote_position as i128) - q128
                    } else {
                        (taker.quote_position as i128) + q128
                    };
                    let mb: i128 = if side_is_bid {
                        (mcur.base_position as i128) - (trade as i128)
                    } else {
                        (mcur.base_position as i128) + (trade as i128)
                    };
                    let mq: i128 = if side_is_bid {
                        (mcur.quote_position as i128) + q128
                    } else {
                        (mcur.quote_position as i128) - q128
                    };
                    let qabs: i128 = if q128 >= 0 {
                        q128
                    } else {
                        -q128
                    };
                    let qtot: i128 = (*max_quote_change as i128) + qabs;
                    let lo: i128 = i64::MIN as i128;
                    let hi: i128 = i64::MAX as i128;
                    if q128 < lo || q128 > hi || tb < lo || tb > hi || tq < lo || tq > hi || mb
                        < lo || mb > hi || mq < lo || mq > hi || qtot < lo || qtot > hi {
                        proof {
                            assert(spec_match_step(pre, side_is_bid, i as int, j as int)
                                is None);
                        }
                        return Err(EngineError::MathError);
                    }
                    let mut m: UserAccount = mcur;
                    let mut o2: Order = o;
                    o2.base_lots = o.base_lots - trade;
                    if o2.base_lots == 0 {
                        o2.is_active = false;
                    }
                    m.base_position = mb as i64;
                    m.quote_position = mq as i64;
                    m.open_orders[j] = o2;
                    taker.base_position = tb as i64;
                    taker.quote_position = tq as i64;
                    *max_quote_change = qtot as i64;
                    remaining = remaining - trade;
                    events.push(
                        Event::Trade {
                            maker: m.owner,
                            taker: taker.owner,
                            price_lots: o.price_lots,
                            base_lots: trade,
                        },
                    );
                    makers[i] = m;
                    proof {
                        let post = MatchState {
                            taker: *taker,
                            makers: makers@,
                            remaining: remaining,
                            quote_total: *max_quote_change,
                            events: events@,
                        };
                        let stepped = spec_match_step(pre, side_is_bid, i as int, j as int);
                        assert(stepped is Some);
                        assert(m.open_orders =~= vstd::array::spec_array_update(
                            pre.makers[i as int].open_orders,
                            j as int,
                            o2,
                        ));
                        assert(post.makers =~= stepped->Some_0.makers);
                        assert(post == stepped->Some_0);
                        assert(events@.subrange(0, init.events.len() as int) =~= pre.events
                            .subrange(0, init.events.len() as int));
                    }
                } else {
                    proof {
                        assert(spec_match_step(pre, side_is_bid, i as int, j as int) == Some(
                            pre,
                        ));
                    }
                }
            } else {
                proof {
                    assert(spec_match_step(pre, side_is_bid, i as int, j as int) == Some(pre));
                }
            }
            j += 1;
        }
        i += 1;
    }
    Ok(remaining)
}

// ----------------------------------------------------------------------------
// Laws of the matching model.
// ----------------------------------------------------------------------------

/// Sum of the base positions over a maker list.
pub open spec fn spec_sum_base(ms: Seq<UserAccount>) -> int
    decreases ms.len(),
{
    if ms.len() == 0 {
        0
    } else {
        ms[0].base_position + spec_sum_base(ms.skip(1))
    }
}

/// Sum of the quote positions over a maker list.
pub open spec fn spec_sum_quote(ms: Seq<UserAccount>) -> int
    decreases ms.len(),
{
    if ms.len() == 0 {
        0
    } else {
        ms[0].quote_position + spec_sum_quote(ms.skip(1))
    }
}

/// Replacing one maker moves both sums by that maker's difference.
proof fn lemma_sum_update(ms: Seq<UserAccount>, i: int, m2: UserAccount)
    requires
        0 <= i < ms.len(),
    ensures
        spec_sum_base(ms.update(i, m2)) == spec_sum_base(ms) - ms[i].base_position
            + m2.base_position,
        spec_sum_quote(ms.update(i, m2)) == spec_sum_quote(ms) - ms[i].quote_position
            + m2.quote_position,
    decreases ms.len(),
{
    if i == 0 {
        assert(ms.update(0, m2).skip(1) =~= ms.skip(1));
    } else {
        assert(ms.update(i, m2).skip(1) =~= ms.skip(1).update(i - 1, m2));
        lemma_sum_update(ms.skip(1), i - 1, m2);
    }
}

/// Over the rest of a match, taker plus makers is constant in base and in
/// quote, and the maker list keeps its length and its owners.
proof fn lemma_match_from_conserves(st: MatchState, side_is_bid: bool, i: int, j: int)
    requires
        0 <= i,
        0 <= j <= 8,
        spec_match_from(st, side_is_bid, i, j) is Some,
    ensures
        ({
            let st2 = spec_match_from(st, side_is_bid, i, j)->Some_0;
            &&& st2.makers.len() == st.makers.len()
            &&& st2.taker.base_position + spec_sum_base(st2.makers) == st.taker.base_position
                + spec_sum_base(st.makers)
            &&& st2.taker.quote_position + spec_sum_quote(st2.makers) == st.taker.quote_position
                + spec_sum_quote(st.makers)
        }),
    decreases st.makers.len() - i, 8 - j,
{
    if i >= st.makers.len() {
    } else if j == 0 && st.remaining <= 0 {
    } else if j == 8 {
        lemma_match_from_conserves(st, side_is_bid, i + 1, 0);
    } else {
        let stepped = spec_match_step(st, side_is_bid, i, j);
        let st1 = stepped->Some_0;
        if st1 != st {
            lemma_sum_update(st.makers, i, st1.makers[i]);
        }
        lemma_match_from_conserves(st1, side_is_bid, i, j + 1);
    }
}

/// Matching conserves positions: after a successful match, the taker's and
/// the makers' base positions sum to what they summed to before, and so do
/// the quote positions.  Trades are zero-sum transfers.
pub proof fn lemma_match_conservation(
    taker: UserAccount,
    makers: Seq<UserAccount>,
    remaining_base_lots: i64,
    quote_total: i64,
    events: Seq<Event>,
    side_is_bid: bool,
)
    requires
        spec_match(taker, makers, remaining_base_lots, quote_total, events, side_is_bid)
            is Some,
    ensures
        ({
            let st = spec_match(
                taker,
                makers,
                remaining_base_lots,
                quote_total,
                events,
                side_is_bid,
            )->Some_0;
            &&& st.makers.len() == makers.len()
            &&& st.taker.base_position + spec_sum_base(st.makers) == taker.base_position
                + spec_sum_base(makers)
            &&& st.taker.quote_position + spec_sum_quote(st.makers) == taker.quote_position
                + spec_sum_quote(makers)
        }),
{
    let st0 = MatchState {
        taker,
        makers,
        remaining: remaining_base_lots,
        quote_total,
        events,
    };
    lemma_match_from_conserves(st0, side_is_bid, 0, 0);
}

/// The remaining quantity never grows over the rest of a match.
proof fn lemma_match_from_monotone(st: MatchState, side_is_bid: bool, i: int, j: int)
    requires
        0 <= i,
        0 <= j <= 8,
        spec_match_from(st, side_is_bid, i, j) is Some,
    ensures
        spec_match_from(st, side_is_bid, i, j)->Some_0.remaining <= st.remaining,
    decreases st.makers.len() - i, 8 - j,
{
    if i >= st.makers.len() {
    } else if j == 0 && st.remaining <= 0 {
    } else if j == 8 {
        lemma_match_from_monotone(st, side_is_bid, i + 1, 0);
    } else {
        let st1 = spec_match_step(st, side_is_bid, i, j)->Some_0;
        lemma_match_from_monotone(st1, side_is_bid, i, j + 1);
    }
}

/// The rest of a match leaves every earlier slot untouched.
proof fn lemma_match_from_frame(st: MatchState, side_is_bid: bool, i: int, j: int)
    requires
        0 <= i,
        0 <= j <= 8,
        spec_match_from(st, side_is_bid, i, j) is Some,
    ensures
        ({
            let st2 = spec_match_from(st, side_is_bid, i, j)->Some_0;
            &&& st2.makers.len() == st.makers.len()
            &&& forall|ii: int, jj: int|
                0 <= ii < st.makers.len() && 0 <= jj < 8 && (ii < i || (ii == i && jj < j))
                    ==> st2.makers[ii].open_orders@[jj] == st.makers[ii].open_orders@[jj]
        }),
    decreases st.makers.len() - i, 8 - j,
{
    if i >= st.makers.len() {
    } else if j == 0 && st.remaining <= 0 {
    } else if j == 8 {
        lemma_match_from_frame(st, side_is_bid, i + 1, 0);
    } else {
        let st1 = spec_match_step(st, side_is_bid, i, j)->Some_0;
        lemma_match_from_frame(st1, side_is_bid, i, j + 1);
    }
}

/// After the rest of a match ends with quantity still remaining, no visited
/// slot can still trade against the taker.
proof fn lemma_match_from_exhausts(st: MatchState, side_is_bid: bool, i: int, j: int)
    requires
        0 <= i,
        0 <= j <= 8,
        spec_match_from(st, side_is_bid, i, j) is Some,
        spec_match_from(st, side_is_bid, i, j)->Some_0.remaining > 0,
    ensures
        ({
            let st2 = spec_match_from(st, side_is_bid, i, j)->Some_0;
            forall|ii: int, jj: int|
                0 <= ii < st2.makers.len() && 0 <= jj < 8 && (ii > i || (ii == i && jj >= j))
                    ==> !spec_order_matchable(#[trigger] st2.makers[ii].open_orders@[jj],
                    side_is_bid)
        }),
    decreases st.makers.len() - i, 8 - j,
{
    let st2 = spec_match_from(st, side_is_bid, i, j)->Some_0;
    if i >= st.makers.len() {
    } else if j == 0 && st.remaining <= 0 {
        assert(false);
    } else if j == 8 {
        lemma_match_from_exhausts(st, side_is_bid, i + 1, 0);
    } else {
        let st1 = spec_match_step(st, side_is_bid, i, j)->Some_0;
        lemma_match_from_exhausts(st1, side_is_bid, i, j + 1);
        lemma_match_from_frame(st1, side_is_bid, i, j + 1);
        lemma_match_from_monotone(st1, side_is_bid, i, j + 1);
        assert(!spec_order_matchable(st1.makers[i].open_orders@[j], side_is_bid));
        assert(st2.makers[i].open_orders@[j] == st1.makers[i].open_orders@[j]);
    }
}

/// Base size of an event: a trade's lots; a funding update carries none.
pub open spec fn spec_event_size(e: Event) -> int {
    match e {
        Event::Trade { base_lots, .. } => base_lots as int,
        Event::FundingUpdate { .. } => 0,
    }
}

/// Total base size over a list of events.
pub open spec fn spec_trade_size_sum(evs: Seq<Event>) -> int
    decreases evs.len(),
{
    if evs.len() == 0 {
        0
    } else {
        spec_event_size(evs[0]) + spec_trade_size_sum(evs.skip(1))
    }
}

/// Over the rest of a match: events are only appended, each new event is a
/// trade of positive size no larger than the quantity still open when the
/// stretch began, their sizes add up to exactly the quantity consumed, and
/// the open quantity never grows nor crosses below zero.
proof fn lemma_match_from_trades(st: MatchState, side_is_bid: bool, i: int, j: int)
    requires
        0 <= i,
        0 <= j <= 8,
        spec_match_from(st, side_is_bid, i, j) is Some,
    ensures
        ({
            let st2 = spec_match_from(st, side_is_bid, i, j)->Some_0;
            &&& st.events.len() <= st2.events.len()
            &&& st2.events.subrange(0, st.events.len() as int) == st.events
            &&& forall|k: int|
                st.events.len() <= k < st2.events.len() ==> (#[trigger] st2.events[k])
                    is Trade && 0 < spec_event_size(st2.events[k]) <= st.remaining
            &&& spec_trade_size_sum(st2.events.skip(st.events.len() as int)) == st.remaining
                - st2.remaining
            &&& st2.remaining <= st.remaining
            &&& st.remaining >= 0 ==> st2.remaining >= 0
        }),
    decreases st.makers.len() - i, 8 - j,
{
    let st2 = spec_match_from(st, side_is_bid, i, j)->Some_0;
    let n = st.events.len() as int;
    if i >= st.makers.len() || (j == 0 && st.remaining <= 0) {
        assert(st2.events.subrange(0, n) =~= st.events);
        assert(st2.events.skip(n) =~= Seq::<Event>::empty());
    } else if j == 8 {
        lemma_match_from_trades(st, side_is_bid, i + 1, 0);
    } else {
        let st1 = spec_match_step(st, side_is_bid, i, j)->Some_0;
        lemma_match_from_trades(st1, side_is_bid, i, j + 1);
        if st1.events == st.events {
            assert(st1.remaining == st.remaining);
        } else {
            let o = st.makers[i].open_orders@[j];
            let trade: i64 = if st.remaining <= o.base_lots {
                st.remaining
            } else {
                o.base_lots
            };
            let ev = st1.events[n];
            assert(st1.events == st.events.push(ev));
            assert(st2.events.subrange(0, n + 1) == st1.events);
            assert(st2.events.subrange(0, n) =~= st.events);
            assert(st2.events[n] == ev);
            let tail = st2.events.skip(n);
            assert(tail[0] == ev);
            assert(tail.skip(1) =~= st2.events.skip(n + 1));
            assert(spec_trade_size_sum(tail) == spec_event_size(ev) + spec_trade_size_sum(
                st2.events.skip(n + 1),
            ));
        }
    }
}

/// Every event a successful match appends is a trade of positive size; no
/// single trade exceeds the requested quantity, and the appended trades'
/// sizes add up to exactly the requested quantity minus the returned
/// remainder, which never grows and never crosses below zero.
pub proof fn lemma_match_trade_bounds(
    taker: UserAccount,
    makers: Seq<UserAccount>,
    remaining_base_lots: i64,
    quote_total: i64,
    events: Seq<Event>,
    side_is_bid: bool,
)
    requires
        spec_match(taker, makers, remaining_base_lots, quote_total, events, side_is_bid)
            is Some,
    ensures
        ({
            let st = spec_match(
                taker,
                makers,
                remaining_base_lots,
                quote_total,
                events,
                side_is_bid,
            )->Some_0;
            &&& events.len() <= st.events.len()
            &&& st.events.subrange(0, events.len() as int) == events
            &&& forall|k: int|
                events.len() <= k < st.events.len() ==> (#[trigger] st.events[k]) is Trade
                    && 0 < spec_event_size(st.events[k]) <= remaining_base_lots
            &&& spec_trade_size_sum(st.events.skip(events.len() as int))
                == remaining_base_lots - st.remaining
            &&& st.remaining <= remaining_base_lots
            &&& remaining_base_lots >= 0 ==> st.remaining >= 0
        }),
{
    let st0 = MatchState {
        taker,
        makers,
        remaining: remaining_base_lots,
        quote_total,
        events,
    };
    lemma_match_from_trades(st0, side_is_bid, 0, 0);
}

/// Matching stops only by exhaustion: if quantity remains after a
/// successful match, then no maker slot is active, opposite in side, and of
/// positive size; and the remainder never exceeds what was asked.
pub proof fn lemma_match_exhaustion(
    taker: UserAccount,
    makers: Seq<UserAccount>,
    remaining_base_lots: i64,
    quote_total: i64,
    events: Seq<Event>,
    side_is_bid: bool,
)
    requires
        spec_match(taker, makers, remaining_base_lots, quote_total, events, side_is_bid)
            is Some,
    ensures
        ({
            let st = spec_match(
                taker,
                makers,
                remaining_base_lots,
                quote_total,
                events,
                side_is_bid,
            )->Some_0;
            &&& st.remaining <= remaining_base_lots
            &&& st.remaining > 0 ==> forall|ii: int, jj: int|
                0 <= ii < st.makers.len() && 0 <= jj < 8 ==> !spec_order_matchable(
                    #[trigger] st.makers[ii].open_orders@[jj],
                    side_is_bid,
                )
        }),
{
    let st0 = MatchState {
        taker,
        makers,
        remaining: remaining_base_lots,
        quote_total,
        events,
    };
    lemma_match_from_monotone(st0, side_is_bid, 0, 0);
    let st = spec_match_from(st0, side_is_bid, 0, 0)->Some_0;
    if st.remaining > 0 {
        lemma_match_from_exhausts(st0, side_is_bid, 0, 0);
        lemma_match_from_conserves(st0, side_is_bid, 0, 0);
    }
}

/// Index of the first user whose owner is `owner`, if any.
#[verifier::loop_isolation(false)]
pub fn find_user(users: &Vec<UserAccount>, owner: &crate::codec::AccountId) -> (r: Option<usize>)
    ensures
        match r {
            Some(k) => 0 <= k < users@.len() && users@[k as int].owner@ == owner@ && forall|
                t: int,
            |
                0 <= t < k ==> users@[t].owner@ != owner@,
            None => forall|t: int| 0 <= t < users@.len() ==> users@[t].owner@ != owner@,
        },
{
    let n: usize = users.len();
    let mut k: usize = 0;
    while k < n
        invariant
            k <= n,
            n == users@.len(),
            forall|t: int| 0 <= t < k ==> users@[t].owner@ != owner@,
        decreases n - k,
    {
        if crate::codec::id_eq(&users[k].owner, owner) {
            return Some(k);
        }
        k += 1;
    }
    None
}

} // verus!
