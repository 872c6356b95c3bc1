use kraken_execution::{
    read_refusals, Call, Double, ExecutionError, Fault, Json, KrakenTrader, Leg, Next, OrderType, Position,
    RequestError, Side, Step, Table, Timestamp, TradeRecord,
};

fn d(x: f64) -> Double {
    Double::from_bits(x.to_bits())
}

fn f(x: Double) -> f64 {
    f64::from_bits(x.to_bits())
}

fn convert(v: &serde_json::Value) -> Json {
    match v {
        serde_json::Value::Null => Json::Null,
        serde_json::Value::Bool(b) => Json::Bool(*b),
        serde_json::Value::Number(n) => match n.as_u64() {
            Some(u) => Json::UInt(u),
            None => Json::Number,
        },
        serde_json::Value::String(s) => Json::Text(s.clone()),
        serde_json::Value::Array(a) => Json::Array(a.iter().map(convert).collect()),
        serde_json::Value::Object(m) => {
            Json::Object(m.iter().map(|(k, v)| (k.clone(), convert(v))).collect())
        }
    }
}

fn json(text: &str) -> Json {
    let v: serde_json::Value = serde_json::from_str(text).unwrap();
    convert(&v)
}

fn ok(text: &str) -> Result<Json, String> {
    Ok(json(text))
}

fn down() -> Result<Json, String> {
    Err("down".to_string())
}

fn refused() -> Result<Json, String> {
    ok(r#"{"error":["EOrder:Insufficient funds"]}"#)
}

fn filed(txid: &str) -> Result<Json, String> {
    ok(&format!("{{\"error\":[],\"result\":{{\"txid\":[\"{}\"]}}}}", txid))
}

fn order(txid: &str, status: &str, vol: &str, price: &str, fee: &str) -> Result<Json, String> {
    ok(&format!(
        "{{\"error\":[],\"result\":{{\"{}\":{{\"status\":\"{}\",\"vol_exec\":\"{}\",\"price\":\"{}\",\"fee\":\"{}\"}}}}}}",
        txid, status, vol, price, fee
    ))
}

fn call<S, R>(s: Step<S, R>) -> (u64, S, String) {
    match s.next {
        Next::Call(state, Call::Private { endpoint, params }) => {
            (s.pause, state, format!("private {} {}", endpoint, params.form_body()))
        }
        Next::Call(state, Call::Public { endpoint, query }) => {
            (s.pause, state, format!("public {} {}", endpoint, query.form_body()))
        }
        Next::Done(_) => panic!("done"),
    }
}

fn done<S, R>(s: Step<S, R>) -> (u64, R) {
    match s.next {
        Next::Call(_, _) => panic!("not done"),
        Next::Done(r) => (s.pause, r),
    }
}

fn trader() -> KrakenTrader {
    KrakenTrader::new("https://api.kraken.com", "key", "c2VjcmV0", d(1000.0), d(0.004))
}

fn position(pair: &str, side: Side, entry: f64, now: f64, quantity: f64, stop: f64, target: f64) -> Position {
    Position {
        pair: pair.to_string(),
        side,
        entry_price: d(entry),
        quantity: d(quantity),
        current_price: d(now),
        unrealized_pnl: d(0.0),
        stop_loss: d(stop),
        take_profit_1: d(target),
        strategy_name: "s".to_string(),
        opened_at: Timestamp { secs: 1, nanos: 2 },
    }
}

fn holding() -> KrakenTrader {
    let mut t = trader();
    t.positions_mut().insert("p".to_string(), position("SOL/USD", Side::Long, 100.0, 110.0, 2.0, 90.0, 120.0));
    t
}

fn rest(t: &mut KrakenTrader, leg: Leg, id: &str, txid: &str) {
    let s = match leg {
        Leg::Stop => t.place_stop("SOL/USD", Side::Long, d(2.0), d(90.0), id),
        Leg::Target => t.place_tp("SOL/USD", Side::Long, d(2.0), d(120.0), id),
    };
    let (_, state, _) = call(s);
    done(state.resume(t, filed(txid)));
}

fn bracketed() -> KrakenTrader {
    let mut t = holding();
    rest(&mut t, Leg::Stop, "p", "S1");
    rest(&mut t, Leg::Target, "p", "T1");
    t
}

fn prices(list: &[(&str, f64)]) -> Table<Double> {
    let mut t = Table::new();
    for (pair, price) in list {
        t.insert(pair.to_string(), d(*price));
    }
    t
}

fn now() -> Timestamp {
    Timestamp { secs: 100, nanos: 200 }
}

#[test]
fn a_bracket_rests_on_the_closing_side() {
    let t = holding();
    let (_, _, asked) = call(t.place_stop("SOL/USD", Side::Long, d(2.0), d(90.0), "p"));
    assert_eq!(
        asked,
        "private AddOrder pair=SOLUSD&type=sell&ordertype=stop-loss&price=90.00000&volume=2.00000000"
    );
    let (_, _, asked) = call(t.place_tp("SOL/USD", Side::Short, d(2.0), d(80.0), "p"));
    assert_eq!(
        asked,
        "private AddOrder pair=SOLUSD&type=buy&ordertype=take-profit&price=80.00000&volume=2.00000000"
    );
}

#[test]
fn a_bracket_without_level_or_volume_is_not_placed() {
    let t = holding();
    assert_eq!(done(t.place_stop("SOL/USD", Side::Long, d(2.0), d(0.0), "p")).0, 0);
    done(t.place_tp("SOL/USD", Side::Long, d(2.0), d(-1.0), "p"));
    done(t.place_stop("SOL/USD", Side::Long, d(0.000000001), d(90.0), "p"));
}

#[test]
fn a_resting_order_is_remembered() {
    let t = bracketed();
    assert_eq!(t.resting(Leg::Stop).get("p").unwrap(), "S1");
    assert_eq!(t.resting(Leg::Target).get("p").unwrap(), "T1");
}

fn read_error(answer: &Result<Json, String>) -> bool {
    match answer {
        Ok(body) => !read_refusals(body).is_empty(),
        Err(_) => true,
    }
}

#[test]
fn a_resting_order_that_is_not_placed_is_not_remembered() {
    let mut t = holding();
    for answer in [down(), refused(), ok(r#"{"result":{"txid":[""]}}"#), ok(r#"{"result":{"txid":[]}}"#), ok("{}")] {
        let failed = read_error(&answer);
        let (_, state, _) = call(t.place_stop("SOL/USD", Side::Long, d(2.0), d(90.0), "p"));
        let r = done(state.resume(&mut t, answer)).1;
        assert_eq!(r.is_err(), failed);
        assert_eq!(t.resting(Leg::Stop).len(), 0);
    }
}

#[test]
fn cancelling_everything_forgets_what_rests() {
    let mut t = bracketed();
    let (_, state, asked) = call(t.cancel_all());
    assert_eq!(asked, "private CancelAll ");
    assert!(done(state.resume(&mut t, refused())).1.is_err());
    assert_eq!((t.resting(Leg::Stop).len(), t.resting(Leg::Target).len()), (1, 1));
    let (_, state, _) = call(t.cancel_all());
    assert!(done(state.resume(&mut t, ok(r#"{"error":[]}"#))).1.is_ok());
    assert_eq!((t.resting(Leg::Stop).len(), t.resting(Leg::Target).len()), (0, 0));
}

#[test]
fn one_order_can_be_cancelled() {
    let t = trader();
    let (_, state, asked) = call(t.cancel_order("X"));
    assert_eq!(asked, "private CancelOrder txid=X");
    assert!(done(state.resume(ok("{}"))).1.is_ok());
    let (_, state, _) = call(t.cancel_order("X"));
    match done(state.resume(down())).1 {
        Err(ExecutionError::ExchangeError(Fault::Request(RequestError::Transport(s)))) => assert_eq!(s, "down"),
        _ => panic!(),
    }
}

#[test]
fn a_whole_balance_can_be_sold() {
    let t = trader();
    let (_, state, asked) = call(t.market_sell_all("SOL/USD", d(1.5)));
    assert_eq!(asked, "private AddOrder pair=SOLUSD&type=sell&ordertype=market&volume=1.50000000");
    assert!(done(state.resume(filed("X"))).1.is_ok());
    assert!(done(t.market_sell_all("SOL/USD", d(0.0))).1.is_ok());
}

#[test]
fn moving_a_stop_replaces_the_resting_one() {
    let mut t = bracketed();
    let (_, state, asked) = call(t.adjust_stop("p", d(105.0)));
    assert_eq!(asked, "private CancelOrder txid=S1");
    assert_eq!(f(t.positions().get("p").unwrap().stop_loss), 90.0);
    let (_, state, asked) = call(state.resume(&mut t, down()));
    assert_eq!(
        asked,
        "private AddOrder pair=SOLUSD&type=sell&ordertype=stop-loss&price=105.00000&volume=2.00000000"
    );
    assert_eq!(f(t.positions().get("p").unwrap().stop_loss), 105.0);
    // That the old one could not be cancelled is told.
    let failed = done(state.resume(&mut t, filed("S2"))).1;
    assert_eq!(failed.len(), 1);
    assert!(matches!(
        failed[0],
        ExecutionError::ExchangeError(Fault::Request(RequestError::Transport(_)))
    ));
    assert_eq!(t.resting(Leg::Stop).get("p").unwrap(), "S2");
    assert_eq!(t.resting(Leg::Target).get("p").unwrap(), "T1");
}

#[test]
fn a_moved_stop_that_cannot_rest_is_kept_locally() {
    let mut t = bracketed();
    let (_, state, _) = call(t.adjust_stop("p", d(105.0)));
    let (_, state, _) = call(state.resume(&mut t, ok("{}")));
    let failed = done(state.resume(&mut t, refused())).1;
    assert_eq!(failed.len(), 1);
    assert!(matches!(
        failed[0],
        ExecutionError::ExchangeError(Fault::Request(RequestError::Refused(_)))
    ));
    assert!(!t.resting(Leg::Stop).contains_key("p"));
    // The take-profit still rests and is asked for first.
    let (_, state, asked) = call(t.check_stops_live(prices(&[("SOL/USD", 104.0)])));
    assert_eq!(asked, "private QueryOrders txid=T1");
    let (_, _, asked) = call(state.resume(&mut t, order("T1", "open", "0", "0", "0")));
    assert_eq!(asked, "private CancelOrder txid=T1");
}

#[test]
fn moving_the_stop_of_nothing_does_nothing() {
    let mut t = trader();
    assert_eq!(done(t.adjust_stop("p", d(105.0))).1.len(), 0);
    let mut t = holding();
    let (_, _, asked) = call(t.adjust_stop("p", d(95.0)));
    assert_eq!(
        asked,
        "private AddOrder pair=SOLUSD&type=sell&ordertype=stop-loss&price=95.00000&volume=2.00000000"
    );
    // A stop at zero is only local.
    done(t.adjust_stop("p", d(0.0)));
    assert_eq!(f(t.positions().get("p").unwrap().stop_loss), 0.0);
}

#[test]
fn closing_cancels_the_bracket_first() {
    let mut t = bracketed();
    let (_, state, asked) = call(t.close_position_with_note("p", "why"));
    assert_eq!(asked, "private CancelOrder txid=S1");
    let (_, state, asked) = call(state.resume(&mut t, down()));
    assert_eq!(asked, "private CancelOrder txid=T1");
    let (_, state, asked) = call(state.resume(&mut t, down()));
    assert_eq!(asked, "private AddOrder pair=SOLUSD&type=sell&ordertype=market&volume=2.00000000");
    assert_eq!((t.resting(Leg::Stop).len(), t.resting(Leg::Target).len()), (0, 0));
    let (_, state, asked) = call(state.resume(&mut t, filed("C1")));
    assert_eq!(asked, "private QueryOrders txid=C1");
    let trade = done(state.resume_at(&mut t, order("C1", "closed", "1.5", "112", "0.75"), now())).1.unwrap();
    assert_eq!((trade.id.as_str(), trade.pair.as_str(), trade.notes.as_str()), ("live-0", "SOL/USD", "why"));
    assert_eq!((f(trade.entry_price), f(trade.exit_price), f(trade.quantity)), (100.0, 112.0, 1.5));
    assert_eq!(f(trade.pnl), 17.25);
    assert_eq!(f(trade.pnl_pct), 17.25 / 150.0 * 100.0);
    assert_eq!((trade.opened_at, trade.closed_at), (Timestamp { secs: 1, nanos: 2 }, now()));
    assert_eq!(trade.strategy_name, "s");
    assert_eq!((f(t.account().balance), f(t.account().daily_pnl)), (1017.25, 17.25));
    assert_eq!((t.account().open_positions, t.positions().len(), t.order_counter()), (0, 0, 1));
    assert_eq!(t.closed_trades().len(), 1);
    assert_eq!(t.closed_trades()[0].id, "live-0");
    // Nothing is left to be sold again.
    match done(t.close_position_with_note("p", "why")).1 {
        Err(ExecutionError::PositionNotFound(id)) => assert_eq!(id, "p"),
        _ => panic!(),
    }
}

#[test]
fn a_close_of_which_nothing_was_executed_books_nothing() {
    for status in ["canceled", "expired"] {
        let mut t = holding();
        let (_, state, _) = call(t.close_position_with_note("p", "why"));
        let (_, state, _) = call(state.resume(&mut t, filed("C1")));
        match done(state.resume(&mut t, order("C1", status, "0", "0", "0"))).1 {
            Err(ExecutionError::ExchangeError(Fault::NoFill { txid, status: s })) => {
                assert_eq!((txid.as_str(), s.as_str()), ("C1", status))
            }
            _ => panic!(),
        }
        assert!(t.positions().contains_key("p"));
        assert_eq!((f(t.account().balance), f(t.account().daily_pnl)), (1000.0, 0.0));
        assert_eq!((t.closed_trades().len(), t.order_counter()), (0, 0));
    }
}

#[test]
fn a_close_that_times_out_books_nothing() {
    let mut t = holding();
    let (_, state, _) = call(t.close_position_with_note("p", "why"));
    let (_, mut state, _) = call(state.resume(&mut t, filed("C1")));
    for _ in 0..11 {
        state = call(state.resume(&mut t, down())).1;
    }
    let (pause, r) = done(state.resume(&mut t, down()));
    assert_eq!(pause, 500);
    assert!(matches!(r, Err(ExecutionError::ExchangeError(Fault::NotConfirmed { .. }))));
    assert!(t.positions().contains_key("p"));
    assert_eq!((f(t.balance()), t.closed_trades().len()), (1000.0, 0));
}

#[test]
fn a_local_exit_that_is_not_executed_keeps_its_position() {
    let mut t = trader();
    t.positions_mut().insert("a".to_string(), position("SOL/USD", Side::Long, 100.0, 80.0, 1.0, 90.0, 0.0));
    t.positions_mut().insert("b".to_string(), position("SOL/USD", Side::Long, 100.0, 80.0, 1.0, 90.0, 0.0));
    let (_, state, _) = call(t.check_stops_live(prices(&[("SOL/USD", 80.0)])));
    let (_, state, _) = call(state.resume(&mut t, filed("C1")));
    // Nothing was executed: the next one is taken.
    let (_, state, asked) = call(state.resume(&mut t, order("C1", "canceled", "0", "0", "0")));
    assert_eq!(asked, "private AddOrder pair=SOLUSD&type=sell&ordertype=market&volume=1.00000000");
    let (_, state, _) = call(state.resume(&mut t, filed("C2")));
    let checked = done(state.resume(&mut t, order("C2", "closed", "1", "80", "0"))).1;
    assert_eq!(checked.failed.len(), 1);
    assert!(t.positions().contains_key(&checked.failed[0].0));
    assert!(matches!(
        checked.failed[0].1,
        ExecutionError::ExchangeError(Fault::NoFill { .. })
    ));
    assert_eq!((checked.closed.len(), t.positions().len(), t.closed_trades().len()), (1, 1, 1));
    assert_eq!(f(t.balance()), 980.0);
}

#[test]
fn a_short_gains_when_it_falls() {
    let mut t = trader();
    t.positions_mut().insert("p".to_string(), position("SOL/USD", Side::Short, 100.0, 90.0, 1.0, 0.0, 0.0));
    let (_, state, asked) = call(t.close_position("p"));
    assert_eq!(asked, "private AddOrder pair=SOLUSD&type=buy&ordertype=market&volume=1.00000000");
    let (_, state, _) = call(state.resume(&mut t, filed("C1")));
    let o = done(state.resume(&mut t, order("C1", "closed", "1", "80", "0.5"))).1.unwrap();
    assert_eq!((o.id.as_str(), o.pair.as_str()), ("live-close-1", "SOL/USD"));
    assert_eq!((o.side, o.order_type), (Side::Long, OrderType::Market));
    assert_eq!((f(o.price.unwrap()), f(o.quantity), f(o.filled_price.unwrap())), (80.0, 1.0, 80.0));
    assert_eq!(f(t.closed_trades()[0].pnl), 19.5);
    assert_eq!(t.closed_trades()[0].notes, "Closed");
    assert!(done(t.close_position("p")).1.is_err());
}

#[test]
fn the_moments_of_a_close_are_recorded() {
    let mut t = holding();
    let (_, state, _) = call(t.close_position("p"));
    let (_, state, _) = call(state.resume(&mut t, filed("C1")));
    let a = Timestamp { secs: 1, nanos: 1 };
    let b = Timestamp { secs: 2, nanos: 2 };
    let c = Timestamp { secs: 3, nanos: 3 };
    let o = done(state.resume_at(&mut t, order("C1", "closed", "2", "80", "0"), a, b, c)).1.unwrap();
    assert_eq!((t.closed_trades()[0].closed_at, o.created_at, o.filled_at), (a, b, Some(c)));
    assert_eq!(o.side, Side::Short);
}

#[test]
fn a_close_can_fail() {
    let mut t = trader();
    t.positions_mut().insert("p".to_string(), position("SOL/USD", Side::Long, 1.0, 1.0, 0.0, 0.0, 0.0));
    assert!(matches!(
        done(t.close_position("p")).1,
        Err(ExecutionError::ExchangeError(Fault::RoundsToZero { .. }))
    ));
    let mut t = holding();
    let (_, state, _) = call(t.close_position("p"));
    assert!(matches!(
        done(state.resume(&mut t, refused())).1,
        Err(ExecutionError::ExchangeError(Fault::Request(RequestError::Refused(_))))
    ));
    assert_eq!(t.positions().len(), 1);
    assert_eq!(t.order_counter(), 0);
}

#[test]
fn a_worthless_entry_has_no_percentage() {
    let mut t = trader();
    t.positions_mut().insert("p".to_string(), position("SOL/USD", Side::Long, 0.0, 1.0, 1.0, 0.0, 0.0));
    let (_, state, _) = call(t.close_position_with_note("p", ""));
    let (_, state, _) = call(state.resume(&mut t, filed("C1")));
    let trade = done(state.resume(&mut t, order("C1", "closed", "1", "3", "0"))).1.unwrap();
    assert_eq!((f(trade.pnl), f(trade.pnl_pct)), (3.0, 0.0));
}

#[test]
fn a_filled_stop_cancels_the_take_profit() {
    let mut t = bracketed();
    let (_, state, asked) = call(t.reconcile_filled_stops());
    assert_eq!(asked, "private QueryOrders txid=S1");
    let (_, state, asked) = call(state.resume(&mut t, order("S1", "closed", "2", "89", "0.5")));
    assert_eq!(asked, "private CancelOrder txid=T1");
    assert_eq!((t.resting(Leg::Stop).len(), t.resting(Leg::Target).len()), (0, 0));
    let (_, closed) = done(state.resume_at(&mut t, down(), now()));
    assert_eq!(closed.len(), 1);
    assert_eq!((closed[0].id.as_str(), closed[0].notes.as_str()), ("live-0", "Resting stop-loss filled"));
    assert_eq!((f(closed[0].pnl), f(closed[0].exit_price)), (-22.5, 89.0));
    assert_eq!(closed[0].closed_at, now());
    assert_eq!((t.positions().len(), t.closed_trades().len(), t.order_counter()), (0, 1, 1));
    assert_eq!(f(t.balance()), 977.5);
    assert!(done(t.close_position("p")).1.is_err());
}

#[test]
fn a_filled_take_profit_cancels_the_stop() {
    let mut t = bracketed();
    let (_, state, asked) = call(t.reconcile_filled_tps());
    assert_eq!(asked, "private QueryOrders txid=T1");
    let (_, state, asked) = call(state.resume(&mut t, order("T1", "closed", "2", "121", "0")));
    assert_eq!(asked, "private CancelOrder txid=S1");
    let (_, closed) = done(state.resume(&mut t, ok("{}")));
    assert_eq!((closed[0].notes.as_str(), f(closed[0].pnl)), ("Take-profit filled", 42.0));
}

#[test]
fn orders_that_have_not_filled_stay_or_are_forgotten() {
    let mut t = bracketed();
    for answer in [
        down(),
        refused(),
        ok(r#"{"result":{}}"#),
        order("S1", "open", "1", "1", "0"),
        order("S1", "closed", "0", "1", "0"),
    ] {
        let (_, state, _) = call(t.reconcile_filled_stops());
        assert_eq!(done(state.resume(&mut t, answer)).1.len(), 0);
        assert!(t.resting(Leg::Stop).contains_key("p"));
    }
    let (_, state, _) = call(t.reconcile_filled_stops());
    assert_eq!(done(state.resume(&mut t, order("S1", "canceled", "1", "1", "0"))).1.len(), 0);
    assert!(!t.resting(Leg::Stop).contains_key("p"));
    assert!(t.resting(Leg::Target).contains_key("p"));
    assert!(t.positions().contains_key("p"));
    assert_eq!(done(t.reconcile_filled_stops()).1.len(), 0);
}

#[test]
fn a_filled_stop_without_a_position_books_nothing() {
    let mut t = trader();
    rest(&mut t, Leg::Stop, "ghost", "S1");
    let (_, state, _) = call(t.reconcile_filled_stops());
    assert_eq!(done(state.resume(&mut t, order("S1", "closed", "2", "89", "0.5"))).1.len(), 0);
    assert_eq!((t.resting(Leg::Stop).len(), t.order_counter()), (0, 0));
}

#[test]
fn several_filled_orders_get_different_numbers() {
    let mut t = trader();
    for id in ["a", "b", "c"] {
        t.positions_mut().insert(id.to_string(), position("SOL/USD", Side::Long, 100.0, 100.0, 1.0, 90.0, 0.0));
        rest(&mut t, Leg::Stop, id, &format!("S{}", id));
    }
    let mut step = t.reconcile_filled_stops();
    let mut closed: Vec<TradeRecord> = Vec::new();
    for _ in 0..3 {
        let (_, state, asked) = call(step);
        let txid = asked.strip_prefix("private QueryOrders txid=").unwrap().to_string();
        step = state.resume(&mut t, order(&txid, "closed", "1", "90", "0"));
    }
    closed.extend(done(step).1);
    let ids: Vec<String> = closed.iter().map(|x| x.id.clone()).collect();
    assert_eq!(ids, vec!["live-0".to_string(), "live-1".to_string(), "live-2".to_string()]);
    assert_eq!(t.closed_trades().len(), 3);
    assert_eq!(f(t.balance()), 970.0);
    assert_eq!(t.account().open_positions, 0);
}

#[test]
fn exits_are_local_only_where_nothing_rests() {
    // Both levels are on the exchange: nothing is sold locally.
    let mut t = bracketed();
    let (_, state, asked) = call(t.check_stops_live(prices(&[("SOL/USD", 80.0)])));
    assert_eq!(asked, "private QueryOrders txid=S1");
    let (_, state, asked) = call(state.resume(&mut t, order("S1", "open", "0", "0", "0")));
    assert_eq!(asked, "private QueryOrders txid=T1");
    assert_eq!(done(state.resume(&mut t, order("T1", "open", "0", "0", "0"))).1.closed.len(), 0);
    assert!(t.positions().contains_key("p"));
}

#[test]
fn a_local_stop_closes_at_the_market() {
    let mut t = holding();
    let (_, state, asked) = call(t.check_stops_live(prices(&[("SOL/USD", 90.0)])));
    assert_eq!(asked, "private AddOrder pair=SOLUSD&type=sell&ordertype=market&volume=2.00000000");
    let (_, state, _) = call(state.resume(&mut t, filed("C1")));
    let closed = done(state.resume_at(&mut t, order("C1", "closed", "2", "89.5", "0"), now())).1.closed;
    assert_eq!((closed.len(), closed[0].notes.as_str()), (1, "Stop loss hit"));
    assert_eq!(f(closed[0].pnl), -21.0);
}

#[test]
fn a_local_target_comes_before_a_stop() {
    let mut t = trader();
    t.positions_mut().insert("p".to_string(), position("SOL/USD", Side::Short, 100.0, 100.0, 1.0, 50.0, 60.0));
    let (_, state, _) = call(t.check_stops_live(prices(&[("SOL/USD", 55.0)])));
    let (_, state, _) = call(state.resume(&mut t, filed("C1")));
    let closed = done(state.resume(&mut t, order("C1", "closed", "1", "55", "0"))).1.closed;
    assert_eq!(closed[0].notes, "Take profit 1 hit");
}

#[test]
fn levels_that_are_not_reached_or_not_set_do_nothing() {
    let mut t = holding();
    assert_eq!(done(t.check_stops_live(prices(&[("SOL/USD", 100.0)]))).1.closed.len(), 0);
    assert_eq!(done(t.check_stops_live(prices(&[("ETH/USD", 1.0)]))).1.closed.len(), 0);
    let mut t = trader();
    t.positions_mut().insert("p".to_string(), position("SOL/USD", Side::Long, 100.0, 1.0, 1.0, 0.0, 0.0));
    assert_eq!(done(t.check_stops_live(prices(&[("SOL/USD", 1e9)]))).1.closed.len(), 0);
}

#[test]
fn a_failed_local_exit_is_passed_over() {
    let mut t = trader();
    t.positions_mut().insert("a".to_string(), position("SOL/USD", Side::Long, 100.0, 1.0, 0.0, 90.0, 0.0));
    t.positions_mut().insert("b".to_string(), position("SOL/USD", Side::Long, 100.0, 1.0, 1.0, 90.0, 0.0));
    t.positions_mut().insert("c".to_string(), position("SOL/USD", Side::Long, 100.0, 1.0, 2.0, 90.0, 0.0));
    let (_, state, _) = call(t.check_stops_live(prices(&[("SOL/USD", 80.0)])));
    let (_, state, _) = call(state.resume(&mut t, refused()));
    let (_, state, _) = call(state.resume(&mut t, filed("C1")));
    let checked = done(state.resume(&mut t, order("C1", "closed", "1", "80", "0"))).1;
    assert_eq!(checked.closed.len(), 1);
    assert_eq!(t.positions().len(), 2);
    // Both that failed are told, and are still there.
    assert_eq!(checked.failed.len(), 2);
    for (id, _) in &checked.failed {
        assert!(t.positions().contains_key(id));
    }
    assert!(checked.failed.iter().any(|(id, e)| {
        id == "a" && matches!(e, ExecutionError::ExchangeError(Fault::RoundsToZero { .. }))
    }));
    assert!(checked.failed.iter().any(|(_, e)| {
        matches!(e, ExecutionError::ExchangeError(Fault::Request(RequestError::Refused(_))))
    }));
}

#[test]
fn everything_found_in_one_check_is_given_back() {
    let mut t = bracketed();
    t.positions_mut().insert("q".to_string(), position("ETH/USD", Side::Long, 10.0, 10.0, 1.0, 9.0, 0.0));
    let (_, state, _) = call(t.check_stops_live(prices(&[("ETH/USD", 8.0), ("SOL/USD", 89.0)])));
    let (_, state, asked) = call(state.resume(&mut t, order("S1", "closed", "2", "90", "0")));
    assert_eq!(asked, "private CancelOrder txid=T1");
    // The position that the exchange sold is not sold again.
    let (_, state, asked) = call(state.resume(&mut t, ok("{}")));
    assert_eq!(asked, "private AddOrder pair=ETHUSD&type=sell&ordertype=market&volume=1.00000000");
    let (_, state, _) = call(state.resume(&mut t, filed("C1")));
    let closed = done(state.resume(&mut t, order("C1", "closed", "1", "8", "0"))).1.closed;
    let notes: Vec<&str> = closed.iter().map(|x| x.notes.as_str()).collect();
    assert_eq!(notes, vec!["Resting stop-loss filled", "Stop loss hit"]);
    assert_eq!(t.closed_trades().len(), 2);
    assert_eq!(f(t.balance()), 978.0);
}
