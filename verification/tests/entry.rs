use kraken_execution::{
    confirm_fill, wait_for_limit_fill, Call, Double, ExecutionError, Fault, Json, KrakenTrader,
    Next, OrderStatus, OrderType, Position, RequestError, Side, Step, Timestamp,
};

fn d(x: f64) -> Double {
    Double::from_bits(x.to_bits())
}

fn f(x: Double) -> f64 {
    f64::from_bits(x.to_bits())
}

fn convert(v: &serde_json::Value) -> Json {
    match v {
        serde_json::Value::Null => Json::Null,
        serde_json::Value::Bool(b) => Json::Bool(*b),
        serde_json::Value::Number(n) => match n.as_u64() {
            Some(u) => Json::UInt(u),
            None => Json::Number,
        },
        serde_json::Value::String(s) => Json::Text(s.clone()),
        serde_json::Value::Array(a) => Json::Array(a.iter().map(convert).collect()),
        serde_json::Value::Object(m) => {
            Json::Object(m.iter().map(|(k, v)| (k.clone(), convert(v))).collect())
        }
    }
}

fn json(text: &str) -> Json {
    let v: serde_json::Value = serde_json::from_str(text).unwrap();
    convert(&v)
}

fn ok(text: &str) -> Result<Json, String> {
    Ok(json(text))
}

fn down() -> Result<Json, String> {
    Err("down".to_string())
}

fn refused() -> Result<Json, String> {
    ok(r#"{"error":["EOrder:Insufficient funds"]}"#)
}

fn filed(txid: &str) -> Result<Json, String> {
    ok(&format!("{{\"error\":[],\"result\":{{\"txid\":[\"{}\"]}}}}", txid))
}

fn order(txid: &str, status: &str, vol: &str, price: &str, fee: &str) -> Result<Json, String> {
    ok(&format!(
        "{{\"error\":[],\"result\":{{\"{}\":{{\"status\":\"{}\",\"vol_exec\":\"{}\",\"price\":\"{}\",\"fee\":\"{}\"}}}}}}",
        txid, status, vol, price, fee
    ))
}

fn call<S, R>(s: Step<S, R>) -> (u64, S, String) {
    match s.next {
        Next::Call(state, Call::Private { endpoint, params }) => {
            (s.pause, state, format!("private {} {}", endpoint, params.form_body()))
        }
        Next::Call(state, Call::Public { endpoint, query }) => {
            (s.pause, state, format!("public {} {}", endpoint, query.form_body()))
        }
        Next::Done(_) => panic!("done"),
    }
}

fn done<S, R>(s: Step<S, R>) -> (u64, R) {
    match s.next {
        Next::Call(_, _) => panic!("not done"),
        Next::Done(r) => (s.pause, r),
    }
}

fn trader() -> KrakenTrader {
    KrakenTrader::new("https://api.kraken.com", "key", "c2VjcmV0", d(1000.0), d(0.004))
}

#[test]
fn an_order_is_confirmed_by_its_fill() {
    let (pause, state, asked) = call(confirm_fill("T1"));
    assert_eq!((pause, asked.as_str()), (0, "private QueryOrders txid=T1"));
    let (pause, state, asked) = call(state.resume(order("T1", "open", "0.5", "9", "0.1")));
    assert_eq!((pause, asked.as_str()), (500, "private QueryOrders txid=T1"));
    let (pause, r) = done(state.resume(order("T1", "closed", "1.5", "10", "0.2")));
    let fill = r.unwrap();
    assert_eq!(pause, 0);
    assert_eq!((f(fill.price), f(fill.volume), f(fill.fee)), (10.0, 1.5, 0.2));
}

#[test]
fn an_order_that_ended_early_may_have_a_fill() {
    for status in ["canceled", "expired"] {
        let (_, state, _) = call(confirm_fill("T1"));
        let fill = done(state.resume(order("T1", status, "0.5", "9", "0.1"))).1.unwrap();
        assert_eq!((f(fill.price), f(fill.volume), f(fill.fee)), (9.0, 0.5, 0.1));
        let (_, state, _) = call(confirm_fill("T1"));
        match done(state.resume(order("T1", status, "0", "9", "0.1"))).1 {
            Err(ExecutionError::ExchangeError(Fault::NoFill { txid, status: s })) => {
                assert_eq!((txid.as_str(), s.as_str()), ("T1", status))
            }
            _ => panic!(),
        }
    }
}

#[test]
fn confirming_gives_up_after_a_dozen_questions() {
    let (_, mut state, _) = call(confirm_fill("T1"));
    for i in 1..12 {
        let answer = match i % 4 {
            0 => down(),
            1 => refused(),
            2 => ok(r#"{"result":{"OTHER":{}}}"#),
            _ => order("T1", "closed", "0", "1", "1"),
        };
        let (pause, next, asked) = call(state.resume(answer));
        assert_eq!((pause, asked.as_str()), (500, "private QueryOrders txid=T1"));
        state = next;
    }
    let (pause, r) = done(state.resume(down()));
    assert_eq!(pause, 500);
    match r {
        Err(ExecutionError::ExchangeError(Fault::NotConfirmed { txid })) => assert_eq!(txid, "T1"),
        _ => panic!(),
    }
}

#[test]
fn a_limit_order_is_watched_once_per_second() {
    let (pause, state, asked) = call(wait_for_limit_fill("T1", 2));
    assert_eq!((pause, asked.as_str()), (1000, "private QueryOrders txid=T1"));
    let (pause, state, _) = call(state.resume(order("T1", "open", "0", "0", "0")));
    assert_eq!(pause, 1000);
    // The last look after the window comes at once, and keeps a partial fill.
    let (pause, state, asked) = call(state.resume(down()));
    assert_eq!((pause, asked.as_str()), (0, "private QueryOrders txid=T1"));
    let fill = done(state.resume(order("T1", "open", "0.25", "3", "0"))).1.unwrap();
    assert_eq!((f(fill.price), f(fill.volume)), (3.0, 0.25));
}

#[test]
fn a_limit_order_without_a_fill_gives_none() {
    let (pause, state, _) = call(wait_for_limit_fill("T1", 0));
    assert_eq!(pause, 0);
    assert!(done(state.resume(order("T1", "open", "0", "3", "0"))).1.is_none());
    let (_, state, _) = call(wait_for_limit_fill("T1", 5));
    assert!(done(state.resume(order("T1", "canceled", "0", "3", "0"))).1.is_none());
    let (_, state, _) = call(wait_for_limit_fill("T1", 5));
    assert!(done(state.resume(order("T1", "expired", "2", "3", "0"))).1.is_some());
}

#[test]
fn a_planned_price_makes_a_post_only_entry() {
    let mut t = trader();
    let (pause, state, asked) = call(t.place_order("SOL/USD", Side::Long, d(1.234567891), Some(d(150.5)), Some(d(140.0))));
    assert_eq!(pause, 0);
    assert_eq!(
        asked,
        "private AddOrder pair=SOLUSD&type=buy&volume=1.23456789&ordertype=limit&price=150.50000&oflags=post"
    );
    let (pause, state, asked) = call(state.resume(&mut t, filed("T9")));
    assert_eq!((pause, asked.as_str()), (1000, "private QueryOrders txid=T9"));
    let o = done(state.resume(&mut t, order("T9", "closed", "1.2", "150.4", "0.3"))).1.unwrap();
    assert_eq!((o.id.as_str(), o.pair.as_str()), ("T9", "SOL/USD"));
    assert_eq!(o.side, Side::Long);
    assert_eq!(o.order_type, OrderType::Limit);
    assert_eq!(o.status, OrderStatus::Filled);
    assert_eq!((f(o.quantity), f(o.price.unwrap()), f(o.filled_price.unwrap())), (1.2, 150.4, 150.4));
    assert!(o.filled_at.is_some());
    assert!(o.created_at.secs > 1_600_000_000 && o.created_at.nanos < 1_000_000_000);
    assert_eq!(t.order_counter(), 1);
    assert_eq!(t.positions().len(), 0);
}

#[test]
fn the_moments_of_an_order_are_recorded() {
    let mut t = trader();
    let (_, state, _) = call(t.place_order("SOL/USD", Side::Long, d(1.0), None, None));
    let early = Timestamp { secs: 5, nanos: 6 };
    let late = Timestamp { secs: 7, nanos: 8 };
    let (_, state, _) = call(state.resume_at(&mut t, filed("T9"), early, late));
    let o = done(state.resume_at(&mut t, order("T9", "closed", "1", "2", "0"), early, late)).1.unwrap();
    assert_eq!((o.created_at, o.filled_at), (early, Some(late)));
}

#[test]
fn an_entry_that_does_not_fill_is_cancelled() {
    let mut t = trader();
    let (_, state, _) = call(t.place_order("SOL/USD", Side::Long, d(1.0), Some(d(150.5)), None));
    let (_, mut state, _) = call(state.resume(&mut t, filed("T9")));
    for i in 1..26 {
        let (pause, next, asked) = call(state.resume(&mut t, order("T9", "open", "0", "0", "0")));
        assert_eq!(asked, "private QueryOrders txid=T9");
        assert_eq!(pause, if i < 25 { 1000 } else { 0 });
        state = next;
    }
    let (pause, state, asked) = call(state.resume(&mut t, order("T9", "open", "0", "0", "0")));
    assert_eq!((pause, asked.as_str()), (0, "private CancelOrder txid=T9"));
    match done(state.resume(&mut t, down())).1 {
        Err(ExecutionError::ExchangeError(Fault::EntryNotFilled { pair, limit })) => {
            assert_eq!((pair.as_str(), limit.as_str()), ("SOL/USD", "150.50000"))
        }
        _ => panic!(),
    }
    assert_eq!(t.order_counter(), 0);
}

#[test]
fn a_marketable_entry_crosses_up_to_the_slippage() {
    let mut t = trader();
    t.set_entry_mode("marketable", d(0.5));
    let (_, state, asked) = call(t.place_order("SOL/USD", Side::Long, d(1.0), Some(d(150.0)), None));
    assert_eq!(asked, "public Ticker pair=SOLUSD");
    let (_, state, asked) = call(state.resume(&mut t, ok(r#"{"result":{"S":{"c":["200"]}}}"#)));
    assert_eq!(
        asked,
        "private AddOrder pair=SOLUSD&type=buy&volume=1.00000000&ordertype=limit&price=201.00000"
    );
    let (_, mut state, _) = call(state.resume(&mut t, filed("T9")));
    for _ in 0..8 {
        state = call(state.resume(&mut t, down())).1;
    }
    let (_, state, asked) = call(state.resume(&mut t, down()));
    assert_eq!(asked, "private CancelOrder txid=T9");
    assert!(done(state.resume(&mut t, ok("{}"))).1.is_err());
}

#[test]
fn without_a_market_price_the_planned_one_stands_in() {
    let mut t = trader();
    t.set_allow_shorts(true);
    t.set_entry_mode("marketable", d(-3.0));
    let (_, state, _) = call(t.place_order("SOL/USD", Side::Short, d(1.0), Some(d(150.0)), None));
    let (_, _, asked) = call(state.resume(&mut t, down()));
    // A negative slippage counts as none.
    assert_eq!(
        asked,
        "private AddOrder pair=SOLUSD&type=sell&volume=1.00000000&ordertype=limit&price=150.00000"
    );
    t.set_entry_mode("marketable", d(1.0));
    let (_, state, _) = call(t.place_order("SOL/USD", Side::Short, d(1.0), Some(d(150.0)), None));
    let (_, _, asked) = call(state.resume(&mut t, down()));
    assert_eq!(
        asked,
        "private AddOrder pair=SOLUSD&type=sell&volume=1.00000000&ordertype=limit&price=148.50000"
    );
}

#[test]
fn without_a_price_the_entry_goes_to_the_market() {
    let mut t = trader();
    t.set_entry_mode("marketable", d(1.0));
    let (_, _, asked) = call(t.place_order("SOL/USD", Side::Long, d(2.0), None, None));
    assert_eq!(asked, "private AddOrder pair=SOLUSD&type=buy&volume=2.00000000&ordertype=market");
    let (_, state, _) = call(t.place_order("SOL/USD", Side::Long, d(2.0), None, None));
    let (pause, state, asked) = call(state.resume(&mut t, ok(r#"{"error":[],"result":{}}"#)));
    assert_eq!((pause, asked.as_str()), (0, "private QueryOrders txid=unknown"));
    let o = done(state.resume(&mut t, order("unknown", "closed", "2", "9", "0"))).1.unwrap();
    assert_eq!(o.order_type, OrderType::Market);
    assert_eq!((o.id.as_str(), f(o.quantity)), ("unknown", 2.0));
    assert_eq!(t.order_counter(), 1);
}

#[test]
fn a_price_that_is_not_above_zero_is_refused() {
    let mut t = trader();
    for mode in ["post_only", "marketable"] {
        t.set_entry_mode(mode, d(1.0));
        for price in [0.0, -0.0, -1.0, f64::NAN, f64::NEG_INFINITY] {
            let (pause, r) = done(t.place_order("SOL/USD", Side::Long, d(2.0), Some(d(price)), None));
            assert_eq!(pause, 0);
            assert!(matches!(r, Err(ExecutionError::ExchangeError(Fault::InvalidPrice))));
        }
    }
    // The volume is looked at first.
    let r = done(t.place_order("SOL/USD", Side::Long, d(0.0), Some(d(0.0)), None)).1;
    assert!(matches!(r, Err(ExecutionError::ExchangeError(Fault::RoundsToZero { .. }))));
}

#[test]
fn a_market_entry_that_is_not_confirmed_fails() {
    let mut t = trader();
    let (_, state, _) = call(t.place_order("SOL/USD", Side::Long, d(2.0), None, None));
    let (_, state, _) = call(state.resume(&mut t, filed("T1")));
    let r = done(state.resume(&mut t, order("T1", "canceled", "0", "0", "0"))).1;
    assert!(matches!(r, Err(ExecutionError::ExchangeError(Fault::NoFill { .. }))));
    assert_eq!(t.order_counter(), 0);
}

#[test]
fn an_entry_that_is_not_accepted_fails() {
    let mut t = trader();
    let (_, state, _) = call(t.place_order("SOL/USD", Side::Long, d(2.0), Some(d(1.0)), None));
    match done(state.resume(&mut t, refused())).1 {
        Err(ExecutionError::ExchangeError(Fault::EntryNotPlaced(RequestError::Refused(v)))) => {
            assert_eq!(v, vec!["EOrder:Insufficient funds".to_string()])
        }
        _ => panic!(),
    }
}

#[test]
fn an_entry_below_the_minimums_is_refused() {
    let mut t = trader();
    let (_, state, _) = call(t.load_pair_meta());
    let text = r#"{"result":{"S":{"altname":"SOLUSD","wsname":"SOL/USD","ordermin":"0.02","costmin":"0.5"}}}"#;
    done(state.resume(&mut t, ok(text))).1.unwrap();
    let r = done(t.place_order("SOL/USD", Side::Long, d(0.01), Some(d(100.0)), None)).1;
    assert!(matches!(r, Err(ExecutionError::ExchangeError(Fault::BelowOrderMin { .. }))));
    // Without any price an order is held against one millionth.
    match done(t.place_order("SOL/USD", Side::Long, d(1.0), None, None)).1 {
        Err(ExecutionError::ExchangeError(Fault::BelowCostMin { cost, .. })) => {
            assert_eq!(f(cost), 0.000001)
        }
        _ => panic!(),
    }
    // The last price of a position of that name stands in.
    t.positions_mut().insert(
        "SOL/USD".to_string(),
        Position {
            pair: "SOL/USD".to_string(),
            side: Side::Long,
            entry_price: d(90.0),
            quantity: d(1.0),
            current_price: d(100.0),
            unrealized_pnl: d(0.0),
            stop_loss: d(0.0),
            take_profit_1: d(0.0),
            strategy_name: "s".to_string(),
            opened_at: Timestamp { secs: 0, nanos: 0 },
        },
    );
    let (_, _, asked) = call(t.place_order("SOL/USD", Side::Long, d(1.0), None, None));
    assert_eq!(asked, "private AddOrder pair=SOLUSD&type=buy&volume=1.00000000&ordertype=market");
}
