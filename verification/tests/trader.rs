use kraken_execution::{
    canonical_base, refusal_text, Call, Double, ExecutionError, Fault, Json, KrakenTrader, Next, Params,
    Position, RequestError, Side, Step, Table, Timestamp,
};

fn d(x: f64) -> Double {
    Double::from_bits(x.to_bits())
}

fn f(x: Double) -> f64 {
    f64::from_bits(x.to_bits())
}

fn convert(v: &serde_json::Value) -> Json {
    match v {
        serde_json::Value::Null => Json::Null,
        serde_json::Value::Bool(b) => Json::Bool(*b),
        serde_json::Value::Number(n) => match n.as_u64() {
            Some(u) => Json::UInt(u),
            None => Json::Number,
        },
        serde_json::Value::String(s) => Json::Text(s.clone()),
        serde_json::Value::Array(a) => Json::Array(a.iter().map(convert).collect()),
        serde_json::Value::Object(m) => {
            Json::Object(m.iter().map(|(k, v)| (k.clone(), convert(v))).collect())
        }
    }
}

fn json(text: &str) -> Json {
    let v: serde_json::Value = serde_json::from_str(text).unwrap();
    convert(&v)
}

fn call<S, R>(s: Step<S, R>) -> (u64, S, String) {
    match s.next {
        Next::Call(state, Call::Private { endpoint, params }) => {
            (s.pause, state, format!("private {} {}", endpoint, params.form_body()))
        }
        Next::Call(state, Call::Public { endpoint, query }) => {
            (s.pause, state, format!("public {} {}", endpoint, query.form_body()))
        }
        Next::Done(_) => panic!("done"),
    }
}

fn done<S, R>(s: Step<S, R>) -> (u64, R) {
    match s.next {
        Next::Call(_, _) => panic!("not done"),
        Next::Done(r) => (s.pause, r),
    }
}

fn trader() -> KrakenTrader {
    KrakenTrader::new("https://api.kraken.com", "key", "c2VjcmV0", d(1000.0), d(0.004))
}

fn position(pair: &str, side: Side, entry: f64, quantity: f64) -> Position {
    Position {
        pair: pair.to_string(),
        side,
        entry_price: d(entry),
        quantity: d(quantity),
        current_price: d(entry),
        unrealized_pnl: d(0.0),
        stop_loss: d(0.0),
        take_profit_1: d(0.0),
        strategy_name: "test".to_string(),
        opened_at: Timestamp { secs: 1, nanos: 2 },
    }
}

fn load(t: &mut KrakenTrader, text: &str) -> Result<usize, ExecutionError> {
    let (pause, state, asked) = call(t.load_pair_meta());
    assert_eq!((pause, asked.as_str()), (0, "public AssetPairs "));
    done(state.resume(t, Ok(json(text)))).1
}

const PAIRS: &str = r#"{"error":[],"result":{
    "XXBTZUSD":{"altname":"XBTUSD","wsname":"XBT/USD","pair_decimals":1,"lot_decimals":8,"ordermin":"0.0001","costmin":"0.5"},
    "XDGUSD":{"altname":"XDGUSD","wsname":"XDG/USD","pair_decimals":7,"lot_decimals":2,"ordermin":"50","costmin":"0.5"},
    "NOALT":{"wsname":"A/B"},
    "TWOSLASHES":{"altname":"X","wsname":"A/B/C"},
    "NOWS":{"altname":"ETHUSD","base":"ETH","quote":"ZUSD"}
}}"#;

#[test]
fn a_new_trader_is_empty_and_long_only() {
    let t = trader();
    assert_eq!(f(t.balance()), 1000.0);
    assert_eq!(f(t.account().equity), 1000.0);
    assert_eq!(f(t.account().daily_pnl), 0.0);
    assert_eq!(t.account().open_positions, 0);
    assert_eq!(t.order_counter(), 0);
    assert_eq!(t.closed_trades().len(), 0);
    assert_eq!(t.positions().len(), 0);
    let (_, r) = done(t.place_order("BTC/USD", Side::Short, d(1.0), Some(d(5.0)), None));
    assert!(matches!(r, Err(ExecutionError::ExchangeError(Fault::ShortsDisabled))));
}

#[test]
fn faults_are_told_in_words() {
    let t = trader();
    assert_eq!(f(t.fee_rate()), 0.004);
    let pair = || "SOL/USD".to_string();
    let txid = || "T1".to_string();
    for (fault, want) in [
        (Fault::Request(RequestError::Transport("timeout".to_string())), "timeout"),
        (
            Fault::Request(RequestError::Refused(vec!["E:a \"b\"".to_string(), "E2".to_string()])),
            "Kraken: [\"E:a \\\"b\\\"\", \"E2\"]",
        ),
        (Fault::NoAssetPairs, "AssetPairs missing result"),
        (Fault::MissingResult, "Missing result"),
        (Fault::NoTicker, "No ticker"),
        (Fault::InvalidPrice, "Invalid price"),
        (
            Fault::BelowCostMin { pair: pair(), cost: d(0.125), costmin: d(0.5) },
            "SOL/USD: cost $0.12 below costmin $0.50",
        ),
        (Fault::NoFill { txid: txid(), status: "canceled".to_string() }, "Order T1 canceled with no fill"),
        (Fault::NotConfirmed { txid: txid() }, "Order T1 not confirmed filled within timeout"),
        (Fault::ShortsDisabled, "Short orders disabled (spot account is long-only)"),
        (
            Fault::EntryNotFilled { pair: pair(), limit: "1.50".to_string() },
            "Limit entry for SOL/USD did not fill at 1.50 within window \u{2014} cancelled",
        ),
    ] {
        assert_eq!(fault.text().unwrap(), want);
    }
    assert_eq!(refusal_text("[]"), "Kraken: []");
    let silent: Vec<Fault> = vec![
        Fault::EntryNotPlaced(RequestError::Transport("x".to_string())),
        Fault::RoundsToZero { pair: pair(), volume: d(0.1), lot_decimals: 0 },
        Fault::BelowOrderMin { pair: pair(), volume: d(0.1), ordermin: d(1.0) },
    ];
    for fault in silent {
        assert!(fault.text().is_none());
    }
}

#[test]
fn shorts_can_be_allowed() {
    let mut t = trader();
    t.set_allow_shorts(true);
    let (_, _, asked) = call(t.place_order("BTC/USD", Side::Short, d(1.0), Some(d(5.0)), None));
    assert_eq!(
        asked,
        "private AddOrder pair=BTCUSD&type=sell&volume=1.00000000&ordertype=limit&price=5.00000&oflags=post"
    );
}

#[test]
fn a_private_request_is_signed() {
    let t = trader();
    let mut params = Params::new();
    params.push("pair", "XBTUSD");
    params.push("type", "buy");
    params.push("volume", "1.25");
    let r = t.private_request("AddOrder", params, 1616492376594);
    assert_eq!(r.url, "https://api.kraken.com/0/private/AddOrder");
    assert_eq!(r.api_key, "key");
    assert_eq!(r.content_type, "application/x-www-form-urlencoded");
    assert_eq!(r.body, "pair=XBTUSD&type=buy&volume=1.25&nonce=1616492376594");
    assert_eq!(r.api_sign.len(), 88);
    assert_eq!(
        r.api_sign,
        "GgyPQU+bWwvWuC+jrylAzCjDy0p8ds7gHTklOxiYkdxp/n4iPRuT39DnMp/+pAxyy63e07ZnSwLTJXUG3O4+xw=="
    );
}

#[test]
fn a_secret_that_does_not_decode_is_empty() {
    let t = KrakenTrader::new("u", "k", "not base64!", d(0.0), d(0.0));
    assert_eq!(
        t.sign("/0/private/Balance", "7", "nonce=7"),
        "u8S/i+Yoxrk7UEvcNzJgxhBRDSAdyZJsszKU71NU1DJSF7qerFJdvATPvOvAxZ6mIRTifd9MKU7wV5k+2co90w=="
    );
    let u = KrakenTrader::with_secret("u", "k", None, d(0.0), d(0.0));
    assert_eq!(u.sign("/p", "7", "nonce=7"), t.sign("/p", "7", "nonce=7"));
    assert_eq!(
        trader().sign("/0/private/Balance", "7", "nonce=7"),
        "qNeIJGrqxruLGAbeYbSIGstu52qVMLUoHPyMJTZf9BS8JNh9djO6v4lSxBsusyd1QAIMSvcVOTqmXue4y2FhVg=="
    );
}

#[test]
fn a_nonce_is_sent_once() {
    let t = trader();
    let mut params = Params::new();
    params.push("nonce", "1");
    params.push("txid", "A");
    let r = t.private_request("QueryOrders", params, u128::MAX);
    assert_eq!(r.body, "nonce=340282366920938463463374607431768211455&txid=A");
}

#[test]
fn public_endpoints_have_their_own_path() {
    assert_eq!(trader().public_url("Ticker"), "https://api.kraken.com/0/public/Ticker");
}

#[test]
fn symbols_have_a_canonical_form() {
    for (sym, want) in [
        ("XBT", "BTC"),
        ("XXBT", "BTC"),
        ("XDG", "DOGE"),
        ("XXDG", "DOGE"),
        ("ETH", "ETH"),
        ("", ""),
    ] {
        assert_eq!(canonical_base(sym), want);
        assert_eq!(canonical_base(&canonical_base(sym)), want);
    }
}

#[test]
fn pair_metadata_is_loaded() {
    let mut t = trader();
    assert_eq!(load(&mut t, PAIRS).unwrap(), 3);
    let m = t.meta("BTC/USD").unwrap();
    assert_eq!(m.altname, "XBTUSD");
    assert_eq!((m.price_decimals, m.lot_decimals), (1, 8));
    assert_eq!((f(m.ordermin), f(m.costmin)), (0.0001, 0.5));
    let m = t.meta("ETH/USD").unwrap();
    assert_eq!((m.price_decimals, m.lot_decimals), (5, 8));
    assert_eq!((f(m.ordermin), f(m.costmin)), (0.0, 0.0));
    assert!(t.meta("A/B").is_none());
    assert_eq!(t.kraken_pair("BTC/USD"), "XBTUSD");
    assert_eq!(t.kraken_pair("SOL/USD"), "SOLUSD");
    assert_eq!((t.price_decimals("SOL/USD"), t.lot_decimals("SOL/USD")), (5, 8));
    assert_eq!(t.fmt_price("DOGE/USD", d(0.00001234)), "0.0000123");
    assert_eq!(t.fmt_volume("DOGE/USD", d(12.345)), format!("{:.2}", 12.345));
}

#[test]
fn decimals_are_taken_in_32_bits() {
    let mut t = trader();
    let text = r#"{"result":{"P":{"altname":"AB","wsname":"A/B","pair_decimals":4294967298,"lot_decimals":-1}}}"#;
    assert_eq!(load(&mut t, text).unwrap(), 1);
    let m = t.meta("A/B").unwrap();
    assert_eq!((m.price_decimals, m.lot_decimals), (2, 8));
}

#[test]
fn a_failed_load_keeps_what_is_known() {
    let mut t = trader();
    load(&mut t, PAIRS).unwrap();
    let r = load(&mut t, r#"{"error":["EGeneral"]}"#);
    assert!(matches!(r, Err(ExecutionError::ExchangeError(Fault::NoAssetPairs))));
    let (_, state, _) = call(t.load_pair_meta());
    let (_, r) = done(state.resume(&mut t, Err("timeout".to_string())));
    match r {
        Err(ExecutionError::ExchangeError(Fault::Request(RequestError::Transport(s)))) => {
            assert_eq!(s, "timeout")
        }
        _ => panic!(),
    }
    assert_eq!(t.kraken_pair("BTC/USD"), "XBTUSD");
}

#[test]
fn volumes_are_rounded_down() {
    let mut t = trader();
    load(&mut t, PAIRS).unwrap();
    for v in [0.123456789, 1.0, 0.00000001, 57.999999999, 1e9 + 0.5, 0.3] {
        let r = f(t.round_volume("BTC/USD", d(v)));
        assert_eq!(r, (v * 1e8).floor() / 1e8);
        assert!(r <= v);
    }
    assert_eq!(f(t.round_volume("DOGE/USD", d(12.349))), 12.34);
    assert_eq!(f(t.round_volume("BTC/USD", d(0.000000009))), 0.0);
    assert_eq!(f(t.round_volume("BTC/USD", d(-1.234567891))), (-1.234567891f64 * 1e8).floor() / 1e8);
    // Scaling rounds these volumes up to a whole number of lots, one too many.
    assert_eq!(f(t.round_volume("BTC/USD", d(0.0068324499999999995))), 0.00683244);
    assert_eq!(f(t.round_volume("DOGE/USD", d(7198.3099999999995))), 7198.3);
    assert_eq!(f(t.round_volume("BTC/USD", d(0.0))), 0.0);
    // Scaling overflows.
    let huge = f(t.round_volume("BTC/USD", d(1e307)));
    assert!(huge > 1e299 && huge <= 1e307);
}

#[test]
fn a_volume_just_below_some_lots_is_fewer_lots() {
    let mut t = trader();
    let text = r#"{"result":{"P":{"altname":"AB","wsname":"A/B","lot_decimals":1}}}"#;
    load(&mut t, text).unwrap();
    assert_eq!(f(t.round_volume("A/B", d(1.7999999999999998))), 1.7);
    assert_eq!(f(t.round_volume("A/B", d(1.8))), 1.8);
    assert_eq!(f(t.round_volume("A/B", d(30385.899999999998))), 30385.8);
    // Every multiple of a lot and its neighbours, held against what is held.
    let mut last = 0.0;
    for k in 1..100u32 {
        let x = k as f64 / 10.0;
        for v in [x, f64::from_bits(x.to_bits() - 1), f64::from_bits(x.to_bits() + 1)] {
            let r = f(t.round_volume("A/B", d(v)));
            assert!(r <= v && r > v - 0.2, "{}", v);
            assert!(r >= last || v < x, "{}", v);
            last = if v < x { last } else { r };
            assert_eq!((r * 10.0).round() / 10.0, r);
        }
    }
}

#[test]
fn orders_are_held_against_the_minimums() {
    let mut t = trader();
    load(&mut t, PAIRS).unwrap();
    assert_eq!(f(t.validate_order("BTC/USD", d(0.5), d(100.0)).unwrap()), 0.5);
    match t.validate_order("BTC/USD", d(0.000000001), d(100.0)) {
        Err(ExecutionError::ExchangeError(Fault::RoundsToZero { pair, volume, lot_decimals })) => {
            assert_eq!((pair.as_str(), f(volume), lot_decimals), ("BTC/USD", 0.000000001, 8))
        }
        _ => panic!(),
    }
    match t.validate_order("BTC/USD", d(0.00005), d(100000.0)) {
        Err(ExecutionError::ExchangeError(Fault::BelowOrderMin { pair, volume, ordermin })) => {
            assert_eq!((pair.as_str(), f(volume), f(ordermin)), ("BTC/USD", 0.00005, 0.0001))
        }
        _ => panic!(),
    }
    match t.validate_order("BTC/USD", d(0.001), d(100.0)) {
        Err(ExecutionError::ExchangeError(Fault::BelowCostMin { pair, cost, costmin })) => {
            assert_eq!((pair.as_str(), f(cost), f(costmin)), ("BTC/USD", 0.1, 0.5))
        }
        _ => panic!(),
    }
    // Nothing is known of this pair, so nothing is too small but nothing itself.
    assert_eq!(f(t.validate_order("SOL/USD", d(0.00000001), d(0.0)).unwrap()), 0.00000001);
    assert!(t.validate_order("SOL/USD", d(-1.0), d(1.0)).is_err());
    // What is valid stays valid when volume and price grow.
    for (v, p) in [(0.5, 100.0), (0.5, 1e9), (7.25, 100.0), (1e300, 1e300), (f64::INFINITY, f64::INFINITY)] {
        assert!(t.validate_order("BTC/USD", d(v), d(p)).is_ok());
    }
    // A NaN is not below anything.
    assert!(f(t.validate_order("BTC/USD", d(f64::NAN), d(1.0)).unwrap()).is_nan());
}

#[test]
fn prices_mark_the_positions() {
    let mut t = trader();
    t.positions_mut().insert("a".to_string(), position("BTC/USD", Side::Long, 100.0, 2.0));
    t.positions_mut().insert("b".to_string(), position("ETH/USD", Side::Short, 10.0, 3.0));
    t.positions_mut().insert("c".to_string(), position("SOL/USD", Side::Long, 1.0, 1.0));
    let mut prices = Table::new();
    prices.insert("BTC/USD".to_string(), d(110.0));
    prices.insert("ETH/USD".to_string(), d(12.0));
    let (unrealized, cost) = t.update_prices(&prices);
    assert_eq!((f(unrealized), f(cost)), (14.0, 230.0));
    let a = t.positions().get("a").unwrap();
    assert_eq!((f(a.current_price), f(a.unrealized_pnl)), (110.0, 20.0));
    let b = t.positions().get("b").unwrap();
    assert_eq!((f(b.current_price), f(b.unrealized_pnl)), (12.0, -6.0));
    let c = t.positions().get("c").unwrap();
    assert_eq!((f(c.current_price), f(c.unrealized_pnl)), (1.0, 0.0));
    assert_eq!(t.open_positions().len(), 3);
    t.set_equity(d(1014.0));
    assert_eq!((f(t.account().balance), f(t.account().equity)), (1000.0, 1014.0));
    t.set_balance(d(5.0));
    assert_eq!((f(t.account().balance), f(t.account().equity)), (5.0, 5.0));
}

#[test]
fn a_table_keeps_one_value_per_key() {
    let mut t: Table<Double> = Table::new();
    t.insert("a".to_string(), d(1.0));
    t.insert("b".to_string(), d(2.0));
    t.insert("a".to_string(), d(3.0));
    assert_eq!(t.len(), 2);
    assert_eq!(f(*t.get("a").unwrap()), 3.0);
    assert!(t.contains_key("b"));
    assert_eq!(f(t.remove("b").unwrap()), 2.0);
    assert!(t.remove("b").is_none());
    assert_eq!(t.keys(), vec!["a".to_string()]);
    t.clear();
    assert_eq!(t.len(), 0);
}
