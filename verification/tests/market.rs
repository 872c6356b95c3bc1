use kraken_execution::{
    Call, Double, ExecutionError, Fault, Json, KrakenTrader, Next, RequestError, Step,
};

fn d(x: f64) -> Double {
    Double::from_bits(x.to_bits())
}

fn f(x: Double) -> f64 {
    f64::from_bits(x.to_bits())
}

fn convert(v: &serde_json::Value) -> Json {
    match v {
        serde_json::Value::Null => Json::Null,
        serde_json::Value::Bool(b) => Json::Bool(*b),
        serde_json::Value::Number(n) => match n.as_u64() {
            Some(u) => Json::UInt(u),
            None => Json::Number,
        },
        serde_json::Value::String(s) => Json::Text(s.clone()),
        serde_json::Value::Array(a) => Json::Array(a.iter().map(convert).collect()),
        serde_json::Value::Object(m) => {
            Json::Object(m.iter().map(|(k, v)| (k.clone(), convert(v))).collect())
        }
    }
}

fn json(text: &str) -> Json {
    let v: serde_json::Value = serde_json::from_str(text).unwrap();
    convert(&v)
}

fn call<S, R>(s: Step<S, R>) -> (u64, S, String) {
    match s.next {
        Next::Call(state, Call::Private { endpoint, params }) => {
            (s.pause, state, format!("private {} {}", endpoint, params.form_body()))
        }
        Next::Call(state, Call::Public { endpoint, query }) => {
            (s.pause, state, format!("public {} {}", endpoint, query.form_body()))
        }
        Next::Done(_) => panic!("done"),
    }
}

fn done<S, R>(s: Step<S, R>) -> (u64, R) {
    match s.next {
        Next::Call(_, _) => panic!("not done"),
        Next::Done(r) => (s.pause, r),
    }
}

fn trader() -> KrakenTrader {
    KrakenTrader::new("https://api.kraken.com", "key", "c2VjcmV0", d(1000.0), d(0.004))
}

fn price_of(answer: Result<Json, String>) -> Result<f64, ExecutionError> {
    let t = trader();
    let (pause, state, asked) = call(t.get_ticker_price("ETH/USD"));
    assert_eq!((pause, asked.as_str()), (0, "public Ticker pair=ETHUSD"));
    done(state.resume(answer)).1.map(f)
}

#[test]
fn the_last_price_is_read_from_the_first_entry() {
    let text = r#"{"error":[],"result":{"XETHZUSD":{"c":["2500.10","0.1"]},"XXBTZUSD":{"c":["1"]}}}"#;
    assert_eq!(price_of(Ok(json(text))).unwrap(), 2500.10);
    assert_eq!(price_of(Ok(json(r#"{"result":{"P":{}}}"#))).unwrap(), 0.0);
    assert_eq!(price_of(Ok(json(r#"{"result":{"P":{"c":[1.5]}}}"#))).unwrap(), 0.0);
}

#[test]
fn a_ticker_without_a_price_is_an_error() {
    assert!(matches!(
        price_of(Ok(json(r#"{"error":["x"]}"#))),
        Err(ExecutionError::ExchangeError(Fault::MissingResult))
    ));
    assert!(matches!(
        price_of(Ok(json(r#"{"result":{}}"#))),
        Err(ExecutionError::ExchangeError(Fault::NoTicker))
    ));
    assert!(matches!(
        price_of(Ok(json(r#"{"result":{"P":{"c":["cheap"]}}}"#))),
        Err(ExecutionError::ExchangeError(Fault::InvalidPrice))
    ));
    assert!(matches!(
        price_of(Err("down".to_string())),
        Err(ExecutionError::ExchangeError(Fault::Request(RequestError::Transport(_))))
    ));
}

#[test]
fn raw_balances_are_the_positive_ones() {
    let t = trader();
    let (_, state, asked) = call(t.fetch_balance_raw());
    assert_eq!(asked, "private Balance ");
    let text = r#"{"error":[],"result":{"ZUSD":"12.5","XXBT":"0.0","XETH":"-1","SOL":3,"ADA":"nan","DOT":"1e1"}}"#;
    let assets = done(state.resume(Ok(json(text)))).1.unwrap();
    let mut names = assets.keys();
    names.sort();
    assert_eq!(names, vec!["DOT".to_string(), "ZUSD".to_string()]);
    assert_eq!(f(*assets.get("DOT").unwrap()), 10.0);
    assert_eq!(f(*assets.get("ZUSD").unwrap()), 12.5);
}

#[test]
fn a_refusal_names_its_errors() {
    let t = trader();
    let (_, state, _) = call(t.fetch_balance_raw());
    let r = done(state.resume(Ok(json(r#"{"error":["EAPI:Invalid key",7,"EGeneral"],"result":{}}"#)))).1;
    match r {
        Err(ExecutionError::ExchangeError(Fault::Request(RequestError::Refused(v)))) => {
            assert_eq!(v, vec!["EAPI:Invalid key".to_string(), "EGeneral".to_string()])
        }
        _ => panic!(),
    }
    let (_, state, _) = call(t.fetch_balance_raw());
    let r = done(state.resume(Ok(json(r#"{"error":[]}"#)))).1;
    assert!(matches!(r, Err(ExecutionError::ExchangeError(Fault::MissingResult))));
}

#[test]
fn balances_are_added_up_in_dollars() {
    let mut t = trader();
    let (_, state, asked) = call(t.fetch_balance());
    assert_eq!(asked, "private Balance ");
    // Walked by name: ADA, USD, XETH, XXBT, XXDG, ZEUR, ZUSD.
    let text = r#"{"error":[],"result":{"ZUSD":"100","XXBT":"2","XETH":"3","USD":"1","ADA":"0","XXDG":"10","ZEUR":"5"}}"#;
    let (_, state, asked) = call(state.resume(&mut t, Ok(json(text))));
    assert_eq!(asked, "public Ticker pair=ETHUSD");
    let (_, state, asked) = call(state.resume(&mut t, Ok(json(r#"{"result":{"P":{"c":["10"]}}}"#))));
    assert_eq!(asked, "public Ticker pair=BTCUSD");
    let (_, state, asked) = call(state.resume(&mut t, Ok(json(r#"{"result":{"P":{"c":["1000"]}}}"#))));
    assert_eq!(asked, "public Ticker pair=DGUSD");
    // No price: left out.
    let (_, state, asked) = call(state.resume(&mut t, Err("down".to_string())));
    assert_eq!(asked, "public Ticker pair=EURUSD");
    let (_, r) = done(state.resume(&mut t, Ok(json(r#"{"result":{"P":{"c":["2"]}}}"#))));
    assert_eq!(f(r.unwrap()), 2141.0);
    assert_eq!((f(t.account().balance), f(t.account().equity)), (2141.0, 2141.0));
}

#[test]
fn a_failed_balance_changes_nothing() {
    let mut t = trader();
    let (_, state, _) = call(t.fetch_balance());
    let (_, r) = done(state.resume(&mut t, Err("down".to_string())));
    assert!(r.is_err());
    assert_eq!(f(t.balance()), 1000.0);
}

#[test]
fn dollars_alone_need_no_price() {
    let mut t = trader();
    let (_, state, _) = call(t.fetch_balance());
    let (_, r) = done(state.resume(&mut t, Ok(json(r#"{"result":{"ZUSD":"7.25"}}"#))));
    assert_eq!(f(r.unwrap()), 7.25);
    assert_eq!(f(t.balance()), 7.25);
}
