use flexsync::fetch::{
    after_attempt, check_send_response, check_statement_response, classify, extract_reference_code,
    fetch_url, send_request_url, statement_url, ErrorKind, FetchError, Format, Step, Strategy,
    FLEX_BASE_URL, MAX_ATTEMPTS, RETRY_DELAY_MS,
};
use flexsync::gateway::{check_gateway_trades, first_of_each, retry_delay, valid_account_id, TradeCheck};
use flexsync::record::FlexTrade;

fn open_and_closed() -> Vec<FlexTrade> {
    let mk = |sym: &str, oc: &str| FlexTrade {
        account_id: String::new(),
        trade_id: sym.to_string(),
        symbol: sym.to_string(),
        asset_class: String::new(),
        side: "BUY".to_string(),
        quantity: 1,
        multiplier: 1,
        price: 0,
        commission: 0,
        realized_pnl: 0,
        date: String::new(),
        time: String::new(),
        expiry: String::new(),
        strike: 0,
        put_call: String::new(),
        open_close: oc.to_string(),
        exchange: String::new(),
        proceeds: 0,
        cost_basis: 0,
        notes: String::new(),
    };
    vec![mk("A", "O"), mk("B", "C")]
}

/// Runs the retry decisions over given attempt outcomes; returns attempts made and result.
fn drive(mut outcomes: Vec<Result<Vec<FlexTrade>, FetchError>>) -> (u32, Result<Vec<FlexTrade>, FetchError>) {
    let mut attempt: u32 = 1;
    loop {
        let outcome = outcomes.remove(0);
        match after_attempt(attempt, outcome) {
            Step::Retry { attempt: next, delay_ms } => {
                assert_eq!(delay_ms, RETRY_DELAY_MS);
                attempt = next;
            }
            Step::Finish(result) => return (attempt, result),
        }
    }
}

#[test]
fn ready_on_fifth_attempt() {
    let mut outcomes: Vec<Result<Vec<FlexTrade>, FetchError>> = (0..4).map(|_| Err(FetchError::NotReady)).collect();
    outcomes.push(Ok(open_and_closed()));
    outcomes.push(Err(FetchError::Network("never asked".to_string())));
    let (attempts, result) = drive(outcomes);
    assert_eq!(attempts, 5);
    let trades = result.unwrap();
    assert_eq!(trades.len(), 1);
    assert_eq!(trades[0].symbol, "B");
}

#[test]
fn not_ready_every_time_exhausts_retries() {
    let mut outcomes: Vec<Result<Vec<FlexTrade>, FetchError>> = (0..5).map(|_| Err(FetchError::NotReady)).collect();
    outcomes.push(Ok(Vec::new()));
    let (attempts, result) = drive(outcomes);
    assert_eq!(attempts, MAX_ATTEMPTS);
    assert_eq!(result.unwrap_err().kind(), ErrorKind::RetriesExhausted);
}

#[test]
fn other_error_stops_at_once() {
    let outcomes = vec![Err(FetchError::Protocol("HTTP 500".to_string())), Ok(Vec::new())];
    let (attempts, result) = drive(outcomes);
    assert_eq!(attempts, 1);
    match result {
        Err(FetchError::Protocol(m)) => assert_eq!(m, "HTTP 500"),
        _ => panic!("expected the protocol error"),
    }
}

#[test]
fn format_sniffing() {
    assert_eq!(classify(Some("application/json; charset=utf-8"), "<x/>"), Format::Json);
    assert_eq!(classify(None, "  \n{\"a\":1}"), Format::Json);
    assert_eq!(classify(Some("text/xml"), "a,b\n1,2"), Format::Csv);
    assert_eq!(classify(None, "<a>x,y</a>"), Format::Xml);
    assert_eq!(classify(None, "no commas\n1,2"), Format::Xml);
    assert_eq!(classify(None, ""), Format::Xml);
}

#[test]
fn reference_code_extraction() {
    let body = "<FlexStatementResponse><Status>Success</Status><ReferenceCode>1234567890</ReferenceCode></FlexStatementResponse>";
    assert_eq!(extract_reference_code(body), Some("1234567890".to_string()));
    assert_eq!(extract_reference_code("<Status>Success</Status>"), None);
    assert_eq!(extract_reference_code("</ReferenceCode><ReferenceCode>"), None);
}

#[test]
fn send_response_checks() {
    let ok = "<Status>Success</Status><ReferenceCode>42</ReferenceCode>";
    assert_eq!(check_send_response(true, ok).unwrap(), "42");
    assert_eq!(check_send_response(false, ok).unwrap_err().kind(), ErrorKind::Protocol);
    let failed = "<Status>Fail</Status><ErrorCode>1020</ErrorCode>";
    match check_send_response(true, failed) {
        Err(FetchError::Protocol(m)) => assert_eq!(m, failed),
        _ => panic!("expected a protocol error"),
    }
    assert_eq!(check_send_response(true, "<Status>Success</Status>").unwrap_err().kind(), ErrorKind::Protocol);
    assert_eq!(check_send_response(true, "<ErrorCode>1019</ErrorCode>").unwrap_err().kind(), ErrorKind::NotReady);
    let code_with_marker = "<Status>Success</Status><ReferenceCode>5510191234</ReferenceCode>";
    assert_eq!(check_send_response(true, code_with_marker).unwrap(), "5510191234");
    assert_eq!(check_send_response(true, "<Status>Success</Status> 1019").unwrap_err().kind(), ErrorKind::Protocol);
}

#[test]
fn statement_response_checks() {
    assert!(check_statement_response(true, "<Trades/>").is_ok());
    assert_eq!(check_statement_response(true, "Statement generation in progress (1019)").unwrap_err().kind(), ErrorKind::NotReady);
    assert_eq!(check_statement_response(false, "oops").unwrap_err().kind(), ErrorKind::Protocol);
}

#[test]
fn request_addresses() {
    assert_eq!(send_request_url("tok", 42), format!("{}/SendRequest?t=tok&q=42&v=3", FLEX_BASE_URL));
    assert_eq!(statement_url("tok", "REF1"), format!("{}/GetStatement?t=tok&q=REF1&v=3", FLEX_BASE_URL));
    assert_eq!(fetch_url(Strategy::TwoPhase, "tok", 7, "REF1"), statement_url("tok", "REF1"));
    assert_eq!(fetch_url(Strategy::Direct, "tok", -7, "REF1"), statement_url("tok", "-7"));
}

#[test]
fn gateway_backoff_doubles() {
    assert_eq!(retry_delay(0), Some(1000));
    assert_eq!(retry_delay(1), Some(2000));
    assert_eq!(retry_delay(2), Some(4000));
    assert_eq!(retry_delay(3), None);
}

#[test]
fn gateway_batch_checks() {
    let s = |v: &[&str]| v.iter().map(|x| x.to_string()).collect::<Vec<String>>();
    assert_eq!(check_gateway_trades(&s(&["A", "B"]), &s(&["1", "2"])), Ok(()));
    assert_eq!(check_gateway_trades(&s(&["A", ""]), &s(&["1", "2"])), Err(TradeCheck::EmptySymbol));
    assert_eq!(check_gateway_trades(&s(&["A", "B"]), &s(&["1", ""])), Err(TradeCheck::EmptyTradeId));
    assert_eq!(first_of_each(&s(&["123", "123", "7"])), vec![true, false, true]);
    assert!(valid_account_id("U123456"));
    assert!(!valid_account_id(""));
}
