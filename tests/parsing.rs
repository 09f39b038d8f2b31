use flexsync::csv::{parse_csv_line, parse_flex_csv};
use flexsync::fetch::{parse_csv_public, parse_statement, ErrorKind};
use flexsync::json::parse_flex_json;
use flexsync::number::{parse_int32, parse_micros};
use flexsync::record::{closed_trades, normalize_expiry, FlexTrade};
use flexsync::xml::parse_flex_xml;

fn chars(s: &str) -> Vec<char> {
    s.chars().collect()
}

fn record(symbol: &str, open_close: &str) -> FlexTrade {
    FlexTrade {
        account_id: String::new(),
        trade_id: format!("id-{}-{}", symbol, open_close),
        symbol: symbol.to_string(),
        asset_class: "STK".to_string(),
        side: "BUY".to_string(),
        quantity: 1,
        multiplier: 1,
        price: 0,
        commission: 0,
        realized_pnl: 0,
        date: String::new(),
        time: String::new(),
        expiry: String::new(),
        strike: 0,
        put_call: String::new(),
        open_close: open_close.to_string(),
        exchange: String::new(),
        proceeds: 0,
        cost_basis: 0,
        notes: String::new(),
    }
}

const JSON_FIXTURE: &str = r#"{"FlexQueryResult":{"FlexStatements":{"FlexStatement":[{"Trades":{"Trade":[
{"tradeID":"1001","symbol":"AAPL","assetCategory":"STK","buySell":"SELL","quantity":-100,
 "tradePrice":150.25,"ibCommission":-1.05,"fifoPnlRealized":250.5,"dateTime":"20250115;143022",
 "putCall":"","multiplier":1,"expiry":"","strike":0,"openCloseIndicator":"C","exchange":"NASDAQ",
 "proceeds":15025,"costBasis":-14774.5,"notes":""}]}}]}}}"#;

const XML_FIXTURE: &str = r#"<FlexQueryResponse><FlexStatements><FlexStatement><Trades>
<Trade tradeID="1001" symbol="AAPL" assetCategory="STK" buySell="SELL" quantity="-100" tradePrice="150.25" ibCommission="-1.05" fifoPnlRealized="250.5" dateTime="20250115;143022" putCall="" multiplier="1" expiry="" strike="0" openCloseIndicator="C" exchange="NASDAQ" proceeds="15025" costBasis="-14774.5" notes=""/>
</Trades></FlexStatement></FlexStatements></FlexQueryResponse>"#;

const CSV_FIXTURE: &str = "Symbol,AssetClass,Buy/Sell,Quantity,TradePrice,IBCommission,FifoPnlRealized,DateTime,Put/Call,Multiplier,Expiry,Strike,Open/CloseIndicator,TradeID,Exchange,Proceeds,CostBasis,Notes\n\
AAPL,STK,SELL,-100,150.25,-1.05,250.5,20250115 143022,,1,,0,C,1001,NASDAQ,15025,-14774.5,\n";

#[test]
fn same_trade_in_every_format() {
    let from_json = parse_flex_json(JSON_FIXTURE).expect("valid JSON");
    let from_xml = parse_flex_xml(XML_FIXTURE);
    let from_csv = parse_flex_csv(CSV_FIXTURE);
    assert_eq!(from_json.len(), 1);
    let want = format!("{:?}", from_json[0]);
    assert_eq!(format!("{:?}", from_xml[0]), want);
    assert_eq!(format!("{:?}", from_csv[0]), want);
    let t = &from_json[0];
    assert_eq!(t.trade_id, "1001");
    assert_eq!(t.side, "SELL");
    assert_eq!(t.quantity, 100);
    assert_eq!(t.price, 150_250_000);
    assert_eq!(t.commission, 1_050_000);
    assert_eq!(t.realized_pnl, 250_500_000);
    assert_eq!(t.date, "20250115");
    assert_eq!(t.time, "143022");
    assert_eq!(t.proceeds, 15_025_000_000);
    assert_eq!(t.cost_basis, -14_774_500_000);
}

#[test]
fn expiry_normalization() {
    assert_eq!(normalize_expiry("20250221"), "2025-02-21");
    assert_eq!(normalize_expiry(""), "");
    assert_eq!(normalize_expiry("2025022"), "2025022");
    assert_eq!(normalize_expiry("2025022a"), "2025022a");
}

#[test]
fn closed_trade_filter() {
    let kept = closed_trades(vec![
        record("A", "O"),
        record("B", ""),
        record("C", "C"),
        record("D", "c"),
        record("E", "o"),
    ]);
    let symbols: Vec<&str> = kept.iter().map(|t| t.symbol.as_str()).collect();
    assert_eq!(symbols, vec!["B", "C", "D"]);
}

#[test]
fn synthesized_ids_get_ordinals() {
    let csv = "Symbol,Buy/Sell,Quantity,TradePrice,DateTime,Strike,Put/Call,Expiry\n\
AAPL,BUY,10,150.25,2025-01-15 10:00:00,0,,\n\
AAPL,BUY,10,150.25,2025-01-15 11:00:00,0,,\n\
MSFT,BUY,10,150.25,2025-01-15 10:00:00,0,,\n";
    let trades = parse_flex_csv(csv);
    assert_eq!(trades.len(), 3);
    let base = "SYN|AAPL|2025-01-15|BUY|10|1502500|0||";
    assert_eq!(trades[0].trade_id, base);
    assert_eq!(trades[1].trade_id, format!("{}|1", base));
    assert_eq!(trades[2].trade_id, "SYN|MSFT|2025-01-15|BUY|10|1502500|0||");
    assert_ne!(trades[2].trade_id, trades[0].trade_id);
    assert_ne!(trades[2].trade_id, trades[1].trade_id);
    assert_eq!(trades[0].time, "10:00:00");
}

#[test]
fn bars_in_fields_cannot_make_ids_collide() {
    let csv = "Symbol,Buy/Sell,Quantity,DateTime,Expiry\n\
A|B,BUY,1,C,\n\
A,BUY,1,B|C,\n\
X,BUY,1,D,E\n\
X,BUY,1,D,E\n\
X,BUY,1,D,E|1\n\
Y%,BUY,1,D,\n";
    let trades = parse_flex_csv(csv);
    assert_eq!(trades.len(), 6);
    assert_eq!(trades[0].trade_id, "SYN|A%7CB|C|BUY|1|0|0||");
    assert_eq!(trades[1].trade_id, "SYN|A|B%7CC|BUY|1|0|0||");
    assert_eq!(trades[3].trade_id, "SYN|X|D|BUY|1|0|0||E|1");
    assert_eq!(trades[4].trade_id, "SYN|X|D|BUY|1|0|0||E%7C1");
    assert_eq!(trades[5].trade_id, "SYN|Y%25|D|BUY|1|0|0||");
    for i in 0..trades.len() {
        for j in 0..i {
            assert_ne!(trades[i].trade_id, trades[j].trade_id);
        }
    }
}

#[test]
fn quoted_field_keeps_its_comma() {
    assert_eq!(parse_csv_line("AAPL,\"1,234.5\", x "), vec!["AAPL", "1,234.5", "x"]);
    let csv = "Symbol,Quantity,Notes\n\"AAPL\",\"1,000\",\"a, b\"\n";
    let trades = parse_flex_csv(csv);
    assert_eq!(trades.len(), 1);
    assert_eq!(trades[0].quantity, 1000);
    assert_eq!(trades[0].notes, "a, b");
}

#[test]
fn quantity_and_commission_are_magnitudes() {
    let xml = r#"<Trade symbol="X" quantity="-5" ibCommission="-2" buySell="SELL"/>"#;
    let t = &parse_flex_xml(xml)[0];
    assert_eq!(t.quantity, 5);
    assert_eq!(t.commission, 2_000_000);
    let csv = "Symbol,Quantity,Comm/Fee\nX,-7.9,-0.5\n";
    let t = &parse_flex_csv(csv)[0];
    assert_eq!(t.quantity, 7);
    assert_eq!(t.commission, 500_000);
    assert_eq!(t.side, "SELL");
    let json = r#"{"FlexQueryResult":{"FlexStatements":{"FlexStatement":[{"Trades":{"Trade":[{"symbol":"X","quantity":-3,"ibCommission":-0.25}]}}]}}}"#;
    let t = &parse_flex_json(json).unwrap()[0];
    assert_eq!(t.quantity, 3);
    assert_eq!(t.commission, 250_000);
    assert_eq!(t.multiplier, 1);
}

#[test]
fn multi_section_csv_follows_each_header() {
    let csv = "\"BOF\",\"U1\"\n\
\"HEADER\",\"TRNT\",\"Symbol\",\"Quantity\",\"TradeID\"\n\
\"DATA\",\"TRNT\",\"AAPL\",\"5\",\"T1\"\n\
\"HEADER\",\"TRNT\",\"TradeID\",\"Symbol\",\"Quantity\",\"Open/CloseIndicator\"\n\
\"DATA\",\"TRNT\",\"T2\",\"MSFT\",\"-3\",\"O\"\n\
\"DATA\",\"POST\",\"T3\",\"IBM\",\"1\",\"C\"\n";
    let trades = parse_flex_csv(csv);
    assert_eq!(trades.len(), 2);
    assert_eq!(trades[0].symbol, "AAPL");
    assert_eq!(trades[0].trade_id, "T1");
    assert_eq!(trades[1].symbol, "MSFT");
    assert_eq!(trades[1].quantity, 3);
    assert_eq!(trades[1].side, "SELL");
    assert_eq!(trades[1].open_close, "O");
    let closed = parse_csv_public(csv);
    assert_eq!(closed.len(), 1);
    assert_eq!(closed[0].symbol, "AAPL");
}

#[test]
fn data_before_any_header_is_skipped() {
    let csv = "DATA,TRNT,AAPL,1\nHEADER,TRNT,Symbol,Quantity\nDATA,TRNT,MSFT,2\n";
    let trades = parse_flex_csv(csv);
    assert_eq!(trades.len(), 1);
    assert_eq!(trades[0].symbol, "MSFT");
}

#[test]
fn cancelled_and_symbolless_rows_are_dropped() {
    let csv = "Symbol,Quantity,Notes/Codes,TradeID\nAAPL,1,Ca,1\n,2,,2\nMSFT,3,P,3\n";
    let trades = parse_flex_csv(csv);
    assert_eq!(trades.len(), 1);
    assert_eq!(trades[0].symbol, "MSFT");
    assert_eq!(trades[0].notes, "P");
}

#[test]
fn empty_csv_gives_nothing() {
    assert!(parse_flex_csv("").is_empty());
    assert!(parse_flex_csv("Symbol,Quantity\n").is_empty());
}

#[test]
fn xml_names_match_whole_attributes() {
    let xml = r#"<Trade underlyingsymbol="QQQ" symbol="QQQ 250221C" xprice="9" price="1.5" quantity="2"/>"#;
    let t = &parse_flex_xml(xml)[0];
    assert_eq!(t.symbol, "QQQ 250221C");
    assert_eq!(t.price, 1_500_000);
    let only_longer = r#"<Trade xsymbol="A" quantity="1"/>"#;
    assert!(parse_flex_xml(only_longer).is_empty());
}

#[test]
fn xml_aliases_and_confirmations() {
    let xml = r#"<TradeConfirm tradeId="9" symbol="SPY" side="BUY" price="410.5" realizedPnL="-12" tradeDate="20240102" tradeTime="093000" expiry="20250221" putCall="C" strike="400" multiplier="100" openClose="C" description="note" />
<Trade symbol="" quantity="1"/>
<Trades count="2">"#;
    let trades = parse_flex_xml(xml);
    assert_eq!(trades.len(), 1);
    let t = &trades[0];
    assert_eq!(t.trade_id, "9");
    assert_eq!(t.side, "BUY");
    assert_eq!(t.price, 410_500_000);
    assert_eq!(t.realized_pnl, -12_000_000);
    assert_eq!(t.date, "20240102");
    assert_eq!(t.time, "093000");
    assert_eq!(t.expiry, "2025-02-21");
    assert_eq!(t.strike, 400_000_000);
    assert_eq!(t.multiplier, 100);
    assert_eq!(t.open_close, "C");
    assert_eq!(t.notes, "note");
}

#[test]
fn json_rows_of_the_wrong_kind_are_skipped() {
    let json = r#"{"FlexQueryResult":{"FlexStatements":{"FlexStatement":[
        {"Trades":{"Trade":[{"symbol":"A","quantity":"12"},{"symbol":"B","quantity":1.5},{"symbol":"C","quantity":2,"expiry":"20250221","dateTime":"20250101"}]}},
        {"Other":1}]}}}"#;
    let trades = parse_flex_json(json).unwrap();
    assert_eq!(trades.len(), 1);
    assert_eq!(trades[0].symbol, "C");
    assert_eq!(trades[0].expiry, "2025-02-21");
    assert_eq!(trades[0].date, "20250101");
    assert_eq!(trades[0].time, "");
    assert!(parse_flex_json(r#"{"FlexQueryResult":{}}"#).unwrap().is_empty());
    assert!(parse_flex_json("{not json").is_none());
}

#[test]
fn statement_dispatch_by_format() {
    assert_eq!(parse_statement(Some("application/json"), JSON_FIXTURE).unwrap().len(), 1);
    assert_eq!(parse_statement(None, XML_FIXTURE).unwrap().len(), 1);
    assert_eq!(parse_statement(Some("text/plain"), CSV_FIXTURE).unwrap().len(), 1);
    let err = parse_statement(None, "  {oops").unwrap_err();
    assert_eq!(err.kind(), ErrorKind::Format);
}

#[test]
fn numbers_in_millionths() {
    assert_eq!(parse_micros(&chars("150.25")), Some(150_250_000));
    assert_eq!(parse_micros(&chars("-0.0000019")), Some(-1));
    assert_eq!(parse_micros(&chars("+.5")), Some(500_000));
    assert_eq!(parse_micros(&chars("7.")), Some(7_000_000));
    assert_eq!(parse_micros(&chars(".")), None);
    assert_eq!(parse_micros(&chars("1e5")), None);
    assert_eq!(parse_micros(&chars("")), None);
    assert_eq!(parse_micros(&chars("99999999999999")), None);
    assert_eq!(parse_int32(&chars("-2147483648")), Some(i32::MIN));
    assert_eq!(parse_int32(&chars("2147483648")), None);
    assert_eq!(parse_int32(&chars("1.0")), None);
}
