use vstd::prelude::*;
use crate::csv::abs;
use crate::number::{decimal_micros, int32_value, parse_int32, parse_micros};
use crate::record::{
    FlexTrade, FlexTradeView, normalize_expiry_chars, normalized_expiry, split_first,
    split_first_chars, views,
};
use crate::text::{chars_of, matches_at, to_string};

verus! {

/// A JSON document as the library reads it. Numbers keep their decimal text; objects keep
/// their members, each key once.
pub enum Json {
    Null,
    Bool(bool),
    Number(String),
    Str(String),
    Array(Vec<Json>),
    Object(Vec<(String, Json)>),
}

#[verifier::external_type_specification]
#[verifier::external_body]
pub struct ExJsonValue(serde_json::Value);

/// What serde_json reads from a text: `None` when it is not one JSON document.
pub uninterp spec fn json_document(text: Seq<char>) -> Option<Json>;

/// Relies on serde_json::Value's variants: each becomes the `Json` variant of the same kind,
/// a number as its decimal text (`Number`'s `Display`).
#[verifier::external_body]
fn json_of_value(v: serde_json::Value) -> Json {
    match v {
        serde_json::Value::Null => Json::Null,
        serde_json::Value::Bool(b) => Json::Bool(b),
        serde_json::Value::Number(n) => Json::Number(n.to_string()),
        serde_json::Value::String(s) => Json::Str(s),
        serde_json::Value::Array(a) => Json::Array(a.into_iter().map(json_of_value).collect()),
        serde_json::Value::Object(m) => Json::Object(
            m.into_iter().map(|(k, x)| (k, json_of_value(x))).collect(),
        ),
    }
}

/// Relies on serde_json::from_str into a `serde_json::Value`: the document read depends on
/// the text alone.
#[verifier::external_body]
fn read_json(text: &str) -> (r: Option<Json>)
    ensures
        r == json_document(text@),
{
    serde_json::from_str::<serde_json::Value>(text).ok().map(json_of_value)
}

/// The member `key` of an object; `None` for another kind of value or a missing member.
pub open spec fn member(v: Json, key: Seq<char>) -> Option<Json> {
    match v {
        Json::Object(entries) => lookup(entries@, key),
        _ => None,
    }
}

pub open spec fn lookup(entries: Seq<(String, Json)>, key: Seq<char>) -> Option<Json>
    decreases entries.len(),
{
    if entries.len() == 0 {
        None
    } else if entries[0].0@ == key {
        Some(entries[0].1)
    } else {
        lookup(entries.drop_first(), key)
    }
}

/// The items of an array; nothing for another kind of value.
pub open spec fn items(v: Option<Json>) -> Seq<Json> {
    match v {
        Some(Json::Array(a)) => a@,
        _ => Seq::empty(),
    }
}

pub open spec fn member_of(v: Option<Json>, key: Seq<char>) -> Option<Json> {
    match v {
        Some(x) => member(x, key),
        None => None,
    }
}

/// A text member: `Some` empty text when missing, `None` when of another kind.
pub open spec fn text_member(v: Json, key: Seq<char>) -> Option<Seq<char>> {
    match member(v, key) {
        None => Some(Seq::empty()),
        Some(Json::Str(s)) => Some(s@),
        Some(_) => None,
    }
}

/// An integer member: zero when missing; `None` when not an integer that fits an `i32`.
pub open spec fn int_member(v: Json, key: Seq<char>) -> Option<int> {
    match member(v, key) {
        None => Some(0),
        Some(Json::Number(t)) => int32_value(t@),
        Some(_) => None,
    }
}

/// A number member in millionths: zero when missing or beyond reach; `None` when not a number.
pub open spec fn num_member(v: Json, key: Seq<char>) -> Option<int> {
    match member(v, key) {
        None => Some(0),
        Some(Json::Number(t)) => match decimal_micros(t@) {
            Some(m) => Some(m),
            None => Some(0),
        },
        Some(_) => None,
    }
}

/// Whether every member that a trade reads has the right kind.
pub open spec fn trade_decodes(v: Json) -> bool {
    &&& v is Object
    &&& text_member(v, "accountId"@) is Some
    &&& text_member(v, "tradeID"@) is Some
    &&& text_member(v, "symbol"@) is Some
    &&& text_member(v, "buySell"@) is Some
    &&& int_member(v, "quantity"@) is Some
    &&& num_member(v, "tradePrice"@) is Some
    &&& num_member(v, "ibCommission"@) is Some
    &&& num_member(v, "fifoPnlRealized"@) is Some
    &&& text_member(v, "dateTime"@) is Some
    &&& text_member(v, "assetCategory"@) is Some
    &&& text_member(v, "putCall"@) is Some
    &&& int_member(v, "multiplier"@) is Some
    &&& text_member(v, "expiry"@) is Some
    &&& num_member(v, "strike"@) is Some
    &&& text_member(v, "openCloseIndicator"@) is Some
    &&& text_member(v, "exchange"@) is Some
    &&& num_member(v, "proceeds"@) is Some
    &&& num_member(v, "costBasis"@) is Some
    &&& text_member(v, "notes"@) is Some
}

pub open spec fn magnitude32(q: int) -> int {
    if abs(q) > i32::MAX {
        i32::MAX as int
    } else {
        abs(q)
    }
}

/// The record of one JSON trade, or `None` when a member has the wrong kind or the symbol is
/// empty.
pub open spec fn json_trade(v: Json) -> Option<FlexTradeView> {
    if !trade_decodes(v) || text_member(v, "symbol"@)->0.len() == 0 {
        None
    } else {
        let dt = split_first(text_member(v, "dateTime"@)->0, ';');
        let m = int_member(v, "multiplier"@)->0;
        Some(
            FlexTradeView {
                account_id: text_member(v, "accountId"@)->0,
                trade_id: text_member(v, "tradeID"@)->0,
                symbol: text_member(v, "symbol"@)->0,
                asset_class: text_member(v, "assetCategory"@)->0,
                side: text_member(v, "buySell"@)->0,
                quantity: magnitude32(int_member(v, "quantity"@)->0),
                multiplier: if m >= 1 {
                    m
                } else {
                    1
                },
                price: num_member(v, "tradePrice"@)->0,
                commission: abs(num_member(v, "ibCommission"@)->0),
                realized_pnl: num_member(v, "fifoPnlRealized"@)->0,
                date: dt.0,
                time: dt.1,
                expiry: normalized_expiry(text_member(v, "expiry"@)->0),
                strike: num_member(v, "strike"@)->0,
                put_call: text_member(v, "putCall"@)->0,
                open_close: text_member(v, "openCloseIndicator"@)->0,
                exchange: text_member(v, "exchange"@)->0,
                proceeds: num_member(v, "proceeds"@)->0,
                cost_basis: num_member(v, "costBasis"@)->0,
                notes: text_member(v, "notes"@)->0,
            },
        )
    }
}

pub open spec fn records_of_trades(ts: Seq<Json>) -> Seq<FlexTradeView>
    decreases ts.len(),
{
    if ts.len() == 0 {
        Seq::empty()
    } else {
        let before = records_of_trades(ts.drop_last());
        match json_trade(ts.last()) {
            Some(v) => before.push(v),
            None => before,
        }
    }
}

/// The trades of one statement: its `Trades.Trade` array.
pub open spec fn statement_trades(st: Json) -> Seq<Json> {
    items(member_of(member(st, "Trades"@), "Trade"@))
}

pub open spec fn records_of_statements(sts: Seq<Json>) -> Seq<FlexTradeView>
    decreases sts.len(),
{
    if sts.len() == 0 {
        Seq::empty()
    } else {
        records_of_statements(sts.drop_last()) + records_of_trades(statement_trades(sts.last()))
    }
}

/// The statements of a document: its `FlexQueryResult.FlexStatements.FlexStatement` array.
pub open spec fn statements(doc: Json) -> Seq<Json> {
    items(
        member_of(member_of(member(doc, "FlexQueryResult"@), "FlexStatements"@), "FlexStatement"@),
    )
}

/// The records of a JSON document; a level missing anywhere on the way gives none.
pub open spec fn flex_json(doc: Json) -> Seq<FlexTradeView> {
    records_of_statements(statements(doc))
}

fn member_exec<'a>(v: &'a Json, key: &str) -> (r: Option<&'a Json>)
    ensures
        r matches Some(x) ==> member(*v, key@) == Some(*x),
        r is None ==> member(*v, key@) is None,
{
    match v {
        Json::Object(entries) => {
            let k = chars_of(key);
            let mut i: usize = 0;
            assert(member(*v, key@) == lookup(entries@, key@));
            assert(entries@.subrange(0, entries@.len() as int) =~= entries@);
            while i < entries.len()
                invariant
                    0 <= i <= entries@.len(),
                    k@ == key@,
                    member(*v, key@) == lookup(entries@, key@),
                    lookup(entries@, key@) == lookup(
                        entries@.subrange(i as int, entries@.len() as int),
                        key@,
                    ),
                decreases entries@.len() - i,
            {
                let ghost rest = entries@.subrange(i as int, entries@.len() as int);
                assert(rest[0] == entries@[i as int]);
                assert(rest.drop_first() =~= entries@.subrange(i + 1, entries@.len() as int));
                let name = chars_of(entries[i].0.as_str());
                assert(name@ == entries@[i as int].0@);
                assert(name@.subrange(0, name@.len() as int) =~= name@);
                if name.len() == k.len() && matches_at(&name, 0, &k) {
                    assert(rest[0].0@ == key@);
                    assert(lookup(rest, key@) == Some(entries@[i as int].1));
                    return Some(&entries[i].1);
                }
                i = i + 1;
            }
            None
        },
        _ => None,
    }
}

fn text_member_exec(v: &Json, key: &str) -> (r: Option<Vec<char>>)
    ensures
        r matches Some(t) ==> text_member(*v, key@) == Some(t@),
        r is None ==> text_member(*v, key@) is None,
{
    match member_exec(v, key) {
        None => Some(Vec::new()),
        Some(Json::Str(s)) => Some(chars_of(s.as_str())),
        Some(_) => None,
    }
}

fn int_member_exec(v: &Json, key: &str) -> (r: Option<i32>)
    ensures
        r matches Some(t) ==> int_member(*v, key@) == Some(t as int),
        r is None ==> int_member(*v, key@) is None,
{
    match member_exec(v, key) {
        None => Some(0),
        Some(Json::Number(t)) => parse_int32(&chars_of(t.as_str())),
        Some(_) => None,
    }
}

fn num_member_exec(v: &Json, key: &str) -> (r: Option<i64>)
    ensures
        r matches Some(t) ==> num_member(*v, key@) == Some(t as int) && t >= -i64::MAX,
        r is None ==> num_member(*v, key@) is None,
{
    match member_exec(v, key) {
        None => Some(0),
        Some(Json::Number(t)) => match parse_micros(&chars_of(t.as_str())) {
            Some(m) => Some(m),
            None => Some(0),
        },
        Some(_) => None,
    }
}

/// Decodes one JSON trade; see `json_trade`.
pub fn json_trade_exec(v: &Json) -> (r: Option<FlexTrade>)
    ensures
        r is Some <==> json_trade(*v) is Some,
        r matches Some(t) ==> json_trade(*v) == Some(t@),
{
    match v {
        Json::Object(_) => {},
        _ => return None,
    }
    let account_id = match text_member_exec(v, "accountId") { Some(x) => x, None => return None };
    let trade_id = match text_member_exec(v, "tradeID") { Some(x) => x, None => return None };
    let symbol = match text_member_exec(v, "symbol") { Some(x) => x, None => return None };
    let side = match text_member_exec(v, "buySell") { Some(x) => x, None => return None };
    let quantity = match int_member_exec(v, "quantity") { Some(x) => x, None => return None };
    let price = match num_member_exec(v, "tradePrice") { Some(x) => x, None => return None };
    let commission = match num_member_exec(v, "ibCommission") { Some(x) => x, None => return None };
    let pnl = match num_member_exec(v, "fifoPnlRealized") { Some(x) => x, None => return None };
    let date_time = match text_member_exec(v, "dateTime") { Some(x) => x, None => return None };
    let asset = match text_member_exec(v, "assetCategory") { Some(x) => x, None => return None };
    let put_call = match text_member_exec(v, "putCall") { Some(x) => x, None => return None };
    let multiplier = match int_member_exec(v, "multiplier") { Some(x) => x, None => return None };
    let expiry = match text_member_exec(v, "expiry") { Some(x) => x, None => return None };
    let strike = match num_member_exec(v, "strike") { Some(x) => x, None => return None };
    let open_close = match text_member_exec(v, "openCloseIndicator") {
        Some(x) => x,
        None => return None,
    };
    let exchange = match text_member_exec(v, "exchange") { Some(x) => x, None => return None };
    let proceeds = match num_member_exec(v, "proceeds") { Some(x) => x, None => return None };
    let cost_basis = match num_member_exec(v, "costBasis") { Some(x) => x, None => return None };
    let notes = match text_member_exec(v, "notes") { Some(x) => x, None => return None };
    if symbol.len() == 0 {
        return None;
    }
    let (date, time) = split_first_chars(&date_time, ';');
    let quantity: i32 = if quantity == i32::MIN {
        i32::MAX
    } else if quantity < 0 {
        -quantity
    } else {
        quantity
    };
    let commission = if commission < 0 {
        -commission
    } else {
        commission
    };
    let expiry = normalize_expiry_chars(&expiry);
    let t = FlexTrade {
        account_id: to_string(&account_id),
        trade_id: to_string(&trade_id),
        symbol: to_string(&symbol),
        asset_class: to_string(&asset),
        side: to_string(&side),
        quantity,
        multiplier: if multiplier >= 1 {
            multiplier
        } else {
            1
        },
        price,
        commission,
        realized_pnl: pnl,
        date,
        time,
        expiry: to_string(&expiry),
        strike,
        put_call: to_string(&put_call),
        open_close: to_string(&open_close),
        exchange: to_string(&exchange),
        proceeds,
        cost_basis,
        notes: to_string(&notes),
    };
    assert(t@ == json_trade(*v)->0);
    Some(t)
}

fn items_exec(v: Option<&Json>) -> (r: Option<&Vec<Json>>)
    ensures
        r matches Some(a) ==> items(opt_json(v)) == a@,
        r is None ==> items(opt_json(v)) == Seq::<Json>::empty(),
{
    match v {
        Some(Json::Array(a)) => Some(a),
        _ => None,
    }
}

pub open spec fn opt_json(v: Option<&Json>) -> Option<Json> {
    match v {
        Some(x) => Some(*x),
        None => None,
    }
}

fn member_of_exec<'a>(v: Option<&'a Json>, key: &str) -> (r: Option<&'a Json>)
    ensures
        opt_json(r) == member_of(opt_json(v), key@),
{
    match v {
        Some(x) => member_exec(x, key),
        None => None,
    }
}

fn records_of_trades_exec(ts: &Vec<Json>, out: &mut Vec<FlexTrade>)
    ensures
        views(final(out)@) == views(old(out)@) + records_of_trades(ts@),
{
    let ghost start = views(out@);
    let mut i: usize = 0;
    assert(views(out@) =~= start + records_of_trades(ts@.subrange(0, 0)));
    while i < ts.len()
        invariant
            0 <= i <= ts@.len(),
            views(out@) == start + records_of_trades(ts@.subrange(0, i as int)),
        decreases ts@.len() - i,
    {
        assert(ts@.subrange(0, i + 1).drop_last() =~= ts@.subrange(0, i as int));
        assert(ts@.subrange(0, i + 1).last() == ts@[i as int]);
        let ghost before = out@;
        match json_trade_exec(&ts[i]) {
            Some(t) => {
                out.push(t);
                assert(views(out@) =~= views(before).push(t@));
            },
            None => {},
        }
        i = i + 1;
    }
    assert(ts@.subrange(0, ts@.len() as int) =~= ts@);
}

/// The records of a JSON document; see `flex_json`.
pub fn flex_json_records(doc: &Json) -> (r: Vec<FlexTrade>)
    ensures
        views(r@) == flex_json(*doc),
{
    let mut out: Vec<FlexTrade> = Vec::new();
    let result = member_exec(doc, "FlexQueryResult");
    let sts = member_of_exec(member_of_exec(result, "FlexStatements"), "FlexStatement");
    match items_exec(sts) {
        Some(arr) => {
            let mut i: usize = 0;
            assert(views(out@) =~= records_of_statements(arr@.subrange(0, 0)));
            while i < arr.len()
                invariant
                    0 <= i <= arr@.len(),
                    arr@ == statements(*doc),
                    views(out@) == records_of_statements(arr@.subrange(0, i as int)),
                decreases arr@.len() - i,
            {
                assert(arr@.subrange(0, i + 1).drop_last() =~= arr@.subrange(0, i as int));
                assert(arr@.subrange(0, i + 1).last() == arr@[i as int]);
                let st = &arr[i];
                let trades = member_of_exec(member_exec(st, "Trades"), "Trade");
                match items_exec(trades) {
                    Some(ts) => records_of_trades_exec(ts, &mut out),
                    None => {
                        assert(records_of_trades(Seq::<Json>::empty()) =~= Seq::<FlexTradeView>::empty());
                        assert(views(out@) =~= views(out@) + Seq::<FlexTradeView>::empty());
                    },
                }
                i = i + 1;
            }
            assert(arr@.subrange(0, arr@.len() as int) =~= arr@);
        },
        None => {
            assert(views(out@) =~= Seq::<FlexTradeView>::empty());
        },
    }
    out
}

/// Reads the trade records of a JSON report: `None` when the text is not one JSON document.
/// Open trades are not filtered here.
pub fn parse_flex_json(text: &str) -> (r: Option<Vec<FlexTrade>>)
    ensures
        json_document(text@) is None ==> r is None,
        json_document(text@) matches Some(d) ==> r is Some && views(r->0@) == flex_json(d),
{
    match read_json(text) {
        Some(doc) => Some(flex_json_records(&doc)),
        None => None,
    }
}

} // verus!
