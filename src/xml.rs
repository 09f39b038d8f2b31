use vstd::prelude::*;
use crate::csv::{abs, seqs};
use crate::number::{decimal_micros, int32_value, parse_int32, parse_micros};
use crate::record::{
    FlexTrade, FlexTradeView, normalize_expiry_chars, normalized_expiry, split_first,
    split_first_chars, views,
};
use crate::text::{chars_of, copy_range, find, find_from, is_space, is_space_char, matches_at};

verus! {

// Reports in XML hold each trade as one flat tag, `<Trade .../>` or `<TradeConfirm .../>`,
// whose attributes carry the fields. Tags are read as bags of `name="value"` pairs: nested
// elements inside a trade tag are not part of this format and are not read.

/// Where the attribute text of a trade tag opening at `i` begins: after `<Trade` or
/// `<TradeConfirm`, when white space follows the name.
pub open spec fn tag_body_start(s: Seq<char>, i: int) -> Option<int> {
    if 0 <= i && i + 7 <= s.len() && s.subrange(i, i + 6) == "<Trade"@ && is_space(s[i + 6]) {
        Some(i + 6)
    } else if 0 <= i && i + 14 <= s.len() && s.subrange(i, i + 13) == "<TradeConfirm"@ && is_space(
        s[i + 13],
    ) {
        Some(i + 13)
    } else {
        None
    }
}

/// The attribute texts of the trade tags of `s` from position `i` on: each runs from the tag
/// name to the next `>`. A tag that is never closed ends the scan.
pub open spec fn trade_tags_from(s: Seq<char>, i: int) -> Seq<Seq<char>>
    decreases s.len() - i,
{
    if i < 0 || i >= s.len() {
        Seq::empty()
    } else {
        match tag_body_start(s, i) {
            Some(b) => match find_from(s, seq!['>'], b) {
                Some(g) => if i < g + 1 <= s.len() {
                    seq![s.subrange(b, g)] + trade_tags_from(s, g + 1)
                } else {
                    Seq::empty()
                },
                None => Seq::empty(),
            },
            None => trade_tags_from(s, i + 1),
        }
    }
}

/// Where, at or after `i`, `pat` first stands at the start of `s` or right after white
/// space: where an attribute of that name begins.
pub open spec fn find_name_from(s: Seq<char>, pat: Seq<char>, i: int) -> Option<int>
    decreases s.len() + 1 - i,
{
    if i < 0 || i + pat.len() > s.len() {
        None
    } else if s.subrange(i, i + pat.len()) == pat && (i == 0 || is_space(s[i - 1])) {
        Some(i)
    } else {
        find_name_from(s, pat, i + 1)
    }
}

proof fn lemma_find_name_bounds(s: Seq<char>, pat: Seq<char>, i: int)
    requires
        find_name_from(s, pat, i) is Some,
    ensures
        i <= find_name_from(s, pat, i)->0,
        find_name_from(s, pat, i)->0 + pat.len() <= s.len(),
    decreases s.len() + 1 - i,
{
    if i < 0 || i + pat.len() > s.len() {
    } else if s.subrange(i, i + pat.len()) == pat && (i == 0 || is_space(s[i - 1])) {
    } else {
        lemma_find_name_bounds(s, pat, i + 1);
    }
}

fn find_name(cs: &Vec<char>, pat: &Vec<char>) -> (r: Option<usize>)
    requires
        pat@.len() > 0,
    ensures
        r matches Some(p) ==> find_name_from(cs@, pat@, 0) == Some(p as int),
        r is None ==> find_name_from(cs@, pat@, 0) is None,
{
    let n = cs.len();
    let mut i: usize = 0;
    while pat.len() <= n && i <= n - pat.len()
        invariant
            n == cs@.len(),
            pat@.len() > 0,
            0 <= i <= cs@.len(),
            find_name_from(cs@, pat@, 0) == find_name_from(cs@, pat@, i as int),
        decreases cs@.len() - i,
    {
        if matches_at(cs, i, pat) && (i == 0 || is_space_char(cs[i - 1])) {
            return Some(i);
        }
        i = i + 1;
    }
    None
}

/// The value of attribute `key`: after the first `key="` that begins an attribute name (at
/// the start of the text or after white space), up to the next `"`.
pub open spec fn attr(attrs: Seq<char>, key: Seq<char>) -> Option<Seq<char>> {
    let pat = key + seq!['=', '"'];
    match find_name_from(attrs, pat, 0) {
        Some(p) => match find_from(attrs, seq!['"'], p + pat.len()) {
            Some(q) => Some(attrs.subrange(p + pat.len(), q)),
            None => None,
        },
        None => None,
    }
}

/// An attribute's value, or empty text when it is absent.
pub open spec fn attr_text(attrs: Seq<char>, key: Seq<char>) -> Seq<char> {
    match attr(attrs, key) {
        Some(v) => v,
        None => Seq::empty(),
    }
}

/// The first of two attributes whose value is not empty.
pub open spec fn attr_either(attrs: Seq<char>, k1: Seq<char>, k2: Seq<char>) -> Seq<char> {
    if attr_text(attrs, k1).len() > 0 {
        attr_text(attrs, k1)
    } else {
        attr_text(attrs, k2)
    }
}

/// An attribute read as a number in millionths, zero when absent or not a number.
pub open spec fn attr_num(attrs: Seq<char>, key: Seq<char>) -> int {
    match decimal_micros(attr_text(attrs, key)) {
        Some(v) => v,
        None => 0,
    }
}

/// The first attribute that reads as a non-zero number; else the second as a number; else zero.
pub open spec fn attr_num_either(attrs: Seq<char>, k1: Seq<char>, k2: Seq<char>) -> int {
    if attr_num(attrs, k1) != 0 {
        attr_num(attrs, k1)
    } else {
        attr_num(attrs, k2)
    }
}

pub open spec fn xml_side(attrs: Seq<char>) -> Seq<char> {
    if attr_text(attrs, "buySell"@).len() > 0 {
        attr_text(attrs, "buySell"@)
    } else {
        attr_either(attrs, "side"@, "buy/sell"@)
    }
}

/// The quantity attribute as a whole number without sign (`i32::MAX` for `i32::MIN`), zero
/// when it is absent or not an integer.
pub open spec fn xml_quantity(attrs: Seq<char>) -> int {
    match int32_value(attr_text(attrs, "quantity"@)) {
        Some(q) => if abs(q) > i32::MAX {
            i32::MAX as int
        } else {
            abs(q)
        },
        None => 0,
    }
}

pub open spec fn xml_multiplier(attrs: Seq<char>) -> int {
    match int32_value(attr_text(attrs, "multiplier"@)) {
        Some(m) => if m > 0 {
            m
        } else {
            1
        },
        None => 1,
    }
}

/// Date and time: `dateTime` parted at its first `;`, or `tradeDate` and `tradeTime`.
pub open spec fn xml_date_time(attrs: Seq<char>) -> (Seq<char>, Seq<char>) {
    let dt = attr_text(attrs, "dateTime"@);
    if dt.len() > 0 {
        split_first(dt, ';')
    } else {
        (attr_text(attrs, "tradeDate"@), attr_text(attrs, "tradeTime"@))
    }
}

/// The record of one trade tag, or `None` when it names no symbol.
pub open spec fn xml_record(attrs: Seq<char>) -> Option<FlexTradeView> {
    let symbol = attr_text(attrs, "symbol"@);
    if symbol.len() == 0 {
        None
    } else {
        let dt = xml_date_time(attrs);
        Some(
            FlexTradeView {
                account_id: attr_text(attrs, "accountId"@),
                trade_id: attr_either(attrs, "tradeID"@, "tradeId"@),
                symbol,
                asset_class: attr_text(attrs, "assetCategory"@),
                side: xml_side(attrs),
                quantity: xml_quantity(attrs),
                multiplier: xml_multiplier(attrs),
                price: attr_num_either(attrs, "tradePrice"@, "price"@),
                commission: abs(attr_num(attrs, "ibCommission"@)),
                realized_pnl: attr_num_either(attrs, "fifoPnlRealized"@, "realizedPnL"@),
                date: dt.0,
                time: dt.1,
                expiry: normalized_expiry(attr_text(attrs, "expiry"@)),
                strike: attr_num(attrs, "strike"@),
                put_call: attr_text(attrs, "putCall"@),
                open_close: attr_either(attrs, "openCloseIndicator"@, "openClose"@),
                exchange: attr_text(attrs, "exchange"@),
                proceeds: attr_num(attrs, "proceeds"@),
                cost_basis: attr_num(attrs, "costBasis"@),
                notes: attr_either(attrs, "notes"@, "description"@),
            },
        )
    }
}

/// The records of the trade tags in order, tags without a symbol left out.
pub open spec fn records_of_tags(tags: Seq<Seq<char>>) -> Seq<FlexTradeView>
    decreases tags.len(),
{
    if tags.len() == 0 {
        Seq::empty()
    } else {
        let before = records_of_tags(tags.drop_last());
        match xml_record(tags.last()) {
            Some(v) => before.push(v),
            None => before,
        }
    }
}

/// The records of an XML report.
pub open spec fn flex_xml(text: Seq<char>) -> Seq<FlexTradeView> {
    records_of_tags(trade_tags_from(text, 0))
}

fn tag_body_start_exec(cs: &Vec<char>, i: usize, trade: &Vec<char>, confirm: &Vec<char>) -> (r:
    Option<usize>)
    requires
        i < cs@.len(),
        trade@ == "<Trade"@,
        confirm@ == "<TradeConfirm"@,
    ensures
        r matches Some(b) ==> tag_body_start(cs@, i as int) == Some(b as int),
        r is None ==> tag_body_start(cs@, i as int) is None,
{
    proof {
        reveal_strlit("<Trade");
        reveal_strlit("<TradeConfirm");
    }
    let n = cs.len();
    if n - i >= 7 && matches_at(cs, i, trade) && is_space_char(cs[i + 6]) {
        return Some(i + 6);
    }
    if n - i >= 14 && matches_at(cs, i, confirm) && is_space_char(cs[i + 13]) {
        return Some(i + 13);
    }
    None
}

/// The attribute texts of the trade tags of `cs`; see `trade_tags_from`.
pub fn trade_tags(cs: &Vec<char>) -> (r: Vec<Vec<char>>)
    ensures
        seqs(r@) == trade_tags_from(cs@, 0),
{
    let n = cs.len();
    let trade = chars_of("<Trade");
    let confirm = chars_of("<TradeConfirm");
    let gt: Vec<char> = vec!['>'];
    assert(gt@ =~= seq!['>']);
    let mut out: Vec<Vec<char>> = Vec::new();
    let mut i: usize = 0;
    let mut stop = false;
    while i < n && !stop
        invariant
            n == cs@.len(),
            0 <= i <= n,
            trade@ == "<Trade"@,
            confirm@ == "<TradeConfirm"@,
            gt@ == seq!['>'],
            stop ==> seqs(out@) == trade_tags_from(cs@, 0),
            !stop ==> seqs(out@) + trade_tags_from(cs@, i as int) == trade_tags_from(cs@, 0),
        decreases n - i,
    {
        match tag_body_start_exec(cs, i, &trade, &confirm) {
            Some(b) => {
                match find(cs, &gt, b) {
                    Some(g) => {
                        proof {
                            crate::number::lemma_find_bounds(cs@, seq!['>'], b as int);
                        }
                        let body = copy_range(cs, b, g);
                        let ghost before = out@;
                        out.push(body);
                        assert(seqs(out@) =~= seqs(before).push(body@));
                        assert(seqs(out@) + trade_tags_from(cs@, g + 1) =~= seqs(before) + (seq![
                            body@,
                        ] + trade_tags_from(cs@, g + 1)));
                        i = g + 1;
                    },
                    None => {
                        assert(seqs(out@) =~= seqs(out@) + trade_tags_from(cs@, i as int));
                        stop = true;
                        i = n;
                    },
                }
            },
            None => {
                i = i + 1;
            },
        }
    }
    if !stop {
        assert(trade_tags_from(cs@, i as int) =~= Seq::<Seq<char>>::empty());
        assert(seqs(out@) + trade_tags_from(cs@, i as int) =~= seqs(out@));
    }
    out
}

fn attr_value(attrs: &Vec<char>, key: &str) -> (r: Vec<char>)
    ensures
        r@ == attr_text(attrs@, key@),
{
    let n = attrs.len();
    let mut pat = chars_of(key);
    pat.push('=');
    pat.push('"');
    assert(pat@ =~= key@ + seq!['=', '"']);
    match find_name(attrs, &pat) {
        Some(p) => {
            proof {
                lemma_find_name_bounds(attrs@, pat@, 0);
            }
            let start = p + pat.len();
            let quote: Vec<char> = vec!['"'];
            assert(quote@ =~= seq!['"']);
            match find(attrs, &quote, start) {
                Some(e) => {
                    proof {
                        crate::number::lemma_find_bounds(attrs@, seq!['"'], start as int);
                    }
                    copy_range(attrs, start, e)
                },
                None => Vec::new(),
            }
        },
        None => Vec::new(),
    }
}

fn attr_value_either(attrs: &Vec<char>, k1: &str, k2: &str) -> (r: Vec<char>)
    ensures
        r@ == attr_either(attrs@, k1@, k2@),
{
    let v = attr_value(attrs, k1);
    if v.len() > 0 {
        v
    } else {
        attr_value(attrs, k2)
    }
}

fn attr_number(attrs: &Vec<char>, key: &str) -> (r: i64)
    ensures
        r == attr_num(attrs@, key@),
        r >= -i64::MAX,
{
    match parse_micros(&attr_value(attrs, key)) {
        Some(v) => v,
        None => 0,
    }
}

fn attr_number_either(attrs: &Vec<char>, k1: &str, k2: &str) -> (r: i64)
    ensures
        r == attr_num_either(attrs@, k1@, k2@),
{
    let v = attr_number(attrs, k1);
    if v != 0 {
        v
    } else {
        attr_number(attrs, k2)
    }
}

/// Decodes one trade tag's attribute text; see `xml_record`.
pub fn xml_trade(attrs: &Vec<char>) -> (r: Option<FlexTrade>)
    ensures
        r is Some <==> xml_record(attrs@) is Some,
        r matches Some(t) ==> xml_record(attrs@) == Some(t@),
{
    let symbol = attr_value(attrs, "symbol");
    if symbol.len() == 0 {
        return None;
    }
    let side = if attr_value(attrs, "buySell").len() > 0 {
        attr_value(attrs, "buySell")
    } else {
        attr_value_either(attrs, "side", "buy/sell")
    };
    let quantity: i32 = match parse_int32(&attr_value(attrs, "quantity")) {
        Some(q) => if q == i32::MIN {
            i32::MAX
        } else if q < 0 {
            -q
        } else {
            q
        },
        None => 0,
    };
    let multiplier: i32 = match parse_int32(&attr_value(attrs, "multiplier")) {
        Some(m) => if m > 0 {
            m
        } else {
            1
        },
        None => 1,
    };
    let dt = attr_value(attrs, "dateTime");
    let (date, time) = if dt.len() > 0 {
        split_first_chars(&dt, ';')
    } else {
        (
            crate::text::to_string(&attr_value(attrs, "tradeDate")),
            crate::text::to_string(&attr_value(attrs, "tradeTime")),
        )
    };
    let commission = attr_number(attrs, "ibCommission");
    let commission = if commission < 0 {
        -commission
    } else {
        commission
    };
    let expiry = normalize_expiry_chars(&attr_value(attrs, "expiry"));
    let t = FlexTrade {
        account_id: crate::text::to_string(&attr_value(attrs, "accountId")),
        trade_id: crate::text::to_string(&attr_value_either(attrs, "tradeID", "tradeId")),
        symbol: crate::text::to_string(&symbol),
        asset_class: crate::text::to_string(&attr_value(attrs, "assetCategory")),
        side: crate::text::to_string(&side),
        quantity,
        multiplier,
        price: attr_number_either(attrs, "tradePrice", "price"),
        commission,
        realized_pnl: attr_number_either(attrs, "fifoPnlRealized", "realizedPnL"),
        date,
        time,
        expiry: crate::text::to_string(&expiry),
        strike: attr_number(attrs, "strike"),
        put_call: crate::text::to_string(&attr_value(attrs, "putCall")),
        open_close: crate::text::to_string(
            &attr_value_either(attrs, "openCloseIndicator", "openClose"),
        ),
        exchange: crate::text::to_string(&attr_value(attrs, "exchange")),
        proceeds: attr_number(attrs, "proceeds"),
        cost_basis: attr_number(attrs, "costBasis"),
        notes: crate::text::to_string(&attr_value_either(attrs, "notes", "description")),
    };
    assert(t@ == xml_record(attrs@)->0);
    Some(t)
}

/// Reads the trade records of an XML report; see `flex_xml`. Open trades are not filtered
/// here.
pub fn parse_flex_xml(xml: &str) -> (r: Vec<FlexTrade>)
    ensures
        views(r@) == flex_xml(xml@),
{
    let cs = chars_of(xml);
    let tags = trade_tags(&cs);
    let ghost all = seqs(tags@);
    let mut out: Vec<FlexTrade> = Vec::new();
    let mut i: usize = 0;
    while i < tags.len()
        invariant
            0 <= i <= tags@.len(),
            all == seqs(tags@),
            views(out@) == records_of_tags(all.subrange(0, i as int)),
        decreases tags@.len() - i,
    {
        assert(all.subrange(0, i + 1).drop_last() =~= all.subrange(0, i as int));
        assert(all.subrange(0, i + 1).last() == tags@[i as int]@);
        let ghost before = out@;
        match xml_trade(&tags[i]) {
            Some(t) => {
                out.push(t);
                assert(views(out@) =~= views(before).push(t@));
            },
            None => {},
        }
        i = i + 1;
    }
    assert(all.subrange(0, all.len() as int) =~= all);
    out
}

} // verus!
