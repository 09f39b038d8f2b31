use vstd::prelude::*;
use crate::number::{decimal_micros, int32_value, parse_int32, parse_micros};
use crate::record::{
    FlexTrade, FlexTradeView, normalized_expiry, normalize_expiry_chars, views,
};
use crate::text::{
    chars_of, contains, copy_range, find, find_from, int_text, matches_at, push_all, push_int, string_of,
    trim, trim_range, upper, upper_equals,
};

verus! {

pub open spec fn seqs(v: Seq<Vec<char>>) -> Seq<Seq<char>> {
    v.map_values(|f: Vec<char>| f@)
}

pub open spec fn strings(v: Seq<String>) -> Seq<Seq<char>> {
    v.map_values(|f: String| f@)
}

pub open spec fn strip_cr(s: Seq<char>) -> Seq<char> {
    if s.len() > 0 && s.last() == '\r' {
        s.drop_last()
    } else {
        s
    }
}

/// The lines that a newline has ended so far (without `\r\n` or `\n`), and the text after them.
pub open spec fn line_scan(s: Seq<char>) -> (Seq<Seq<char>>, Seq<char>)
    decreases s.len(),
{
    if s.len() == 0 {
        (Seq::empty(), Seq::empty())
    } else {
        let st = line_scan(s.drop_last());
        if s.last() == '\n' {
            (st.0.push(strip_cr(st.1)), Seq::empty())
        } else {
            (st.0, st.1.push(s.last()))
        }
    }
}

/// The lines of a text: split at `\n`, a `\r` before it dropped, no empty line after a final `\n`.
pub open spec fn lines_of(s: Seq<char>) -> Seq<Seq<char>> {
    let st = line_scan(s);
    if st.1.len() == 0 {
        st.0
    } else {
        st.0.push(st.1)
    }
}

/// Where one CSV line stands after some of its characters: the fields it has closed, the
/// text of the open field, and whether a quote is open.
pub struct CsvScan {
    pub fields: Seq<Seq<char>>,
    pub current: Seq<char>,
    pub quoted: bool,
}

pub open spec fn csv_scan(line: Seq<char>) -> CsvScan
    decreases line.len(),
{
    if line.len() == 0 {
        CsvScan { fields: Seq::empty(), current: Seq::empty(), quoted: false }
    } else {
        let st = csv_scan(line.drop_last());
        let c = line.last();
        if c == '"' {
            CsvScan { fields: st.fields, current: st.current, quoted: !st.quoted }
        } else if c == ',' && !st.quoted {
            CsvScan { fields: st.fields.push(trim(st.current)), current: Seq::empty(), quoted: false }
        } else {
            CsvScan { fields: st.fields, current: st.current.push(c), quoted: st.quoted }
        }
    }
}

/// The fields of one CSV line: split at commas outside double quotes, the quotes dropped,
/// each field trimmed.
pub open spec fn csv_fields(line: Seq<char>) -> Seq<Seq<char>> {
    let st = csv_scan(line);
    st.fields.push(trim(st.current))
}

/// The bounds of each line of `cs`, as `lines_of` gives them.
pub fn line_ranges(cs: &Vec<char>) -> (r: Vec<(usize, usize)>)
    ensures
        r@.len() == lines_of(cs@).len(),
        forall|k: int| 0 <= k < r@.len() ==> #[trigger] r@[k].0 <= r@[k].1 <= cs@.len(),
        forall|k: int|
            0 <= k < r@.len() ==> cs@.subrange(r@[k].0 as int, r@[k].1 as int)
                == #[trigger] lines_of(cs@)[k],
{
    let n = cs.len();
    let mut out: Vec<(usize, usize)> = Vec::new();
    let mut start: usize = 0;
    let mut i: usize = 0;
    let ghost mut done: Seq<Seq<char>> = Seq::empty();
    while i < n
        invariant
            n == cs@.len(),
            0 <= start <= i <= n,
            line_scan(cs@.subrange(0, i as int)).0 == done,
            line_scan(cs@.subrange(0, i as int)).1 == cs@.subrange(start as int, i as int),
            out@.len() == done.len(),
            forall|k: int| 0 <= k < out@.len() ==> #[trigger] out@[k].0 <= out@[k].1 <= cs@.len(),
            forall|k: int|
                0 <= k < out@.len() ==> cs@.subrange(out@[k].0 as int, out@[k].1 as int)
                    == #[trigger] done[k],
        decreases n - i,
    {
        let ghost prev = line_scan(cs@.subrange(0, i as int));
        assert(cs@.subrange(0, i + 1).drop_last() =~= cs@.subrange(0, i as int));
        if cs[i] == '\n' {
            let end: usize = if i > start && cs[i - 1] == '\r' {
                i - 1
            } else {
                i
            };
            assert(cs@.subrange(start as int, end as int) =~= strip_cr(prev.1));
            out.push((start, end));
            proof {
                done = done.push(strip_cr(prev.1));
            }
            start = i + 1;
        } else {
            assert(cs@.subrange(start as int, i + 1) =~= prev.1.push(cs@[i as int]));
        }
        i = i + 1;
        assert(cs@.subrange(start as int, i as int) =~= line_scan(cs@.subrange(0, i as int)).1);
    }
    assert(cs@.subrange(0, n as int) =~= cs@);
    if start < n {
        out.push((start, n));
        proof {
            done = done.push(cs@.subrange(start as int, n as int));
        }
    }
    assert(lines_of(cs@) == done);
    out
}

/// The fields of the line `cs[lo..hi]`; see `csv_fields`.
pub fn fields_of(cs: &Vec<char>, lo: usize, hi: usize) -> (r: Vec<Vec<char>>)
    requires
        lo <= hi <= cs@.len(),
    ensures
        seqs(r@) == csv_fields(cs@.subrange(lo as int, hi as int)),
{
    let mut fields: Vec<Vec<char>> = Vec::new();
    let mut current: Vec<char> = Vec::new();
    let mut quoted = false;
    let mut i: usize = lo;
    while i < hi
        invariant
            lo <= i <= hi <= cs@.len(),
            csv_scan(cs@.subrange(lo as int, i as int)).fields == seqs(fields@),
            csv_scan(cs@.subrange(lo as int, i as int)).current == current@,
            csv_scan(cs@.subrange(lo as int, i as int)).quoted == quoted,
        decreases hi - i,
    {
        assert(cs@.subrange(lo as int, i + 1).drop_last() =~= cs@.subrange(lo as int, i as int));
        let c = cs[i];
        if c == '"' {
            quoted = !quoted;
        } else if c == ',' && !quoted {
            let (a, b) = trim_range(&current, 0, current.len());
            assert(current@.subrange(0, current@.len() as int) =~= current@);
            let f = copy_range(&current, a, b);
            let ghost before = fields@;
            fields.push(f);
            assert(seqs(fields@) =~= seqs(before).push(f@));
            current = Vec::new();
            assert(current@ =~= Seq::<char>::empty());
        } else {
            current.push(c);
        }
        i = i + 1;
    }
    let (a, b) = trim_range(&current, 0, current.len());
    assert(current@.subrange(0, current@.len() as int) =~= current@);
    let f = copy_range(&current, a, b);
    let ghost before = fields@;
    fields.push(f);
    assert(seqs(fields@) =~= seqs(before).push(f@));
    fields
}

pub(crate) fn to_strings(v: &Vec<Vec<char>>) -> (r: Vec<String>)
    ensures
        strings(r@) == seqs(v@),
{
    let mut out: Vec<String> = Vec::new();
    let mut i: usize = 0;
    while i < v.len()
        invariant
            0 <= i <= v@.len(),
            strings(out@) == seqs(v@.subrange(0, i as int)),
        decreases v@.len() - i,
    {
        let s = string_of(&v[i], 0, v[i].len());
        assert(v@[i as int]@.subrange(0, v@[i as int]@.len() as int) =~= v@[i as int]@);
        let ghost before = out@;
        out.push(s);
        assert(strings(out@) =~= strings(before).push(s@));
        i = i + 1;
        assert(seqs(v@.subrange(0, i as int)) =~= seqs(v@.subrange(0, i - 1)).push(
            v@[i - 1]@,
        ));
    }
    assert(v@.subrange(0, v@.len() as int) =~= v@);
    out
}

/// Splits one CSV line into fields: commas inside double quotes do not split, the quotes
/// themselves are dropped, and each field is trimmed.
pub fn parse_csv_line(line: &str) -> (r: Vec<String>)
    ensures
        strings(r@) == csv_fields(line@),
{
    let cs = chars_of(line);
    let f = fields_of(&cs, 0, cs.len());
    assert(cs@.subrange(0, cs@.len() as int) =~= cs@);
    to_strings(&f)
}

/// Position of the first header, at or after `j`, that contains `name`.
pub open spec fn header_with(headers: Seq<Seq<char>>, name: Seq<char>, j: int) -> Option<int>
    decreases headers.len() - j,
{
    if j < 0 || j >= headers.len() {
        None
    } else if contains(headers[j], name) {
        Some(j)
    } else {
        header_with(headers, name, j + 1)
    }
}

/// The header position of a field: the first header that contains the first name, in order,
/// that some header contains.
pub open spec fn column(headers: Seq<Seq<char>>, names: Seq<Seq<char>>) -> Option<int>
    decreases names.len(),
{
    if names.len() == 0 {
        None
    } else {
        match header_with(headers, names[0], 0) {
            Some(p) => Some(p),
            None => column(headers, names.drop_first()),
        }
    }
}

pub open spec fn symbol_names() -> Seq<Seq<char>> {
    seq!["symbol"@]
}

pub open spec fn quantity_names() -> Seq<Seq<char>> {
    seq!["quantity"@]
}

pub open spec fn price_names() -> Seq<Seq<char>> {
    seq!["tradeprice"@, "t. price"@]
}

pub open spec fn commission_names() -> Seq<Seq<char>> {
    seq!["ibcommission"@, "comm/fee"@]
}

pub open spec fn pnl_names() -> Seq<Seq<char>> {
    seq!["fifopnlrealized"@, "realized p/l"@, "realized p&l"@]
}

pub open spec fn datetime_names() -> Seq<Seq<char>> {
    seq!["datetime"@, "date/time"@]
}

pub open spec fn side_names() -> Seq<Seq<char>> {
    seq!["buy/sell"@]
}

pub open spec fn asset_names() -> Seq<Seq<char>> {
    seq!["assetclass"@]
}

pub open spec fn code_names() -> Seq<Seq<char>> {
    seq!["notes/codes"@, "notes"@, "code"@]
}

pub open spec fn strike_names() -> Seq<Seq<char>> {
    seq!["strike"@]
}

pub open spec fn expiry_names() -> Seq<Seq<char>> {
    seq!["expiry"@]
}

pub open spec fn put_call_names() -> Seq<Seq<char>> {
    seq!["put/call"@]
}

pub open spec fn open_close_names() -> Seq<Seq<char>> {
    seq!["open/closeindicator"@, "open/close"@]
}

pub open spec fn multiplier_names() -> Seq<Seq<char>> {
    seq!["multiplier"@]
}

pub open spec fn trade_id_names() -> Seq<Seq<char>> {
    seq!["tradeid"@, "trade id"@]
}

pub open spec fn exchange_names() -> Seq<Seq<char>> {
    seq!["exchange"@]
}

pub open spec fn proceeds_names() -> Seq<Seq<char>> {
    seq!["proceeds"@]
}

pub open spec fn cost_basis_names() -> Seq<Seq<char>> {
    seq!["costbasis"@, "cost basis"@]
}

/// The header positions of every field under one column layout.
pub struct Columns {
    pub symbol: Option<usize>,
    pub quantity: Option<usize>,
    pub price: Option<usize>,
    pub commission: Option<usize>,
    pub pnl: Option<usize>,
    pub datetime: Option<usize>,
    pub side: Option<usize>,
    pub asset: Option<usize>,
    pub code: Option<usize>,
    pub strike: Option<usize>,
    pub expiry: Option<usize>,
    pub put_call: Option<usize>,
    pub open_close: Option<usize>,
    pub multiplier: Option<usize>,
    pub trade_id: Option<usize>,
    pub exchange: Option<usize>,
    pub proceeds: Option<usize>,
    pub cost_basis: Option<usize>,
}

pub open spec fn pos(p: Option<usize>) -> Option<int> {
    match p {
        Some(i) => Some(i as int),
        None => None,
    }
}

fn header_with_exec(headers: &Vec<Vec<char>>, name: &Vec<char>) -> (r: Option<usize>)
    ensures
        pos(r) == header_with(seqs(headers@), name@, 0),
{
    let mut j: usize = 0;
    while j < headers.len()
        invariant
            0 <= j <= headers@.len(),
            header_with(seqs(headers@), name@, 0) == header_with(seqs(headers@), name@, j as int),
        decreases headers@.len() - j,
    {
        let found = find(&headers[j], name, 0);
        assert(seqs(headers@)[j as int] == headers@[j as int]@);
        if found.is_some() {
            return Some(j);
        }
        j = j + 1;
    }
    None
}

/// The header position of the field named by `names`; see `column`.
pub fn column_of(headers: &Vec<Vec<char>>, names: &Vec<Vec<char>>) -> (r: Option<usize>)
    ensures
        pos(r) == column(seqs(headers@), seqs(names@)),
{
    let mut k: usize = 0;
    assert(seqs(names@).subrange(0, names@.len() as int) =~= seqs(names@));
    while k < names.len()
        invariant
            0 <= k <= names@.len(),
            column(seqs(headers@), seqs(names@)) == column(
                seqs(headers@),
                seqs(names@).subrange(k as int, names@.len() as int),
            ),
        decreases names@.len() - k,
    {
        let ghost rest = seqs(names@).subrange(k as int, names@.len() as int);
        assert(rest[0] == names@[k as int]@);
        assert(rest.drop_first() =~= seqs(names@).subrange(k + 1, names@.len() as int));
        match header_with_exec(headers, &names[k]) {
            Some(p) => {
                return Some(p);
            },
            None => {},
        }
        k = k + 1;
    }
    assert(seqs(names@).subrange(k as int, names@.len() as int) =~= Seq::<Seq<char>>::empty());
    None
}

fn names1(a: &str) -> (r: Vec<Vec<char>>)
    ensures
        seqs(r@) == seq![a@],
{
    let r = vec![chars_of(a)];
    assert(seqs(r@) =~= seq![a@]);
    r
}

fn names2(a: &str, b: &str) -> (r: Vec<Vec<char>>)
    ensures
        seqs(r@) == seq![a@, b@],
{
    let r = vec![chars_of(a), chars_of(b)];
    assert(seqs(r@) =~= seq![a@, b@]);
    r
}

fn names3(a: &str, b: &str, c: &str) -> (r: Vec<Vec<char>>)
    ensures
        seqs(r@) == seq![a@, b@, c@],
{
    let r = vec![chars_of(a), chars_of(b), chars_of(c)];
    assert(seqs(r@) =~= seq![a@, b@, c@]);
    r
}

pub open spec fn opt_usize(o: Option<int>) -> Option<usize> {
    match o {
        Some(p) => Some(p as usize),
        None => None,
    }
}

/// The field positions that a header list gives.
pub open spec fn layout(headers: Seq<Seq<char>>) -> Columns {
    Columns {
        symbol: opt_usize(column(headers, symbol_names())),
        quantity: opt_usize(column(headers, quantity_names())),
        price: opt_usize(column(headers, price_names())),
        commission: opt_usize(column(headers, commission_names())),
        pnl: opt_usize(column(headers, pnl_names())),
        datetime: opt_usize(column(headers, datetime_names())),
        side: opt_usize(column(headers, side_names())),
        asset: opt_usize(column(headers, asset_names())),
        code: opt_usize(column(headers, code_names())),
        strike: opt_usize(column(headers, strike_names())),
        expiry: opt_usize(column(headers, expiry_names())),
        put_call: opt_usize(column(headers, put_call_names())),
        open_close: opt_usize(column(headers, open_close_names())),
        multiplier: opt_usize(column(headers, multiplier_names())),
        trade_id: opt_usize(column(headers, trade_id_names())),
        exchange: opt_usize(column(headers, exchange_names())),
        proceeds: opt_usize(column(headers, proceeds_names())),
        cost_basis: opt_usize(column(headers, cost_basis_names())),
    }
}

fn col(headers: &Vec<Vec<char>>, names: &Vec<Vec<char>>) -> (r: Option<usize>)
    ensures
        r == opt_usize(column(seqs(headers@), seqs(names@))),
{
    let r = column_of(headers, names);
    match r {
        Some(p) => assert(opt_usize(pos(r)) == Some(p)),
        None => {},
    }
    r
}

/// Resolves every field of a record against one header layout.
pub fn resolve_columns(headers: &Vec<Vec<char>>) -> (r: Columns)
    ensures
        r == layout(seqs(headers@)),
{
    Columns {
        symbol: col(headers, &names1("symbol")),
        quantity: col(headers, &names1("quantity")),
        price: col(headers, &names2("tradeprice", "t. price")),
        commission: col(headers, &names2("ibcommission", "comm/fee")),
        pnl: col(headers, &names3("fifopnlrealized", "realized p/l", "realized p&l")),
        datetime: col(headers, &names2("datetime", "date/time")),
        side: col(headers, &names1("buy/sell")),
        asset: col(headers, &names1("assetclass")),
        code: col(headers, &names3("notes/codes", "notes", "code")),
        strike: col(headers, &names1("strike")),
        expiry: col(headers, &names1("expiry")),
        put_call: col(headers, &names1("put/call")),
        open_close: col(headers, &names2("open/closeindicator", "open/close")),
        multiplier: col(headers, &names1("multiplier")),
        trade_id: col(headers, &names2("tradeid", "trade id")),
        exchange: col(headers, &names1("exchange")),
        proceeds: col(headers, &names1("proceeds")),
        cost_basis: col(headers, &names2("costbasis", "cost basis")),
    }
}

/// The field at header position `p` of a line whose columns begin at `offset`.
pub open spec fn cell(fields: Seq<Seq<char>>, p: Option<usize>, offset: int) -> Option<Seq<char>> {
    match p {
        Some(i) => if i + offset < fields.len() {
            Some(fields[i + offset])
        } else {
            None
        },
        None => None,
    }
}

/// A field as text: trimmed, and empty when absent.
pub open spec fn text_cell(fields: Seq<Seq<char>>, p: Option<usize>, offset: int) -> Seq<char> {
    match cell(fields, p, offset) {
        Some(c) => trim(c),
        None => Seq::empty(),
    }
}

pub open spec fn without_commas(s: Seq<char>) -> Seq<char> {
    s.filter(|c: char| c != ',')
}

/// A field as a number in millionths: trimmed, thousands separators dropped, and zero when
/// absent or not a number.
pub open spec fn num_cell(fields: Seq<Seq<char>>, p: Option<usize>, offset: int) -> int {
    match cell(fields, p, offset) {
        Some(c) => match decimal_micros(without_commas(trim(c))) {
            Some(v) => v,
            None => 0,
        },
        None => 0,
    }
}

pub open spec fn abs(m: int) -> int {
    if m < 0 {
        -m
    } else {
        m
    }
}

/// Whole units of a value in millionths, without sign, at most `i32::MAX`.
pub open spec fn units_magnitude(m: int) -> int {
    let u = abs(m) / 1_000_000;
    if u > i32::MAX {
        i32::MAX as int
    } else {
        u
    }
}

/// `m / d` rounded to the nearest integer, halves away from zero.
pub open spec fn round_div(m: int, d: int) -> int {
    if m >= 0 {
        (m + d / 2) / d
    } else {
        -((-m + d / 2) / d)
    }
}

/// The side of a row: its buy/sell field when that reads `BUY` or `SELL`, else `SELL` for a
/// negative quantity and `BUY` otherwise.
pub open spec fn side_of(fields: Seq<Seq<char>>, c: Columns, offset: int) -> Seq<char> {
    let given = upper(text_cell(fields, c.side, offset));
    if given == "BUY"@ || given == "SELL"@ {
        given
    } else if num_cell(fields, c.quantity, offset) < 0 {
        "SELL"@
    } else {
        "BUY"@
    }
}

/// Date and time of a date-time field, parted at its first comma, else at its first space.
pub open spec fn split_datetime(raw: Seq<char>) -> (Seq<char>, Seq<char>) {
    match find_from(raw, seq![','], 0) {
        Some(p) => (trim(raw.subrange(0, p)), trim(raw.subrange(p + 1, raw.len() as int))),
        None => match find_from(raw, seq![' '], 0) {
            Some(p) => (trim(raw.subrange(0, p)), trim(raw.subrange(p + 1, raw.len() as int))),
            None => (raw, Seq::empty()),
        },
    }
}

/// The multiplier field when it holds a positive integer, else one.
pub open spec fn multiplier_of(fields: Seq<Seq<char>>, c: Columns, offset: int) -> int {
    match cell(fields, c.multiplier, offset) {
        Some(t) => match int32_value(trim(t)) {
            Some(m) => if m >= 1 {
                m
            } else {
                1
            },
            None => 1,
        },
        None => 1,
    }
}

/// How a character of a text field stands in a fingerprint: `%` as `%25`, `|` as `%7C`, any
/// other as itself. A fingerprint's fields then hold no `|`.
pub open spec fn escape_char(c: char) -> Seq<char> {
    if c == '%' {
        seq!['%', '2', '5']
    } else if c == '|' {
        seq!['%', '7', 'C']
    } else {
        seq![c]
    }
}

pub open spec fn escaped(s: Seq<char>) -> Seq<char>
    decreases s.len(),
{
    if s.len() == 0 {
        Seq::empty()
    } else {
        escaped(s.drop_last()) + escape_char(s.last())
    }
}

/// The trade id made up for a row that has none: `SYN|` and the row's symbol, date, side,
/// quantity, price in ten-thousandths, strike in hundredths, put/call and raw expiry,
/// joined by `|`, the text fields escaped (see `escape_char`).
pub open spec fn fingerprint(
    symbol: Seq<char>,
    date: Seq<char>,
    side: Seq<char>,
    quantity: int,
    price: int,
    strike: int,
    put_call: Seq<char>,
    expiry: Seq<char>,
) -> Seq<char> {
    "SYN|"@ + escaped(symbol) + "|"@ + escaped(date) + "|"@ + escaped(side) + "|"@ + int_text(
        quantity,
    ) + "|"@ + int_text(round_div(price, 100)) + "|"@ + int_text(round_div(strike, 10000)) + "|"@
        + escaped(put_call) + "|"@ + escaped(expiry)
}

/// The record of one CSV row, or `None` for a row without a symbol or marked cancelled
/// (its notes/codes field holds `Ca`). A row without a trade id gets its fingerprint.
pub open spec fn csv_row(fields: Seq<Seq<char>>, c: Columns, offset: int) -> Option<FlexTradeView> {
    let symbol = text_cell(fields, c.symbol, offset);
    let cancelled = match cell(fields, c.code, offset) {
        Some(t) => contains(t, "Ca"@),
        None => false,
    };
    if symbol.len() == 0 || cancelled {
        None
    } else {
        let side = side_of(fields, c, offset);
        let quantity = units_magnitude(num_cell(fields, c.quantity, offset));
        let dt = split_datetime(text_cell(fields, c.datetime, offset));
        let expiry = text_cell(fields, c.expiry, offset);
        let put_call = text_cell(fields, c.put_call, offset);
        let given_id = text_cell(fields, c.trade_id, offset);
        let trade_id = if given_id.len() > 0 {
            given_id
        } else {
            fingerprint(
                symbol,
                dt.0,
                side,
                quantity,
                num_cell(fields, c.price, offset),
                num_cell(fields, c.strike, offset),
                put_call,
                expiry,
            )
        };
        Some(
            FlexTradeView {
                account_id: Seq::empty(),
                trade_id,
                symbol,
                asset_class: text_cell(fields, c.asset, offset),
                side,
                quantity,
                multiplier: multiplier_of(fields, c, offset),
                price: num_cell(fields, c.price, offset),
                commission: abs(num_cell(fields, c.commission, offset)),
                realized_pnl: num_cell(fields, c.pnl, offset),
                date: dt.0,
                time: dt.1,
                expiry: normalized_expiry(expiry),
                strike: num_cell(fields, c.strike, offset),
                put_call,
                open_close: text_cell(fields, c.open_close, offset),
                exchange: text_cell(fields, c.exchange, offset),
                proceeds: num_cell(fields, c.proceeds, offset),
                cost_basis: num_cell(fields, c.cost_basis, offset),
                notes: text_cell(fields, c.code, offset),
            },
        )
    }
}

fn cell_ref(fields: &Vec<Vec<char>>, p: Option<usize>, offset: usize) -> (r: Option<usize>)
    ensures
        r matches Some(i) ==> i < fields@.len() && cell(seqs(fields@), p, offset as int) == Some(
            fields@[i as int]@,
        ),
        r is None ==> cell(seqs(fields@), p, offset as int) is None,
{
    match p {
        Some(i) => {
            if offset <= fields.len() && i < fields.len() - offset {
                Some(i + offset)
            } else {
                None
            }
        },
        None => None,
    }
}

fn cell_text(fields: &Vec<Vec<char>>, p: Option<usize>, offset: usize) -> (r: Vec<char>)
    ensures
        r@ == text_cell(seqs(fields@), p, offset as int),
{
    match cell_ref(fields, p, offset) {
        Some(i) => {
            let f = &fields[i];
            let (a, b) = trim_range(f, 0, f.len());
            assert(f@.subrange(0, f@.len() as int) =~= f@);
            copy_range(f, a, b)
        },
        None => Vec::new(),
    }
}

fn remove_commas(v: &Vec<char>) -> (r: Vec<char>)
    ensures
        r@ == without_commas(v@),
{
    let mut out: Vec<char> = Vec::new();
    let mut i: usize = 0;
    while i < v.len()
        invariant
            0 <= i <= v@.len(),
            out@ == without_commas(v@.subrange(0, i as int)),
        decreases v@.len() - i,
    {
        proof {
            assert(v@.subrange(0, i + 1).drop_last() =~= v@.subrange(0, i as int));
            reveal(Seq::filter);
        }
        if v[i] != ',' {
            out.push(v[i]);
        }
        i = i + 1;
    }
    assert(v@.subrange(0, v@.len() as int) =~= v@);
    out
}

fn cell_num(fields: &Vec<Vec<char>>, p: Option<usize>, offset: usize) -> (r: i64)
    ensures
        r == num_cell(seqs(fields@), p, offset as int),
        r >= -i64::MAX,
{
    match cell_ref(fields, p, offset) {
        Some(i) => {
            let f = &fields[i];
            let (a, b) = trim_range(f, 0, f.len());
            assert(f@.subrange(0, f@.len() as int) =~= f@);
            let t = copy_range(f, a, b);
            let plain = remove_commas(&t);
            match parse_micros(&plain) {
                Some(v) => v,
                None => 0,
            }
        },
        None => 0,
    }
}

fn round_div_exec(m: i64, d: i64) -> (r: i64)
    requires
        d == 100 || d == 10000,
    ensures
        r == round_div(m as int, d as int),
{
    let h: i128 = (d / 2) as i128;
    if m >= 0 {
        let x: i128 = m as i128 + h;
        let q: i128 = x / (d as i128);
        assert(q <= x) by (nonlinear_arith)
            requires
                x >= 0,
                d >= 1,
                q == x / (d as i128),
        ;
        assert(q <= m as i128) by (nonlinear_arith)
            requires
                x == m + h,
                h * 2 == d,
                d >= 2,
                m >= 0,
                q == x / (d as i128),
        ;
        q as i64
    } else {
        let x: i128 = -(m as i128) + h;
        let q: i128 = x / (d as i128);
        assert(q <= -(m as i128)) by (nonlinear_arith)
            requires
                x == -m + h,
                h * 2 == d,
                d >= 2,
                m < 0,
                q == x / (d as i128),
        ;
        assert(q >= 0) by (nonlinear_arith)
            requires
                x >= 0,
                d >= 1,
                q == x / (d as i128),
        ;
        -(q as i64)
    }
}

fn magnitude_units(m: i64) -> (r: i32)
    requires
        m >= -i64::MAX,
    ensures
        r == units_magnitude(m as int),
{
    let a: i64 = if m < 0 {
        -m
    } else {
        m
    };
    let u: i64 = a / 1_000_000;
    if u > i32::MAX as i64 {
        i32::MAX
    } else {
        u as i32
    }
}

fn split_datetime_exec(raw: &Vec<char>) -> (r: (Vec<char>, Vec<char>))
    ensures
        r.0@ == split_datetime(raw@).0,
        r.1@ == split_datetime(raw@).1,
{
    let n = raw.len();
    let comma: Vec<char> = vec![','];
    let space: Vec<char> = vec![' '];
    assert(comma@ =~= seq![',']);
    assert(space@ =~= seq![' ']);
    let at = match find(raw, &comma, 0) {
        Some(p) => Some(p),
        None => find(raw, &space, 0),
    };
    match at {
        Some(p) => {
            proof {
                if find_from(raw@, seq![','], 0) is Some {
                    crate::number::lemma_find_bounds(raw@, seq![','], 0);
                } else {
                    crate::number::lemma_find_bounds(raw@, seq![' '], 0);
                }
            }
            let (a, b) = trim_range(raw, 0, p);
            let (c, d) = trim_range(raw, p + 1, n);
            (copy_range(raw, a, b), copy_range(raw, c, d))
        },
        None => {
            let mut whole: Vec<char> = Vec::new();
            push_all(&mut whole, raw);
            assert(whole@ =~= raw@);
            (whole, Vec::new())
        },
    }
}

fn multiplier_exec(fields: &Vec<Vec<char>>, c: &Columns, offset: usize) -> (r: i32)
    ensures
        r == multiplier_of(seqs(fields@), *c, offset as int),
{
    match cell_ref(fields, c.multiplier, offset) {
        Some(i) => {
            let f = &fields[i];
            let (a, b) = trim_range(f, 0, f.len());
            assert(f@.subrange(0, f@.len() as int) =~= f@);
            let t = copy_range(f, a, b);
            match parse_int32(&t) {
                Some(m) => if m >= 1 {
                    m
                } else {
                    1
                },
                None => 1,
            }
        },
        None => 1,
    }
}

fn push_escaped(out: &mut Vec<char>, s: &Vec<char>)
    ensures
        final(out)@ == old(out)@ + escaped(s@),
{
    let ghost start = out@;
    let mut i: usize = 0;
    assert(s@.subrange(0, 0) =~= Seq::<char>::empty());
    assert(out@ =~= start + escaped(s@.subrange(0, 0)));
    while i < s.len()
        invariant
            0 <= i <= s@.len(),
            out@ == start + escaped(s@.subrange(0, i as int)),
        decreases s@.len() - i,
    {
        let c = s[i];
        if c == '%' {
            out.push('%');
            out.push('2');
            out.push('5');
        } else if c == '|' {
            out.push('%');
            out.push('7');
            out.push('C');
        } else {
            out.push(c);
        }
        assert(s@.subrange(0, i + 1).drop_last() =~= s@.subrange(0, i as int));
        assert(out@ =~= start + escaped(s@.subrange(0, i + 1)));
        i = i + 1;
    }
    assert(s@.subrange(0, s@.len() as int) =~= s@);
}

fn fingerprint_exec(
    symbol: &Vec<char>,
    date: &Vec<char>,
    side: &Vec<char>,
    quantity: i32,
    price: i64,
    strike: i64,
    put_call: &Vec<char>,
    expiry: &Vec<char>,
) -> (r: Vec<char>)
    ensures
        r@ == fingerprint(
            symbol@,
            date@,
            side@,
            quantity as int,
            price as int,
            strike as int,
            put_call@,
            expiry@,
        ),
{
    let bar = chars_of("|");
    let mut out = chars_of("SYN|");
    push_escaped(&mut out, symbol);
    push_all(&mut out, &bar);
    push_escaped(&mut out, date);
    push_all(&mut out, &bar);
    push_escaped(&mut out, side);
    push_all(&mut out, &bar);
    push_int(&mut out, quantity as i64);
    push_all(&mut out, &bar);
    push_int(&mut out, round_div_exec(price, 100));
    push_all(&mut out, &bar);
    push_int(&mut out, round_div_exec(strike, 10000));
    push_all(&mut out, &bar);
    push_escaped(&mut out, put_call);
    push_all(&mut out, &bar);
    push_escaped(&mut out, expiry);
    out
}

fn side_exec(fields: &Vec<Vec<char>>, c: &Columns, offset: usize) -> (r: Vec<char>)
    ensures
        r@ == side_of(seqs(fields@), *c, offset as int),
{
    let given = cell_text(fields, c.side, offset);
    let buy = chars_of("BUY");
    let sell = chars_of("SELL");
    assert(given@.subrange(0, given@.len() as int) =~= given@);
    if upper_equals(&given, 0, given.len(), &buy) {
        buy
    } else if upper_equals(&given, 0, given.len(), &sell) {
        sell
    } else if cell_num(fields, c.quantity, offset) < 0 {
        sell
    } else {
        buy
    }
}

fn has_cancel_mark(fields: &Vec<Vec<char>>, c: &Columns, offset: usize) -> (r: bool)
    ensures
        r == match cell(seqs(fields@), c.code, offset as int) {
            Some(t) => contains(t, "Ca"@),
            None => false,
        },
{
    match cell_ref(fields, c.code, offset) {
        Some(i) => {
            let mark = chars_of("Ca");
            find(&fields[i], &mark, 0).is_some()
        },
        None => false,
    }
}

/// Decodes one CSV row under a column layout; see `csv_row`.
pub fn parse_csv_row(fields: &Vec<Vec<char>>, c: &Columns, offset: usize) -> (r: Option<FlexTrade>)
    ensures
        r is Some <==> csv_row(seqs(fields@), *c, offset as int) is Some,
        r matches Some(t) ==> csv_row(seqs(fields@), *c, offset as int) == Some(t@),
{
    let symbol = cell_text(fields, c.symbol, offset);
    if symbol.len() == 0 || has_cancel_mark(fields, c, offset) {
        return None;
    }
    let side = side_exec(fields, c, offset);
    let qty_micros = cell_num(fields, c.quantity, offset);
    let quantity = magnitude_units(qty_micros);
    let raw_dt = cell_text(fields, c.datetime, offset);
    let (date, time) = split_datetime_exec(&raw_dt);
    let expiry = cell_text(fields, c.expiry, offset);
    let put_call = cell_text(fields, c.put_call, offset);
    let price = cell_num(fields, c.price, offset);
    let strike = cell_num(fields, c.strike, offset);
    let given_id = cell_text(fields, c.trade_id, offset);
    let trade_id = if given_id.len() > 0 {
        given_id
    } else {
        fingerprint_exec(&symbol, &date, &side, quantity, price, strike, &put_call, &expiry)
    };
    let commission = cell_num(fields, c.commission, offset);
    let commission = if commission < 0 {
        -commission
    } else {
        commission
    };
    let normalized = normalize_expiry_chars(&expiry);
    let t = FlexTrade {
        account_id: String::new(),
        trade_id: crate::text::to_string(&trade_id),
        symbol: crate::text::to_string(&symbol),
        asset_class: crate::text::to_string(&cell_text(fields, c.asset, offset)),
        side: crate::text::to_string(&side),
        quantity,
        multiplier: multiplier_exec(fields, c, offset),
        price,
        commission,
        realized_pnl: cell_num(fields, c.pnl, offset),
        date: crate::text::to_string(&date),
        time: crate::text::to_string(&time),
        expiry: crate::text::to_string(&normalized),
        strike,
        put_call: crate::text::to_string(&put_call),
        open_close: crate::text::to_string(&cell_text(fields, c.open_close, offset)),
        exchange: crate::text::to_string(&cell_text(fields, c.exchange, offset)),
        proceeds: cell_num(fields, c.proceeds, offset),
        cost_basis: cell_num(fields, c.cost_basis, offset),
        notes: crate::text::to_string(&cell_text(fields, c.code, offset)),
    };
    assert(t@ == csv_row(seqs(fields@), *c, offset as int)->0);
    Some(t)
}

pub open spec fn lower_all(fs: Seq<Seq<char>>) -> Seq<Seq<char>> {
    fs.map_values(|f: Seq<char>| crate::text::lower(f))
}

/// Whether a line's first two fields read `a` and `b`, in either case.
pub open spec fn is_tagged(fields: Seq<Seq<char>>, a: Seq<char>, b: Seq<char>) -> bool {
    fields.len() >= 2 && upper(fields[0]) == a && upper(fields[1]) == b
}

/// A report in the sectioned dialect has a `HEADER,TRNT` line somewhere.
pub open spec fn is_multi_section(lines: Seq<Seq<char>>) -> bool {
    exists|i: int| 0 <= i < lines.len() && is_tagged(csv_fields(#[trigger] lines[i]), "HEADER"@, "TRNT"@)
}

/// The records of rows decoded under one layout, rows that give none left out.
pub open spec fn collect_rows(lines: Seq<Seq<char>>, c: Columns, offset: int) -> Seq<FlexTradeView>
    decreases lines.len(),
{
    if lines.len() == 0 {
        Seq::empty()
    } else {
        let before = collect_rows(lines.drop_last(), c, offset);
        match csv_row(csv_fields(lines.last()), c, offset) {
            Some(v) => before.push(v),
            None => before,
        }
    }
}

/// Records of the plain dialect: the first line names the columns, in any case; every
/// further line is a row.
pub open spec fn plain_rows(lines: Seq<Seq<char>>) -> Seq<FlexTradeView> {
    if lines.len() == 0 {
        Seq::empty()
    } else {
        collect_rows(
            lines.subrange(1, lines.len() as int),
            layout(lower_all(csv_fields(lines[0]))),
            0,
        )
    }
}

/// The sectioned dialect after some lines: the active headers, and the records so far.
/// A `HEADER,TRNT` line replaces the headers with its fields past the second; a
/// `DATA,TRNT` line is a row under them, its fields counted from the third.
pub open spec fn section_scan(lines: Seq<Seq<char>>) -> (Seq<Seq<char>>, Seq<FlexTradeView>)
    decreases lines.len(),
{
    if lines.len() == 0 {
        (Seq::empty(), Seq::empty())
    } else {
        let st = section_scan(lines.drop_last());
        let f = csv_fields(lines.last());
        if is_tagged(f, "HEADER"@, "TRNT"@) {
            (lower_all(f.subrange(2, f.len() as int)), st.1)
        } else if is_tagged(f, "DATA"@, "TRNT"@) && st.0.len() > 0 {
            match csv_row(f, layout(st.0), 2) {
                Some(v) => (st.0, st.1.push(v)),
                None => st,
            }
        } else {
            st
        }
    }
}

pub open spec fn is_synthetic(id: Seq<char>) -> bool {
    id.len() >= 4 && id.subrange(0, 4) == "SYN|"@
}

/// How many times `id` stands in `ids`.
pub open spec fn count_in(ids: Seq<Seq<char>>, id: Seq<char>) -> nat
    decreases ids.len(),
{
    if ids.len() == 0 {
        0
    } else {
        count_in(ids.drop_last(), id) + if ids.last() == id {
            1nat
        } else {
            0nat
        }
    }
}

pub open spec fn trade_ids(vs: Seq<FlexTradeView>) -> Seq<Seq<char>> {
    vs.map_values(|v: FlexTradeView| v.trade_id)
}

/// The id of the `i`-th record once repeats are numbered: a synthesized id that `n` earlier
/// records of the same parse also carry gets `|n` appended.
pub open spec fn numbered_id(vs: Seq<FlexTradeView>, i: int) -> Seq<char> {
    let id = vs[i].trade_id;
    let n = count_in(trade_ids(vs).subrange(0, i), id);
    if is_synthetic(id) && n > 0 {
        id + "|"@ + crate::text::nat_text(n)
    } else {
        id
    }
}

pub open spec fn with_trade_id(v: FlexTradeView, id: Seq<char>) -> FlexTradeView {
    FlexTradeView {
        account_id: v.account_id,
        trade_id: id,
        symbol: v.symbol,
        asset_class: v.asset_class,
        side: v.side,
        quantity: v.quantity,
        multiplier: v.multiplier,
        price: v.price,
        commission: v.commission,
        realized_pnl: v.realized_pnl,
        date: v.date,
        time: v.time,
        expiry: v.expiry,
        strike: v.strike,
        put_call: v.put_call,
        open_close: v.open_close,
        exchange: v.exchange,
        proceeds: v.proceeds,
        cost_basis: v.cost_basis,
        notes: v.notes,
    }
}

pub open spec fn with_ordinals(vs: Seq<FlexTradeView>) -> Seq<FlexTradeView> {
    Seq::new(vs.len(), |i: int| with_trade_id(vs[i], numbered_id(vs, i)))
}

/// The records of a CSV report, in either dialect.
pub open spec fn flex_csv(text: Seq<char>) -> Seq<FlexTradeView> {
    let lines = lines_of(text);
    if is_multi_section(lines) {
        with_ordinals(section_scan(lines).1)
    } else {
        with_ordinals(plain_rows(lines))
    }
}

fn same_chars(a: &Vec<char>, b: &Vec<char>) -> (r: bool)
    ensures
        r == (a@ == b@),
{
    if a.len() != b.len() {
        return false;
    }
    let r = matches_at(a, 0, b);
    assert(a@.subrange(0, b@.len() as int) =~= a@);
    r
}

fn count_same(ids: &Vec<Vec<char>>, id: &Vec<char>) -> (r: usize)
    ensures
        r == count_in(seqs(ids@), id@),
{
    let mut n: usize = 0;
    let mut i: usize = 0;
    while i < ids.len()
        invariant
            0 <= i <= ids@.len(),
            n == count_in(seqs(ids@).subrange(0, i as int), id@),
            n <= i,
        decreases ids@.len() - i,
    {
        assert(seqs(ids@).subrange(0, i + 1).drop_last() =~= seqs(ids@).subrange(0, i as int));
        if same_chars(&ids[i], id) {
            n = n + 1;
        }
        i = i + 1;
    }
    assert(seqs(ids@).subrange(0, ids@.len() as int) =~= seqs(ids@));
    n
}

fn is_synthetic_exec(id: &Vec<char>) -> (r: bool)
    ensures
        r == is_synthetic(id@),
{
    let prefix = chars_of("SYN|");
    proof {
        reveal_strlit("SYN|");
    }
    id.len() >= 4 && matches_at(id, 0, &prefix)
}

/// Numbers repeated synthesized ids; see `with_ordinals`.
pub fn number_repeats(rows: Vec<FlexTrade>) -> (r: Vec<FlexTrade>)
    ensures
        views(r@) == with_ordinals(views(rows@)),
{
    let ghost orig = views(rows@);
    let ghost orig_rows = rows@;
    let mut rest = rows;
    let mut out: Vec<FlexTrade> = Vec::new();
    let mut seen: Vec<Vec<char>> = Vec::new();
    let ghost mut k: int = 0;
    while rest.len() > 0
        invariant
            0 <= k <= orig.len(),
            orig == views(orig_rows),
            rest@ == orig_rows.subrange(k, orig_rows.len() as int),
            out@.len() == k,
            seqs(seen@) == trade_ids(orig).subrange(0, k),
            forall|j: int| 0 <= j < k ==> #[trigger] out@[j]@ == with_trade_id(orig[j], numbered_id(orig, j)),
        decreases rest@.len(),
    {
        let mut t = rest.remove(0);
        assert(t == orig_rows[k]);
        let id = chars_of(t.trade_id.as_str());
        let n = count_same(&seen, &id);
        if n > 0 && is_synthetic_exec(&id) {
            let mut numbered: Vec<char> = Vec::new();
            push_all(&mut numbered, &id);
            numbered.push('|');
            crate::text::push_nat(&mut numbered, n as u64);
            proof {
                reveal_strlit("|");
            }
            assert(numbered@ =~= id@ + "|"@ + crate::text::nat_text(n as nat));
            t.trade_id = crate::text::to_string(&numbered);
        }
        assert(t@ == with_trade_id(orig[k], numbered_id(orig, k)));
        let ghost before_seen = seen@;
        seen.push(id);
        assert(seqs(seen@) =~= seqs(before_seen).push(id@));
        assert(trade_ids(orig).subrange(0, k + 1) =~= trade_ids(orig).subrange(0, k).push(orig[k].trade_id));
        let ghost before_out = out@;
        out.push(t);
        assert(forall|j: int| 0 <= j < k ==> out@[j] == before_out[j]);
        proof {
            k = k + 1;
        }
        assert(rest@ =~= orig_rows.subrange(k, orig_rows.len() as int));
    }
    assert(views(out@) =~= with_ordinals(orig));
    out
}

fn tagged(f: &Vec<Vec<char>>, a: &Vec<char>, b: &Vec<char>) -> (r: bool)
    ensures
        r == is_tagged(seqs(f@), a@, b@),
{
    if f.len() < 2 {
        return false;
    }
    assert(f@[0]@.subrange(0, f@[0]@.len() as int) =~= f@[0]@);
    assert(f@[1]@.subrange(0, f@[1]@.len() as int) =~= f@[1]@);
    upper_equals(&f[0], 0, f[0].len(), a) && upper_equals(&f[1], 0, f[1].len(), b)
}

fn lower_fields(f: &Vec<Vec<char>>, from: usize) -> (r: Vec<Vec<char>>)
    requires
        from <= f@.len(),
    ensures
        seqs(r@) == lower_all(seqs(f@).subrange(from as int, f@.len() as int)),
{
    let mut out: Vec<Vec<char>> = Vec::new();
    let mut i: usize = from;
    while i < f.len()
        invariant
            from <= i <= f@.len(),
            seqs(out@) == lower_all(seqs(f@).subrange(from as int, i as int)),
        decreases f@.len() - i,
    {
        let l = crate::text::lower_range(&f[i], 0, f[i].len());
        assert(f@[i as int]@.subrange(0, f@[i as int]@.len() as int) =~= f@[i as int]@);
        let ghost before = out@;
        out.push(l);
        assert(seqs(f@).subrange(from as int, i + 1) =~= seqs(f@).subrange(from as int, i as int).push(
            f@[i as int]@,
        ));
        assert(seqs(out@) =~= seqs(before).push(l@));
        assert(seqs(out@) =~= lower_all(seqs(f@).subrange(from as int, i + 1)));
        i = i + 1;
    }
    out
}

/// Reads a CSV report in either dialect; see `flex_csv`. Rows without a symbol and
/// cancelled rows are left out; open trades are not filtered here.
pub fn parse_flex_csv(csv: &str) -> (r: Vec<FlexTrade>)
    ensures
        views(r@) == flex_csv(csv@),
{
    let cs = chars_of(csv);
    let ranges = line_ranges(&cs);
    let ghost lines = lines_of(cs@);
    let header_tag = chars_of("HEADER");
    let data_tag = chars_of("DATA");
    let trnt = chars_of("TRNT");
    let mut multi = false;
    let mut i: usize = 0;
    while i < ranges.len() && !multi
        invariant
            0 <= i <= ranges@.len(),
            ranges@.len() == lines.len(),
            lines == lines_of(cs@),
            forall|k: int| 0 <= k < ranges@.len() ==> #[trigger] ranges@[k].0 <= ranges@[k].1 <= cs@.len(),
            forall|k: int|
                0 <= k < ranges@.len() ==> cs@.subrange(ranges@[k].0 as int, ranges@[k].1 as int)
                    == #[trigger] lines[k],
            header_tag@ == "HEADER"@,
            trnt@ == "TRNT"@,
            multi ==> is_multi_section(lines),
            !multi ==> forall|j: int|
                0 <= j < i ==> !is_tagged(csv_fields(#[trigger] lines[j]), "HEADER"@, "TRNT"@),
        decreases ranges@.len() - i,
    {
        let (lo, hi) = ranges[i];
        assert(ranges@[i as int].0 <= ranges@[i as int].1);
        let f = fields_of(&cs, lo, hi);
        assert(seqs(f@) == csv_fields(lines[i as int]));
        if tagged(&f, &header_tag, &trnt) {
            multi = true;
            assert(is_tagged(csv_fields(lines[i as int]), "HEADER"@, "TRNT"@));
        }
        i = i + 1;
    }
    if !multi {
        assert(!is_multi_section(lines));
        let mut rows: Vec<FlexTrade> = Vec::new();
        if ranges.len() == 0 {
            assert(plain_rows(lines) =~= Seq::<FlexTradeView>::empty());
            assert(views(rows@) =~= Seq::<FlexTradeView>::empty());
            return number_repeats(rows);
        }
        let (lo0, hi0) = ranges[0];
        assert(ranges@[0].0 <= ranges@[0].1);
        let first = fields_of(&cs, lo0, hi0);
        let headers = lower_fields(&first, 0);
        assert(seqs(first@).subrange(0, first@.len() as int) =~= seqs(first@));
        let cols = resolve_columns(&headers);
        let mut j: usize = 1;
        assert(lines.subrange(1, 1) =~= Seq::<Seq<char>>::empty());
        assert(views(rows@) =~= Seq::<FlexTradeView>::empty());
        while j < ranges.len()
            invariant
                1 <= j <= ranges@.len(),
                ranges@.len() == lines.len(),
                forall|k: int| 0 <= k < ranges@.len() ==> #[trigger] ranges@[k].0 <= ranges@[k].1 <= cs@.len(),
                forall|k: int|
                    0 <= k < ranges@.len() ==> cs@.subrange(ranges@[k].0 as int, ranges@[k].1 as int)
                        == #[trigger] lines[k],
                cols == layout(lower_all(csv_fields(lines[0]))),
                views(rows@) == collect_rows(lines.subrange(1, j as int), cols, 0),
            decreases ranges@.len() - j,
        {
            let (lo, hi) = ranges[j];
            assert(ranges@[j as int].0 <= ranges@[j as int].1);
            let f = fields_of(&cs, lo, hi);
            assert(lines.subrange(1, j + 1).drop_last() =~= lines.subrange(1, j as int));
            assert(lines.subrange(1, j + 1).last() == lines[j as int]);
            let ghost before = rows@;
            match parse_csv_row(&f, &cols, 0) {
                Some(t) => {
                    rows.push(t);
                    assert(views(rows@) =~= views(before).push(t@));
                },
                None => {},
            }
            j = j + 1;
        }
        assert(lines.subrange(1, lines.len() as int) == lines.subrange(1, j as int));
        return number_repeats(rows);
    }
    let mut headers: Vec<Vec<char>> = Vec::new();
    let mut cols = resolve_columns(&headers);
    let mut rows: Vec<FlexTrade> = Vec::new();
    let mut j: usize = 0;
    assert(lines.subrange(0, 0) =~= Seq::<Seq<char>>::empty());
    assert(seqs(headers@) =~= Seq::<Seq<char>>::empty());
    assert(views(rows@) =~= Seq::<FlexTradeView>::empty());
    while j < ranges.len()
        invariant
            0 <= j <= ranges@.len(),
            ranges@.len() == lines.len(),
            forall|k: int| 0 <= k < ranges@.len() ==> #[trigger] ranges@[k].0 <= ranges@[k].1 <= cs@.len(),
            forall|k: int|
                0 <= k < ranges@.len() ==> cs@.subrange(ranges@[k].0 as int, ranges@[k].1 as int)
                    == #[trigger] lines[k],
            header_tag@ == "HEADER"@,
            data_tag@ == "DATA"@,
            trnt@ == "TRNT"@,
            section_scan(lines.subrange(0, j as int)).0 == seqs(headers@),
            section_scan(lines.subrange(0, j as int)).1 == views(rows@),
            cols == layout(seqs(headers@)),
        decreases ranges@.len() - j,
    {
        let (lo, hi) = ranges[j];
        assert(ranges@[j as int].0 <= ranges@[j as int].1);
        let f = fields_of(&cs, lo, hi);
        assert(lines.subrange(0, j + 1).drop_last() =~= lines.subrange(0, j as int));
        assert(lines.subrange(0, j + 1).last() == lines[j as int]);
        if tagged(&f, &header_tag, &trnt) {
            headers = lower_fields(&f, 2);
            cols = resolve_columns(&headers);
        } else if tagged(&f, &data_tag, &trnt) && headers.len() > 0 {
            let ghost before = rows@;
            match parse_csv_row(&f, &cols, 2) {
                Some(t) => {
                    rows.push(t);
                    assert(views(rows@) =~= views(before).push(t@));
                },
                None => {},
            }
        }
        j = j + 1;
    }
    assert(lines.subrange(0, lines.len() as int) =~= lines);
    number_repeats(rows)
}

} // verus!
