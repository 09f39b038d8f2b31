use vstd::prelude::*;
use crate::csv::{
    collect_rows, count_in, csv_fields, csv_row, escape_char, escaped, fingerprint, flex_csv,
    is_synthetic, plain_rows, round_div,
    section_scan, trade_ids, with_ordinals, Columns,
};
use crate::fetch::statement_records;
use crate::json::{records_of_statements, records_of_trades, statement_trades, Json};
use crate::record::{closed_views, is_closed, lemma_normalized_ok, well_formed, FlexTradeView};
use crate::text::{digit_char, int_text, nat_text, upper};
use crate::xml::records_of_tags;

verus! {

pub open spec fn all_well_formed(vs: Seq<FlexTradeView>) -> bool {
    forall|i: int| 0 <= i < vs.len() ==> well_formed(#[trigger] vs[i])
}

proof fn lemma_csv_row_wf(fields: Seq<Seq<char>>, c: Columns, offset: int)
    ensures
        csv_row(fields, c, offset) matches Some(v) ==> well_formed(v),
{
    lemma_normalized_ok(crate::csv::text_cell(fields, c.expiry, offset));
}

proof fn lemma_collect_rows_wf(lines: Seq<Seq<char>>, c: Columns, offset: int)
    ensures
        all_well_formed(collect_rows(lines, c, offset)),
    decreases lines.len(),
{
    if lines.len() > 0 {
        lemma_collect_rows_wf(lines.drop_last(), c, offset);
        lemma_csv_row_wf(csv_fields(lines.last()), c, offset);
    }
}

proof fn lemma_section_scan_wf(lines: Seq<Seq<char>>)
    ensures
        all_well_formed(section_scan(lines).1),
    decreases lines.len(),
{
    if lines.len() > 0 {
        lemma_section_scan_wf(lines.drop_last());
        let st = section_scan(lines.drop_last());
        lemma_csv_row_wf(csv_fields(lines.last()), crate::csv::layout(st.0), 2);
    }
}

proof fn lemma_ordinals_wf(vs: Seq<FlexTradeView>)
    requires
        all_well_formed(vs),
    ensures
        all_well_formed(with_ordinals(vs)),
{
    assert forall|i: int| 0 <= i < with_ordinals(vs).len() implies well_formed(
        #[trigger] with_ordinals(vs)[i],
    ) by {
        assert(well_formed(vs[i]));
    }
}

proof fn lemma_csv_wf(text: Seq<char>)
    ensures
        all_well_formed(flex_csv(text)),
{
    let lines = crate::csv::lines_of(text);
    lemma_section_scan_wf(lines);
    if lines.len() > 0 {
        lemma_collect_rows_wf(
            lines.subrange(1, lines.len() as int),
            crate::csv::layout(crate::csv::lower_all(csv_fields(lines[0]))),
            0,
        );
    }
    lemma_ordinals_wf(section_scan(lines).1);
    lemma_ordinals_wf(plain_rows(lines));
}

proof fn lemma_tags_wf(tags: Seq<Seq<char>>)
    ensures
        all_well_formed(records_of_tags(tags)),
    decreases tags.len(),
{
    if tags.len() > 0 {
        lemma_tags_wf(tags.drop_last());
        lemma_normalized_ok(crate::xml::attr_text(tags.last(), "expiry"@));
    }
}

proof fn lemma_json_trades_wf(ts: Seq<Json>)
    ensures
        all_well_formed(records_of_trades(ts)),
    decreases ts.len(),
{
    if ts.len() > 0 {
        lemma_json_trades_wf(ts.drop_last());
        let v = ts.last();
        if crate::json::text_member(v, "expiry"@) is Some {
            lemma_normalized_ok(crate::json::text_member(v, "expiry"@)->0);
        }
    }
}

proof fn lemma_json_statements_wf(sts: Seq<Json>)
    ensures
        all_well_formed(records_of_statements(sts)),
    decreases sts.len(),
{
    if sts.len() > 0 {
        lemma_json_statements_wf(sts.drop_last());
        lemma_json_trades_wf(statement_trades(sts.last()));
        let a = records_of_statements(sts.drop_last());
        let b = records_of_trades(statement_trades(sts.last()));
        assert forall|i: int| 0 <= i < (a + b).len() implies well_formed(#[trigger] (a + b)[i]) by {
            if i < a.len() {
                assert((a + b)[i] == a[i]);
            } else {
                assert((a + b)[i] == b[i - a.len()]);
            }
        }
    }
}

proof fn lemma_filter_wf(vs: Seq<FlexTradeView>)
    requires
        all_well_formed(vs),
    ensures
        all_well_formed(closed_views(vs)),
    decreases vs.len(),
{
    reveal(Seq::filter);
    if vs.len() > 0 {
        lemma_filter_wf(vs.drop_last());
    }
}

/// Every record that a statement of any format yields, and every record that the closed-trade
/// filter then keeps, has a symbol, a non-negative quantity and commission, a multiplier of
/// at least one and an expiry that is not an undashed eight-digit date, whatever signs the
/// source used.
pub proof fn emitted_records_well_formed(content_type: Option<Seq<char>>, body: Seq<char>)
    ensures
        statement_records(content_type, body) matches Some(vs) ==> all_well_formed(vs)
            && all_well_formed(closed_views(vs)),
{
    lemma_csv_wf(body);
    lemma_tags_wf(crate::xml::trade_tags_from(body, 0));
    match crate::json::json_document(body) {
        Some(d) => lemma_json_statements_wf(crate::json::statements(d)),
        None => {},
    }
    match statement_records(content_type, body) {
        Some(vs) => lemma_filter_wf(vs),
        None => {},
    }
}

proof fn lemma_filter_members(vs: Seq<FlexTradeView>, v: FlexTradeView)
    ensures
        closed_views(vs).contains(v) <==> vs.contains(v) && is_closed(v.open_close),
    decreases vs.len(),
{
    reveal(Seq::filter);
    if vs.len() > 0 {
        lemma_filter_members(vs.drop_last(), v);
        let before = closed_views(vs.drop_last());
        assert(vs =~= vs.drop_last().push(vs.last()));
        if vs.contains(v) && is_closed(v.open_close) {
            if v == vs.last() {
                assert(closed_views(vs).last() == v);
            } else {
                let i = choose|i: int| 0 <= i < vs.len() && vs[i] == v;
                assert(vs.drop_last()[i] == v);
                let j = choose|j: int| 0 <= j < before.len() && before[j] == v;
                assert(closed_views(vs)[j] == v);
            }
        }
        if closed_views(vs).contains(v) {
            let j = choose|j: int| 0 <= j < closed_views(vs).len() && closed_views(vs)[j] == v;
            if j < before.len() {
                assert(before[j] == v);
                let i = choose|i: int| 0 <= i < vs.drop_last().len() && vs.drop_last()[i] == v;
                assert(vs[i] == v);
            } else {
                assert(v == vs.last());
                assert(vs[vs.len() - 1] == v);
            }
        }
    }
}

/// The closed-trade filter keeps exactly the records whose open/close indicator is empty or
/// `C` in either case, and drops those marked `O`.
pub proof fn closed_filter_keeps_closed(vs: Seq<FlexTradeView>, v: FlexTradeView)
    ensures
        closed_views(vs).contains(v) <==> vs.contains(v) && is_closed(v.open_close),
        is_closed(Seq::empty()),
        is_closed(seq!['C']),
        is_closed(seq!['c']),
        !is_closed(seq!['O']),
{
    lemma_filter_members(vs, v);
    assert(upper(seq!['c']) =~= seq!['C']);
    assert(upper(seq!['C']) =~= seq!['C']);
    assert(upper(seq!['O']) =~= seq!['O']);
    assert(seq!['O'][0] != seq!['C'][0]);
}

proof fn lemma_nat_text_nonempty(n: nat)
    ensures
        nat_text(n).len() >= 1,
        n >= 10 ==> nat_text(n).len() >= 2,
    decreases n,
{
    if n >= 10 {
        lemma_nat_text_nonempty(n / 10);
    }
}

proof fn lemma_nat_text_injective(a: nat, b: nat)
    requires
        nat_text(a) == nat_text(b),
    ensures
        a == b,
    decreases a,
{
    lemma_nat_text_nonempty(a);
    lemma_nat_text_nonempty(b);
    if a < 10 && b < 10 {
        assert(nat_text(a)[0] == digit_char(a as int));
        assert(nat_text(b)[0] == digit_char(b as int));
        assert(digit_char(a as int) as u32 == a + 48);
        assert(digit_char(b as int) as u32 == b + 48);
    } else if a >= 10 && b >= 10 {
        let ta = nat_text(a);
        let tb = nat_text(b);
        assert(ta.last() == digit_char((a % 10) as int));
        assert(tb.last() == digit_char((b % 10) as int));
        assert(digit_char((a % 10) as int) as u32 == a % 10 + 48);
        assert(digit_char((b % 10) as int) as u32 == b % 10 + 48);
        assert(ta.drop_last() =~= nat_text(a / 10));
        assert(tb.drop_last() =~= nat_text(b / 10));
        lemma_nat_text_injective(a / 10, b / 10);
    } else {
        assert(nat_text(a).len() != nat_text(b).len());
    }
}

proof fn lemma_count_step(ids: Seq<Seq<char>>, id: Seq<char>, k: int)
    requires
        0 <= k < ids.len(),
    ensures
        count_in(ids.subrange(0, k + 1), id) == count_in(ids.subrange(0, k), id) + if ids[k] == id {
            1nat
        } else {
            0nat
        },
{
    assert(ids.subrange(0, k + 1).drop_last() =~= ids.subrange(0, k));
}

proof fn lemma_count_grows(ids: Seq<Seq<char>>, id: Seq<char>, i: int, j: int)
    requires
        0 <= i < j <= ids.len(),
        ids[i] == id,
    ensures
        count_in(ids.subrange(0, j), id) >= count_in(ids.subrange(0, i), id) + 1,
    decreases j - i,
{
    lemma_count_step(ids, id, j - 1);
    if j - 1 > i {
        lemma_count_grows(ids, id, i, j - 1);
    }
}

/// Two records of one parse that carry the same synthesized id get distinct ids: the later
/// one carries that id with `|n` appended, `n` at least one, and each record keeps its
/// place and every other field.
pub proof fn repeated_ids_get_ordinals(vs: Seq<FlexTradeView>, i: int, j: int)
    requires
        0 <= i < j < vs.len(),
        vs[i].trade_id == vs[j].trade_id,
        is_synthetic(vs[j].trade_id),
    ensures
        with_ordinals(vs).len() == vs.len(),
        with_ordinals(vs)[i].trade_id != with_ordinals(vs)[j].trade_id,
        exists|n: nat|
            n >= 1 && with_ordinals(vs)[j].trade_id == vs[j].trade_id + "|"@ + nat_text(n),
        with_ordinals(vs)[j].symbol == vs[j].symbol,
        with_ordinals(vs)[j].quantity == vs[j].quantity,
{
    let id = vs[j].trade_id;
    let ids = trade_ids(vs);
    lemma_count_grows(ids, id, i, j);
    let ci = count_in(ids.subrange(0, i), id);
    let cj = count_in(ids.subrange(0, j), id);
    reveal_strlit("|");
    assert(with_ordinals(vs)[j].trade_id == id + "|"@ + nat_text(cj));
    if ci == 0 {
        assert(with_ordinals(vs)[i].trade_id == id);
        assert((id + "|"@ + nat_text(cj)).len() > id.len());
    } else {
        let a = id + "|"@ + nat_text(ci);
        let b = id + "|"@ + nat_text(cj);
        assert(with_ordinals(vs)[i].trade_id == a);
        if a == b {
            assert(a.subrange(id.len() + 1int, a.len() as int) =~= nat_text(ci));
            assert(b.subrange(id.len() + 1int, b.len() as int) =~= nat_text(cj));
            lemma_nat_text_injective(ci, cj);
        }
    }
}

/// How many `|` a text holds.
pub open spec fn bars(s: Seq<char>) -> nat
    decreases s.len(),
{
    if s.len() == 0 {
        0
    } else {
        bars(s.drop_last()) + if s.last() == '|' {
            1nat
        } else {
            0nat
        }
    }
}

proof fn lemma_bars_concat(a: Seq<char>, b: Seq<char>)
    ensures
        bars(a + b) == bars(a) + bars(b),
    decreases b.len(),
{
    if b.len() == 0 {
        assert(a + b =~= a);
    } else {
        lemma_bars_concat(a, b.drop_last());
        assert((a + b).drop_last() =~= a + b.drop_last());
        assert((a + b).last() == b.last());
    }
}

proof fn lemma_bars_one(c: char)
    ensures
        bars(seq![c]) == if c == '|' {
            1nat
        } else {
            0nat
        },
{
    reveal_with_fuel(bars, 2);
    assert(seq![c].drop_last() =~= Seq::<char>::empty());
}

proof fn lemma_nat_text_no_bar(n: nat)
    ensures
        bars(nat_text(n)) == 0,
        forall|j: int| 0 <= j < nat_text(n).len() ==> #[trigger] nat_text(n)[j] != '|',
    decreases n,
{
    if n < 10 {
        assert(digit_char(n as int) as u32 == n + 48);
        lemma_bars_one(digit_char(n as int));
    } else {
        lemma_nat_text_no_bar(n / 10);
        let d = digit_char((n % 10) as int);
        assert(d as u32 == n % 10 + 48);
        lemma_bars_concat(nat_text(n / 10), seq![d]);
        lemma_bars_one(d);
        assert forall|j: int| 0 <= j < nat_text(n).len() implies #[trigger] nat_text(n)[j] != '|' by {
            if j < nat_text(n / 10).len() {
                assert(nat_text(n)[j] == nat_text(n / 10)[j]);
            }
        }
    }
}

proof fn lemma_bar_single()
    ensures
        bars("|"@) == 1,
{
    reveal_strlit("|");
    assert("|"@ =~= seq!['|']);
    lemma_bars_one('|');
}

proof fn lemma_int_text_no_bar(i: int)
    ensures
        bars(int_text(i)) == 0,
{
    if i < 0 {
        lemma_nat_text_no_bar((-i) as nat);
        lemma_bars_concat(seq!['-'], nat_text((-i) as nat));
        lemma_bars_one('-');
    } else {
        lemma_nat_text_no_bar(i as nat);
    }
}

proof fn lemma_bars_three(a: char, b: char, c: char)
    ensures
        bars(seq![a, b, c]) == bars(seq![a]) + bars(seq![b]) + bars(seq![c]),
{
    assert(seq![a, b, c] =~= seq![a] + seq![b] + seq![c]);
    lemma_bars_concat(seq![a], seq![b]);
    lemma_bars_concat(seq![a] + seq![b], seq![c]);
}

proof fn lemma_escape_char_no_bar(c: char)
    ensures
        bars(escape_char(c)) == 0,
{
    lemma_bars_one(c);
    lemma_bars_one('%');
    lemma_bars_one('2');
    lemma_bars_one('5');
    lemma_bars_one('7');
    lemma_bars_one('C');
    lemma_bars_three('%', '2', '5');
    lemma_bars_three('%', '7', 'C');
}

proof fn lemma_escaped_no_bar(s: Seq<char>)
    ensures
        bars(escaped(s)) == 0,
    decreases s.len(),
{
    if s.len() > 0 {
        lemma_escaped_no_bar(s.drop_last());
        lemma_escape_char_no_bar(s.last());
        lemma_bars_concat(escaped(s.drop_last()), escape_char(s.last()));
    }
}

proof fn lemma_no_bar_anywhere(s: Seq<char>)
    requires
        bars(s) == 0,
    ensures
        forall|j: int| 0 <= j < s.len() ==> #[trigger] s[j] != '|',
    decreases s.len(),
{
    if s.len() > 0 {
        lemma_no_bar_anywhere(s.drop_last());
        assert forall|j: int| 0 <= j < s.len() implies #[trigger] s[j] != '|' by {
            if j < s.len() - 1 {
                assert(s[j] == s.drop_last()[j]);
            }
        }
    }
}

proof fn lemma_escaped_concat(a: Seq<char>, b: Seq<char>)
    ensures
        escaped(a + b) == escaped(a) + escaped(b),
    decreases b.len(),
{
    if b.len() == 0 {
        assert(a + b =~= a);
        assert(escaped(a) + escaped(b) =~= escaped(a));
    } else {
        lemma_escaped_concat(a, b.drop_last());
        assert((a + b).drop_last() =~= a + b.drop_last());
        assert((a + b).last() == b.last());
        assert(escaped(a) + escaped(b) =~= escaped(a) + escaped(b.drop_last()) + escape_char(
            b.last(),
        ));
    }
}

proof fn lemma_escaped_front(s: Seq<char>)
    requires
        s.len() > 0,
    ensures
        escaped(s) == escape_char(s[0]) + escaped(s.drop_first()),
{
    assert(s =~= seq![s[0]] + s.drop_first());
    lemma_escaped_concat(seq![s[0]], s.drop_first());
    reveal_with_fuel(escaped, 2);
    assert(seq![s[0]].drop_last() =~= Seq::<char>::empty());
    assert(escaped(seq![s[0]]) =~= escape_char(s[0]));
}

proof fn lemma_escaped_injective(x: Seq<char>, y: Seq<char>)
    requires
        escaped(x) == escaped(y),
    ensures
        x == y,
    decreases x.len(),
{
    if x.len() == 0 && y.len() == 0 {
        assert(x =~= y);
    } else if x.len() == 0 {
        lemma_escaped_front(y);
    } else if y.len() == 0 {
        lemma_escaped_front(x);
    } else {
        lemma_escaped_front(x);
        lemma_escaped_front(y);
        let e = escaped(x);
        let ex = escape_char(x[0]);
        let ey = escape_char(y[0]);
        assert(e[0] == ex[0]);
        assert(e[0] == ey[0]);
        if ex.len() == 3 {
            assert(e[1] == ex[1]);
            assert(e[1] == ey[1]);
        }
        assert(x[0] == y[0]);
        assert(escaped(x.drop_first()) =~= e.subrange(ex.len() as int, e.len() as int));
        assert(escaped(y.drop_first()) =~= e.subrange(ey.len() as int, e.len() as int));
        lemma_escaped_injective(x.drop_first(), y.drop_first());
        assert(x =~= seq![x[0]] + x.drop_first());
        assert(y =~= seq![y[0]] + y.drop_first());
    }
}

proof fn lemma_split_bar(a: Seq<char>, r1: Seq<char>, b: Seq<char>, r2: Seq<char>)
    requires
        bars(a) == 0,
        bars(b) == 0,
        a + seq!['|'] + r1 == b + seq!['|'] + r2,
    ensures
        a == b,
        r1 == r2,
{
    lemma_no_bar_anywhere(a);
    lemma_no_bar_anywhere(b);
    let x = a + seq!['|'] + r1;
    let y = b + seq!['|'] + r2;
    if a.len() < b.len() {
        assert(x[a.len() as int] == '|');
        assert(y[a.len() as int] == b[a.len() as int]);
    } else if b.len() < a.len() {
        assert(y[b.len() as int] == '|');
        assert(x[b.len() as int] == a[b.len() as int]);
    } else {
        assert(a =~= x.subrange(0, a.len() as int));
        assert(b =~= y.subrange(0, b.len() as int));
        assert(r1 =~= x.subrange(a.len() + 1int, x.len() as int));
        assert(r2 =~= y.subrange(b.len() + 1int, y.len() as int));
    }
}

proof fn lemma_nat_text_first(n: nat)
    ensures
        nat_text(n)[0] != '-',
    decreases n,
{
    lemma_nat_text_nonempty(n);
    if n < 10 {
        assert(digit_char(n as int) as u32 == n + 48);
    } else {
        lemma_nat_text_first(n / 10);
        lemma_nat_text_nonempty(n / 10);
        assert(nat_text(n)[0] == nat_text(n / 10)[0]);
    }
}

proof fn lemma_int_text_injective(i: int, j: int)
    requires
        int_text(i) == int_text(j),
    ensures
        i == j,
{
    if i < 0 && j < 0 {
        assert(int_text(i).drop_first() =~= nat_text((-i) as nat));
        assert(int_text(j).drop_first() =~= nat_text((-j) as nat));
        lemma_nat_text_injective((-i) as nat, (-j) as nat);
    } else if i < 0 {
        lemma_nat_text_first(j as nat);
    } else if j < 0 {
        lemma_nat_text_first(i as nat);
    } else {
        lemma_nat_text_injective(i as nat, j as nat);
    }
}

/// The text of a fingerprint after `SYN|`: its eight parts joined by `|`.
pub open spec fn fingerprint_rest(
    symbol: Seq<char>,
    date: Seq<char>,
    side: Seq<char>,
    quantity: int,
    price: int,
    strike: int,
    put_call: Seq<char>,
    expiry: Seq<char>,
) -> Seq<char> {
    let b = seq!['|'];
    escaped(symbol) + b + (escaped(date) + b + (escaped(side) + b + (int_text(quantity) + b + (
    int_text(round_div(price, 100)) + b + (int_text(round_div(strike, 10000)) + b + (escaped(
        put_call,
    ) + b + escaped(expiry)))))))
}

proof fn lemma_fingerprint_shape(
    symbol: Seq<char>,
    date: Seq<char>,
    side: Seq<char>,
    quantity: int,
    price: int,
    strike: int,
    put_call: Seq<char>,
    expiry: Seq<char>,
)
    ensures
        fingerprint(symbol, date, side, quantity, price, strike, put_call, expiry) == "SYN|"@
            + fingerprint_rest(symbol, date, side, quantity, price, strike, put_call, expiry),
        "SYN|"@.len() == 4,
{
    reveal_strlit("|");
    reveal_strlit("SYN|");
    assert("|"@ =~= seq!['|']);
    assert(fingerprint(symbol, date, side, quantity, price, strike, put_call, expiry) =~= "SYN|"@
        + fingerprint_rest(symbol, date, side, quantity, price, strike, put_call, expiry));
}

/// Every synthesized id is marked `SYN|` and holds exactly eight `|`, whatever its fields
/// hold: `%` and `|` in a text field are escaped.
pub proof fn fingerprint_bars(
    symbol: Seq<char>,
    date: Seq<char>,
    side: Seq<char>,
    quantity: int,
    price: int,
    strike: int,
    put_call: Seq<char>,
    expiry: Seq<char>,
)
    ensures
        bars(fingerprint(symbol, date, side, quantity, price, strike, put_call, expiry)) == 8,
        is_synthetic(fingerprint(symbol, date, side, quantity, price, strike, put_call, expiry)),
{
    let bar = "|"@;
    lemma_bar_single();
    reveal_strlit("SYN|");
    reveal_strlit("|");
    assert("SYN|"@ =~= seq!['S'] + seq!['Y'] + seq!['N'] + bar);
    lemma_bars_one('S');
    lemma_bars_one('Y');
    lemma_bars_one('N');
    lemma_bars_concat(seq!['S'], seq!['Y']);
    lemma_bars_concat(seq!['S'] + seq!['Y'], seq!['N']);
    lemma_bars_concat(seq!['S'] + seq!['Y'] + seq!['N'], bar);
    let e1 = escaped(symbol);
    let e2 = escaped(date);
    let e3 = escaped(side);
    let e7 = escaped(put_call);
    let e8 = escaped(expiry);
    lemma_escaped_no_bar(symbol);
    lemma_escaped_no_bar(date);
    lemma_escaped_no_bar(side);
    lemma_escaped_no_bar(put_call);
    lemma_escaped_no_bar(expiry);
    let q = int_text(quantity);
    let p = int_text(crate::csv::round_div(price, 100));
    let k = int_text(crate::csv::round_div(strike, 10000));
    lemma_int_text_no_bar(quantity);
    lemma_int_text_no_bar(crate::csv::round_div(price, 100));
    lemma_int_text_no_bar(crate::csv::round_div(strike, 10000));
    let s1 = "SYN|"@ + e1;
    lemma_bars_concat("SYN|"@, e1);
    let s2 = s1 + bar;
    lemma_bars_concat(s1, bar);
    let s3 = s2 + e2;
    lemma_bars_concat(s2, e2);
    let s4 = s3 + bar;
    lemma_bars_concat(s3, bar);
    let s5 = s4 + e3;
    lemma_bars_concat(s4, e3);
    let s6 = s5 + bar;
    lemma_bars_concat(s5, bar);
    let s7 = s6 + q;
    lemma_bars_concat(s6, q);
    let s8 = s7 + bar;
    lemma_bars_concat(s7, bar);
    let s9 = s8 + p;
    lemma_bars_concat(s8, p);
    let s10 = s9 + bar;
    lemma_bars_concat(s9, bar);
    let s11 = s10 + k;
    lemma_bars_concat(s10, k);
    let s12 = s11 + bar;
    lemma_bars_concat(s11, bar);
    let s13 = s12 + e7;
    lemma_bars_concat(s12, e7);
    let s14 = s13 + bar;
    lemma_bars_concat(s13, bar);
    lemma_bars_concat(s14, e8);
    lemma_fingerprint_shape(symbol, date, side, quantity, price, strike, put_call, expiry);
    let f = fingerprint(symbol, date, side, quantity, price, strike, put_call, expiry);
    assert(f.subrange(0, 4) =~= "SYN|"@);
}

/// Rows that differ in any part of the fingerprint (symbol, date, side, quantity, price to
/// four places, strike to two places, put/call, expiry) get different synthesized ids.
pub proof fn fingerprint_injective(
    symbol: Seq<char>,
    date: Seq<char>,
    side: Seq<char>,
    quantity: int,
    price: int,
    strike: int,
    put_call: Seq<char>,
    expiry: Seq<char>,
    symbol2: Seq<char>,
    date2: Seq<char>,
    side2: Seq<char>,
    quantity2: int,
    price2: int,
    strike2: int,
    put_call2: Seq<char>,
    expiry2: Seq<char>,
)
    requires
        fingerprint(symbol, date, side, quantity, price, strike, put_call, expiry) == fingerprint(
            symbol2,
            date2,
            side2,
            quantity2,
            price2,
            strike2,
            put_call2,
            expiry2,
        ),
    ensures
        symbol == symbol2,
        date == date2,
        side == side2,
        quantity == quantity2,
        round_div(price, 100) == round_div(price2, 100),
        round_div(strike, 10000) == round_div(strike2, 10000),
        put_call == put_call2,
        expiry == expiry2,
{
    lemma_fingerprint_shape(symbol, date, side, quantity, price, strike, put_call, expiry);
    lemma_fingerprint_shape(symbol2, date2, side2, quantity2, price2, strike2, put_call2, expiry2);
    let f = fingerprint(symbol, date, side, quantity, price, strike, put_call, expiry);
    let r1 = fingerprint_rest(symbol, date, side, quantity, price, strike, put_call, expiry);
    let r2 = fingerprint_rest(symbol2, date2, side2, quantity2, price2, strike2, put_call2, expiry2);
    assert(r1 =~= f.subrange(4, f.len() as int));
    assert(r2 =~= f.subrange(4, f.len() as int));
    let b = seq!['|'];
    lemma_escaped_no_bar(symbol);
    lemma_escaped_no_bar(symbol2);
    lemma_escaped_no_bar(date);
    lemma_escaped_no_bar(date2);
    lemma_escaped_no_bar(side);
    lemma_escaped_no_bar(side2);
    lemma_escaped_no_bar(put_call);
    lemma_escaped_no_bar(put_call2);
    lemma_int_text_no_bar(quantity);
    lemma_int_text_no_bar(quantity2);
    lemma_int_text_no_bar(round_div(price, 100));
    lemma_int_text_no_bar(round_div(price2, 100));
    lemma_int_text_no_bar(round_div(strike, 10000));
    lemma_int_text_no_bar(round_div(strike2, 10000));
    let t7 = escaped(put_call) + b + escaped(expiry);
    let u7 = escaped(put_call2) + b + escaped(expiry2);
    let t6 = int_text(round_div(strike, 10000)) + b + t7;
    let u6 = int_text(round_div(strike2, 10000)) + b + u7;
    let t5 = int_text(round_div(price, 100)) + b + t6;
    let u5 = int_text(round_div(price2, 100)) + b + u6;
    let t4 = int_text(quantity) + b + t5;
    let u4 = int_text(quantity2) + b + u5;
    let t3 = escaped(side) + b + t4;
    let u3 = escaped(side2) + b + u4;
    let t2 = escaped(date) + b + t3;
    let u2 = escaped(date2) + b + u3;
    lemma_split_bar(escaped(symbol), t2, escaped(symbol2), u2);
    lemma_split_bar(escaped(date), t3, escaped(date2), u3);
    lemma_split_bar(escaped(side), t4, escaped(side2), u4);
    lemma_split_bar(int_text(quantity), t5, int_text(quantity2), u5);
    lemma_split_bar(int_text(round_div(price, 100)), t6, int_text(round_div(price2, 100)), u6);
    lemma_split_bar(
        int_text(round_div(strike, 10000)),
        t7,
        int_text(round_div(strike2, 10000)),
        u7,
    );
    lemma_split_bar(escaped(put_call), escaped(expiry), escaped(put_call2), escaped(expiry2));
    lemma_escaped_injective(symbol, symbol2);
    lemma_escaped_injective(date, date2);
    lemma_escaped_injective(side, side2);
    lemma_escaped_injective(put_call, put_call2);
    lemma_escaped_injective(expiry, expiry2);
    lemma_int_text_injective(quantity, quantity2);
    lemma_int_text_injective(round_div(price, 100), round_div(price2, 100));
    lemma_int_text_injective(round_div(strike, 10000), round_div(strike2, 10000));
}

proof fn lemma_numbered_shape(vs: Seq<FlexTradeView>, k: int)
    requires
        0 <= k < vs.len(),
    ensures
        with_ordinals(vs)[k].trade_id == vs[k].trade_id || exists|n: nat|
            with_ordinals(vs)[k].trade_id == vs[k].trade_id + "|"@ + nat_text(n),
{
    let n = count_in(trade_ids(vs).subrange(0, k), vs[k].trade_id);
    if is_synthetic(vs[k].trade_id) && n > 0 {
        assert(with_ordinals(vs)[k].trade_id == vs[k].trade_id + "|"@ + nat_text(n));
    }
}

/// Records whose ids differ, and hold as many `|` (as every two synthesized ids do), still
/// differ in id once repeats are numbered.
pub proof fn distinct_ids_stay_distinct(vs: Seq<FlexTradeView>, i: int, k: int)
    requires
        0 <= i < vs.len(),
        0 <= k < vs.len(),
        vs[i].trade_id != vs[k].trade_id,
        bars(vs[i].trade_id) == bars(vs[k].trade_id),
    ensures
        with_ordinals(vs)[i].trade_id != with_ordinals(vs)[k].trade_id,
{
    let a = vs[i].trade_id;
    let b = vs[k].trade_id;
    let x = with_ordinals(vs)[i].trade_id;
    let y = with_ordinals(vs)[k].trade_id;
    lemma_numbered_shape(vs, i);
    lemma_numbered_shape(vs, k);
    lemma_bar_single();
    reveal_strlit("|");
    if x == y {
        if x != a && y != b {
            let n = choose|n: nat| x == a + "|"@ + nat_text(n);
            let m = choose|m: nat| y == b + "|"@ + nat_text(m);
            lemma_nat_text_no_bar(n);
            lemma_nat_text_no_bar(m);
            lemma_nat_text_nonempty(n);
            lemma_nat_text_nonempty(m);
            assert(x.len() == a.len() + 1 + nat_text(n).len());
            assert(y.len() == b.len() + 1 + nat_text(m).len());
            if a.len() < b.len() {
                assert(y[b.len() as int] == '|');
                assert(x[b.len() as int] == nat_text(n)[b.len() - a.len() - 1]);
            } else if b.len() < a.len() {
                assert(x[a.len() as int] == '|');
                assert(y[a.len() as int] == nat_text(m)[a.len() - b.len() - 1]);
            } else {
                assert(x.subrange(0, a.len() as int) =~= a);
                assert(y.subrange(0, b.len() as int) =~= b);
            }
        } else if x != a {
            let n = choose|n: nat| x == a + "|"@ + nat_text(n);
            lemma_nat_text_no_bar(n);
            lemma_bars_concat(a, "|"@);
            lemma_bars_concat(a + "|"@, nat_text(n));
        } else if y != b {
            let m = choose|m: nat| y == b + "|"@ + nat_text(m);
            lemma_nat_text_no_bar(m);
            lemma_bars_concat(b, "|"@);
            lemma_bars_concat(b + "|"@, nat_text(m));
        }
    }
}

/// When every record's id is synthesized (each then holds eight `|`), the numbered ids of
/// one parse are pairwise distinct: no record is collapsed into or confused with another.
pub proof fn synthesized_ids_unique(vs: Seq<FlexTradeView>)
    requires
        forall|k: int|
            0 <= k < vs.len() ==> is_synthetic(#[trigger] vs[k].trade_id) && bars(vs[k].trade_id)
                == 8,
    ensures
        forall|i: int, j: int|
            0 <= i < vs.len() && 0 <= j < vs.len() && i != j ==> #[trigger] with_ordinals(vs)[i].trade_id
                != #[trigger] with_ordinals(vs)[j].trade_id,
{
    assert forall|i: int, j: int|
        0 <= i < vs.len() && 0 <= j < vs.len() && i != j implies #[trigger] with_ordinals(
        vs,
    )[i].trade_id != #[trigger] with_ordinals(vs)[j].trade_id by {
        assert(is_synthetic(vs[i].trade_id) && bars(vs[i].trade_id) == 8);
        assert(is_synthetic(vs[j].trade_id) && bars(vs[j].trade_id) == 8);
        if vs[i].trade_id == vs[j].trade_id {
            if i < j {
                repeated_ids_get_ordinals(vs, i, j);
            } else {
                repeated_ids_get_ordinals(vs, j, i);
            }
        } else {
            distinct_ids_stay_distinct(vs, i, j);
        }
    }
}

/// A CSV row's record carries the row's trade id verbatim when it gives one; otherwise its
/// synthesized id, which is marked `SYN|` and holds eight `|`. So the records of a report
/// whose rows give no trade id all meet `synthesized_ids_unique`.
pub proof fn csv_row_id(fields: Seq<Seq<char>>, c: Columns, offset: int)
    ensures
        csv_row(fields, c, offset) matches Some(v) ==> (if crate::csv::text_cell(
            fields,
            c.trade_id,
            offset,
        ).len() > 0 {
            v.trade_id == crate::csv::text_cell(fields, c.trade_id, offset)
        } else {
            is_synthetic(v.trade_id) && bars(v.trade_id) == 8
        }),
{
    let symbol = crate::csv::text_cell(fields, c.symbol, offset);
    let side = crate::csv::side_of(fields, c, offset);
    let quantity = crate::csv::units_magnitude(crate::csv::num_cell(fields, c.quantity, offset));
    let dt = crate::csv::split_datetime(crate::csv::text_cell(fields, c.datetime, offset));
    fingerprint_bars(
        symbol,
        dt.0,
        side,
        quantity,
        crate::csv::num_cell(fields, c.price, offset),
        crate::csv::num_cell(fields, c.strike, offset),
        crate::csv::text_cell(fields, c.put_call, offset),
        crate::csv::text_cell(fields, c.expiry, offset),
    );
}

} // verus!
