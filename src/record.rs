use vstd::prelude::*;
use crate::number::all_digits;
use crate::text::{find, find_from, string_of, upper};

verus! {

/// One executed trade, in the form that every report format is brought to.
///
/// Numeric amounts (`price`, `commission`, `realized_pnl`, `strike`, `proceeds`,
/// `cost_basis`) are fixed-point values in millionths.
#[derive(Clone, Debug)]
pub struct FlexTrade {
    pub account_id: String,
    pub trade_id: String,
    pub symbol: String,
    pub asset_class: String,
    pub side: String,
    pub quantity: i32,
    pub multiplier: i32,
    pub price: i64,
    pub commission: i64,
    pub realized_pnl: i64,
    pub date: String,
    pub time: String,
    pub expiry: String,
    pub strike: i64,
    pub put_call: String,
    pub open_close: String,
    pub exchange: String,
    pub proceeds: i64,
    pub cost_basis: i64,
    pub notes: String,
}

/// The mathematical content of a `FlexTrade`.
pub struct FlexTradeView {
    pub account_id: Seq<char>,
    pub trade_id: Seq<char>,
    pub symbol: Seq<char>,
    pub asset_class: Seq<char>,
    pub side: Seq<char>,
    pub quantity: int,
    pub multiplier: int,
    pub price: int,
    pub commission: int,
    pub realized_pnl: int,
    pub date: Seq<char>,
    pub time: Seq<char>,
    pub expiry: Seq<char>,
    pub strike: int,
    pub put_call: Seq<char>,
    pub open_close: Seq<char>,
    pub exchange: Seq<char>,
    pub proceeds: int,
    pub cost_basis: int,
    pub notes: Seq<char>,
}

impl View for FlexTrade {
    type V = FlexTradeView;

    open spec fn view(&self) -> FlexTradeView {
        FlexTradeView {
            account_id: self.account_id@,
            trade_id: self.trade_id@,
            symbol: self.symbol@,
            asset_class: self.asset_class@,
            side: self.side@,
            quantity: self.quantity as int,
            multiplier: self.multiplier as int,
            price: self.price as int,
            commission: self.commission as int,
            realized_pnl: self.realized_pnl as int,
            date: self.date@,
            time: self.time@,
            expiry: self.expiry@,
            strike: self.strike as int,
            put_call: self.put_call@,
            open_close: self.open_close@,
            exchange: self.exchange@,
            proceeds: self.proceeds as int,
            cost_basis: self.cost_basis as int,
            notes: self.notes@,
        }
    }
}

pub open spec fn views(ts: Seq<FlexTrade>) -> Seq<FlexTradeView> {
    ts.map_values(|t: FlexTrade| t@)
}

/// The invariants that every emitted record keeps: a symbol, non-negative quantity and
/// commission, a multiplier of at least one, and an expiry that is never an undashed
/// eight-digit date (other texts pass through unchanged).
pub open spec fn well_formed(v: FlexTradeView) -> bool {
    &&& v.symbol.len() > 0
    &&& v.quantity >= 0
    &&& v.commission >= 0
    &&& v.multiplier >= 1
    &&& expiry_ok(v.expiry)
}

/// An expiry as records hold it: not eight digits in a row, which are always dashed.
pub open spec fn expiry_ok(e: Seq<char>) -> bool {
    e.len() != 8 || !all_digits(e)
}

/// An eight-digit `YYYYMMDD` expiry as `YYYY-MM-DD`; any other text unchanged.
pub open spec fn normalized_expiry(s: Seq<char>) -> Seq<char> {
    if s.len() == 8 && all_digits(s) {
        s.subrange(0, 4) + seq!['-'] + s.subrange(4, 6) + seq!['-'] + s.subrange(6, 8)
    } else {
        s
    }
}

/// Text before and after the first `sep`; all of it and nothing when `sep` is absent.
pub open spec fn split_first(s: Seq<char>, sep: char) -> (Seq<char>, Seq<char>) {
    match find_from(s, seq![sep], 0) {
        Some(p) => (s.subrange(0, p), s.subrange(p + 1, s.len() as int)),
        None => (s, Seq::empty()),
    }
}

/// A record is kept when its open/close indicator is empty or `C` in either case.
pub open spec fn is_closed(open_close: Seq<char>) -> bool {
    open_close.len() == 0 || upper(open_close) == seq!['C']
}

pub open spec fn closed_views(vs: Seq<FlexTradeView>) -> Seq<FlexTradeView> {
    vs.filter(|v: FlexTradeView| is_closed(v.open_close))
}

pub proof fn lemma_normalized_ok(s: Seq<char>)
    ensures
        expiry_ok(normalized_expiry(s)),
{
    if s.len() == 8 && all_digits(s) {
        let n = normalized_expiry(s);
        assert(n.len() == 10);
    }
}

pub(crate) fn normalize_expiry_chars(s: &Vec<char>) -> (r: Vec<char>)
    ensures
        r@ == normalized_expiry(s@),
        expiry_ok(r@),
{
    proof {
        lemma_normalized_ok(s@);
    }
    if s.len() != 8 {
        let mut same: Vec<char> = Vec::new();
        crate::text::push_all(&mut same, s);
        assert(same@ =~= s@);
        return same;
    }
    let mut i: usize = 0;
    while i < 8
        invariant
            s@.len() == 8,
            0 <= i <= 8,
            all_digits(s@.subrange(0, i as int)),
        decreases 8 - i,
    {
        if !('0' <= s[i] && s[i] <= '9') {
            assert(!crate::number::is_digit(s@[i as int]));
            let mut same: Vec<char> = Vec::new();
            crate::text::push_all(&mut same, s);
            assert(same@ =~= s@);
            return same;
        }
        assert(all_digits(s@.subrange(0, i + 1)));
        i = i + 1;
    }
    assert(s@.subrange(0, 8) =~= s@);
    let r: Vec<char> = vec![s[0], s[1], s[2], s[3], '-', s[4], s[5], '-', s[6], s[7]];
    assert(r@ =~= normalized_expiry(s@));
    r
}

/// An eight-digit `YYYYMMDD` expiry as `YYYY-MM-DD`; any other text unchanged.
pub fn normalize_expiry(expiry: &str) -> (r: String)
    ensures
        r@ == normalized_expiry(expiry@),
{
    let cs = crate::text::chars_of(expiry);
    let n = normalize_expiry_chars(&cs);
    string_of(&n, 0, n.len())
}

/// Splits `cs` at its first `sep`.
pub(crate) fn split_first_chars(cs: &Vec<char>, sep: char) -> (r: (String, String))
    ensures
        r.0@ == split_first(cs@, sep).0,
        r.1@ == split_first(cs@, sep).1,
{
    let n = cs.len();
    let pat: Vec<char> = vec![sep];
    assert(pat@ =~= seq![sep]);
    match find(cs, &pat, 0) {
        Some(p) => {
            proof {
                crate::number::lemma_find_bounds(cs@, seq![sep], 0);
            }
            (string_of(cs, 0, p), string_of(cs, p + 1, n))
        },
        None => (string_of(cs, 0, cs.len()), String::new()),
    }
}

/// Keeps the closed trades, in order: those whose open/close indicator is empty or `C`.
pub fn closed_trades(trades: Vec<FlexTrade>) -> (r: Vec<FlexTrade>)
    ensures
        views(r@) == closed_views(views(trades@)),
{
    let ghost orig = trades@;
    let mut rest = trades;
    let mut out: Vec<FlexTrade> = Vec::new();
    let c_word: Vec<char> = vec!['C'];
    assert(c_word@ =~= seq!['C']);
    let ghost k: int = 0;
    while rest.len() > 0
        invariant
            0 <= k <= orig.len(),
            rest@ == orig.subrange(k, orig.len() as int),
            views(out@) == closed_views(views(orig.subrange(0, k))),
            c_word@ == seq!['C'],
        decreases rest@.len(),
    {
        let t = rest.remove(0);
        let oc = crate::text::chars_of(t.open_close.as_str());
        let keep = oc.len() == 0 || crate::text::upper_equals(&oc, 0, oc.len(), &c_word);
        assert(oc@.subrange(0, oc@.len() as int) =~= oc@);
        let ghost prev = out@;
        let ghost tv = t@;
        proof {
            let before = views(orig.subrange(0, k));
            assert(views(orig.subrange(0, k + 1)) =~= before.push(tv));
            assert(before.push(tv).drop_last() =~= before);
            assert(keep == is_closed(tv.open_close));
            reveal(Seq::filter);
            assert(closed_views(before.push(tv)) == if keep {
                closed_views(before).push(tv)
            } else {
                closed_views(before)
            });
        }
        if keep {
            out.push(t);
            assert(views(out@) =~= views(prev).push(tv));
        } else {
            assert(views(out@) =~= views(prev));
        }
        proof {
            k = k + 1;
        }
        assert(rest@ =~= orig.subrange(k, orig.len() as int));
    }
    assert(orig.subrange(0, orig.len() as int) =~= orig);
    out
}

} // verus!
