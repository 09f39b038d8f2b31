use vstd::prelude::*;
use crate::text::{chars_of, push_all, to_string};

verus! {

/// The local gateway's address.
pub const IB_GATEWAY_URL: &'static str = "http://localhost:7496";

/// Seconds a gateway request may take.
pub const REQUEST_TIMEOUT: u64 = 30;

/// How many times a failed gateway request is tried again.
pub const MAX_RETRIES: u32 = 3;

/// The first pause before a gateway request is tried again, in milliseconds; it doubles
/// with each retry.
pub const RETRY_DELAY_MS: u64 = 1000;

/// The address of an account's trades on the gateway.
pub open spec fn trades_url_spec(account_id: Seq<char>) -> Seq<char> {
    IB_GATEWAY_URL@ + "/api/iserver/account/"@ + account_id + "/trades"@
}

pub fn trades_url(account_id: &str) -> (r: String)
    ensures
        r@ == trades_url_spec(account_id@),
{
    let mut out = chars_of(IB_GATEWAY_URL);
    push_all(&mut out, &chars_of("/api/iserver/account/"));
    push_all(&mut out, &chars_of(account_id));
    push_all(&mut out, &chars_of("/trades"));
    to_string(&out)
}

pub open spec fn pow2(n: nat) -> nat
    decreases n,
{
    if n == 0 {
        1
    } else {
        2 * pow2((n - 1) as nat)
    }
}

/// The pause before the next try after failed try `attempt` (counted from zero): the
/// first delay doubled `attempt` times; `None` once the retries are spent.
pub fn retry_delay(attempt: u32) -> (r: Option<u64>)
    ensures
        attempt < MAX_RETRIES ==> r == Some((RETRY_DELAY_MS * pow2(attempt as nat)) as u64),
        attempt >= MAX_RETRIES ==> r is None,
{
    if attempt >= MAX_RETRIES {
        return None;
    }
    let mut d: u64 = RETRY_DELAY_MS;
    let mut k: u32 = 0;
    while k < attempt
        invariant
            0 <= k <= attempt < MAX_RETRIES,
            d == RETRY_DELAY_MS * pow2(k as nat),
            d <= 4000,
            k == 0 ==> d == 1000,
            k == 1 ==> d == 2000,
            k == 2 ==> d == 4000,
        decreases attempt - k,
    {
        assert(pow2((k + 1) as nat) == 2 * pow2(k as nat));
        d = d * 2;
        k = k + 1;
    }
    Some(d)
}

/// Why a batch of gateway trades is refused.
#[derive(PartialEq, Eq, Structural, Clone, Copy, Debug)]
pub enum TradeCheck {
    EmptySymbol,
    EmptyTradeId,
}

/// The check of a batch from trade `i` on: the first trade with an empty symbol, or else an
/// empty trade id, refuses the batch.
pub open spec fn batch_check(symbols: Seq<String>, trade_ids: Seq<String>, i: int) -> Result<
    (),
    TradeCheck,
>
    decreases symbols.len() - i,
{
    if i < 0 || i >= symbols.len() || i >= trade_ids.len() {
        Ok(())
    } else if symbols[i]@.len() == 0 {
        Err(TradeCheck::EmptySymbol)
    } else if trade_ids[i]@.len() == 0 {
        Err(TradeCheck::EmptyTradeId)
    } else {
        batch_check(symbols, trade_ids, i + 1)
    }
}

/// Checks a batch of gateway trades, given as their symbols and trade ids in order; see
/// `batch_check`.
pub fn check_gateway_trades(symbols: &Vec<String>, trade_ids: &Vec<String>) -> (r: Result<
    (),
    TradeCheck,
>)
    requires
        symbols@.len() == trade_ids@.len(),
    ensures
        r == batch_check(symbols@, trade_ids@, 0),
{
    let mut i: usize = 0;
    while i < symbols.len()
        invariant
            symbols@.len() == trade_ids@.len(),
            0 <= i <= symbols@.len(),
            batch_check(symbols@, trade_ids@, 0) == batch_check(symbols@, trade_ids@, i as int),
        decreases symbols@.len() - i,
    {
        if chars_of(symbols[i].as_str()).len() == 0 {
            return Err(TradeCheck::EmptySymbol);
        }
        if chars_of(trade_ids[i].as_str()).len() == 0 {
            return Err(TradeCheck::EmptyTradeId);
        }
        i = i + 1;
    }
    Ok(())
}

/// Whether no trade before the `i`-th carries its trade id.
pub open spec fn is_first(trade_ids: Seq<String>, i: int) -> bool {
    forall|j: int| 0 <= j < i ==> trade_ids[j]@ != trade_ids[i]@
}

/// For each trade, whether it is the first of its trade id: the trades that remain once
/// later repeats of an id are dropped.
pub fn first_of_each(trade_ids: &Vec<String>) -> (r: Vec<bool>)
    ensures
        r@.len() == trade_ids@.len(),
        forall|i: int| 0 <= i < r@.len() ==> #[trigger] r@[i] == is_first(trade_ids@, i),
{
    let mut out: Vec<bool> = Vec::new();
    let mut i: usize = 0;
    while i < trade_ids.len()
        invariant
            0 <= i <= trade_ids@.len(),
            out@.len() == i,
            forall|m: int| 0 <= m < i ==> #[trigger] out@[m] == is_first(trade_ids@, m),
        decreases trade_ids@.len() - i,
    {
        let mut j: usize = 0;
        let mut seen = false;
        while j < i
            invariant
                0 <= j <= i < trade_ids@.len(),
                seen ==> !is_first(trade_ids@, i as int),
                !seen ==> forall|q: int| 0 <= q < j ==> trade_ids@[q]@ != trade_ids@[i as int]@,
            decreases i - j,
        {
            if trade_ids[j] == trade_ids[i] {
                seen = true;
                j = i;
            } else {
                j = j + 1;
            }
        }
        out.push(!seen);
        i = i + 1;
    }
    out
}

/// The account id that a trade request names must not be empty.
pub fn valid_account_id(account_id: &str) -> (r: bool)
    ensures
        r == (account_id@.len() > 0),
{
    chars_of(account_id).len() > 0
}

} // verus!
