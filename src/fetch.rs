use vstd::prelude::*;
use crate::csv::{flex_csv, line_ranges, lines_of, parse_flex_csv};
use crate::json::{flex_json, json_document, parse_flex_json};
use crate::record::{FlexTrade, FlexTradeView, closed_trades, closed_views, views};
use crate::text::{
    chars_of, contains, find, find_from, int_text, push_all, push_int, to_string, trim_start,
};
use crate::xml::{flex_xml, parse_flex_xml};

verus! {

/// The statement service that reports are asked from.
pub const FLEX_BASE_URL: &'static str = "https://ndcdyn.interactivebrokers.com/AccountManagement/FlexWebService";

/// How many times a report is asked for while it is still being generated.
pub const MAX_ATTEMPTS: u32 = 5;

/// The pause between two attempts, in milliseconds.
pub const RETRY_DELAY_MS: u64 = 3000;

/// The pause between asking for a report and fetching it, in milliseconds.
pub const SETTLE_DELAY_MS: u64 = 10000;

/// The wire format of a statement.
#[derive(PartialEq, Eq, Structural, Clone, Copy, Debug)]
pub enum Format {
    Json,
    Xml,
    Csv,
}

/// How a statement is fetched: ask for it and fetch it by reference code, or fetch it
/// directly by query id from a service that generated it beforehand.
#[derive(PartialEq, Eq, Structural, Clone, Copy, Debug)]
pub enum Strategy {
    TwoPhase,
    Direct,
}

/// Why fetching a statement failed.
#[derive(Clone, Debug)]
pub enum FetchError {
    /// The transport failed.
    Network(String),
    /// A response that is not a success, or a request the service refused or answered
    /// without a reference code.
    Protocol(String),
    /// The statement is still being generated: the body holds the code `1019`.
    NotReady,
    /// The statement was still not ready after the last attempt.
    RetriesExhausted,
    /// The statement could not be read as a document of its format.
    Format(String),
}

/// The format of a statement: JSON when the content type says so or the body opens with
/// `{`; CSV when the first line holds a comma and the body does not open with `<`; else XML.
pub open spec fn format_of(content_type: Option<Seq<char>>, body: Seq<char>) -> Format {
    let lead = trim_start(body);
    let first_line_comma = lines_of(body).len() > 0 && contains(lines_of(body)[0], seq![',']);
    if content_type is Some && contains(content_type->0, "json"@) {
        Format::Json
    } else if lead.len() > 0 && lead[0] == '{' {
        Format::Json
    } else if first_line_comma && !(lead.len() > 0 && lead[0] == '<') {
        Format::Csv
    } else {
        Format::Xml
    }
}

pub open spec fn opt_view(s: Option<&str>) -> Option<Seq<char>> {
    match s {
        Some(t) => Some(t@),
        None => None,
    }
}

fn contains_exec(hay: &Vec<char>, pat: &str) -> (r: bool)
    ensures
        r == contains(hay@, pat@),
{
    let p = chars_of(pat);
    find(hay, &p, 0).is_some()
}

fn trim_start_index(cs: &Vec<char>) -> (r: usize)
    ensures
        r <= cs@.len(),
        cs@.subrange(r as int, cs@.len() as int) == trim_start(cs@),
{
    let n = cs.len();
    let mut a: usize = 0;
    assert(cs@.subrange(0, n as int) =~= cs@);
    while a < n && crate::text::is_space_char(cs[a])
        invariant
            n == cs@.len(),
            0 <= a <= n,
            trim_start(cs@) == trim_start(cs@.subrange(a as int, n as int)),
        decreases n - a,
    {
        assert(cs@.subrange(a as int, n as int).drop_first() =~= cs@.subrange(a + 1, n as int));
        a = a + 1;
    }
    a
}

/// Tells the format of a statement; see `format_of`.
pub fn classify(content_type: Option<&str>, body: &str) -> (r: Format)
    ensures
        r == format_of(opt_view(content_type), body@),
{
    let json_type = match content_type {
        Some(ct) => contains_exec(&chars_of(ct), "json"),
        None => false,
    };
    if json_type {
        return Format::Json;
    }
    let cs = chars_of(body);
    let a = trim_start_index(&cs);
    let opens_brace = a < cs.len() && cs[a] == '{';
    let opens_angle = a < cs.len() && cs[a] == '<';
    if opens_brace {
        return Format::Json;
    }
    let ranges = line_ranges(&cs);
    let comma: Vec<char> = vec![','];
    assert(comma@ =~= seq![',']);
    let first_line_comma = if ranges.len() > 0 {
        let (lo, hi) = ranges[0];
        assert(ranges@[0].0 <= ranges@[0].1);
        let line = crate::text::copy_range(&cs, lo, hi);
        find(&line, &comma, 0).is_some()
    } else {
        false
    };
    if first_line_comma && !opens_angle {
        Format::Csv
    } else {
        Format::Xml
    }
}

/// The address that asks the service to generate the statement of a query.
pub open spec fn send_request_url_spec(token: Seq<char>, query_id: int) -> Seq<char> {
    FLEX_BASE_URL@ + "/SendRequest?t="@ + token + "&q="@ + int_text(query_id) + "&v=3"@
}

/// The address that fetches a statement by reference code (or, directly, by query id).
pub open spec fn statement_url_spec(token: Seq<char>, reference: Seq<char>) -> Seq<char> {
    FLEX_BASE_URL@ + "/GetStatement?t="@ + token + "&q="@ + reference + "&v=3"@
}

pub fn send_request_url(token: &str, query_id: i32) -> (r: String)
    ensures
        r@ == send_request_url_spec(token@, query_id as int),
{
    let mut out = chars_of(FLEX_BASE_URL);
    push_all(&mut out, &chars_of("/SendRequest?t="));
    push_all(&mut out, &chars_of(token));
    push_all(&mut out, &chars_of("&q="));
    push_int(&mut out, query_id as i64);
    push_all(&mut out, &chars_of("&v=3"));
    to_string(&out)
}

pub fn statement_url(token: &str, reference: &str) -> (r: String)
    ensures
        r@ == statement_url_spec(token@, reference@),
{
    let mut out = chars_of(FLEX_BASE_URL);
    push_all(&mut out, &chars_of("/GetStatement?t="));
    push_all(&mut out, &chars_of(token));
    push_all(&mut out, &chars_of("&q="));
    push_all(&mut out, &chars_of(reference));
    push_all(&mut out, &chars_of("&v=3"));
    to_string(&out)
}

/// The address that fetches the statement under the chosen strategy: by the reference code
/// that the first phase gave, or directly by query id.
pub fn fetch_url(strategy: Strategy, token: &str, query_id: i32, reference: &str) -> (r: String)
    ensures
        strategy == Strategy::TwoPhase ==> r@ == statement_url_spec(token@, reference@),
        strategy == Strategy::Direct ==> r@ == statement_url_spec(token@, int_text(query_id as int)),
{
    match strategy {
        Strategy::TwoPhase => statement_url(token, reference),
        Strategy::Direct => {
            let mut id: Vec<char> = Vec::new();
            push_int(&mut id, query_id as i64);
            assert(id@ =~= int_text(query_id as int));
            let id_text = to_string(&id);
            statement_url(token, id_text.as_str())
        },
    }
}

/// The text between the first `<ReferenceCode>` and the first `</ReferenceCode>`, when both
/// stand in that order.
pub open spec fn reference_code(body: Seq<char>) -> Option<Seq<char>> {
    match (find_from(body, "<ReferenceCode>"@, 0), find_from(body, "</ReferenceCode>"@, 0)) {
        (Some(s), Some(e)) => if s + 15 <= e {
            Some(body.subrange(s + 15, e))
        } else {
            None
        },
        _ => None,
    }
}

/// Finds the reference code in the answer to a generation request; see `reference_code`.
pub fn extract_reference_code(body: &str) -> (r: Option<String>)
    ensures
        r matches Some(c) ==> reference_code(body@) == Some(c@),
        r is None ==> reference_code(body@) is None,
{
    let cs = chars_of(body);
    let open = chars_of("<ReferenceCode>");
    let close = chars_of("</ReferenceCode>");
    proof {
        reveal_strlit("<ReferenceCode>");
    }
    match (find(&cs, &open, 0), find(&cs, &close, 0)) {
        (Some(s), Some(e)) => {
            proof {
                crate::number::lemma_find_bounds(cs@, open@, 0);
                crate::number::lemma_find_bounds(cs@, close@, 0);
            }
            if s <= e && e - s >= 15 {
                Some(crate::text::string_of(&cs, s + 15, e))
            } else {
                None
            }
        },
        _ => None,
    }
}

/// The kind of a `FetchError`, without its message.
#[derive(PartialEq, Eq, Structural, Clone, Copy, Debug)]
pub enum ErrorKind {
    Network,
    Protocol,
    NotReady,
    RetriesExhausted,
    Format,
}

pub open spec fn kind_of(e: FetchError) -> ErrorKind {
    match e {
        FetchError::Network(_) => ErrorKind::Network,
        FetchError::Protocol(_) => ErrorKind::Protocol,
        FetchError::NotReady => ErrorKind::NotReady,
        FetchError::RetriesExhausted => ErrorKind::RetriesExhausted,
        FetchError::Format(_) => ErrorKind::Format,
    }
}

impl FetchError {
    pub fn kind(&self) -> (r: ErrorKind)
        ensures
            r == kind_of(*self),
    {
        match self {
            FetchError::Network(_) => ErrorKind::Network,
            FetchError::Protocol(_) => ErrorKind::Protocol,
            FetchError::NotReady => ErrorKind::NotReady,
            FetchError::RetriesExhausted => ErrorKind::RetriesExhausted,
            FetchError::Format(_) => ErrorKind::Format,
        }
    }
}

/// What the answer to a generation request gives. A failure (a failure status, or a body
/// that reports failure or an error code) is `NotReady` when its body holds `1019` and a
/// protocol error otherwise; a success gives its reference code, and a protocol error when
/// it has none.
pub open spec fn send_outcome(status_ok: bool, body: Seq<char>) -> Result<Seq<char>, ErrorKind> {
    if !status_ok || contains(body, "<Status>Fail</Status>"@) || contains(body, "ErrorCode"@) {
        if contains(body, "1019"@) {
            Err(ErrorKind::NotReady)
        } else {
            Err(ErrorKind::Protocol)
        }
    } else {
        match reference_code(body) {
            Some(c) => Ok(c),
            None => Err(ErrorKind::Protocol),
        }
    }
}

/// Reads the answer to a generation request; see `send_outcome`. A protocol error carries
/// the body.
pub fn check_send_response(status_ok: bool, body: &str) -> (r: Result<String, FetchError>)
    ensures
        r matches Ok(c) ==> send_outcome(status_ok, body@) == Ok::<Seq<char>, ErrorKind>(c@),
        r matches Err(e) ==> send_outcome(status_ok, body@) == Err::<Seq<char>, ErrorKind>(
            kind_of(e),
        ),
        r matches Err(FetchError::Protocol(m)) ==> m@ == body@,
{
    let cs = chars_of(body);
    if !status_ok || contains_exec(&cs, "<Status>Fail</Status>") || contains_exec(&cs, "ErrorCode") {
        if contains_exec(&cs, "1019") {
            return Err(FetchError::NotReady);
        }
        return Err(FetchError::Protocol(to_string(&cs)));
    }
    match extract_reference_code(body) {
        Some(c) => Ok(c),
        None => Err(FetchError::Protocol(to_string(&cs))),
    }
}

/// What the answer to a statement request gives: `NotReady` when the body holds `1019`, a
/// protocol error for a failure status, else the statement.
pub open spec fn statement_outcome(status_ok: bool, body: Seq<char>) -> Result<(), ErrorKind> {
    if contains(body, "1019"@) {
        Err(ErrorKind::NotReady)
    } else if !status_ok {
        Err(ErrorKind::Protocol)
    } else {
        Ok(())
    }
}

/// Reads the status of the answer to a statement request; see `statement_outcome`.
pub fn check_statement_response(status_ok: bool, body: &str) -> (r: Result<(), FetchError>)
    ensures
        r is Ok ==> statement_outcome(status_ok, body@) is Ok,
        r matches Err(e) ==> statement_outcome(status_ok, body@) == Err::<(), ErrorKind>(
            kind_of(e),
        ),
        r matches Err(FetchError::Protocol(m)) ==> m@ == body@,
{
    let cs = chars_of(body);
    if contains_exec(&cs, "1019") {
        return Err(FetchError::NotReady);
    }
    if !status_ok {
        return Err(FetchError::Protocol(to_string(&cs)));
    }
    Ok(())
}

/// The records of a statement in its format, before the closed-trade filter; `None` for a
/// JSON body that is not one document.
pub open spec fn statement_records(content_type: Option<Seq<char>>, body: Seq<char>) -> Option<
    Seq<FlexTradeView>,
> {
    match format_of(content_type, body) {
        Format::Json => match json_document(body) {
            Some(d) => Some(flex_json(d)),
            None => None,
        },
        Format::Csv => Some(flex_csv(body)),
        Format::Xml => Some(flex_xml(body)),
    }
}

/// Reads a statement in the format that `classify` tells; a format error when it cannot.
pub fn parse_statement(content_type: Option<&str>, body: &str) -> (r: Result<
    Vec<FlexTrade>,
    FetchError,
>)
    ensures
        statement_records(opt_view(content_type), body@) matches Some(vs) ==> r is Ok && views(
            r->Ok_0@,
        ) == vs,
        statement_records(opt_view(content_type), body@) is None ==> r is Err && kind_of(r->Err_0)
            == ErrorKind::Format,
{
    match classify(content_type, body) {
        Format::Json => match parse_flex_json(body) {
            Some(ts) => Ok(ts),
            None => Err(FetchError::Format(to_string(&chars_of("the statement is not valid JSON")))),
        },
        Format::Csv => Ok(parse_flex_csv(body)),
        Format::Xml => Ok(parse_flex_xml(body)),
    }
}

/// Reads a CSV report given as text (a local file import) and keeps its closed trades.
pub fn parse_csv_public(csv: &str) -> (r: Vec<FlexTrade>)
    ensures
        views(r@) == closed_views(flex_csv(csv@)),
{
    closed_trades(parse_flex_csv(csv))
}

/// What to do after an attempt.
pub enum Step {
    /// Make attempt number `attempt` after a pause of `delay_ms`.
    Retry { attempt: u32, delay_ms: u64 },
    /// Stop with this result.
    Finish(Result<Vec<FlexTrade>, FetchError>),
}

/// The decision after an attempt, over record views.
pub enum Decision {
    Retry(int),
    Finish(Result<Seq<FlexTradeView>, FetchError>),
}

pub open spec fn outcome_view(o: Result<Vec<FlexTrade>, FetchError>) -> Result<
    Seq<FlexTradeView>,
    FetchError,
> {
    match o {
        Ok(ts) => Ok(views(ts@)),
        Err(e) => Err(e),
    }
}

/// After attempt `attempt`: records keep their closed trades and end the fetch; a report
/// not ready yet is asked for again until the last attempt, after which the retries are
/// exhausted; any other error ends the fetch as it is.
pub open spec fn decide(attempt: int, outcome: Result<Seq<FlexTradeView>, FetchError>) -> Decision {
    match outcome {
        Ok(vs) => Decision::Finish(Ok(closed_views(vs))),
        Err(FetchError::NotReady) => if attempt < MAX_ATTEMPTS {
            Decision::Retry(attempt + 1)
        } else {
            Decision::Finish(Err(FetchError::RetriesExhausted))
        },
        Err(e) => Decision::Finish(Err(e)),
    }
}

/// Decides what follows attempt `attempt` (counted from one); see `decide`.
pub fn after_attempt(attempt: u32, outcome: Result<Vec<FlexTrade>, FetchError>) -> (r: Step)
    requires
        1 <= attempt <= MAX_ATTEMPTS,
    ensures
        r matches Step::Retry { attempt: next, delay_ms } ==> decide(attempt as int, outcome_view(outcome))
            == Decision::Retry(next as int) && delay_ms == RETRY_DELAY_MS,
        r matches Step::Finish(res) ==> decide(attempt as int, outcome_view(outcome))
            == Decision::Finish(outcome_view(res)),
{
    match outcome {
        Ok(ts) => Step::Finish(Ok(closed_trades(ts))),
        Err(FetchError::NotReady) => {
            if attempt < MAX_ATTEMPTS {
                Step::Retry { attempt: attempt + 1, delay_ms: RETRY_DELAY_MS }
            } else {
                Step::Finish(Err(FetchError::RetriesExhausted))
            }
        },
        Err(e) => Step::Finish(Err(e)),
    }
}

/// The course of a fetch from attempt `attempt` on, attempt `k` having the outcome
/// `outcomes[k - 1]`: how many attempts are made in all, and the result.
pub open spec fn run_from(outcomes: Seq<Result<Seq<FlexTradeView>, FetchError>>, attempt: int) -> (
    int,
    Result<Seq<FlexTradeView>, FetchError>,
)
    decreases MAX_ATTEMPTS - attempt,
{
    if attempt < 1 || attempt > MAX_ATTEMPTS || attempt > outcomes.len() {
        (attempt - 1, Err(FetchError::RetriesExhausted))
    } else {
        match decide(attempt, outcomes[attempt - 1]) {
            Decision::Retry(_) => run_from(outcomes, attempt + 1),
            Decision::Finish(r) => (attempt, r),
        }
    }
}

/// A report that is not ready on the first four attempts and ready on the fifth is fetched:
/// five attempts are made, and the result is the fifth outcome's closed trades.
pub proof fn retry_until_ready(outcomes: Seq<Result<Seq<FlexTradeView>, FetchError>>)
    requires
        outcomes.len() >= 5,
        forall|i: int| 0 <= i < 4 ==> #[trigger] outcomes[i] == Err::<Seq<FlexTradeView>, FetchError>(FetchError::NotReady),
        outcomes[4] is Ok,
    ensures
        run_from(outcomes, 1) == (5int, Ok::<Seq<FlexTradeView>, FetchError>(closed_views(outcomes[4]->Ok_0))),
{
    reveal_with_fuel(run_from, 6);
    assert(outcomes[0] == Err::<Seq<FlexTradeView>, FetchError>(FetchError::NotReady));
    assert(outcomes[1] == Err::<Seq<FlexTradeView>, FetchError>(FetchError::NotReady));
    assert(outcomes[2] == Err::<Seq<FlexTradeView>, FetchError>(FetchError::NotReady));
    assert(outcomes[3] == Err::<Seq<FlexTradeView>, FetchError>(FetchError::NotReady));
}

/// A report that is not ready on every attempt ends in `RetriesExhausted` after five
/// attempts: no sixth attempt is made, whatever it would have given.
pub proof fn retries_exhausted(outcomes: Seq<Result<Seq<FlexTradeView>, FetchError>>)
    requires
        outcomes.len() >= 5,
        forall|i: int| 0 <= i < 5 ==> #[trigger] outcomes[i] == Err::<Seq<FlexTradeView>, FetchError>(FetchError::NotReady),
    ensures
        run_from(outcomes, 1) == (5int, Err::<Seq<FlexTradeView>, FetchError>(FetchError::RetriesExhausted)),
{
    reveal_with_fuel(run_from, 6);
    assert(outcomes[0] == Err::<Seq<FlexTradeView>, FetchError>(FetchError::NotReady));
    assert(outcomes[1] == Err::<Seq<FlexTradeView>, FetchError>(FetchError::NotReady));
    assert(outcomes[2] == Err::<Seq<FlexTradeView>, FetchError>(FetchError::NotReady));
    assert(outcomes[3] == Err::<Seq<FlexTradeView>, FetchError>(FetchError::NotReady));
    assert(outcomes[4] == Err::<Seq<FlexTradeView>, FetchError>(FetchError::NotReady));
}

/// A first attempt that fails for another reason than a report not ready ends the fetch at
/// once, with that error.
pub proof fn fatal_error_first(outcomes: Seq<Result<Seq<FlexTradeView>, FetchError>>)
    requires
        outcomes.len() >= 1,
        outcomes[0] is Err,
        kind_of(outcomes[0]->Err_0) != ErrorKind::NotReady,
    ensures
        run_from(outcomes, 1) == (1int, outcomes[0]),
{
    reveal_with_fuel(run_from, 2);
}

/// No fetch makes more than `MAX_ATTEMPTS` attempts.
pub proof fn attempts_bounded(outcomes: Seq<Result<Seq<FlexTradeView>, FetchError>>, attempt: int)
    requires
        1 <= attempt <= MAX_ATTEMPTS + 1,
    ensures
        run_from(outcomes, attempt).0 <= MAX_ATTEMPTS,
    decreases MAX_ATTEMPTS - attempt,
{
    if attempt <= MAX_ATTEMPTS && attempt <= outcomes.len() {
        match decide(attempt, outcomes[attempt - 1]) {
            Decision::Retry(_) => attempts_bounded(outcomes, attempt + 1),
            Decision::Finish(_) => {},
        }
    }
}

} // verus!
