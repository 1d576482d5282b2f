//! Which candle files to fetch and which candles of them to keep.
use vstd::prelude::*;
use crate::calendar::{
    civil_date, date_digits, format_local, in_calendar_range, local_day,
    local_day_number, local_year, MS_PER_DAY,
};
use crate::number::{i64_text, signed_text};
use crate::order::{is_permutation, stable_order, stably_ordered};

verus! {

/// Daily candles kept per pair.
pub const DAILY_LIMIT: usize = 300;

/// Hourly candles kept per pair.
pub const HOURLY_LIMIT: usize = 48;

/// The exchange's public API endpoint.
pub open spec fn base_url() -> Seq<char> {
    "https://public.bitbank.cc"@
}

/// Address of the candle file of `pair` for `timeframe` (`1day`, `1hour`) and
/// `datepart` (a year for daily candles, a `YYYYMMDD` date for hourly ones).
pub fn candle_url(pair: &str, timeframe: &str, datepart: &str) -> (u: String)
    ensures
        u@ == base_url() + "/"@ + pair@ + "/candlestick/"@ + timeframe@ + "/"@ + datepart@,
{
    let mut u = String::from_str("https://public.bitbank.cc");
    u.append("/");
    u.append(pair);
    u.append("/candlestick/");
    u.append(timeframe);
    u.append("/");
    u.append(datepart);
    u
}

/// Address of the ticker list.
pub fn tickers_url() -> (u: String)
    ensures
        u@ == base_url() + "/tickers"@,
{
    let mut u = String::from_str("https://public.bitbank.cc");
    u.append("/tickers");
    u
}

/// The daily candle files to fetch at `now_ms`: last year's and this year's
/// (UTC years of the proleptic Gregorian calendar), in that order.
pub fn daily_file_names(now_ms: i64) -> (names: (String, String))
    requires
        in_calendar_range(now_ms as int, 0),
    ensures
        names.0@ == signed_text(civil_date(local_day_number(now_ms as int, 0)).0 - 1),
        names.1@ == signed_text(civil_date(local_day_number(now_ms as int, 0)).0),
{
    let y = local_year(now_ms, 0);
    (i64_text(y as i64 - 1), i64_text(y as i64))
}

/// The hourly candle files to fetch at `now_ms`: today's and yesterday's
/// (UTC dates, `YYYYMMDD`), in that order.
pub fn hourly_file_names(now_ms: i64) -> (names: Vec<String>)
    requires
        in_calendar_range(now_ms as int, 0),
        in_calendar_range(now_ms - MS_PER_DAY, 0),
    ensures
        names@.len() == 2,
        names@[0]@ == date_digits(local_day_number(now_ms as int, 0)),
        names@[1]@ == date_digits(local_day_number(now_ms - MS_PER_DAY, 0)),
{
    let mut names: Vec<String> = Vec::new();
    names.push(format_local(now_ms, 0, "%Y%m%d"));
    names.push(format_local(now_ms - MS_PER_DAY, 0, "%Y%m%d"));
    names
}

/// What a candle file reply amounts to.
pub enum CandleFile {
    /// No candles: the file does not exist, or the reply says it failed.
    Empty,
    /// The reply holds candle rows.
    Rows,
    /// The reply claims success but holds no candle list; the message says which.
    Malformed(String),
}

/// Classifies the reply for a candle file: a missing file (not `found`) or a
/// `success` other than 1 means no candles; a successful reply without a
/// candle list is malformed.
pub fn classify_candle_reply(
    pair: &str,
    timeframe: &str,
    datepart: &str,
    found: bool,
    success: Option<i64>,
    has_rows: bool,
) -> (c: CandleFile)
    ensures
        !found || success != Some(1i64) ==> c is Empty,
        found && success == Some(1i64) && has_rows ==> c is Rows,
        found && success == Some(1i64) && !has_rows ==> (c matches CandleFile::Malformed(m) && m@
            == pair@ + " "@ + timeframe@ + "/"@ + datepart@ + ": no ohlcv"@),
{
    if !found || success != Some(1i64) {
        CandleFile::Empty
    } else if has_rows {
        CandleFile::Rows
    } else {
        let mut m = String::from_str(pair);
        m.append(" ");
        m.append(timeframe);
        m.append("/");
        m.append(datepart);
        m.append(": no ohlcv");
        CandleFile::Malformed(m)
    }
}

/// Start of the last `limit` items of `n` (`n.saturating_sub(limit)`).
pub open spec fn tail_start(n: int, limit: int) -> int {
    if n > limit {
        n - limit
    } else {
        0
    }
}

/// Which daily candles to keep. `ts` are the candles' timestamps, last year's
/// file then this year's. With no candles the pair has no daily data (an
/// error); otherwise the last `limit` candles are kept (from the returned
/// start), and the day counts as incomplete when the last candle falls on the
/// current UTC date.
pub fn daily_selection(pair: &str, ts: &Vec<i64>, limit: usize, now_ms: i64) -> (r: Result<
    (usize, bool),
    String,
>)
    requires
        in_calendar_range(now_ms as int, 0),
        ts@.len() > 0 ==> in_calendar_range(ts@.last() as int, 0),
    ensures
        ts@.len() == 0 ==> (r matches Err(m) && m@ == pair@ + ": no daily data"@),
        ts@.len() > 0 ==> (r matches Ok(sel) && sel.0 == tail_start(ts@.len() as int, limit as int)
            && sel.1 == (local_day_number(ts@.last() as int, 0) == local_day_number(
            now_ms as int,
            0,
        ))),
{
    let n = ts.len();
    if n == 0 {
        let mut m = String::from_str(pair);
        m.append(": no daily data");
        return Err(m);
    }
    let incomplete = local_day(ts[n - 1], 0) == local_day(now_ms, 0);
    let start: usize = if n > limit {
        n - limit
    } else {
        0
    };
    Ok((start, incomplete))
}

/// Timestamps as ordering keys.
pub open spec fn ts_keys(ts: Seq<i64>) -> Seq<i128> {
    ts.map_values(|t: i64| t as i128)
}

/// Which hourly candles to keep, as positions in `ts` (the candles'
/// timestamps, today's file then yesterday's): all candles in time order
/// (candles with the same time keep their order), then the last `limit` of
/// them. With no candles the pair has no hourly data (an error).
pub fn hourly_selection(pair: &str, ts: &Vec<i64>, limit: usize) -> (r: Result<Vec<usize>, String>)
    ensures
        ts@.len() == 0 ==> (r matches Err(m) && m@ == pair@ + ": no hourly data"@),
        ts@.len() > 0 ==> (r matches Ok(idx) && exists|p: Seq<usize>|
            {
                &&& is_permutation(p, ts@.len())
                &&& stably_ordered(ts_keys(ts@), p)
                &&& idx@ == p.subrange(tail_start(ts@.len() as int, limit as int), p.len() as int)
            }),
{
    let n = ts.len();
    if n == 0 {
        let mut m = String::from_str(pair);
        m.append(": no hourly data");
        return Err(m);
    }
    let mut keys: Vec<i128> = Vec::new();
    let mut i: usize = 0;
    while i < n
        invariant
            n == ts@.len(),
            i <= n,
            keys@ == ts_keys(ts@).take(i as int),
        decreases n - i,
    {
        keys.push(ts[i] as i128);
        proof {
            assert(ts_keys(ts@).take(i + 1) =~= ts_keys(ts@).take(i as int).push(ts@[i as int] as i128));
        }
        i = i + 1;
    }
    assert(keys@ =~= ts_keys(ts@));
    let order = stable_order(&keys);
    let start: usize = if n > limit {
        n - limit
    } else {
        0
    };
    let mut idx: Vec<usize> = Vec::new();
    let mut k: usize = start;
    while k < n
        invariant
            n == order@.len(),
            start <= k <= n,
            idx@ == order@.subrange(start as int, k as int),
        decreases n - k,
    {
        idx.push(order[k]);
        proof {
            assert(order@.subrange(start as int, k + 1) =~= order@.subrange(start as int, k as int).push(order@[k as int]));
        }
        k = k + 1;
    }
    Ok(idx)
}

} // verus!
