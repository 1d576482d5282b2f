//! The three-line digest of one pair, and the header of a digest run.
use vstd::prelude::*;
use crate::calendar::{
    civil_date, clock_text, date_text, format_local, in_calendar_range, lemma_civil_date_exists,
    local_day, local_day_number, local_weekday, month_day_text, two_digits, weekday_abbrev,
    weekday_of_day, JST_OFFSET_SECS,
};
use crate::candles::tail_start;
use crate::number::{
    decimal_text, digit_char, first_index_of, group_thousands, grouped, grouped_prefix,
    lemma_first_index_of, push_decimal,
};
use crate::text::{byte_count, join_with, push_joined, texts};

verus! {

/// Confirmed daily candles used for the weekday volumes.
pub const MONTH_WINDOW: usize = 30;

/// Daily candles that are confirmed: all of them, less the last one when the
/// current day is still open.
pub open spec fn confirmed_count(n: int, incomplete: bool) -> int {
    if incomplete {
        n - 1
    } else {
        n
    }
}

/// Number of confirmed daily candles among `n`.
pub fn confirmed_len(n: usize, incomplete: bool) -> (c: usize)
    requires
        incomplete ==> n > 0,
    ensures
        c == confirmed_count(n as int, incomplete),
{
    if incomplete {
        n - 1
    } else {
        n
    }
}

/// Start of the confirmed candles whose volumes are averaged: the last 30 of
/// `n` (all of them when there are fewer).
pub fn recent_start(n: usize) -> (s: usize)
    ensures
        s == tail_start(n as int, MONTH_WINDOW as int),
{
    if n > MONTH_WINDOW {
        n - MONTH_WINDOW
    } else {
        0
    }
}

/// Kind of trading day, in Japan Standard Time.
#[derive(PartialEq, Eq, Structural, Clone, Copy, Debug)]
pub enum DayKind {
    /// Monday to Friday.
    Weekday,
    /// Saturday.
    Saturday,
    /// Sunday.
    Sunday,
}

/// The kind of a day of the week (Monday being 0).
pub open spec fn day_kind_of(w: int) -> DayKind {
    if w < 5 {
        DayKind::Weekday
    } else if w == 5 {
        DayKind::Saturday
    } else {
        DayKind::Sunday
    }
}

/// The JST day of the week of a timestamp, Monday being 0.
pub open spec fn jst_weekday(ts: i64) -> int {
    weekday_of_day(local_day_number(ts as int, JST_OFFSET_SECS as int))
}

/// Every timestamp is one the calendar functions accept in Japan Standard Time.
pub open spec fn all_in_range(ts: Seq<i64>) -> bool {
    forall|i: int| 0 <= i < ts.len() ==> in_calendar_range(#[trigger] ts[i] as int, JST_OFFSET_SECS as int)
}

/// The JST kind of day of each timestamp.
pub fn day_kinds(ts: &Vec<i64>) -> (kinds: Vec<DayKind>)
    requires
        all_in_range(ts@),
    ensures
        kinds@.len() == ts@.len(),
        forall|i: int| 0 <= i < ts@.len() ==> kinds@[i] == day_kind_of(jst_weekday(#[trigger] ts@[i])),
{
    let mut kinds: Vec<DayKind> = Vec::new();
    let mut i: usize = 0;
    while i < ts.len()
        invariant
            i <= ts@.len(),
            all_in_range(ts@),
            kinds@.len() == i,
            forall|k: int| 0 <= k < i ==> kinds@[k] == day_kind_of(jst_weekday(#[trigger] ts@[k])),
        decreases ts@.len() - i,
    {
        assert(in_calendar_range(ts@[i as int] as int, JST_OFFSET_SECS as int));
        let w = local_weekday(ts[i], JST_OFFSET_SECS);
        let kind = if w < 5 {
            DayKind::Weekday
        } else if w == 5 {
            DayKind::Saturday
        } else {
            DayKind::Sunday
        };
        kinds.push(kind);
        i = i + 1;
    }
    kinds
}

/// Positions, in order, among the first `n` timestamps whose JST date is `day`.
pub open spec fn same_day_positions(ts: Seq<i64>, day: int, n: int) -> Seq<usize>
    decreases n,
{
    if n <= 0 {
        Seq::empty()
    } else {
        let prev = same_day_positions(ts, day, n - 1);
        if local_day_number(ts[n - 1] as int, JST_OFFSET_SECS as int) == day {
            prev.push((n - 1) as usize)
        } else {
            prev
        }
    }
}

/// Positions of the hourly candles that fall on the JST date of the last one
/// (today's volume so far).
pub fn today_positions(ts: &Vec<i64>) -> (idx: Vec<usize>)
    requires
        ts@.len() > 0,
        all_in_range(ts@),
    ensures
        idx@ == same_day_positions(
            ts@,
            local_day_number(ts@.last() as int, JST_OFFSET_SECS as int),
            ts@.len() as int,
        ),
{
    let n = ts.len();
    assert(in_calendar_range(ts@[n - 1] as int, JST_OFFSET_SECS as int));
    let today = local_day(ts[n - 1], JST_OFFSET_SECS);
    let mut idx: Vec<usize> = Vec::new();
    let mut i: usize = 0;
    while i < n
        invariant
            n == ts@.len(),
            i <= n,
            all_in_range(ts@),
            today == local_day_number(ts@.last() as int, JST_OFFSET_SECS as int),
            idx@ == same_day_positions(ts@, today as int, i as int),
        decreases n - i,
    {
        assert(in_calendar_range(ts@[i as int] as int, JST_OFFSET_SECS as int));
        if local_day(ts[i], JST_OFFSET_SECS) == today {
            idx.push(i);
        }
        i = i + 1;
    }
    idx
}

/// Marker of the price against a moving average of `period` days: `<S20`
/// when the price is below it, `>S20` otherwise.
pub open spec fn marker_text(period: Seq<char>, below: bool) -> Seq<char> {
    (if below {
        "<"@
    } else {
        ">"@
    }) + "S"@ + period
}

/// The markers of the moving averages that could be computed (20, 50 and 200
/// days; `Some(true)` when the price is below the average).
pub open spec fn sma_markers(b20: Option<bool>, b50: Option<bool>, b200: Option<bool>) -> Seq<
    Seq<char>,
> {
    let m20 = match b20 {
        Some(b) => seq![marker_text("20"@, b)],
        None => Seq::empty(),
    };
    let m50 = match b50 {
        Some(b) => seq![marker_text("50"@, b)],
        None => Seq::empty(),
    };
    let m200 = match b200 {
        Some(b) => seq![marker_text("200"@, b)],
        None => Seq::empty(),
    };
    m20 + m50 + m200
}

/// How many of the computed moving averages the price is below.
pub open spec fn below_count(b20: Option<bool>, b50: Option<bool>, b200: Option<bool>) -> int {
    (if b20 == Some(true) {
        1int
    } else {
        0
    }) + (if b50 == Some(true) {
        1int
    } else {
        0
    }) + (if b200 == Some(true) {
        1int
    } else {
        0
    })
}

/// The trend: `DOWN` below two or more averages, `UP` below none, `MIX` otherwise.
pub open spec fn trend_text(below: int) -> Seq<char> {
    if below >= 2 {
        "DOWN"@
    } else if below == 0 {
        "UP"@
    } else {
        "MIX"@
    }
}

/// An amount grouped by thousands, or `n/a` when there is none.
pub open spec fn amount_text(x: Option<String>) -> Seq<char> {
    match x {
        Some(s) => grouped(s@),
        None => "n/a"@,
    }
}

/// A percentage, or `n/a` when there is none.
pub open spec fn percent_text(x: Option<String>) -> Seq<char> {
    match x {
        Some(s) => s@ + "%"@,
        None => "n/a"@,
    }
}

/// The figures of one pair's digest. Amounts are decimal texts as formatted
/// from the price data, before grouping by thousands.
pub struct DigestFigures {
    /// The pair's name.
    pub pair: String,
    /// Last price, no decimals.
    pub price: String,
    /// Change since today's open, in percent, signed, one decimal.
    pub intraday_pct: String,
    /// 14-day RSI, no decimals.
    pub rsi: String,
    /// Whether the MACD histogram is positive.
    pub macd_rising: bool,
    /// Whether the price is below the 20-day average (none when too few days).
    pub below_sma20: Option<bool>,
    /// Whether the price is below the 50-day average.
    pub below_sma50: Option<bool>,
    /// Whether the price is below the 200-day average.
    pub below_sma200: Option<bool>,
    /// Whether today's daily candle is still open.
    pub incomplete: bool,
    /// Volume of today's hourly candles (JST), one decimal.
    pub today_volume: String,
    /// Average daily volume on weekdays over the last 30 confirmed days.
    pub weekday_avg: Option<String>,
    /// Average Saturday volume.
    pub saturday_avg: Option<String>,
    /// Saturday volume as a percentage of the weekday volume, no decimals.
    pub saturday_pct: Option<String>,
    /// Average Sunday volume.
    pub sunday_avg: Option<String>,
    /// Average daily volume over the last 30 confirmed days.
    pub month_avg: String,
    /// Timestamp of the last confirmed daily candle.
    pub last_ts: i64,
    /// Its open price, no decimals.
    pub last_open: String,
    /// Its close price, no decimals.
    pub last_close: String,
    /// Its change from open to close, in percent, signed, one decimal.
    pub last_change_pct: String,
    /// 14-day average true range, no decimals.
    pub atr: Option<String>,
}

/// Start of the first line: price, intraday change, RSI and MACD direction.
pub open spec fn line1_head(f: DigestFigures) -> Seq<char> {
    "## "@ + f.pair@ + "  px="@ + grouped(f.price@) + " ("@ + f.intraday_pct@ + "% intraday)  RSI"@
        + f.rsi@ + " MACD"@ + (if f.macd_rising {
        "+"@
    } else {
        "-"@
    })
}

/// The trend and the moving-average markers.
pub open spec fn line1_trend(f: DigestFigures) -> Seq<char> {
    " trend:"@ + trend_text(below_count(f.below_sma20, f.below_sma50, f.below_sma200)) + "["@
        + join_with(sma_markers(f.below_sma20, f.below_sma50, f.below_sma200), " "@) + "]"@
}

/// First line: price, intraday change, RSI, MACD direction, trend and the
/// moving-average markers, and a note when today's candle is still open.
pub open spec fn digest_line1(f: DigestFigures) -> Seq<char> {
    line1_head(f) + line1_trend(f) + (if f.incomplete {
        "  ※日足未確定"@
    } else {
        Seq::empty()
    })
}

/// Second line: today's volume and the average volumes by kind of day.
pub open spec fn digest_line2(f: DigestFigures) -> Seq<char> {
    "   vol today(JST,so far)="@ + grouped(f.today_volume@) + " | wk="@ + amount_text(
        f.weekday_avg,
    ) + " sat="@ + amount_text(f.saturday_avg) + "("@ + percent_text(f.saturday_pct) + ") sun="@
        + amount_text(f.sunday_avg) + " 30d="@ + grouped(f.month_avg@)
}

/// Third line: the last confirmed day, its move and the ATR.
pub open spec fn digest_line3(f: DigestFigures) -> Seq<char> {
    "   "@ + weekday_abbrev(jst_weekday(f.last_ts)) + " "@ + month_day_text(
        local_day_number(f.last_ts as int, JST_OFFSET_SECS as int),
    ) + "(確定): "@ + grouped(f.last_open@) + "->"@ + grouped(f.last_close@) + " ("@
        + f.last_change_pct@ + "%)  ATR14="@ + amount_text(f.atr)
}

/// The whole digest of one pair: its three lines.
pub open spec fn digest_text(f: DigestFigures) -> Seq<char> {
    digest_line1(f) + "\n"@ + digest_line2(f) + "\n"@ + digest_line3(f)
}

fn push_amount(out: &mut String, x: &Option<String>)
    ensures
        final(out)@ == old(out)@ + amount_text(*x),
{
    match x {
        Some(s) => {
            let g = group_thousands(s.as_str());
            out.append(g.as_str());
        },
        None => {
            out.append("n/a");
        },
    }
}

fn push_weekday(out: &mut String, w: u32)
    ensures
        final(out)@ == old(out)@ + weekday_abbrev(w as int),
{
    if w == 0 {
        out.append("Mon");
    } else if w == 1 {
        out.append("Tue");
    } else if w == 2 {
        out.append("Wed");
    } else if w == 3 {
        out.append("Thu");
    } else if w == 4 {
        out.append("Fri");
    } else if w == 5 {
        out.append("Sat");
    } else {
        out.append("Sun");
    }
}

fn marker(period: &str, below: bool) -> (m: String)
    ensures
        m@ == marker_text(period@, below),
{
    let mut m = if below {
        String::from_str("<")
    } else {
        String::from_str(">")
    };
    m.append("S");
    m.append(period);
    m
}

#[verifier::spinoff_prover]
#[verifier::rlimit(40)]
fn push_line1_head(out: &mut String, f: &DigestFigures)
    ensures
        final(out)@ == old(out)@ + line1_head(*f),
{
    let ghost start = out@;
    out.append("## ");
    out.append(f.pair.as_str());
    out.append("  px=");
    let px = group_thousands(f.price.as_str());
    out.append(px.as_str());
    out.append(" (");
    out.append(f.intraday_pct.as_str());
    out.append("% intraday)  RSI");
    out.append(f.rsi.as_str());
    out.append(" MACD");
    if f.macd_rising {
        out.append("+");
    } else {
        out.append("-");
    }
    assert(out@ =~= start + line1_head(*f));
}

#[verifier::spinoff_prover]
#[verifier::rlimit(40)]
fn push_line1_trend(out: &mut String, f: &DigestFigures)
    ensures
        final(out)@ == old(out)@ + line1_trend(*f),
{
    let ghost start = out@;
    out.append(" trend:");
    let mut below: usize = 0;
    let mut markers: Vec<String> = Vec::new();
    match f.below_sma20 {
        Some(b) => {
            markers.push(marker("20", b));
            if b {
                below = below + 1;
            }
        },
        None => {},
    }
    match f.below_sma50 {
        Some(b) => {
            markers.push(marker("50", b));
            if b {
                below = below + 1;
            }
        },
        None => {},
    }
    match f.below_sma200 {
        Some(b) => {
            markers.push(marker("200", b));
            if b {
                below = below + 1;
            }
        },
        None => {},
    }
    assert(below == below_count(f.below_sma20, f.below_sma50, f.below_sma200));
    assert(texts(markers@) =~= sma_markers(
        f.below_sma20,
        f.below_sma50,
        f.below_sma200,
    ));
    if below >= 2 {
        out.append("DOWN");
    } else if below == 0 {
        out.append("UP");
    } else {
        out.append("MIX");
    }
    out.append("[");
    push_joined(out, markers.as_slice(), " ");
    out.append("]");
    assert(out@ =~= start + line1_trend(*f));
}

#[verifier::spinoff_prover]
#[verifier::rlimit(40)]
fn push_line1(out: &mut String, f: &DigestFigures)
    ensures
        final(out)@ == old(out)@ + digest_line1(*f),
{
    let ghost start = out@;
    push_line1_head(out, f);
    push_line1_trend(out, f);
    if f.incomplete {
        out.append("  ※日足未確定");
    }
    assert(out@ =~= start + digest_line1(*f));
}

#[verifier::spinoff_prover]
#[verifier::rlimit(40)]
fn push_line2(out: &mut String, f: &DigestFigures)
    ensures
        final(out)@ == old(out)@ + digest_line2(*f),
{
    let ghost start = out@;
    out.append("   vol today(JST,so far)=");
    let tv = group_thousands(f.today_volume.as_str());
    out.append(tv.as_str());
    out.append(" | wk=");
    push_amount(out, &f.weekday_avg);
    out.append(" sat=");
    push_amount(out, &f.saturday_avg);
    out.append("(");
    match &f.saturday_pct {
        Some(p) => {
            out.append(p.as_str());
            out.append("%");
        },
        None => {
            out.append("n/a");
        },
    }
    out.append(") sun=");
    push_amount(out, &f.sunday_avg);
    out.append(" 30d=");
    let m = group_thousands(f.month_avg.as_str());
    out.append(m.as_str());
    assert(out@ =~= start + digest_line2(*f));
}

#[verifier::spinoff_prover]
#[verifier::rlimit(40)]
fn push_line3(out: &mut String, f: &DigestFigures)
    requires
        in_calendar_range(f.last_ts as int, JST_OFFSET_SECS as int),
    ensures
        final(out)@ == old(out)@ + digest_line3(*f),
{
    let ghost start = out@;
    out.append("   ");
    let w = local_weekday(f.last_ts, JST_OFFSET_SECS);
    push_weekday(out, w);
    out.append(" ");
    let date = format_local(f.last_ts, JST_OFFSET_SECS, "%m-%d");
    out.append(date.as_str());
    out.append("(確定): ");
    let o = group_thousands(f.last_open.as_str());
    out.append(o.as_str());
    out.append("->");
    let c = group_thousands(f.last_close.as_str());
    out.append(c.as_str());
    out.append(" (");
    out.append(f.last_change_pct.as_str());
    out.append("%)  ATR14=");
    push_amount(out, &f.atr);
    assert(out@ =~= start + digest_line3(*f));
}

/// Lays out the three-line digest of one pair from its figures.
#[verifier::spinoff_prover]
#[verifier::rlimit(40)]
pub fn compose_digest(f: &DigestFigures) -> (t: String)
    requires
        in_calendar_range(f.last_ts as int, JST_OFFSET_SECS as int),
    ensures
        t@ == digest_text(*f),
{
    let mut out = String::new();
    push_line1(&mut out, f);
    out.append("\n");
    push_line2(&mut out, f);
    out.append("\n");
    push_line3(&mut out, f);
    assert(out@ =~= digest_text(*f));
    out
}

/// The one-line section of a pair whose digest failed.
pub fn error_section(pair: &str, error: &str) -> (t: String)
    ensures
        t@ == "## "@ + pair@ + "  ERROR: "@ + error@,
{
    let mut t = String::from_str("## ");
    t.append(pair);
    t.append("  ERROR: ");
    t.append(error);
    t
}

/// The JST date and day of the week of `now_ms`, `YYYY-MM-DD Ddd`.
pub open spec fn header_date(now_ms: i64) -> Seq<char> {
    let n = local_day_number(now_ms as int, JST_OFFSET_SECS as int);
    date_text(n) + " "@ + weekday_abbrev(weekday_of_day(n))
}

/// The header of a digest run at `now_ms`: the JST date and day of the week,
/// the JST time, and the number of pairs.
pub open spec fn header_text(now_ms: i64, pair_count: nat) -> Seq<char> {
    "# bitbank periodical brief "@ + header_date(now_ms)
        + " JST "@ + clock_text(now_ms as int, JST_OFFSET_SECS as int) + "  ("@ + decimal_text(
        pair_count,
    ) + " pairs)"@
}

/// Header line of a digest run.
pub fn digest_header(now_ms: i64, pair_count: usize) -> (t: String)
    requires
        in_calendar_range(now_ms as int, JST_OFFSET_SECS as int),
    ensures
        t@ == header_text(now_ms, pair_count as nat),
{
    let mut t = String::from_str("# bitbank periodical brief ");
    let day = format_local(now_ms, JST_OFFSET_SECS, "%Y-%m-%d %a");
    t.append(day.as_str());
    t.append(" JST ");
    let time = format_local(now_ms, JST_OFFSET_SECS, "%H:%M");
    t.append(time.as_str());
    t.append("  (");
    push_decimal(&mut t, pair_count as u64);
    t.append(" pairs)");
    t
}

/// `s` holds no line break.
pub open spec fn one_line(s: Seq<char>) -> bool {
    !s.contains('\n')
}

/// A present text holds no line break.
pub open spec fn one_line_opt(x: Option<String>) -> bool {
    match x {
        Some(s) => one_line(s@),
        None => true,
    }
}

/// No text among the figures holds a line break.
pub open spec fn figures_one_line(f: DigestFigures) -> bool {
    &&& one_line(f.pair@)
    &&& one_line(f.price@)
    &&& one_line(f.intraday_pct@)
    &&& one_line(f.rsi@)
    &&& one_line(f.today_volume@)
    &&& one_line_opt(f.weekday_avg)
    &&& one_line_opt(f.saturday_avg)
    &&& one_line_opt(f.saturday_pct)
    &&& one_line_opt(f.sunday_avg)
    &&& one_line(f.month_avg@)
    &&& one_line(f.last_open@)
    &&& one_line(f.last_close@)
    &&& one_line(f.last_change_pct@)
    &&& one_line_opt(f.atr)
}

proof fn lemma_chars_one_line(s: Seq<char>)
    requires
        forall|i: int| 0 <= i < s.len() ==> s[i] != '\n',
    ensures
        one_line(s),
{
}

proof fn lemma_one_line_concat(a: Seq<char>, b: Seq<char>)
    requires
        one_line(a),
        one_line(b),
    ensures
        one_line(a + b),
{
    if (a + b).contains('\n') {
        let i = choose|i: int| 0 <= i < (a + b).len() && (a + b)[i] == '\n';
        if i < a.len() {
            assert(a[i] == '\n');
        } else {
            assert(b[i - a.len()] == '\n');
        }
    }
}

proof fn lemma_one_line_part(s: Seq<char>, a: int, b: int)
    requires
        one_line(s),
        0 <= a <= b <= s.len(),
    ensures
        one_line(s.subrange(a, b)),
{
    if s.subrange(a, b).contains('\n') {
        let i = choose|i: int| 0 <= i < b - a && s.subrange(a, b)[i] == '\n';
        assert(s[a + i] == '\n');
    }
}

proof fn lemma_literals_one_line()
    ensures
        one_line("   "@),
        one_line("   vol today(JST,so far)="@),
        one_line("  px="@),
        one_line("  ※日足未確定"@),
        one_line(" "@),
        one_line(" ("@),
        one_line(" 30d="@),
        one_line(" MACD"@),
        one_line(" sat="@),
        one_line(" trend:"@),
        one_line(" | wk="@),
        one_line("## "@),
        one_line("% intraday)  RSI"@),
        one_line("%"@),
        one_line("%)  ATR14="@),
        one_line("("@),
        one_line("(確定): "@),
        one_line(") sun="@),
        one_line("+"@),
        one_line("-"@),
        one_line("->"@),
        one_line("20"@),
        one_line("200"@),
        one_line("50"@),
        one_line("<"@),
        one_line(">"@),
        one_line("DOWN"@),
        one_line("MIX"@),
        one_line("S"@),
        one_line("UP"@),
        one_line("["@),
        one_line("]"@),
        one_line("n/a"@),
        one_line("Mon"@),
        one_line("Tue"@),
        one_line("Wed"@),
        one_line("Thu"@),
        one_line("Fri"@),
        one_line("Sat"@),
        one_line("Sun"@),
{
    reveal_strlit("   ");
    reveal_strlit("   vol today(JST,so far)=");
    reveal_strlit("  px=");
    reveal_strlit("  ※日足未確定");
    reveal_strlit(" ");
    reveal_strlit(" (");
    reveal_strlit(" 30d=");
    reveal_strlit(" MACD");
    reveal_strlit(" sat=");
    reveal_strlit(" trend:");
    reveal_strlit(" | wk=");
    reveal_strlit("## ");
    reveal_strlit("% intraday)  RSI");
    reveal_strlit("%");
    reveal_strlit("%)  ATR14=");
    reveal_strlit("(");
    reveal_strlit("(確定): ");
    reveal_strlit(") sun=");
    reveal_strlit("+");
    reveal_strlit("-");
    reveal_strlit("->");
    reveal_strlit("20");
    reveal_strlit("200");
    reveal_strlit("50");
    reveal_strlit("<");
    reveal_strlit(">");
    reveal_strlit("DOWN");
    reveal_strlit("MIX");
    reveal_strlit("S");
    reveal_strlit("UP");
    reveal_strlit("[");
    reveal_strlit("]");
    reveal_strlit("n/a");
    reveal_strlit("Mon");
    reveal_strlit("Tue");
    reveal_strlit("Wed");
    reveal_strlit("Thu");
    reveal_strlit("Fri");
    reveal_strlit("Sat");
    reveal_strlit("Sun");
    lemma_chars_one_line("   "@);
    lemma_chars_one_line("   vol today(JST,so far)="@);
    lemma_chars_one_line("  px="@);
    lemma_chars_one_line("  ※日足未確定"@);
    lemma_chars_one_line(" "@);
    lemma_chars_one_line(" ("@);
    lemma_chars_one_line(" 30d="@);
    lemma_chars_one_line(" MACD"@);
    lemma_chars_one_line(" sat="@);
    lemma_chars_one_line(" trend:"@);
    lemma_chars_one_line(" | wk="@);
    lemma_chars_one_line("## "@);
    lemma_chars_one_line("% intraday)  RSI"@);
    lemma_chars_one_line("%"@);
    lemma_chars_one_line("%)  ATR14="@);
    lemma_chars_one_line("("@);
    lemma_chars_one_line("(確定): "@);
    lemma_chars_one_line(") sun="@);
    lemma_chars_one_line("+"@);
    lemma_chars_one_line("-"@);
    lemma_chars_one_line("->"@);
    lemma_chars_one_line("20"@);
    lemma_chars_one_line("200"@);
    lemma_chars_one_line("50"@);
    lemma_chars_one_line("<"@);
    lemma_chars_one_line(">"@);
    lemma_chars_one_line("DOWN"@);
    lemma_chars_one_line("MIX"@);
    lemma_chars_one_line("S"@);
    lemma_chars_one_line("UP"@);
    lemma_chars_one_line("["@);
    lemma_chars_one_line("]"@);
    lemma_chars_one_line("n/a"@);
    lemma_chars_one_line("Mon"@);
    lemma_chars_one_line("Tue"@);
    lemma_chars_one_line("Wed"@);
    lemma_chars_one_line("Thu"@);
    lemma_chars_one_line("Fri"@);
    lemma_chars_one_line("Sat"@);
    lemma_chars_one_line("Sun"@);
}

proof fn lemma_grouped_prefix_one_line(d: Seq<char>, len: int, k: int)
    requires
        one_line(d),
        0 <= k <= d.len(),
    ensures
        one_line(grouped_prefix(d, len, k)),
    decreases k,
{
    if k > 0 {
        lemma_grouped_prefix_one_line(d, len, k - 1);
        let i = k - 1;
        let sep = if 0 < i <= len && (len - i) % 3 == 0 {
            seq![',']
        } else {
            Seq::<char>::empty()
        };
        lemma_chars_one_line(sep);
        assert(d[i] != '\n') by {
            if d[i] == '\n' {
                assert(d.contains('\n'));
            }
        }
        lemma_chars_one_line(seq![d[i]]);
        lemma_one_line_concat(grouped_prefix(d, len, k - 1), sep);
        lemma_one_line_concat(grouped_prefix(d, len, k - 1) + sep, seq![d[i]]);
    }
}

proof fn lemma_grouped_one_line(s: Seq<char>)
    requires
        one_line(s),
    ensures
        one_line(grouped(s)),
{
    let neg = s.len() > 0 && s[0] == '-';
    let sign = if neg { seq!['-'] } else { Seq::<char>::empty() };
    let rest = if neg { s.drop_first() } else { s };
    lemma_chars_one_line(sign);
    lemma_chars_one_line(seq!['.']);
    if neg {
        lemma_one_line_part(s, 1, s.len() as int);
        assert(rest =~= s.subrange(1, s.len() as int));
    }
    lemma_first_index_of(rest, '.');
    match first_index_of(rest, '.') {
        Some(p) => {
            let int_part = rest.subrange(0, p);
            lemma_one_line_part(rest, 0, p);
            lemma_one_line_part(rest, p + 1, rest.len() as int);
            let g = grouped_prefix(int_part, byte_count(int_part), int_part.len() as int);
            lemma_grouped_prefix_one_line(int_part, byte_count(int_part), int_part.len() as int);
            lemma_one_line_concat(sign, g);
            lemma_one_line_concat(sign + g, seq!['.']);
            lemma_one_line_concat(sign + g + seq!['.'], rest.subrange(p + 1, rest.len() as int));
        },
        None => {
            let g = grouped_prefix(rest, byte_count(rest), rest.len() as int);
            lemma_grouped_prefix_one_line(rest, byte_count(rest), rest.len() as int);
            lemma_one_line_concat(sign, g);
        },
    }
}

proof fn lemma_amount_one_line(x: Option<String>)
    requires
        one_line_opt(x),
    ensures
        one_line(amount_text(x)),
        one_line(percent_text(x)),
{
    lemma_literals_one_line();
    match x {
        Some(s) => {
            lemma_grouped_one_line(s@);
            lemma_one_line_concat(s@, "%"@);
        },
        None => {},
    }
}

proof fn lemma_join_one_line(parts: Seq<Seq<char>>, sep: Seq<char>)
    requires
        one_line(sep),
        forall|i: int| 0 <= i < parts.len() ==> one_line(#[trigger] parts[i]),
    ensures
        one_line(join_with(parts, sep)),
    decreases parts.len(),
{
    if parts.len() == 0 {
        lemma_chars_one_line(Seq::<char>::empty());
    } else if parts.len() > 1 {
        let prev = parts.drop_last();
        assert forall|i: int| 0 <= i < prev.len() implies one_line(#[trigger] prev[i]) by {
            assert(prev[i] == parts[i]);
        }
        lemma_join_one_line(prev, sep);
        assert(one_line(parts[parts.len() - 1]));
        lemma_one_line_concat(join_with(prev, sep), sep);
        lemma_one_line_concat(join_with(prev, sep) + sep, parts.last());
    } else {
        assert(one_line(parts[0]));
    }
}

proof fn lemma_markers_one_line(b20: Option<bool>, b50: Option<bool>, b200: Option<bool>)
    ensures
        one_line(join_with(sma_markers(b20, b50, b200), " "@)),
{
    lemma_literals_one_line();
    assert forall|period: Seq<char>, below: bool| one_line(period) implies one_line(
        #[trigger] marker_text(period, below),
    ) by {
        let mark = if below { "<"@ } else { ">"@ };
        lemma_one_line_concat(mark, "S"@);
        lemma_one_line_concat(mark + "S"@, period);
    }
    assert(one_line(marker_text("20"@, true)) && one_line(marker_text("20"@, false)));
    assert(one_line(marker_text("50"@, true)) && one_line(marker_text("50"@, false)));
    assert(one_line(marker_text("200"@, true)) && one_line(marker_text("200"@, false)));
    let m = sma_markers(b20, b50, b200);
    assert forall|i: int| 0 <= i < m.len() implies one_line(#[trigger] m[i]) by {
        let m20 = match b20 {
            Some(b) => seq![marker_text("20"@, b)],
            None => Seq::empty(),
        };
        let m50 = match b50 {
            Some(b) => seq![marker_text("50"@, b)],
            None => Seq::empty(),
        };
        let m200 = match b200 {
            Some(b) => seq![marker_text("200"@, b)],
            None => Seq::empty(),
        };
        assert(m == m20 + m50 + m200);
        if i < m20.len() {
            assert(m[i] == m20[i]);
        } else if i < m20.len() + m50.len() {
            assert(m[i] == m50[i - m20.len()]);
        } else {
            assert(m[i] == m200[i - m20.len() - m50.len()]);
        }
    }
    lemma_join_one_line(m, " "@);
}

proof fn lemma_month_day_one_line(n: int)
    ensures
        one_line(month_day_text(n)),
{
    lemma_civil_date_exists(n);
    lemma_literals_one_line();
    let (y, m, d) = civil_date(n);
    assert(1 <= m <= 12 && 1 <= d <= 31);
    assert forall|k: nat| k < 10 implies #[trigger] digit_char(k) != '\n' by {
        assert(digit_char(k) as int == k + 48);
    }
    assert(digit_char((m / 10) as nat) != '\n');
    assert(digit_char((m % 10) as nat) != '\n');
    assert(digit_char((d / 10) as nat) != '\n');
    assert(digit_char((d % 10) as nat) != '\n');
    lemma_chars_one_line(two_digits(m));
    lemma_chars_one_line(two_digits(d));
    lemma_one_line_concat(two_digits(m), "-"@);
    lemma_one_line_concat(two_digits(m) + "-"@, two_digits(d));
}

/// Three-line law: the digest of a pair whose figures hold no line break is
/// exactly three lines: the first line, a line break, the second, a line
/// break, the third, and no other line break.
pub proof fn lemma_digest_is_three_lines(f: DigestFigures)
    requires
        figures_one_line(f),
    ensures
        digest_text(f) == digest_line1(f) + seq!['\n'] + digest_line2(f) + seq!['\n'] + digest_line3(f),
        one_line(digest_line1(f)),
        one_line(digest_line2(f)),
        one_line(digest_line3(f)),
{
    lemma_literals_one_line();
    reveal_strlit("\n");
    assert("\n"@ =~= seq!['\n']);
    lemma_grouped_one_line(f.price@);
    lemma_grouped_one_line(f.today_volume@);
    lemma_grouped_one_line(f.month_avg@);
    lemma_grouped_one_line(f.last_open@);
    lemma_grouped_one_line(f.last_close@);
    lemma_amount_one_line(f.weekday_avg);
    lemma_amount_one_line(f.saturday_avg);
    lemma_amount_one_line(f.saturday_pct);
    lemma_amount_one_line(f.sunday_avg);
    lemma_amount_one_line(f.atr);
    lemma_markers_one_line(f.below_sma20, f.below_sma50, f.below_sma200);
    lemma_month_day_one_line(local_day_number(f.last_ts as int, JST_OFFSET_SECS as int));
    let w = jst_weekday(f.last_ts);
    assert(one_line(weekday_abbrev(w)));
    let t = below_count(f.below_sma20, f.below_sma50, f.below_sma200);
    assert(one_line(trend_text(t)));
    assert(one_line(if f.macd_rising { "+"@ } else { "-"@ }));
    let h = "## "@;
    lemma_one_line_concat(h, f.pair@);
    let h = h + f.pair@;
    lemma_one_line_concat(h, "  px="@);
    let h = h + "  px="@;
    lemma_one_line_concat(h, grouped(f.price@));
    let h = h + grouped(f.price@);
    lemma_one_line_concat(h, " ("@);
    let h = h + " ("@;
    lemma_one_line_concat(h, f.intraday_pct@);
    let h = h + f.intraday_pct@;
    lemma_one_line_concat(h, "% intraday)  RSI"@);
    let h = h + "% intraday)  RSI"@;
    lemma_one_line_concat(h, f.rsi@);
    let h = h + f.rsi@;
    lemma_one_line_concat(h, " MACD"@);
    let h = h + " MACD"@;
    lemma_one_line_concat(h, (if f.macd_rising { "+"@ } else { "-"@ }));
    let h = h + (if f.macd_rising { "+"@ } else { "-"@ });
    assert(h == line1_head(f));
    let r = " trend:"@;
    lemma_one_line_concat(r, trend_text(below_count(f.below_sma20, f.below_sma50, f.below_sma200)));
    let r = r + trend_text(below_count(f.below_sma20, f.below_sma50, f.below_sma200));
    lemma_one_line_concat(r, "["@);
    let r = r + "["@;
    lemma_one_line_concat(r, join_with(sma_markers(f.below_sma20, f.below_sma50, f.below_sma200), " "@));
    let r = r + join_with(sma_markers(f.below_sma20, f.below_sma50, f.below_sma200), " "@);
    lemma_one_line_concat(r, "]"@);
    let r = r + "]"@;
    assert(r == line1_trend(f));
    let note = if f.incomplete { "  ※日足未確定"@ } else { Seq::<char>::empty() };
    lemma_chars_one_line(Seq::<char>::empty());
    lemma_one_line_concat(h, r);
    lemma_one_line_concat(h + r, note);
    let l2 = "   vol today(JST,so far)="@;
    lemma_one_line_concat(l2, grouped(f.today_volume@));
    let l2 = l2 + grouped(f.today_volume@);
    lemma_one_line_concat(l2, " | wk="@);
    let l2 = l2 + " | wk="@;
    lemma_one_line_concat(l2, amount_text(f.weekday_avg));
    let l2 = l2 + amount_text(f.weekday_avg);
    lemma_one_line_concat(l2, " sat="@);
    let l2 = l2 + " sat="@;
    lemma_one_line_concat(l2, amount_text(f.saturday_avg));
    let l2 = l2 + amount_text(f.saturday_avg);
    lemma_one_line_concat(l2, "("@);
    let l2 = l2 + "("@;
    lemma_one_line_concat(l2, percent_text(f.saturday_pct));
    let l2 = l2 + percent_text(f.saturday_pct);
    lemma_one_line_concat(l2, ") sun="@);
    let l2 = l2 + ") sun="@;
    lemma_one_line_concat(l2, amount_text(f.sunday_avg));
    let l2 = l2 + amount_text(f.sunday_avg);
    lemma_one_line_concat(l2, " 30d="@);
    let l2 = l2 + " 30d="@;
    lemma_one_line_concat(l2, grouped(f.month_avg@));
    let l2 = l2 + grouped(f.month_avg@);
    assert(l2 == digest_line2(f));
    let l3 = "   "@;
    lemma_one_line_concat(l3, weekday_abbrev(jst_weekday(f.last_ts)));
    let l3 = l3 + weekday_abbrev(jst_weekday(f.last_ts));
    lemma_one_line_concat(l3, " "@);
    let l3 = l3 + " "@;
    lemma_one_line_concat(l3, month_day_text(local_day_number(f.last_ts as int, JST_OFFSET_SECS as int)));
    let l3 = l3 + month_day_text(local_day_number(f.last_ts as int, JST_OFFSET_SECS as int));
    lemma_one_line_concat(l3, "(確定): "@);
    let l3 = l3 + "(確定): "@;
    lemma_one_line_concat(l3, grouped(f.last_open@));
    let l3 = l3 + grouped(f.last_open@);
    lemma_one_line_concat(l3, "->"@);
    let l3 = l3 + "->"@;
    lemma_one_line_concat(l3, grouped(f.last_close@));
    let l3 = l3 + grouped(f.last_close@);
    lemma_one_line_concat(l3, " ("@);
    let l3 = l3 + " ("@;
    lemma_one_line_concat(l3, f.last_change_pct@);
    let l3 = l3 + f.last_change_pct@;
    lemma_one_line_concat(l3, "%)  ATR14="@);
    let l3 = l3 + "%)  ATR14="@;
    lemma_one_line_concat(l3, amount_text(f.atr));
    let l3 = l3 + amount_text(f.atr);
    assert(l3 == digest_line3(f));
}

/// Trend law: the trend word counts all three averages. It is `DOWN` exactly
/// when the price is below at least two of the 20-, 50- and 200-day averages
/// (any two of them, or all three), `UP` exactly when it is below none, and
/// `MIX` exactly when it is below one; the markers follow in brackets.
pub proof fn lemma_trend_counts_all_three_averages(f: DigestFigures)
    ensures
        ({
            let x = f.below_sma20 == Some(true);
            let y = f.below_sma50 == Some(true);
            let z = f.below_sma200 == Some(true);
            let word = if (x && y) || (x && z) || (y && z) {
                "DOWN"@
            } else if !x && !y && !z {
                "UP"@
            } else {
                "MIX"@
            };
            line1_trend(f) == " trend:"@ + word + "["@ + join_with(
                sma_markers(f.below_sma20, f.below_sma50, f.below_sma200),
                " "@,
            ) + "]"@
        }),
{
}

/// Trend-word law: the trend word of a count of averages above the price is
/// `DOWN` for every count of two or more, `UP` for none and `MIX` for one,
/// and the three words differ.
pub proof fn lemma_trend_words(n: int)
    requires
        0 <= n,
    ensures
        n >= 2 ==> trend_text(n) == "DOWN"@,
        n == 1 ==> trend_text(n) == "MIX"@,
        n == 0 ==> trend_text(n) == "UP"@,
        "DOWN"@ != "UP"@ && "DOWN"@ != "MIX"@ && "UP"@ != "MIX"@,
{
    reveal_strlit("DOWN");
    reveal_strlit("UP");
    reveal_strlit("MIX");
    assert("DOWN"@.len() != "UP"@.len());
    assert("DOWN"@.len() != "MIX"@.len());
    assert("UP"@.len() != "MIX"@.len());
}

/// Day-kind law: the JST weekday number of a timestamp (Monday being 0) is
/// one of 0 to 6, counted from 1970-01-01 in JST, a Thursday (3), one day at a
/// time; numbers 0 to 4 (Monday to Friday) are weekdays, 5 is Saturday and 6
/// is Sunday.
pub proof fn lemma_day_kinds_by_weekday(ts: i64)
    ensures
        0 <= jst_weekday(ts) < 7,
        jst_weekday(ts) == ((ts + 32_400_000) / 86_400_000 + 3) % 7,
        forall|w: int|
            0 <= w < 7 ==> {
                &&& (day_kind_of(w) == DayKind::Weekday <==> w <= 4)
                &&& (day_kind_of(w) == DayKind::Saturday <==> w == 5)
                &&& (day_kind_of(w) == DayKind::Sunday <==> w == 6)
            },
        (day_kind_of(jst_weekday(ts)) == DayKind::Weekday) <==> jst_weekday(ts) <= 4,
{
}

/// Consecutive days: the JST weekday of a timestamp one day later is the
/// next one, Sunday being followed by Monday.
pub proof fn lemma_next_day_weekday(ts: i64)
    requires
        ts + 86_400_000 <= i64::MAX,
    ensures
        jst_weekday((ts + 86_400_000) as i64) == (jst_weekday(ts) + 1) % 7,
{
    let a = ts as int + JST_OFFSET_SECS as int * 1000;
    assert((a + 86_400_000) / 86_400_000 == a / 86_400_000 + 1);
}

} // verus!
