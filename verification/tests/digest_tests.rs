use hourly_brief::digest::{
    compose_digest, confirmed_len, day_kinds, digest_header, error_section, recent_start,
    today_positions, DayKind, DigestFigures,
};

/// 2024-03-01 00:00 JST, a Friday.
const MARCH_FIRST_JST: i64 = 1_709_218_800_000;
const HOUR: i64 = 3_600_000;
const DAY: i64 = 86_400_000;

fn figures() -> DigestFigures {
    DigestFigures {
        pair: "btc_jpy".to_string(),
        price: "15000000".to_string(),
        intraday_pct: "+1.2".to_string(),
        rsi: "55".to_string(),
        macd_rising: true,
        below_sma20: Some(false),
        below_sma50: Some(true),
        below_sma200: None,
        incomplete: true,
        today_volume: "123.4".to_string(),
        weekday_avg: Some("1234".to_string()),
        saturday_avg: Some("800".to_string()),
        saturday_pct: Some("65".to_string()),
        sunday_avg: None,
        month_avg: "1100".to_string(),
        last_ts: MARCH_FIRST_JST,
        last_open: "14800000".to_string(),
        last_close: "15000000".to_string(),
        last_change_pct: "+1.4".to_string(),
        atr: Some("300000".to_string()),
    }
}

#[test]
fn digest_layout() {
    let text = compose_digest(&figures());
    let expected = "## btc_jpy  px=15,000,000 (+1.2% intraday)  RSI55 MACD+ trend:MIX[>S20 <S50]  ※日足未確定\n\
        \x20  vol today(JST,so far)=123.4 | wk=1,234 sat=800(65%) sun=n/a 30d=1,100\n\
        \x20  Fri 03-01(確定): 14,800,000->15,000,000 (+1.4%)  ATR14=300,000";
    assert_eq!(text, expected);
}

#[test]
fn digest_trend_and_markers() {
    let mut f = figures();
    f.below_sma20 = Some(true);
    f.below_sma50 = Some(true);
    f.below_sma200 = Some(false);
    f.macd_rising = false;
    f.incomplete = false;
    f.atr = None;
    f.saturday_pct = None;
    let text = compose_digest(&f);
    let first = text.lines().next().unwrap();
    assert_eq!(first, "## btc_jpy  px=15,000,000 (+1.2% intraday)  RSI55 MACD- trend:DOWN[<S20 <S50 >S200]");
    assert!(text.ends_with("ATR14=n/a"));
    assert!(text.contains("sat=800(n/a)"));
    f.below_sma20 = None;
    f.below_sma50 = None;
    f.below_sma200 = None;
    let text = compose_digest(&f);
    assert!(text.lines().next().unwrap().ends_with("trend:UP[]"));
}

#[test]
fn error_and_header_lines() {
    assert_eq!(error_section("xrp_jpy", "xrp_jpy: empty data"), "## xrp_jpy  ERROR: xrp_jpy: empty data");
    assert_eq!(digest_header(MARCH_FIRST_JST, 3), "# bitbank periodical brief 2024-03-01 Fri JST 00:00  (3 pairs)");
}

#[test]
fn day_kinds_in_jst() {
    let ts = vec![MARCH_FIRST_JST, MARCH_FIRST_JST + DAY, MARCH_FIRST_JST + 2 * DAY, MARCH_FIRST_JST - HOUR];
    assert_eq!(day_kinds(&ts), vec![DayKind::Weekday, DayKind::Saturday, DayKind::Sunday, DayKind::Weekday]);
}

#[test]
fn today_is_the_jst_date_of_the_last_candle() {
    let ts = vec![MARCH_FIRST_JST - 2 * HOUR, MARCH_FIRST_JST - HOUR, MARCH_FIRST_JST, MARCH_FIRST_JST + HOUR];
    assert_eq!(today_positions(&ts), vec![2, 3]);
    let ts = vec![MARCH_FIRST_JST - 2 * HOUR, MARCH_FIRST_JST - HOUR];
    assert_eq!(today_positions(&ts), vec![0, 1]);
}

#[test]
fn confirmed_and_recent_windows() {
    assert_eq!(confirmed_len(300, true), 299);
    assert_eq!(confirmed_len(300, false), 300);
    assert_eq!(recent_start(299), 269);
    assert_eq!(recent_start(12), 0);
}

#[test]
fn digest_is_three_lines() {
    let mut f = figures();
    assert_eq!(compose_digest(&f).lines().count(), 3);
    // the last day of a leap February, and a new year's day
    f.last_ts = MARCH_FIRST_JST - DAY;
    let t = compose_digest(&f);
    assert_eq!(t.lines().count(), 3);
    assert!(t.lines().nth(2).unwrap().starts_with("   Thu 02-29(確定): "));
    f.last_ts = 1_704_034_800_000; // 2024-01-01 00:00 JST
    assert!(compose_digest(&f).lines().nth(2).unwrap().starts_with("   Mon 01-01(確定): "));
}
