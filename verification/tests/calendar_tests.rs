use hourly_brief::calendar::{calendar_accepts, CHRONO_MAX_MS, CHRONO_MIN_MS, JST_OFFSET_SECS};
use hourly_brief::digest::{day_kinds, digest_header, today_positions, DayKind};
use hourly_brief::candles::{
    candle_url, classify_candle_reply, daily_file_names, daily_selection, hourly_file_names,
    hourly_selection, tickers_url, CandleFile,
};

/// 2024-02-29 15:00 UTC, which is 2024-03-01 00:00 JST (a Friday).
const MARCH_FIRST_JST: i64 = 1_709_218_800_000;
const HOUR: i64 = 3_600_000;
const DAY: i64 = 86_400_000;

#[test]
fn day_boundaries_around_the_epoch() {
    // a UTC day runs from midnight to midnight
    assert_eq!(daily_selection("btc_jpy", &vec![0], 300, DAY - 1).unwrap(), (0, true));
    assert_eq!(daily_selection("btc_jpy", &vec![-1], 300, 0).unwrap(), (0, false));
    assert_eq!(daily_selection("btc_jpy", &vec![0], 300, DAY).unwrap(), (0, false));
    // a JST day starts at 15:00 UTC of the day before
    assert_eq!(today_positions(&vec![-9 * HOUR - 1, -9 * HOUR, 0]), vec![1, 2]);
    // 1970-01-01 was a Thursday
    assert_eq!(
        day_kinds(&vec![0, 2 * DAY - 9 * HOUR - 1, 2 * DAY - 9 * HOUR, 3 * DAY - 9 * HOUR]),
        vec![DayKind::Weekday, DayKind::Weekday, DayKind::Saturday, DayKind::Sunday]
    );
}

#[test]
fn header_dates_and_clock() {
    assert_eq!(digest_header(-1, 1), "# bitbank periodical brief 1970-01-01 Thu JST 08:59  (1 pairs)");
    assert_eq!(
        digest_header(MARCH_FIRST_JST + 13 * HOUR + 5 * 60_000 + 59_999, 44),
        "# bitbank periodical brief 2024-03-01 Fri JST 13:05  (44 pairs)"
    );
    assert_eq!(
        digest_header(MARCH_FIRST_JST - 1, 0),
        "# bitbank periodical brief 2024-02-29 Thu JST 23:59  (0 pairs)"
    );
}

#[test]
fn addresses() {
    assert_eq!(
        candle_url("btc_jpy", "1day", "2024"),
        "https://public.bitbank.cc/btc_jpy/candlestick/1day/2024"
    );
    assert_eq!(tickers_url(), "https://public.bitbank.cc/tickers");
}

#[test]
fn file_names() {
    assert_eq!(daily_file_names(MARCH_FIRST_JST), ("2023".to_string(), "2024".to_string()));
    assert_eq!(hourly_file_names(MARCH_FIRST_JST), vec!["20240229".to_string(), "20240228".to_string()]);
    // the first of January (UTC) looks back to the previous year
    let new_year = 1_704_067_200_000;
    assert_eq!(daily_file_names(new_year), ("2023".to_string(), "2024".to_string()));
    assert_eq!(hourly_file_names(new_year), vec!["20240101".to_string(), "20231231".to_string()]);
}

#[test]
fn candle_reply_classes() {
    assert!(matches!(classify_candle_reply("btc_jpy", "1day", "2024", false, None, false), CandleFile::Empty));
    assert!(matches!(classify_candle_reply("btc_jpy", "1day", "2024", true, Some(0), true), CandleFile::Empty));
    assert!(matches!(classify_candle_reply("btc_jpy", "1day", "2024", true, Some(1), true), CandleFile::Rows));
    match classify_candle_reply("btc_jpy", "1day", "2024", true, Some(1), false) {
        CandleFile::Malformed(m) => assert_eq!(m, "btc_jpy 1day/2024: no ohlcv"),
        _ => panic!("expected malformed"),
    }
}

#[test]
fn daily_selection_keeps_the_tail_and_flags_today() {
    let now = MARCH_FIRST_JST; // 2024-02-29 15:00 UTC
    let today_utc = now - 15 * HOUR;
    let ts = vec![today_utc - 2 * DAY, today_utc - DAY, today_utc];
    assert_eq!(daily_selection("btc_jpy", &ts, 2, now).unwrap(), (1, true));
    assert_eq!(daily_selection("btc_jpy", &ts, 300, now).unwrap(), (0, true));
    let ts = vec![today_utc - 2 * DAY, today_utc - DAY];
    assert_eq!(daily_selection("btc_jpy", &ts, 300, now).unwrap(), (0, false));
    assert_eq!(daily_selection("btc_jpy", &vec![], 300, now).unwrap_err(), "btc_jpy: no daily data");
}

#[test]
fn hourly_selection_sorts_and_keeps_the_tail() {
    // today's file first, then yesterday's
    let ts = vec![30, 40, 50, 10, 20, 30];
    assert_eq!(hourly_selection("eth_jpy", &ts, 48).unwrap(), vec![3, 4, 0, 5, 1, 2]);
    assert_eq!(hourly_selection("eth_jpy", &ts, 2).unwrap(), vec![1, 2]);
    assert_eq!(hourly_selection("eth_jpy", &ts, 0).unwrap(), Vec::<usize>::new());
    assert_eq!(hourly_selection("eth_jpy", &vec![], 48).unwrap_err(), "eth_jpy: no hourly data");
}

#[test]
fn file_names_of_far_years() {
    // 10000-01-01 01:00 UTC: years past 9999 carry a sign
    let year_10000 = 253_402_300_800_000 + HOUR;
    assert_eq!(hourly_file_names(year_10000), vec!["+100000101".to_string(), "99991231".to_string()]);
    assert_eq!(daily_file_names(year_10000), ("9999".to_string(), "10000".to_string()));
    // -0001-01-01 01:00 UTC: years before 0 too, zero-padded to four digits
    let year_minus_1 = -62_198_755_200_000 + HOUR;
    assert_eq!(hourly_file_names(year_minus_1), vec!["-00010101".to_string(), "-00021231".to_string()]);
    assert_eq!(daily_file_names(year_minus_1), ("-2".to_string(), "-1".to_string()));
}

#[test]
fn chrono_range_is_accepted_to_its_ends() {
    assert!(calendar_accepts(CHRONO_MAX_MS, 0));
    assert!(!calendar_accepts(CHRONO_MAX_MS + 1, 0));
    assert!(calendar_accepts(CHRONO_MIN_MS, 0));
    assert!(!calendar_accepts(CHRONO_MIN_MS - 1, 0));
    // the local time must be in range too
    assert!(!calendar_accepts(CHRONO_MAX_MS, JST_OFFSET_SECS));
    assert!(calendar_accepts(CHRONO_MAX_MS - 9 * HOUR, JST_OFFSET_SECS));
    assert!(calendar_accepts(CHRONO_MIN_MS, JST_OFFSET_SECS));
    assert!(!calendar_accepts(CHRONO_MIN_MS, -3600));
    assert!(!calendar_accepts(i64::MAX, i32::MAX));
}

#[test]
fn calendar_at_chronos_ends() {
    assert_eq!(
        hourly_file_names(CHRONO_MAX_MS),
        vec!["+2621421231".to_string(), "+2621421230".to_string()]
    );
    assert_eq!(daily_file_names(CHRONO_MIN_MS), ("-262144".to_string(), "-262143".to_string()));
    assert_eq!(
        digest_header(CHRONO_MAX_MS - 9 * HOUR, 2),
        "# bitbank periodical brief +262142-12-31 Mon JST 23:59  (2 pairs)"
    );
    // -262143-01-01 was a Thursday
    assert_eq!(day_kinds(&vec![CHRONO_MIN_MS]), vec![DayKind::Weekday]);
    let far = 8_100_000_000_000_000;
    assert_eq!(daily_selection("btc_jpy", &vec![far - DAY, far], 300, far).unwrap(), (0, true));
}
