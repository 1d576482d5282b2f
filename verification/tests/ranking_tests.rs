use hourly_brief::tickers::{is_listed, ranked_pairs, TickerRow, TickersReply};

fn row(pair: Option<&str>, turnover: Option<u64>) -> TickerRow {
    TickerRow { pair: pair.map(|p| p.to_string()), turnover }
}

#[test]
fn ranks_by_descending_turnover() {
    let reply = TickersReply {
        success: Some(1),
        data: Some(vec![
            row(Some("xrp_jpy"), Some(30)),
            row(Some("btc_jpy"), Some(900)),
            row(Some("eth_jpy"), Some(400)),
        ]),
    };
    assert_eq!(ranked_pairs(Some(reply)).unwrap(), vec!["btc_jpy", "eth_jpy", "xrp_jpy"]);
}

#[test]
fn leaves_out_old_tickers_and_crosses() {
    let reply = TickersReply {
        success: Some(1),
        data: Some(vec![
            row(Some("matic_jpy"), Some(1000)),
            row(Some("eth_btc"), Some(999)),
            row(Some("rndr_jpy"), Some(998)),
            row(Some("mkr_jpy"), Some(997)),
            row(Some("sol_jpy"), Some(5)),
            row(None, Some(10_000)),
            row(Some("ada_jpy"), None),
            row(Some("_jpy"), Some(1)),
        ]),
    };
    assert_eq!(ranked_pairs(Some(reply)).unwrap(), vec!["sol_jpy", "_jpy"]);
}

#[test]
fn equal_turnover_keeps_order() {
    let reply = TickersReply {
        success: Some(1),
        data: Some(vec![
            row(Some("a_jpy"), Some(7)),
            row(Some("b_jpy"), Some(9)),
            row(Some("c_jpy"), Some(7)),
            row(Some("d_jpy"), Some(9)),
            row(Some("e_jpy"), Some(0)),
        ]),
    };
    assert_eq!(ranked_pairs(Some(reply)).unwrap(), vec!["b_jpy", "d_jpy", "a_jpy", "c_jpy", "e_jpy"]);
}

#[test]
fn reply_errors() {
    assert_eq!(ranked_pairs(None).unwrap_err(), "tickers: not found");
    let r = ranked_pairs(Some(TickersReply { success: Some(0), data: Some(vec![]) }));
    assert_eq!(r.unwrap_err(), "tickers: success != 1");
    let r = ranked_pairs(Some(TickersReply { success: None, data: Some(vec![]) }));
    assert_eq!(r.unwrap_err(), "tickers: success != 1");
    let r = ranked_pairs(Some(TickersReply { success: Some(1), data: None }));
    assert_eq!(r.unwrap_err(), "tickers: no data");
    let r = ranked_pairs(Some(TickersReply { success: Some(1), data: Some(vec![]) }));
    assert_eq!(r.unwrap(), Vec::<String>::new());
}

#[test]
fn listed_pairs() {
    assert!(is_listed("btc_jpy"));
    assert!(!is_listed("btc_usdt"));
    assert!(!is_listed("matic_jpy"));
    assert!(!is_listed("jpy"));
}
