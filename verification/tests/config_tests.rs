use hourly_brief::config::{
    config_from_item, plan_run, ranking_limit, resolve_pairs, stored_item, validate_config, view_config,
    BriefConfig, ConfigItem, ConfigRequest, RunPlan,
};

fn s(x: &str) -> String {
    x.to_string()
}

fn empty_item() -> ConfigItem {
    ConfigItem { mode: None, pairs: None, top_n: None, enabled: None, delivery: None, updated_at: None, note: None }
}

fn empty_request() -> ConfigRequest {
    ConfigRequest { mode: None, pairs: None, top_n: None, enabled: None, delivery: None, note: None }
}

fn available() -> Vec<String> {
    vec![s("btc_jpy"), s("eth_jpy"), s("xrp_jpy"), s("sol_jpy")]
}

#[test]
fn default_settings() {
    let c = BriefConfig::default();
    assert_eq!(c.mode, "pairs");
    assert_eq!(c.pairs, vec!["btc_jpy", "eth_jpy", "xrp_jpy"]);
    assert_eq!(c.top_n, 10);
    assert!(c.enabled);
    assert_eq!(c.delivery, "chunks");
}

#[test]
fn settings_from_a_record() {
    let item = ConfigItem {
        mode: Some(s("top")),
        pairs: Some(vec![Some(s("sol_jpy")), None, Some(s("btc_jpy"))]),
        top_n: Some(s("5")),
        enabled: Some(false),
        delivery: Some(s("file")),
        updated_at: None,
        note: None,
    };
    let c = config_from_item(&item);
    assert_eq!(c.mode, "top");
    assert_eq!(c.pairs, vec!["sol_jpy", "btc_jpy"]);
    assert_eq!(c.top_n, 5);
    assert!(!c.enabled);
    assert_eq!(c.delivery, "file");
}

#[test]
fn settings_ignore_empty_pairs_and_bad_numbers() {
    let mut item = empty_item();
    item.pairs = Some(vec![None]);
    item.top_n = Some(s("-3"));
    let c = config_from_item(&item);
    assert_eq!(c.pairs, vec!["btc_jpy", "eth_jpy", "xrp_jpy"]);
    assert_eq!(c.top_n, 10);
    assert_eq!(c.mode, "pairs");
    assert!(c.enabled);
}

#[test]
fn pairs_of_a_run() {
    let ranked = vec![s("btc_jpy"), s("eth_jpy"), s("xrp_jpy")];
    let mut c = BriefConfig::default();
    c.mode = s("top");
    c.top_n = 2;
    assert_eq!(ranking_limit(&c), Some(2));
    assert_eq!(resolve_pairs(&c, &ranked), vec!["btc_jpy", "eth_jpy"]);
    c.top_n = 10;
    assert_eq!(resolve_pairs(&c, &ranked), ranked);
    c.mode = s("all");
    assert_eq!(ranking_limit(&c), Some(usize::MAX));
    assert_eq!(resolve_pairs(&c, &ranked), ranked);
    c.mode = s("pairs");
    c.pairs = vec![s("sol_jpy")];
    assert_eq!(ranking_limit(&c), None);
    assert_eq!(resolve_pairs(&c, &ranked), vec!["sol_jpy"]);
    c.mode = s("bogus");
    assert_eq!(resolve_pairs(&c, &[]), vec!["sol_jpy"]);
}

#[test]
fn view_without_a_record() {
    let v = view_config(&None);
    assert_eq!(v.mode, "pairs");
    assert_eq!(v.pairs, vec!["btc_jpy", "eth_jpy", "xrp_jpy"]);
    assert_eq!(v.top_n, 10);
    assert!(v.enabled);
    assert_eq!(v.delivery, "chunks");
    assert_eq!(v.updated_at, None);
    assert_eq!(v.note, "(default — no record yet)");
}

#[test]
fn view_of_a_partial_record() {
    let mut item = empty_item();
    item.top_n = Some(s("x"));
    let v = view_config(&Some(item));
    assert_eq!(v.mode, "pairs");
    assert_eq!(v.pairs, Vec::<String>::new());
    assert_eq!(v.top_n, 10);
    assert!(v.enabled);
    assert_eq!(v.delivery, "chunks");
    assert_eq!(v.updated_at, Some(s("")));
    assert_eq!(v.note, "");
}

#[test]
fn refused_requests() {
    let mut r = empty_request();
    r.mode = Some(s("some"));
    assert_eq!(validate_config(&r, &available()).err().unwrap(), "mode must be pairs | top | all");
    let r = empty_request();
    assert_eq!(
        validate_config(&r, &available()).err().unwrap(),
        "mode=pairs requires a non-empty pairs list"
    );
    let mut r = empty_request();
    r.pairs = Some(vec![Some(s("btc_jpy")), Some(s("doge_usd")), Some(s("foo_jpy"))]);
    assert_eq!(validate_config(&r, &available()).err().unwrap(), "unknown pair: doge_usd");
    let mut r = empty_request();
    r.pairs = Some(vec![None]);
    assert_eq!(
        validate_config(&r, &available()).err().unwrap(),
        "mode=pairs requires a non-empty pairs list"
    );
}

#[test]
fn accepted_requests() {
    let mut r = empty_request();
    r.pairs = Some(vec![Some(s("eth_jpy")), None, Some(s("btc_jpy"))]);
    let c = validate_config(&r, &available()).unwrap();
    assert_eq!(c.mode, "pairs");
    assert_eq!(c.pairs, vec!["eth_jpy", "btc_jpy"]);
    assert_eq!(c.top_n, 10);
    assert!(c.enabled);
    assert_eq!(c.delivery, "chunks");
    assert_eq!(c.note, "");

    let mut r = empty_request();
    r.mode = Some(s("top"));
    r.pairs = Some(vec![Some(s("unknown_jpy"))]);
    r.top_n = Some(1000);
    r.enabled = Some(false);
    r.delivery = Some(s("file"));
    r.note = Some("あ".repeat(250));
    let c = validate_config(&r, &available()).unwrap();
    assert_eq!(c.mode, "top");
    assert_eq!(c.pairs, vec!["unknown_jpy"]);
    assert_eq!(c.top_n, 100);
    assert!(!c.enabled);
    assert_eq!(c.delivery, "file");
    assert_eq!(c.note, "あ".repeat(200));

    let mut r = empty_request();
    r.mode = Some(s("all"));
    r.top_n = Some(0);
    r.delivery = Some(s("pigeon"));
    let c = validate_config(&r, &available()).unwrap();
    assert_eq!(c.top_n, 1);
    assert_eq!(c.delivery, "chunks");
}

#[test]
fn saved_configuration_is_used_and_shown() {
    let mut r = empty_request();
    r.mode = Some(s("top"));
    r.pairs = Some(vec![Some(s("sol_jpy"))]);
    r.top_n = Some(25);
    r.enabled = Some(false);
    r.delivery = Some(s("file"));
    r.note = Some(s("weekend test"));
    let c = validate_config(&r, &available()).unwrap();
    let item = stored_item(&c, "2024-03-01T09:00:00+09:00");
    assert_eq!(item.top_n, Some(s("25")));

    let run = config_from_item(&item);
    assert_eq!(run.mode, "top");
    assert_eq!(run.pairs, vec!["sol_jpy"]);
    assert_eq!(run.top_n, 25);
    assert!(!run.enabled);
    assert_eq!(run.delivery, "file");

    let v = view_config(&Some(item));
    assert_eq!(v.mode, "top");
    assert_eq!(v.pairs, vec!["sol_jpy"]);
    assert_eq!(v.top_n, 25);
    assert!(!v.enabled);
    assert_eq!(v.delivery, "file");
    assert_eq!(v.updated_at, Some(s("2024-03-01T09:00:00+09:00")));
    assert_eq!(v.note, "weekend test");
}

#[test]
fn a_disabled_configuration_pauses_the_run() {
    let mut c = BriefConfig::default();
    assert!(matches!(plan_run(&c), RunPlan::Listed(ref v) if *v == vec![s("btc_jpy"), s("eth_jpy"), s("xrp_jpy")]));
    c.mode = s("top");
    c.top_n = 5;
    assert!(matches!(plan_run(&c), RunPlan::Ranked(5)));
    c.mode = s("all");
    assert!(matches!(plan_run(&c), RunPlan::Ranked(usize::MAX)));
    c.enabled = false;
    assert!(matches!(plan_run(&c), RunPlan::Paused));
    c.mode = s("pairs");
    assert!(matches!(plan_run(&c), RunPlan::Paused));
}
