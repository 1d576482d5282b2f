//! The delivery configuration: its defaults, how a stored record is read, how
//! a change request is checked, and which pairs a run covers.
use vstd::prelude::*;
use crate::number::{decimal_text, lemma_parse_decimal_text, parse_unsigned, parse_unsigned_text, u64_text};
use crate::text::{same_text, texts};

verus! {

/// The pairs covered when nothing else is configured.
pub open spec fn default_pairs() -> Seq<Seq<char>> {
    seq!["btc_jpy"@, "eth_jpy"@, "xrp_jpy"@]
}

/// Number of top pairs covered by default in `top` mode.
pub const DEFAULT_TOP_N: usize = 10;

/// The settings of a digest run.
#[derive(Debug)]
pub struct BriefConfig {
    /// `pairs` (the listed pairs), `top` (the `top_n` pairs by turnover) or
    /// `all` (every pair, by turnover).
    pub mode: String,
    /// The pairs of `pairs` mode.
    pub pairs: Vec<String>,
    /// The number of pairs of `top` mode.
    pub top_n: usize,
    /// Whether the digest is delivered at all.
    pub enabled: bool,
    /// `chunks` (messages under the length limit) or `file` (one attachment).
    pub delivery: String,
}

impl Default for BriefConfig {
    /// The default settings: the three default pairs, delivered in chunks.
    fn default() -> (c: Self)
        ensures
            c.mode@ == "pairs"@,
            texts(c.pairs@) == default_pairs(),
            c.top_n == DEFAULT_TOP_N,
            c.enabled,
            c.delivery@ == "chunks"@,
    {
        let mut pairs: Vec<String> = Vec::new();
        pairs.push(String::from_str("btc_jpy"));
        pairs.push(String::from_str("eth_jpy"));
        pairs.push(String::from_str("xrp_jpy"));
        assert(texts(pairs@) =~= default_pairs());
        BriefConfig {
            mode: String::from_str("pairs"),
            pairs,
            top_n: DEFAULT_TOP_N,
            enabled: true,
            delivery: String::from_str("chunks"),
        }
    }
}

/// The stored configuration record, as far as it is read: each attribute is
/// present only when it has the expected type.
pub struct ConfigItem {
    /// `mode`, when it is a string.
    pub mode: Option<String>,
    /// `pairs`, when it is a list; each element, when it is a string.
    pub pairs: Option<Vec<Option<String>>>,
    /// `top_n`, when it is a number: its decimal text.
    pub top_n: Option<String>,
    /// `enabled`, when it is a boolean.
    pub enabled: Option<bool>,
    /// `delivery`, when it is a string.
    pub delivery: Option<String>,
    /// `updated_at`, when it is a string.
    pub updated_at: Option<String>,
    /// `note`, when it is a string.
    pub note: Option<String>,
}

/// The string elements of a list, in order.
pub open spec fn string_items(l: Seq<Option<String>>) -> Seq<Seq<char>>
    decreases l.len(),
{
    if l.len() == 0 {
        Seq::empty()
    } else {
        match l.last() {
            Some(s) => string_items(l.drop_last()).push(s@),
            None => string_items(l.drop_last()),
        }
    }
}

/// A present text, or `default`.
pub open spec fn text_or(x: Option<String>, default: Seq<char>) -> Seq<char> {
    match x {
        Some(s) => s@,
        None => default,
    }
}

/// A number's text read as an unsigned integer no larger than `max`, or `default`.
pub open spec fn number_or(x: Option<String>, max: nat, default: nat) -> nat {
    match x {
        Some(t) => match parse_unsigned(t@, max) {
            Some(v) => v,
            None => default,
        },
        None => default,
    }
}

/// The pairs of a run's settings read from a record: the record's string
/// pairs when there are any, the default pairs otherwise.
pub open spec fn run_pairs(item: ConfigItem) -> Seq<Seq<char>> {
    match item.pairs {
        Some(l) => if string_items(l@).len() > 0 {
            string_items(l@)
        } else {
            default_pairs()
        },
        None => default_pairs(),
    }
}

/// The strings of a list, in order.
pub fn collect_strings(l: &Vec<Option<String>>) -> (v: Vec<String>)
    ensures
        texts(v@) == string_items(l@),
{
    let mut v: Vec<String> = Vec::new();
    let mut i: usize = 0;
    while i < l.len()
        invariant
            i <= l@.len(),
            texts(v@) == string_items(l@.take(i as int)),
        decreases l@.len() - i,
    {
        proof {
            assert(l@.take(i + 1).drop_last() =~= l@.take(i as int));
            assert(l@.take(i + 1).last() == l@[i as int]);
        }
        match &l[i] {
            Some(s) => {
                v.push(s.clone());
                assert(texts(v@) =~= string_items(l@.take(i as int)).push(s@));
            },
            None => {},
        }
        i = i + 1;
    }
    assert(l@.take(l@.len() as int) =~= l@);
    v
}

fn text_or_default(x: &Option<String>, default: &str) -> (t: String)
    ensures
        t@ == text_or(*x, default@),
{
    match x {
        Some(s) => s.clone(),
        None => String::from_str(default),
    }
}

/// The settings of a run read from the stored record: the defaults, with each
/// attribute of the record that has the expected type taking the place of
/// its default (an empty pair list and an unreadable `top_n` are ignored).
pub fn config_from_item(item: &ConfigItem) -> (c: BriefConfig)
    ensures
        c.mode@ == text_or(item.mode, "pairs"@),
        texts(c.pairs@) == run_pairs(*item),
        c.top_n as nat == number_or(item.top_n, usize::MAX as nat, DEFAULT_TOP_N as nat),
        c.enabled == (match item.enabled {
            Some(b) => b,
            None => true,
        }),
        c.delivery@ == text_or(item.delivery, "chunks"@),
{
    let mut c = BriefConfig::default();
    if let Some(m) = &item.mode {
        c.mode = m.clone();
    }
    if let Some(l) = &item.pairs {
        let pairs = collect_strings(l);
        if pairs.len() > 0 {
            c.pairs = pairs;
        }
    }
    if let Some(t) = &item.top_n {
        if let Some(n) = parse_unsigned_text(t.as_str(), usize::MAX as u64) {
            c.top_n = n as usize;
        }
    }
    if let Some(b) = item.enabled {
        c.enabled = b;
    }
    if let Some(d) = &item.delivery {
        c.delivery = d.clone();
    }
    c
}

/// How many ranked pairs a run covers: `top_n` in `top` mode, all of them in
/// `all` mode; none (the listed pairs instead) in any other mode.
pub open spec fn ranking_limit_of(mode: Seq<char>, top_n: nat) -> Option<nat> {
    if mode == "top"@ {
        Some(top_n)
    } else if mode == "all"@ {
        Some(usize::MAX as nat)
    } else {
        None
    }
}

/// How many ranked pairs a run with these settings covers, if it covers
/// ranked pairs at all.
pub fn ranking_limit(cfg: &BriefConfig) -> (n: Option<usize>)
    ensures
        n matches Some(k) ==> ranking_limit_of(cfg.mode@, cfg.top_n as nat) == Some(k as nat),
        n is None ==> ranking_limit_of(cfg.mode@, cfg.top_n as nat) is None,
{
    if same_text(cfg.mode.as_str(), "top") {
        Some(cfg.top_n)
    } else if same_text(cfg.mode.as_str(), "all") {
        Some(usize::MAX)
    } else {
        None
    }
}

/// The pairs a run covers: the first `limit` of the `ranked` pairs in `top` and
/// `all` modes, the listed pairs otherwise.
pub fn resolve_pairs(cfg: &BriefConfig, ranked: &[String]) -> (v: Vec<String>)
    ensures
        texts(v@) == match ranking_limit_of(cfg.mode@, cfg.top_n as nat) {
            Some(n) => texts(ranked@).take(if n < ranked@.len() {
                n as int
            } else {
                ranked@.len() as int
            }),
            None => texts(cfg.pairs@),
        },
{
    match ranking_limit(cfg) {
        Some(n) => {
            let mut v: Vec<String> = Vec::new();
            let mut i: usize = 0;
            while i < ranked.len() && i < n
                invariant
                    i <= ranked@.len(),
                    i <= n,
                    texts(v@) == texts(ranked@).take(i as int),
                decreases ranked@.len() - i,
            {
                let ghost before = v@;
                let x = ranked[i].clone();
                assert(x@ == ranked@[i as int]@);
                v.push(x);
                assert(texts(v@) =~= texts(before).push(x@));
                assert(texts(v@) =~= texts(ranked@).take(i + 1));
                i = i + 1;
            }
            v
        },
        None => {
            let v = cfg.pairs.clone();
            assert(texts(v@) =~= texts(cfg.pairs@));
            v
        },
    }
}


/// What an hourly run does under its settings.
pub enum RunPlan {
    /// Delivery is paused: nothing is fetched and nothing is sent.
    Paused,
    /// The digest covers the first pairs by turnover, at most this many.
    Ranked(usize),
    /// The digest covers these configured pairs.
    Listed(Vec<String>),
}

/// The first decision of an hourly run: a disabled configuration pauses the
/// delivery; otherwise `top` and `all` modes cover the pairs ranked by
/// turnover (the first `top_n`, or all of them), and any other mode the
/// configured pairs.
pub fn plan_run(cfg: &BriefConfig) -> (p: RunPlan)
    ensures
        !cfg.enabled <==> p is Paused,
        cfg.enabled && ranking_limit_of(cfg.mode@, cfg.top_n as nat) is Some ==> (p matches RunPlan::Ranked(
            n,
        ) && ranking_limit_of(cfg.mode@, cfg.top_n as nat) == Some(n as nat)),
        cfg.enabled && ranking_limit_of(cfg.mode@, cfg.top_n as nat) is None ==> (p matches RunPlan::Listed(
            v,
        ) && texts(v@) == texts(cfg.pairs@)),
{
    if !cfg.enabled {
        return RunPlan::Paused;
    }
    match ranking_limit(cfg) {
        Some(n) => RunPlan::Ranked(n),
        None => {
            let v = cfg.pairs.clone();
            assert(texts(v@) =~= texts(cfg.pairs@));
            RunPlan::Listed(v)
        },
    }
}

/// The note of the configuration view when no record is stored yet.
pub open spec fn default_note() -> Seq<char> {
    "(default — no record yet)"@
}

/// The configuration as the settings page shows it.
pub struct ConfigView {
    /// The mode.
    pub mode: String,
    /// The listed pairs.
    pub pairs: Vec<String>,
    /// The number of pairs of `top` mode.
    pub top_n: u64,
    /// Whether the digest is delivered.
    pub enabled: bool,
    /// The delivery form.
    pub delivery: String,
    /// When the record was saved; absent when no record is stored.
    pub updated_at: Option<String>,
    /// The note saved with the record.
    pub note: String,
}

/// The pairs of a record as the settings page shows them (none when absent).
pub open spec fn shown_pairs(item: ConfigItem) -> Seq<Seq<char>> {
    match item.pairs {
        Some(l) => string_items(l@),
        None => Seq::empty(),
    }
}

/// `v` is how the settings page shows the record `item`.
pub open spec fn shows(item: Option<ConfigItem>, v: ConfigView) -> bool {
    match item {
        None => {
            &&& v.mode@ == "pairs"@
            &&& texts(v.pairs@) == default_pairs()
            &&& v.top_n == DEFAULT_TOP_N
            &&& v.enabled
            &&& v.delivery@ == "chunks"@
            &&& v.updated_at is None
            &&& v.note@ == default_note()
        },
        Some(it) => {
            &&& v.mode@ == text_or(it.mode, "pairs"@)
            &&& texts(v.pairs@) == shown_pairs(it)
            &&& v.top_n as nat == number_or(it.top_n, u64::MAX as nat, DEFAULT_TOP_N as nat)
            &&& v.enabled == (match it.enabled {
                Some(b) => b,
                None => true,
            })
            &&& v.delivery@ == text_or(it.delivery, "chunks"@)
            &&& v.updated_at matches Some(u) && u@ == text_or(it.updated_at, Seq::empty())
            &&& v.note@ == text_or(it.note, Seq::empty())
        },
    }
}

/// The configuration as the settings page shows it: the defaults and a note
/// when no record is stored; otherwise the record's attributes, each with its
/// default when absent (no pairs, 10, enabled, chunks, empty texts).
pub fn view_config(item: &Option<ConfigItem>) -> (v: ConfigView)
    ensures
        shows(*item, v),
{
    match item {
        None => {
            let c = BriefConfig::default();
            let v = ConfigView {
                mode: c.mode,
                pairs: c.pairs,
                top_n: DEFAULT_TOP_N as u64,
                enabled: true,
                delivery: c.delivery,
                updated_at: None,
                note: String::from_str("(default — no record yet)"),
            };
            v
        },
        Some(it) => {
            proof {
                reveal_strlit("");
                assert(""@ =~= Seq::<char>::empty());
            }
            let pairs = match &it.pairs {
                Some(l) => collect_strings(l),
                None => Vec::new(),
            };
            assert(texts(pairs@) =~= shown_pairs(*it));
            let top_n = match &it.top_n {
                Some(t) => match parse_unsigned_text(t.as_str(), u64::MAX) {
                    Some(n) => n,
                    None => DEFAULT_TOP_N as u64,
                },
                None => DEFAULT_TOP_N as u64,
            };
            let enabled = match it.enabled {
                Some(b) => b,
                None => true,
            };
            let w = ConfigView {
                mode: text_or_default(&it.mode, "pairs"),
                pairs,
                top_n,
                enabled,
                delivery: text_or_default(&it.delivery, "chunks"),
                updated_at: Some(text_or_default(&it.updated_at, "")),
                note: text_or_default(&it.note, ""),
            };
            w
        },
    }
}

/// A change of the configuration as requested: each field present only when
/// the request has it with the expected type.
pub struct ConfigRequest {
    /// `mode`, when it is a string.
    pub mode: Option<String>,
    /// `pairs`, when it is a list; each element, when it is a string.
    pub pairs: Option<Vec<Option<String>>>,
    /// `top_n`, when it is a non-negative integer.
    pub top_n: Option<u64>,
    /// `enabled`, when it is a boolean.
    pub enabled: Option<bool>,
    /// `delivery`, when it is a string.
    pub delivery: Option<String>,
    /// `note`, when it is a string.
    pub note: Option<String>,
}

/// A checked configuration, ready to be stored.
pub struct StoredConfig {
    /// `pairs`, `top` or `all`.
    pub mode: String,
    /// The requested pairs (all known to the exchange in `pairs` mode).
    pub pairs: Vec<String>,
    /// Between 1 and 100.
    pub top_n: u64,
    /// Whether the digest is delivered.
    pub enabled: bool,
    /// `file` or `chunks`.
    pub delivery: String,
    /// At most 200 characters.
    pub note: String,
}

/// Longest note kept, in characters.
pub const NOTE_LIMIT: usize = 200;

/// Largest `top_n` accepted; smaller than 1 is raised to 1.
pub const TOP_N_LIMIT: u64 = 100;

/// A mode the configuration accepts.
pub open spec fn valid_mode(m: Seq<char>) -> bool {
    m == "pairs"@ || m == "top"@ || m == "all"@
}

/// The requested mode (`pairs` when absent).
pub open spec fn request_mode(req: ConfigRequest) -> Seq<char> {
    text_or(req.mode, "pairs"@)
}

/// The requested pairs (none when absent).
pub open spec fn request_pairs(req: ConfigRequest) -> Seq<Seq<char>> {
    match req.pairs {
        Some(l) => string_items(l@),
        None => Seq::empty(),
    }
}

/// The first of `pairs` that is not among `available`.
pub open spec fn first_unknown(pairs: Seq<Seq<char>>, available: Seq<Seq<char>>) -> Option<
    Seq<char>,
>
    decreases pairs.len(),
{
    if pairs.len() == 0 {
        None
    } else if !available.contains(pairs[0]) {
        Some(pairs[0])
    } else {
        first_unknown(pairs.drop_first(), available)
    }
}

/// Why a request is refused, if it is.
pub open spec fn request_error(req: ConfigRequest, available: Seq<Seq<char>>) -> Option<Seq<char>> {
    let mode = request_mode(req);
    let pairs = request_pairs(req);
    if !valid_mode(mode) {
        Some("mode must be pairs | top | all"@)
    } else if mode == "pairs"@ && pairs.len() == 0 {
        Some("mode=pairs requires a non-empty pairs list"@)
    } else if mode == "pairs"@ && first_unknown(pairs, available) is Some {
        Some("unknown pair: "@ + first_unknown(pairs, available)->0)
    } else {
        None
    }
}

/// `x` limited to `lo..=hi`.
pub open spec fn clamp(x: int, lo: int, hi: int) -> int {
    if x < lo {
        lo
    } else if x > hi {
        hi
    } else {
        x
    }
}

/// The first `n` characters of `s` (all of them when it is shorter).
pub open spec fn prefix_upto(s: Seq<char>, n: int) -> Seq<char> {
    if s.len() <= n {
        s
    } else {
        s.take(n)
    }
}

/// The stored form of an accepted request.
pub open spec fn accepted(req: ConfigRequest, c: StoredConfig) -> bool {
    &&& c.mode@ == request_mode(req)
    &&& texts(c.pairs@) == request_pairs(req)
    &&& c.top_n == clamp(
        match req.top_n {
            Some(n) => n as int,
            None => DEFAULT_TOP_N as int,
        },
        1,
        TOP_N_LIMIT as int,
    )
    &&& c.enabled == (match req.enabled {
        Some(b) => b,
        None => true,
    })
    &&& c.delivery@ == (if text_or(req.delivery, "chunks"@) == "file"@ {
        "file"@
    } else {
        "chunks"@
    })
    &&& c.note@ == prefix_upto(text_or(req.note, Seq::empty()), NOTE_LIMIT as int)
}

fn is_available(p: &String, available: &[String]) -> (r: bool)
    ensures
        r == texts(available@).contains(p@),
{
    let mut i: usize = 0;
    while i < available.len()
        invariant
            i <= available@.len(),
            forall|k: int| 0 <= k < i ==> available@[k]@ != p@,
        decreases available@.len() - i,
    {
        if same_text(available[i].as_str(), p.as_str()) {
            assert(texts(available@)[i as int] == p@);
            return true;
        }
        i = i + 1;
    }
    assert forall|k: int| 0 <= k < texts(available@).len() implies texts(available@)[k] != p@ by {
        assert(texts(available@)[k] == available@[k]@);
    }
    false
}

fn find_unknown(pairs: &Vec<String>, available: &[String]) -> (r: Option<usize>)
    ensures
        r matches Some(i) ==> i < pairs@.len() && first_unknown(texts(pairs@), texts(available@))
            == Some(pairs@[i as int]@),
        r is None ==> first_unknown(texts(pairs@), texts(available@)) is None,
{
    let ghost all = texts(pairs@);
    let ghost avail = texts(available@);
    assert(all.skip(0) =~= all);
    let mut i: usize = 0;
    while i < pairs.len()
        invariant
            i <= pairs@.len(),
            all == texts(pairs@),
            avail == texts(available@),
            first_unknown(all, avail) == first_unknown(all.skip(i as int), avail),
        decreases pairs@.len() - i,
    {
        let ghost rest = all.skip(i as int);
        assert(rest.len() > 0);
        assert(rest[0] == pairs@[i as int]@);
        assert(rest.drop_first() =~= all.skip(i + 1));
        if !is_available(&pairs[i], available) {
            return Some(i);
        }
        i = i + 1;
    }
    assert(all.skip(pairs@.len() as int) =~= Seq::<Seq<char>>::empty());
    None
}

/// Checks a change of the configuration against the pairs the exchange lists.
/// The mode (default `pairs`) must be `pairs`, `top` or `all`; in `pairs` mode
/// the pair list must be non-empty and every pair listed, else the first
/// unknown pair is named. An accepted request is stored with `top_n` (default
/// 10) brought within 1..=100, `enabled` defaulting to true, delivery `file`
/// only when asked for and `chunks` otherwise, and the note cut to 200
/// characters.
pub fn validate_config(req: &ConfigRequest, available: &[String]) -> (r: Result<StoredConfig, String>)
    ensures
        request_error(*req, texts(available@)) matches Some(e) ==> (r matches Err(m) && m@ == e),
        request_error(*req, texts(available@)) is None ==> (r matches Ok(c) && accepted(*req, c)),
{
    let mode = text_or_default(&req.mode, "pairs");
    if !same_text(mode.as_str(), "pairs") && !same_text(mode.as_str(), "top") && !same_text(
        mode.as_str(),
        "all",
    ) {
        return Err(String::from_str("mode must be pairs | top | all"));
    }
    let pairs = match &req.pairs {
        Some(l) => collect_strings(l),
        None => Vec::new(),
    };
    assert(texts(pairs@) =~= request_pairs(*req));
    if same_text(mode.as_str(), "pairs") {
        if pairs.len() == 0 {
            return Err(String::from_str("mode=pairs requires a non-empty pairs list"));
        }
        match find_unknown(&pairs, available) {
            Some(i) => {
                let mut m = String::from_str("unknown pair: ");
                m.append(pairs[i].as_str());
                return Err(m);
            },
            None => {},
        }
    }
    let requested_top: u64 = match req.top_n {
        Some(n) => n,
        None => DEFAULT_TOP_N as u64,
    };
    let top_n: u64 = if requested_top < 1 {
        1
    } else if requested_top > TOP_N_LIMIT {
        TOP_N_LIMIT
    } else {
        requested_top
    };
    let enabled = match req.enabled {
        Some(b) => b,
        None => true,
    };
    let asked = text_or_default(&req.delivery, "chunks");
    let delivery = if same_text(asked.as_str(), "file") {
        String::from_str("file")
    } else {
        String::from_str("chunks")
    };
    proof {
        reveal_strlit("");
        assert(""@ =~= Seq::<char>::empty());
    }
    let full_note = text_or_default(&req.note, "");
    let len = full_note.as_str().unicode_len();
    let keep: usize = if len <= NOTE_LIMIT {
        len
    } else {
        NOTE_LIMIT
    };
    let note = String::from_str(full_note.as_str().substring_char(0, keep));
    assert(note@ =~= prefix_upto(text_or(req.note, Seq::empty()), NOTE_LIMIT as int));
    Ok(StoredConfig { mode, pairs, top_n, enabled, delivery, note })
}

/// The record of a stored configuration saved at `updated_at`: every attribute
/// present with its value, `top_n` as decimal text.
pub open spec fn records(item: ConfigItem, c: StoredConfig, updated_at: Seq<char>) -> bool {
    &&& item.mode matches Some(m) && m@ == c.mode@
    &&& item.pairs matches Some(l) && l@.len() == c.pairs@.len() && forall|i: int|
        0 <= i < l@.len() ==> ((#[trigger] l@[i]) matches Some(p) && p@ == c.pairs@[i]@)
    &&& item.top_n matches Some(t) && t@ == decimal_text(c.top_n as nat)
    &&& item.enabled == Some(c.enabled)
    &&& item.delivery matches Some(d) && d@ == c.delivery@
    &&& item.updated_at matches Some(u) && u@ == updated_at
    &&& item.note matches Some(n) && n@ == c.note@
}

/// The record to store for a checked configuration saved at `updated_at`.
pub fn stored_item(c: &StoredConfig, updated_at: &str) -> (item: ConfigItem)
    ensures
        records(item, *c, updated_at@),
{
    let mut pairs: Vec<Option<String>> = Vec::new();
    let mut i: usize = 0;
    while i < c.pairs.len()
        invariant
            i <= c.pairs@.len(),
            pairs@.len() == i,
            forall|k: int| 0 <= k < i ==> ((#[trigger] pairs@[k]) matches Some(p) && p@ == c.pairs@[k]@),
        decreases c.pairs@.len() - i,
    {
        pairs.push(Some(c.pairs[i].clone()));
        i = i + 1;
    }
    ConfigItem {
        mode: Some(c.mode.clone()),
        pairs: Some(pairs),
        top_n: Some(u64_text(c.top_n)),
        enabled: Some(c.enabled),
        delivery: Some(c.delivery.clone()),
        updated_at: Some(String::from_str(updated_at)),
        note: Some(c.note.clone()),
    }
}


proof fn lemma_string_items_all_present(l: Seq<Option<String>>, pairs: Seq<String>)
    requires
        l.len() == pairs.len(),
        forall|i: int| 0 <= i < l.len() ==> ((#[trigger] l[i]) matches Some(p) && p@ == pairs[i]@),
    ensures
        string_items(l) == texts(pairs),
    decreases l.len(),
{
    if l.len() > 0 {
        let l2 = l.drop_last();
        let p2 = pairs.drop_last();
        assert forall|i: int| 0 <= i < l2.len() implies ((#[trigger] l2[i]) matches Some(p) && p@
            == p2[i]@) by {
            assert(l2[i] == l[i]);
        }
        lemma_string_items_all_present(l2, p2);
        assert(l[l.len() - 1] == l.last());
        assert(texts(pairs) =~= texts(p2).push(pairs.last()@));
    } else {
        assert(texts(pairs) =~= Seq::<Seq<char>>::empty());
    }
}

/// Central law of the configuration: what the settings page saves is what the
/// next digest run uses. A record of a checked configuration gives the run
/// the saved mode, `top_n`, `enabled` and delivery, and the saved pairs (the
/// default pairs when none were saved, as in `top` and `all` modes).
pub proof fn lemma_saved_config_drives_next_run(item: ConfigItem, c: StoredConfig, updated_at: Seq<char>)
    requires
        records(item, c, updated_at),
        c.top_n <= TOP_N_LIMIT,
    ensures
        text_or(item.mode, "pairs"@) == c.mode@,
        run_pairs(item) == (if c.pairs@.len() > 0 {
            texts(c.pairs@)
        } else {
            default_pairs()
        }),
        number_or(item.top_n, usize::MAX as nat, DEFAULT_TOP_N as nat) == c.top_n,
        item.enabled == Some(c.enabled),
        text_or(item.delivery, "chunks"@) == c.delivery@,
{
    let l = item.pairs->0;
    lemma_string_items_all_present(l@, c.pairs@);
    lemma_parse_decimal_text(c.top_n as nat, usize::MAX as nat);
}

/// The settings page shows a saved configuration as it was saved, with the
/// time it was saved.
pub proof fn lemma_saved_config_is_shown(
    item: ConfigItem,
    c: StoredConfig,
    updated_at: Seq<char>,
    v: ConfigView,
)
    requires
        records(item, c, updated_at),
        shows(Some(item), v),
    ensures
        v.mode@ == c.mode@,
        texts(v.pairs@) == texts(c.pairs@),
        v.top_n == c.top_n,
        v.enabled == c.enabled,
        v.delivery@ == c.delivery@,
        v.updated_at matches Some(u) && u@ == updated_at,
        v.note@ == c.note@,
{
    let l = item.pairs->0;
    lemma_string_items_all_present(l@, c.pairs@);
    lemma_parse_decimal_text(c.top_n as nat, u64::MAX as nat);
}

/// Every accepted configuration is well-formed: a known mode, `top_n` within
/// 1..=100, delivery `file` or `chunks`, a note of at most 200 characters, and
/// in `pairs` mode a non-empty list of pairs the exchange lists.
pub proof fn lemma_accepted_config_is_well_formed(
    req: ConfigRequest,
    available: Seq<Seq<char>>,
    c: StoredConfig,
)
    requires
        request_error(req, available) is None,
        accepted(req, c),
    ensures
        valid_mode(c.mode@),
        1 <= c.top_n <= TOP_N_LIMIT,
        c.delivery@ == "file"@ || c.delivery@ == "chunks"@,
        c.note@.len() <= NOTE_LIMIT,
        c.mode@ == "pairs"@ ==> c.pairs@.len() > 0 && forall|i: int|
            0 <= i < c.pairs@.len() ==> available.contains(#[trigger] c.pairs@[i]@),
{
    if c.mode@ == "pairs"@ {
        let pairs = request_pairs(req);
        assert forall|i: int| 0 <= i < c.pairs@.len() implies available.contains(
            #[trigger] c.pairs@[i]@,
        ) by {
            assert(texts(c.pairs@)[i] == c.pairs@[i]@);
            lemma_no_unknown_means_all_known(pairs, available, i);
        }
    }
}

proof fn lemma_no_unknown_means_all_known(
    pairs: Seq<Seq<char>>,
    available: Seq<Seq<char>>,
    i: int,
)
    requires
        first_unknown(pairs, available) is None,
        0 <= i < pairs.len(),
    ensures
        available.contains(pairs[i]),
    decreases pairs.len(),
{
    if i > 0 {
        assert(pairs.drop_first()[i - 1] == pairs[i]);
        lemma_no_unknown_means_all_known(pairs.drop_first(), available, i - 1);
    }
}

} // verus!
