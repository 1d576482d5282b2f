//! Ranking of the exchange's current pairs by 24-hour turnover.
use vstd::prelude::*;
use crate::order::{comes_before, is_permutation, stable_order, stably_ordered};
use crate::text::{ends_with, has_suffix, same_text, texts};

verus! {

/// One row of the exchange's ticker list, as far as the ranking reads it.
pub struct TickerRow {
    /// The pair's name, when the row has one as a string.
    pub pair: Option<String>,
    /// The row's 24-hour turnover (volume times last price) as an order key:
    /// a larger key is a larger turnover. Absent when the volume or the last
    /// price is missing or not a number.
    pub turnover: Option<u64>,
}

/// The ticker list reply, as far as the ranking reads it.
pub struct TickersReply {
    /// The reply's `success` field, when it is an integer.
    pub success: Option<i64>,
    /// The reply's `data` rows, when `data` is a list.
    pub data: Option<Vec<TickerRow>>,
}

/// A pair the exchange currently lists: quoted in JPY and not one of the old
/// tickers (MATIC, RNDR, MKR) that the ticker list still carries.
pub open spec fn is_listed_pair(p: Seq<char>) -> bool {
    &&& has_suffix(p, "_jpy"@)
    &&& p != "matic_jpy"@
    &&& p != "rndr_jpy"@
    &&& p != "mkr_jpy"@
}

/// The name and turnover of a row that takes part in the ranking.
pub open spec fn row_entry(r: TickerRow) -> Option<(Seq<char>, u64)> {
    match (r.pair, r.turnover) {
        (Some(p), Some(t)) => if is_listed_pair(p@) {
            Some((p@, t))
        } else {
            None
        },
        _ => None,
    }
}

/// The rows that take part in the ranking, in their order.
pub open spec fn eligible(rows: Seq<TickerRow>) -> Seq<(Seq<char>, u64)>
    decreases rows.len(),
{
    if rows.len() == 0 {
        Seq::empty()
    } else {
        match row_entry(rows.last()) {
            Some(e) => eligible(rows.drop_last()).push(e),
            None => eligible(rows.drop_last()),
        }
    }
}

/// `names` lists the entries by descending turnover; entries with equal
/// turnover keep their order.
pub open spec fn ranks(entries: Seq<(Seq<char>, u64)>, names: Seq<Seq<char>>) -> bool {
    exists|p: Seq<usize>|
        {
            &&& is_permutation(p, entries.len())
            &&& names.len() == p.len()
            &&& forall|i: int| 0 <= i < p.len() ==> names[i] == entries[#[trigger] p[i] as int].0
            &&& forall|i: int, j: int|
                0 <= i < j < p.len() ==> {
                    let a = entries[#[trigger] p[i] as int].1;
                    let b = entries[#[trigger] p[j] as int].1;
                    a > b || (a == b && p[i] < p[j])
                }
        }
}

/// What `ranked_pairs` answers to `reply`.
pub open spec fn ranking_outcome(reply: Option<TickersReply>, r: Result<Vec<String>, String>) -> bool {
    match reply {
        None => r matches Err(e) && e@ == "tickers: not found"@,
        Some(t) => if t.success != Some(1i64) {
            r matches Err(e) && e@ == "tickers: success != 1"@
        } else {
            match t.data {
                None => r matches Err(e) && e@ == "tickers: no data"@,
                Some(rows) => r matches Ok(names) && ranks(
                    eligible(rows@),
                    texts(names@),
                ),
            }
        },
    }
}

/// Whether a pair name is one the exchange currently lists.
pub fn is_listed(pair: &str) -> (r: bool)
    ensures
        r == is_listed_pair(pair@),
{
    ends_with(pair, "_jpy") && !same_text(pair, "matic_jpy") && !same_text(pair, "rndr_jpy")
        && !same_text(pair, "mkr_jpy")
}

/// The names of the listed pairs in `reply`, by descending 24-hour turnover
/// (rows with equal turnover keep their order). Rows without a name or a
/// turnover, other quote currencies and the old tickers are left out.
/// No reply (not found), a `success` other than 1, or no `data` list is an error.
pub fn ranked_pairs(reply: Option<TickersReply>) -> (r: Result<Vec<String>, String>)
    ensures
        ranking_outcome(reply, r),
{
    let t = match reply {
        None => {
            return Err(String::from_str("tickers: not found"));
        },
        Some(t) => t,
    };
    if t.success != Some(1i64) {
        return Err(String::from_str("tickers: success != 1"));
    }
    let rows = match t.data {
        None => {
            return Err(String::from_str("tickers: no data"));
        },
        Some(rows) => rows,
    };
    // the listed rows, with descending turnover as an ascending key
    let mut names: Vec<String> = Vec::new();
    let mut keys: Vec<i128> = Vec::new();
    let mut i: usize = 0;
    while i < rows.len()
        invariant
            i <= rows@.len(),
            names@.len() == keys@.len(),
            names@.len() == eligible(rows@.take(i as int)).len(),
            forall|k: int|
                0 <= k < names@.len() ==> {
                    &&& (#[trigger] names@[k])@ == eligible(rows@.take(i as int))[k].0
                    &&& keys@[k] == -(eligible(rows@.take(i as int))[k].1 as i128)
                },
        decreases rows@.len() - i,
    {
        let row = &rows[i];
        let ghost prev = eligible(rows@.take(i as int));
        proof {
            assert(rows@.take(i + 1).drop_last() =~= rows@.take(i as int));
            assert(rows@.take(i + 1).last() == rows@[i as int]);
        }
        let ghost next = eligible(rows@.take(i + 1));
        let ghost old_names = names@;
        let ghost old_keys = keys@;
        match (&row.pair, &row.turnover) {
            (Some(p), Some(v)) => {
                if is_listed(p.as_str()) {
                    names.push(p.clone());
                    keys.push(-(*v as i128));
                    assert(next == prev.push((p@, *v)));
                } else {
                    assert(next == prev);
                }
            },
            _ => {
                assert(next == prev);
            },
        }
        assert forall|k: int| 0 <= k < names@.len() implies {
            &&& (#[trigger] names@[k])@ == next[k].0
            &&& keys@[k] == -(next[k].1 as i128)
        } by {
            if k < old_names.len() {
                assert(names@[k] == old_names[k]);
                assert(keys@[k] == old_keys[k]);
                assert(next[k] == prev[k]);
            }
        }
        i = i + 1;
    }
    proof {
        assert(rows@.take(rows@.len() as int) =~= rows@);
    }
    let ghost entries = eligible(rows@);
    let order = stable_order(&keys);
    let mut out: Vec<String> = Vec::new();
    let mut k: usize = 0;
    while k < order.len()
        invariant
            k <= order@.len(),
            order@.len() == names@.len(),
            is_permutation(order@, keys@.len()),
            out@.len() == k,
            forall|q: int| 0 <= q < k ==> (#[trigger] out@[q])@ == names@[order@[q] as int]@,
        decreases order@.len() - k,
    {
        out.push(names[order[k]].clone());
        k = k + 1;
    }
    proof {
        let p = order@;
        assert forall|i: int| 0 <= i < p.len() implies texts(out@)[i]
            == entries[#[trigger] p[i] as int].0 by {}
        assert forall|i: int, j: int| 0 <= i < j < p.len() implies {
            let a = entries[#[trigger] p[i] as int].1;
            let b = entries[#[trigger] p[j] as int].1;
            a > b || (a == b && p[i] < p[j])
        } by {
            assert(comes_before(keys@, p[i], p[j]));
        }
        assert(ranks(entries, texts(out@)));
    }
    Ok(out)
}


proof fn lemma_eligible_are_listed(rows: Seq<TickerRow>)
    ensures
        forall|k: int| 0 <= k < eligible(rows).len() ==> is_listed_pair(#[trigger] eligible(rows)[k].0),
    decreases rows.len(),
{
    if rows.len() > 0 {
        lemma_eligible_are_listed(rows.drop_last());
        let prev = eligible(rows.drop_last());
        match row_entry(rows.last()) {
            Some(e) => {
                assert forall|k: int| 0 <= k < eligible(rows).len() implies is_listed_pair(
                    #[trigger] eligible(rows)[k].0,
                ) by {
                    if k < prev.len() {
                        assert(eligible(rows)[k] == prev[k]);
                    }
                }
            },
            None => {},
        }
    }
}

/// The ranking lists only pairs the exchange currently lists (JPY-quoted, not
/// an old ticker), one entry per listed row of the ticker list.
pub proof fn lemma_ranking_lists_current_pairs(rows: Seq<TickerRow>, names: Seq<Seq<char>>)
    requires
        ranks(eligible(rows), names),
    ensures
        names.len() == eligible(rows).len(),
        forall|i: int| 0 <= i < names.len() ==> is_listed_pair(#[trigger] names[i]),
{
    let entries = eligible(rows);
    lemma_eligible_are_listed(rows);
    let p = choose|p: Seq<usize>|
        {
            &&& is_permutation(p, entries.len())
            &&& names.len() == p.len()
            &&& forall|i: int| 0 <= i < p.len() ==> names[i] == entries[#[trigger] p[i] as int].0
            &&& forall|i: int, j: int|
                0 <= i < j < p.len() ==> {
                    let a = entries[#[trigger] p[i] as int].1;
                    let b = entries[#[trigger] p[j] as int].1;
                    a > b || (a == b && p[i] < p[j])
                }
        };
    assert forall|i: int| 0 <= i < names.len() implies is_listed_pair(#[trigger] names[i]) by {
        assert(names[i] == entries[p[i] as int].0);
    }
}

} // verus!
