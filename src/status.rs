//! Status telemetry of the managed bot: the subscription summary from the
//! admin API or, offline, from the bot's data store; the OneBot connection
//! status; and the admin API's addresses.

use vstd::prelude::*;
use crate::errors::ErrorKind;
use crate::text::{decimal, decimal_chars, same_text, string_of_chars};

verus! {

/// Base address of the admin API on the loopback interface.
pub const ADMIN_API_BASE: &'static str = "http://127.0.0.1:15631/api/v1";

pub const ONEBOT_STATUS_ENDPOINT: &'static str = "/onebot/status";

pub const SUBS_SUMMARY_ENDPOINT: &'static str = "/subs/summary";

/// Subscription counts: the total, the count of each site, and whether they
/// were read offline from the data store rather than from the live API.
#[derive(Debug)]
pub struct SubsSummary {
    pub total: u128,
    pub by_site: Vec<(String, u32)>,
    pub offline: bool,
}

impl SubsSummary {
    /// Each site appears once, and the total is the sum of the site counts.
    pub open spec fn wf(&self) -> bool {
        sites_unique(self.by_site@) && self.total == count_sum(self.by_site@)
    }
}

/// The map from site to count that a list of pairs describes (a later pair
/// for a site overrides an earlier one).
pub open spec fn site_map(rows: Seq<(String, u32)>) -> Map<Seq<char>, u32>
    decreases rows.len(),
{
    if rows.len() == 0 {
        Map::empty()
    } else {
        site_map(rows.drop_last()).insert(rows.last().0@, rows.last().1)
    }
}

pub open spec fn sites_unique(s: Seq<(String, u32)>) -> bool {
    forall|i: int, j: int| 0 <= i < j < s.len() ==> (#[trigger] s[i]).0@ != (#[trigger] s[j]).0@
}

/// Sum of the counts of a list of pairs.
pub open spec fn count_sum(s: Seq<(String, u32)>) -> nat
    decreases s.len(),
{
    if s.len() == 0 {
        0
    } else {
        count_sum(s.drop_last()) + s.last().1 as nat
    }
}

proof fn lemma_site_map_update(s: Seq<(String, u32)>, j: int, site: String, count: u32)
    requires
        sites_unique(s),
        0 <= j < s.len(),
        s[j].0@ == site@,
    ensures
        site_map(s.update(j, (site, count))) == site_map(s).insert(site@, count),
        sites_unique(s.update(j, (site, count))),
    decreases s.len(),
{
    let t = s.update(j, (site, count));
    assert(t.drop_last() =~= if j == s.len() - 1 { s.drop_last() } else { s.drop_last().update(j, (site, count)) });
    if j == s.len() - 1 {
        assert(site_map(t) =~= site_map(s).insert(site@, count));
    } else {
        lemma_site_map_update(s.drop_last(), j, site, count);
        assert(s.last().0@ != site@) by {
            assert(s[j].0@ != s[s.len() - 1].0@);
        }
        assert(site_map(t) =~= site_map(s).insert(site@, count));
    }
    assert forall|a: int, b: int| 0 <= a < b < t.len() implies (#[trigger] t[a]).0@ != (#[trigger] t[b]).0@ by {
        assert(s[a].0@ != s[b].0@);
    }
}

proof fn lemma_count_sum_update(s: Seq<(String, u32)>, j: int, x: (String, u32))
    requires
        0 <= j < s.len(),
    ensures
        count_sum(s.update(j, x)) + s[j].1 == count_sum(s) + x.1,
    decreases s.len(),
{
    let t = s.update(j, x);
    if j == s.len() - 1 {
        assert(t.drop_last() =~= s.drop_last());
    } else {
        assert(t.drop_last() =~= s.drop_last().update(j, x));
        lemma_count_sum_update(s.drop_last(), j, x);
    }
}

proof fn lemma_count_sum_bound(s: Seq<(String, u32)>)
    ensures
        count_sum(s) <= s.len() * 0xffff_ffff,
    decreases s.len(),
{
    if s.len() > 0 {
        lemma_count_sum_bound(s.drop_last());
    }
}

/// The position of `site` among the pairs.
fn find_site(s: &Vec<(String, u32)>, site: &String) -> (r: Option<usize>)
    ensures
        r matches Some(j) ==> j < s@.len() && s@[j as int].0@ == site@,
        r is None ==> forall|k: int| 0 <= k < s@.len() ==> (#[trigger] s@[k]).0@ != site@,
{
    let mut j: usize = 0;
    while j < s.len()
        invariant
            j <= s@.len(),
            forall|k: int| 0 <= k < j ==> (#[trigger] s@[k]).0@ != site@,
        decreases s@.len() - j,
    {
        if same_text(s[j].0.as_str(), site.as_str()) {
            return Some(j);
        }
        j += 1;
    }
    None
}

/// Gathers per-site counts, a later row for a site replacing an earlier one,
/// with the total of the counts kept.
fn gather_sites(rows: &Vec<(String, u32)>) -> (r: (Vec<(String, u32)>, u128))
    ensures
        site_map(r.0@) == site_map(rows@),
        sites_unique(r.0@),
        r.1 == count_sum(r.0@),
{
    let mut out: Vec<(String, u32)> = Vec::new();
    let mut total: u128 = 0;
    let mut i: usize = 0;
    while i < rows.len()
        invariant
            i <= rows@.len(),
            site_map(out@) == site_map(rows@.subrange(0, i as int)),
            sites_unique(out@),
            total == count_sum(out@),
            out@.len() <= i,
        decreases rows@.len() - i,
    {
        let site = rows[i].0.clone();
        let count = rows[i].1;
        proof {
            assert(rows@.subrange(0, i as int + 1).drop_last() =~= rows@.subrange(0, i as int));
            lemma_count_sum_bound(out@);
            assert(count_sum(out@) <= out@.len() * 0xffff_ffff);
            assert(out@.len() * 0xffff_ffff <= 0xffff_ffff_ffff_ffff * 0xffff_ffff) by (nonlinear_arith)
                requires out@.len() <= 0xffff_ffff_ffff_ffff;
        }
        let at = find_site(&out, &site);
        if let Some(j) = at {
            let ghost before = out@;
            let (_, old_count) = out.remove(j);
            out.insert(j, (site, count));
            proof {
                assert(out@ =~= before.update(j as int, (rows@[i as int].0, count)));
                lemma_site_map_update(before, j as int, rows@[i as int].0, count);
                lemma_count_sum_update(before, j as int, (rows@[i as int].0, count));
            }
            total = total + count as u128 - old_count as u128;
        } else {
            let ghost before = out@;
            out.push((site, count));
            proof {
                assert(out@.drop_last() =~= before);
                assert forall|a: int, b: int| 0 <= a < b < out@.len() implies (#[trigger] out@[a]).0@ != (#[trigger] out@[b]).0@ by {
                    if b < before.len() {
                        assert(before[a].0@ != before[b].0@);
                    } else {
                        assert(before[a].0@ != site@);
                    }
                }
            }
            total = total + count as u128;
        }
        i += 1;
    }
    proof {
        assert(rows@.subrange(0, rows@.len() as int) =~= rows@);
    }
    (out, total)
}

/// The subscription summary read offline from the data store's
/// `(site, count)` rows; a store that does not exist counts as no rows.
pub fn offline_summary(rows: Option<Vec<(String, u32)>>) -> (r: SubsSummary)
    ensures
        r.offline,
        site_map(r.by_site@) == match rows {
            Some(v) => site_map(v@),
            None => Map::empty(),
        },
        r.wf(),
{
    let rows = match rows {
        Some(v) => v,
        None => Vec::new(),
    };
    let (by_site, total) = gather_sites(&rows);
    SubsSummary { total, by_site, offline: true }
}

/// The subscription summary as the live admin API reports it.
pub fn live_summary(total: u32, by_site: Option<Vec<(String, u32)>>) -> (r: SubsSummary)
    ensures
        !r.offline,
        r.total == total,
        r.by_site@ == match by_site {
            Some(v) => v@,
            None => Seq::empty(),
        },
{
    let by_site = match by_site {
        Some(v) => v,
        None => Vec::new(),
    };
    SubsSummary { total: total as u128, by_site, offline: false }
}

/// The summary once the live API has failed: from the data store where it
/// could be read (`Ok(None)` when it does not exist), else unavailable.
pub fn fallback_summary(store: Result<Option<Vec<(String, u32)>>, ()>) -> (r: Result<SubsSummary, ErrorKind>)
    ensures
        store is Err <==> r == Err::<SubsSummary, ErrorKind>(ErrorKind::StatusUnavailable),
        store matches Ok(rows) ==> r matches Ok(s) && s.offline && s.wf() && site_map(s.by_site@) == match rows {
                Some(v) => site_map(v@),
                None => Map::empty(),
            },
{
    match store {
        Ok(rows) => Ok(offline_summary(rows)),
        Err(_) => Err(ErrorKind::StatusUnavailable),
    }
}

pub open spec fn subs_summary_text_of(total: nat, offline: bool, available: bool) -> Seq<char> {
    if !available {
        "无法获取状态"@
    } else if offline {
        decimal(total) + " (离线)"@
    } else {
        decimal(total) + "/"@ + decimal(total)
    }
}

/// Renders a subscription summary for display: `total/total` when live,
/// `total (离线)` when offline, and a fixed notice when unavailable.
pub fn subs_summary_text(summary: &Result<SubsSummary, ErrorKind>) -> (r: String)
    ensures
        r@ == match summary {
            Ok(s) => subs_summary_text_of(s.total as nat, s.offline, true),
            Err(_) => subs_summary_text_of(0, false, false),
        },
{
    match summary {
        Ok(s) => {
            let mut r = string_of_chars(&decimal_chars(s.total));
            if s.offline {
                r.append(" (离线)");
            } else {
                r.append("/");
                let d = string_of_chars(&decimal_chars(s.total));
                r.append(d.as_str());
            }
            r
        },
        Err(_) => String::from_str("无法获取状态"),
    }
}

/// The OneBot connection as the admin API reports it.
#[derive(Debug)]
pub struct OnebotStatus {
    pub connected: bool,
    pub protocol: Option<String>,
    pub self_id: Option<String>,
}

pub open spec fn onebot_status_text_of(status: Option<OnebotStatus>) -> Seq<char> {
    match status {
        None => "无法获取状态"@,
        Some(s) => if s.connected {
            "已连接 ("@ + match s.protocol {
                Some(p) => p@,
                None => "OneBot v11"@,
            } + ") - "@ + match s.self_id {
                Some(i) => i@,
                None => "未知"@,
            }
        } else {
            "未连接"@
        },
    }
}

/// Renders the OneBot status for display; `None` (the API could not be
/// asked) gives a degraded notice rather than an error.
pub fn onebot_status_text(status: Option<OnebotStatus>) -> (r: String)
    ensures
        r@ == onebot_status_text_of(status),
{
    match status {
        None => String::from_str("无法获取状态"),
        Some(s) => {
            if s.connected {
                let mut r = String::from_str("已连接 (");
                match &s.protocol {
                    Some(p) => r.append(p.as_str()),
                    None => r.append("OneBot v11"),
                }
                r.append(") - ");
                match &s.self_id {
                    Some(i) => r.append(i.as_str()),
                    None => r.append("未知"),
                }
                r
            } else {
                String::from_str("未连接")
            }
        },
    }
}

/// The admin API address of an endpoint such as `/subs/summary`.
pub fn admin_api_url(endpoint: &str) -> (r: String)
    ensures
        r@ == ADMIN_API_BASE@ + endpoint@,
{
    let mut r = String::from_str(ADMIN_API_BASE);
    r.append(endpoint);
    r
}

/// The `Authorization` header value for a token.
pub fn bearer_value(token: &str) -> (r: String)
    ensures
        r@ == "Bearer "@ + token@,
{
    let mut r = String::from_str("Bearer ");
    r.append(token);
    r
}

} // verus!
