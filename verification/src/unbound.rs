//! The DNS blocklist settings of the firewall's resolver: which
//! blocklist types are selected, and which scheduled job updates them.

use vstd::prelude::*;
use vstd::string::StringExecFns;

use crate::text::same_text;

verus! {

/// One choice of blocklist type; `selected` is 1 for a type that is active.
#[derive(Debug, PartialEq, Eq)]
pub struct DnsblTypeOption {
    pub value: String,
    pub selected: u8,
}

/// A scheduled job of the firewall.
#[derive(Debug, PartialEq, Eq)]
pub struct CronJob {
    pub uuid: Option<String>,
    pub enabled: String,
    pub minutes: String,
    pub hours: String,
    pub days: String,
    pub months: String,
    pub weekdays: String,
    pub description: String,
    pub command: String,
    pub parameters: Option<String>,
    pub origin: Option<String>,
}

/// One page of the firewall's scheduled jobs.
#[derive(Debug, PartialEq, Eq)]
pub struct CronJobsResponse {
    pub rows: Vec<CronJob>,
    pub row_count: u32,
    pub total: u32,
    pub current: u32,
}

/// The description by which the job that updates the blocklists is known.
pub open spec fn dnsbl_cron_description() -> Seq<char> {
    "OPNManager Unbound DNSBL Update"@
}

/// The description by which the job that updates the blocklists is known.
pub fn unbound_dnsbl_cron_description() -> (text: &'static str)
    ensures
        text@ == dnsbl_cron_description(),
{
    "OPNManager Unbound DNSBL Update"
}

/// Whether row `i` is the first job that updates the blocklists.
pub open spec fn first_dnsbl_job(rows: Seq<CronJob>, i: int) -> bool {
    &&& 0 <= i < rows.len()
    &&& rows[i].description@ == dnsbl_cron_description()
    &&& forall|j: int| 0 <= j < i ==> (#[trigger] rows[j]).description@ != dnsbl_cron_description()
}

/// The job that updates the blocklists: the first one of that description
/// among the jobs the firewall returned, if there is one.
pub fn find_dnsbl_cron_job(response: CronJobsResponse) -> (found: Option<CronJob>)
    ensures
        match found {
            Some(job) => exists|i: int| first_dnsbl_job(response.rows@, i) && job == response.rows[i],
            None => forall|j: int|
                0 <= j < response.rows.len() ==> (#[trigger] response.rows[j]).description@
                    != dnsbl_cron_description(),
        },
{
    let ghost all = response.rows@;
    let mut rows = response.rows;
    let mut i: usize = 0;
    while i < rows.len()
        invariant
            i <= rows.len(),
            rows@ == all,
            all == response.rows@,
            forall|j: int| 0 <= j < i ==> (#[trigger] all[j]).description@ != dnsbl_cron_description(),
        decreases rows.len() - i,
    {
        if same_text(rows[i].description.as_str(), unbound_dnsbl_cron_description()) {
            assert(first_dnsbl_job(all, i as int));
            let job = rows.swap_remove(i);
            assert(first_dnsbl_job(all, i as int) && job == all[i as int]);
            return Some(job);
        }
        i = i + 1;
    }
    None
}

/// A blocklist type with the choice the firewall reports for it, if it
/// reports one.
#[derive(Debug, PartialEq, Eq)]
pub struct DnsblTypeEntry {
    pub key: String,
    pub option: Option<DnsblTypeOption>,
}

/// Whether an entry's type is active.
pub open spec fn is_active(entry: DnsblTypeEntry) -> bool {
    entry.option matches Some(option) && option.selected == 1
}

/// The keys of the first `n` entries that are active, joined by commas in
/// the order of the entries.
pub open spec fn active_keys(entries: Seq<DnsblTypeEntry>, n: int) -> Seq<char>
    decreases n,
{
    if n <= 0 {
        Seq::empty()
    } else if !is_active(entries[n - 1]) {
        active_keys(entries, n - 1)
    } else if active_count(entries, n - 1) == 0 {
        entries[n - 1].key@
    } else {
        active_keys(entries, n - 1) + ","@ + entries[n - 1].key@
    }
}

/// How many of the first `n` entries are active.
pub open spec fn active_count(entries: Seq<DnsblTypeEntry>, n: int) -> nat
    decreases n,
{
    if n <= 0 {
        0
    } else if is_active(entries[n - 1]) {
        active_count(entries, n - 1) + 1
    } else {
        active_count(entries, n - 1)
    }
}

/// The active blocklist types as one comma-separated text, or `None` when
/// no type is active.
pub fn active_blocklist_types(entries: &Vec<DnsblTypeEntry>) -> (joined: Option<String>)
    ensures
        match joined {
            Some(text) => active_count(entries@, entries.len() as int) > 0 && text@ == active_keys(
                entries@,
                entries.len() as int,
            ),
            None => active_count(entries@, entries.len() as int) == 0,
        },
{
    let mut text = String::new();
    let mut any = false;
    let mut i: usize = 0;
    while i < entries.len()
        invariant
            i <= entries.len(),
            any == (active_count(entries@, i as int) > 0),
            !any ==> text@.len() == 0,
            text@ == active_keys(entries@, i as int),
        decreases entries.len() - i,
    {
        let ghost before = text@;
        let active = match &entries[i].option {
            Some(option) => option.selected == 1,
            None => false,
        };
        if active {
            if any {
                text.append(",");
            }
            text.append(entries[i].key.as_str());
            proof {
                if any {
                    assert(text@ =~= before + ","@ + entries[i as int].key@);
                } else {
                    assert(text@ =~= entries[i as int].key@);
                }
            }
            any = true;
        }
        i = i + 1;
    }
    if any {
        Some(text)
    } else {
        None
    }
}

} // verus!
