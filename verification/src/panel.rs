use vstd::prelude::*;
use http::HeaderMap;
use crate::headers::{first_value, header_entries, header_get};
use crate::html::{page_shell, page_shell_spec};
use crate::log::LogEntry;
use crate::text::{str_eq, strings_view};

verus! {

/* --- Dashboard counts ---------------------------------------------------------- */

/// The hosts of the request entries, in order (with repeats).
pub open spec fn request_hosts(entries: Seq<LogEntry>) -> Seq<Seq<char>>
    decreases entries.len(),
{
    if entries.len() == 0 {
        Seq::empty()
    } else {
        let rest = request_hosts(entries.drop_last());
        match entries.last() {
            LogEntry::Request { host, .. } => rest.push(host@),
            _ => rest,
        }
    }
}

/// An entry that the dashboard counts as an error: a proxy error, or a
/// response with a status of 500 or more.
pub open spec fn counts_as_error(e: LogEntry) -> bool {
    match e {
        LogEntry::Error { .. } => true,
        LogEntry::Response { status, .. } => status >= 500,
        LogEntry::Request { .. } => false,
    }
}

pub open spec fn error_count(entries: Seq<LogEntry>) -> nat
    decreases entries.len(),
{
    if entries.len() == 0 {
        0
    } else {
        error_count(entries.drop_last()) + if counts_as_error(entries.last()) {
            1nat
        } else {
            0nat
        }
    }
}

fn contains_string(v: &Vec<String>, s: &str) -> (r: bool)
    ensures
        r == strings_view(v@).contains(s@),
{
    let mut i: usize = 0;
    while i < v.len()
        invariant
            i <= v.len(),
            forall|k: int| 0 <= k < i ==> v@[k]@ != s@,
        decreases v.len() - i,
    {
        if str_eq(v[i].as_str(), s) {
            assert(strings_view(v@)[i as int] == s@);
            return true;
        }
        i += 1;
    }
    assert forall|k: int| 0 <= k < strings_view(v@).len() implies strings_view(v@)[k] != s@ by {
        assert(strings_view(v@)[k] == v@[k]@);
    }
    false
}

/// The dashboard's figures for the log entries: the number of distinct hosts
/// that requests went to, and the number of errors.
pub fn dashboard_counts(entries: &[LogEntry]) -> (r: (usize, usize))
    ensures
        r.0 == request_hosts(entries@).to_set().len(),
        r.1 == error_count(entries@),
{
    let mut hosts: Vec<String> = Vec::new();
    let mut errors: usize = 0;
    let mut i: usize = 0;
    while i < entries.len()
        invariant
            i <= entries@.len(),
            strings_view(hosts@).no_duplicates(),
            strings_view(hosts@).to_set() == request_hosts(entries@.take(i as int)).to_set(),
            errors == error_count(entries@.take(i as int)),
            errors <= i,
        decreases entries.len() - i,
    {
        let ghost seen = strings_view(hosts@);
        let ghost before = request_hosts(entries@.take(i as int));
        assert(entries@.take(i + 1).drop_last() =~= entries@.take(i as int));
        assert(entries@.take(i + 1).last() == entries@[i as int]);
        match &entries[i] {
            LogEntry::Request { host, .. } => {
                if !contains_string(&hosts, host.as_str()) {
                    hosts.push(host.clone());
                    assert(strings_view(hosts@) =~= seen.push(host@));
                    proof {
                        seen.lemma_push_to_set_commute(host@);
                    }
                    assert(strings_view(hosts@).no_duplicates());
                } else {
                    assert(seen.to_set().insert(host@) =~= seen.to_set());
                }
                proof {
                    before.lemma_push_to_set_commute(host@);
                }
            },
            LogEntry::Response { status, .. } => {
                if *status >= 500 {
                    errors += 1;
                }
            },
            LogEntry::Error { .. } => {
                errors += 1;
            },
        }
        i += 1;
    }
    assert(entries@.take(entries@.len() as int) =~= entries@);
    proof {
        strings_view(hosts@).unique_seq_to_set();
    }
    (hosts.len(), errors)
}

/* --- Pages and fragments ---------------------------------------------------------- */

/// A request made by the page itself (it carries `hx-request`) gets the bare
/// fragment; any other gets the whole page around it.
pub open spec fn page_or_fragment_spec(htmx: bool, content: Seq<char>) -> Seq<char> {
    if htmx {
        content
    } else {
        page_shell_spec(content)
    }
}

pub fn page_or_fragment(headers: &HeaderMap, content: String) -> (r: String)
    ensures
        r@ == page_or_fragment_spec(
            first_value(header_entries(*headers), "hx-request"@) is Some,
            content@,
        ),
{
    if header_get(headers, "hx-request").is_some() {
        content
    } else {
        page_shell(content.as_str())
    }
}

/// The `hx-trigger` value that shows `msg` as a toast.
pub open spec fn toast_spec(msg: Seq<char>) -> Seq<char> {
    "{\"showToast\":\""@ + msg + "\"}"@
}

pub fn toast_trigger(msg: &str) -> (r: String)
    ensures
        r@ == toast_spec(msg@),
{
    let mut t = "{\"showToast\":\"".to_owned();
    t.append(msg);
    t.append("\"}");
    t
}


proof fn lemma_hosts_len(entries: Seq<LogEntry>)
    ensures
        request_hosts(entries).len() <= entries.len(),
        error_count(entries) <= entries.len(),
    decreases entries.len(),
{
    if entries.len() > 0 {
        lemma_hosts_len(entries.drop_last());
    }
}

/// The dashboard never counts more hosts or errors than there are entries.
pub proof fn law_counts_bounded(entries: Seq<LogEntry>)
    ensures
        request_hosts(entries).to_set().len() <= entries.len(),
        error_count(entries) <= entries.len(),
{
    lemma_hosts_len(entries);
    request_hosts(entries).lemma_cardinality_of_set();
}

} // verus!
