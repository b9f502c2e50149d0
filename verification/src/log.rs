use vstd::prelude::*;

verus! {

/// One line of the traffic log: a request, the response to it, or a proxy
/// error, correlated by `req_id`.
pub enum LogEntry {
    Request {
        req_id: String,
        ts: u64,
        method: String,
        uri: String,
        host: String,
        user_agent: String,
        accept: String,
    },
    Response {
        req_id: String,
        ts: u64,
        status: u16,
        content_type: String,
        body_preview: String,
    },
    Error {
        req_id: String,
        ts: u64,
        client_addr: String,
        error: String,
    },
}

impl Clone for LogEntry {
    fn clone(&self) -> (r: Self)
        ensures
            r == *self,
    {
        match self {
            LogEntry::Request { req_id, ts, method, uri, host, user_agent, accept } => {
                LogEntry::Request {
                    req_id: req_id.clone(),
                    ts: *ts,
                    method: method.clone(),
                    uri: uri.clone(),
                    host: host.clone(),
                    user_agent: user_agent.clone(),
                    accept: accept.clone(),
                }
            },
            LogEntry::Response { req_id, ts, status, content_type, body_preview } => {
                LogEntry::Response {
                    req_id: req_id.clone(),
                    ts: *ts,
                    status: *status,
                    content_type: content_type.clone(),
                    body_preview: body_preview.clone(),
                }
            },
            LogEntry::Error { req_id, ts, client_addr, error } => {
                LogEntry::Error {
                    req_id: req_id.clone(),
                    ts: *ts,
                    client_addr: client_addr.clone(),
                    error: error.clone(),
                }
            },
        }
    }
}

impl LogEntry {
    /// The time stamp (milliseconds since the epoch) of any kind of entry.
    pub open spec fn spec_ts(&self) -> u64 {
        match self {
            LogEntry::Request { ts, .. } => *ts,
            LogEntry::Response { ts, .. } => *ts,
            LogEntry::Error { ts, .. } => *ts,
        }
    }

    /// The request id of any kind of entry.
    pub open spec fn spec_req_id(&self) -> Seq<char> {
        match self {
            LogEntry::Request { req_id, .. } => req_id@,
            LogEntry::Response { req_id, .. } => req_id@,
            LogEntry::Error { req_id, .. } => req_id@,
        }
    }

    #[verifier::when_used_as_spec(spec_ts)]
    pub fn ts(&self) -> (r: u64)
        ensures
            r == self.spec_ts(),
    {
        match self {
            LogEntry::Request { ts, .. } => *ts,
            LogEntry::Response { ts, .. } => *ts,
            LogEntry::Error { ts, .. } => *ts,
        }
    }

    pub fn req_id(&self) -> (r: &str)
        ensures
            r@ == self.spec_req_id(),
    {
        match self {
            LogEntry::Request { req_id, .. } => req_id.as_str(),
            LogEntry::Response { req_id, .. } => req_id.as_str(),
            LogEntry::Error { req_id, .. } => req_id.as_str(),
        }
    }
}

/// The entries of `s` stamped at or after `since`, in order.
pub open spec fn entries_since(s: Seq<LogEntry>, since: u64) -> Seq<LogEntry>
    decreases s.len(),
{
    if s.len() == 0 {
        Seq::empty()
    } else if s.last().spec_ts() >= since {
        entries_since(s.drop_last(), since).push(s.last())
    } else {
        entries_since(s.drop_last(), since)
    }
}

/// The last `limit` items of `s` (all of them when there are fewer).
pub open spec fn last_n<T>(s: Seq<T>, limit: nat) -> Seq<T> {
    if s.len() <= limit {
        s
    } else {
        s.skip(s.len() - limit)
    }
}

/// Of the parsed log entries, those stamped at or after `since`, at most the
/// last `limit` of them, oldest first.
pub fn select_log_entries(entries: &Vec<LogEntry>, since: u64, limit: usize) -> (r: Vec<
    LogEntry,
>)
    ensures
        r@ == last_n(entries_since(entries@, since), limit as nat),
{
    let mut kept: Vec<LogEntry> = Vec::new();
    let mut i: usize = 0;
    while i < entries.len()
        invariant
            i <= entries.len(),
            kept@ == entries_since(entries@.take(i as int), since),
        decreases entries.len() - i,
    {
        assert(entries@.take(i + 1).drop_last() =~= entries@.take(i as int));
        if entries[i].ts() >= since {
            kept.push(entries[i].clone());
        }
        i += 1;
    }
    assert(entries@.take(entries.len() as int) =~= entries@);
    let start: usize = if kept.len() > limit {
        kept.len() - limit
    } else {
        0
    };
    let mut out: Vec<LogEntry> = Vec::new();
    let mut j: usize = start;
    while j < kept.len()
        invariant
            start <= j <= kept.len(),
            out@ == kept@.subrange(start as int, j as int),
        decreases kept.len() - j,
    {
        out.push(kept[j].clone());
        j += 1;
        assert(out@ =~= kept@.subrange(start as int, j as int));
    }
    assert(kept@.subrange(start as int, kept.len() as int) =~= last_n(kept@, limit as nat));
    out
}


proof fn lemma_since_stamps(s: Seq<LogEntry>, since: u64)
    ensures
        forall|i: int| 0 <= i < entries_since(s, since).len() ==> #[trigger] entries_since(s, since)[i].spec_ts() >= since,
        entries_since(s, since).len() <= s.len(),
    decreases s.len(),
{
    if s.len() > 0 {
        lemma_since_stamps(s.drop_last(), since);
    }
}

/// The selected entries are at most `limit` and all stamped at or after
/// `since`.
pub proof fn law_selection_bounded(s: Seq<LogEntry>, since: u64, limit: nat)
    ensures
        last_n(entries_since(s, since), limit).len() <= limit,
        forall|i: int| 0 <= i < last_n(entries_since(s, since), limit).len() ==> #[trigger] last_n(entries_since(s, since), limit)[i].spec_ts() >= since,
{
    lemma_since_stamps(s, since);
    let f = entries_since(s, since);
    if f.len() > limit {
        assert forall|i: int| 0 <= i < last_n(f, limit).len() implies #[trigger] last_n(f, limit)[i].spec_ts() >= since by {
            assert(last_n(f, limit)[i] == f[i + f.len() - limit]);
        }
    }
}

} // verus!
