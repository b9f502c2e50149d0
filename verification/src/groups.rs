use vstd::prelude::*;
use crate::log::LogEntry;
use crate::text::{chars_eq, to_chars};

verus! {

/// The log entries that share one request id: the request, its response and
/// the proxy error, if any, and the earliest time stamp among them.
pub struct LogGroup {
    pub req_id: String,
    pub request: Option<LogEntry>,
    pub response: Option<LogEntry>,
    pub error: Option<LogEntry>,
    pub ts: u64,
}

impl Clone for LogGroup {
    fn clone(&self) -> (r: Self)
        ensures
            r == *self,
    {
        LogGroup {
            req_id: self.req_id.clone(),
            request: clone_opt_entry(&self.request),
            response: clone_opt_entry(&self.response),
            error: clone_opt_entry(&self.error),
            ts: self.ts,
        }
    }
}

fn clone_opt_entry(o: &Option<LogEntry>) -> (r: Option<LogEntry>)
    ensures
        r == *o,
{
    match o {
        Some(e) => Some(e.clone()),
        None => None,
    }
}

/// The fields of a group: request, response, error, time stamp.
pub type GroupFields = (Option<LogEntry>, Option<LogEntry>, Option<LogEntry>, u64);

/// The fields of a group before any entry was seen.
pub open spec fn no_fields() -> GroupFields {
    (None, None, None, 0xffff_ffff_ffff_ffffu64)
}

/// Takes entry `e` into the fields: it fills the slot of its kind (a later
/// entry of a kind replaces an earlier one) and may lower the time stamp.
pub open spec fn absorb(p: GroupFields, e: LogEntry) -> GroupFields {
    let ts = if e.spec_ts() < p.3 {
        e.spec_ts()
    } else {
        p.3
    };
    match e {
        LogEntry::Request { .. } => (Some(e), p.1, p.2, ts),
        LogEntry::Response { .. } => (p.0, Some(e), p.2, ts),
        LogEntry::Error { .. } => (p.0, p.1, Some(e), ts),
    }
}

/// The group of request id `k` after reading the entries of `s` in order.
pub open spec fn group_fold(s: Seq<LogEntry>, k: Seq<char>) -> GroupFields
    decreases s.len(),
{
    if s.len() == 0 {
        no_fields()
    } else {
        let p = group_fold(s.drop_last(), k);
        if s.last().spec_req_id() == k {
            absorb(p, s.last())
        } else {
            p
        }
    }
}

pub open spec fn fields_of(g: LogGroup) -> GroupFields {
    (g.request, g.response, g.error, g.ts)
}

/// Some entry of `s` has request id `k`.
pub open spec fn has_id(s: Seq<LogEntry>, k: Seq<char>) -> bool {
    exists|p: int| 0 <= p < s.len() && #[trigger] s[p].spec_req_id() == k
}

/// `gs` holds exactly one correct group for each request id of `s`.
#[verifier::opaque]
pub open spec fn is_grouping(s: Seq<LogEntry>, gs: Seq<LogGroup>) -> bool {
    &&& forall|i: int|
        0 <= i < gs.len() ==> fields_of(#[trigger] gs[i]) == group_fold(s, gs[i].req_id@)
            && has_id(s, gs[i].req_id@)
    &&& forall|i: int, j: int|
        0 <= i < j < gs.len() ==> (#[trigger] gs[i]).req_id@ != (#[trigger] gs[j]).req_id@
    &&& forall|p: int| 0 <= p < s.len() ==> has_group(gs, #[trigger] s[p].spec_req_id())
}

/// Some group of `gs` has request id `k`.
pub open spec fn has_group(gs: Seq<LogGroup>, k: Seq<char>) -> bool {
    exists|i: int| 0 <= i < gs.len() && #[trigger] gs[i].req_id@ == k
}

/// Newer groups come first.
#[verifier::opaque]
pub open spec fn newest_first(gs: Seq<LogGroup>) -> bool {
    forall|i: int, j: int| 0 <= i < j < gs.len() ==> (#[trigger] gs[i]).ts >= (#[trigger] gs[j]).ts
}

proof fn lemma_fold_push(s: Seq<LogEntry>, e: LogEntry, k: Seq<char>)
    ensures
        group_fold(s.push(e), k) == (if e.spec_req_id() == k {
            absorb(group_fold(s, k), e)
        } else {
            group_fold(s, k)
        }),
{
    assert(s.push(e).drop_last() =~= s);
}

proof fn lemma_fold_absent(s: Seq<LogEntry>, k: Seq<char>)
    requires
        !has_id(s, k),
    ensures
        group_fold(s, k) == no_fields(),
    decreases s.len(),
{
    if s.len() > 0 {
        assert(!has_id(s.drop_last(), k)) by {
            if has_id(s.drop_last(), k) {
                let p = choose|p: int|
                    0 <= p < s.drop_last().len() && #[trigger] s.drop_last()[p].spec_req_id() == k;
                assert(s[p].spec_req_id() == k);
            }
        }
        lemma_fold_absent(s.drop_last(), k);
        assert(s[s.len() - 1].spec_req_id() != k);
    }
}

fn absorb_exec(p: &LogGroup, e: &LogEntry) -> (r: LogGroup)
    ensures
        r.req_id == p.req_id,
        fields_of(r) == absorb(fields_of(*p), *e),
{
    let ts = if e.ts() < p.ts {
        e.ts()
    } else {
        p.ts
    };
    match e {
        LogEntry::Request { .. } => LogGroup {
            req_id: p.req_id.clone(),
            request: Some(e.clone()),
            response: clone_opt_entry(&p.response),
            error: clone_opt_entry(&p.error),
            ts,
        },
        LogEntry::Response { .. } => LogGroup {
            req_id: p.req_id.clone(),
            request: clone_opt_entry(&p.request),
            response: Some(e.clone()),
            error: clone_opt_entry(&p.error),
            ts,
        },
        LogEntry::Error { .. } => LogGroup {
            req_id: p.req_id.clone(),
            request: clone_opt_entry(&p.request),
            response: clone_opt_entry(&p.response),
            error: Some(e.clone()),
            ts,
        },
    }
}

fn start_group(e: &LogEntry) -> (r: LogGroup)
    ensures
        r.req_id@ == e.spec_req_id(),
        fields_of(r) == absorb(no_fields(), *e),
{
    let empty = LogGroup {
        req_id: String::from_str(e.req_id()),
        request: None,
        response: None,
        error: None,
        ts: 0xffff_ffff_ffff_ffffu64,
    };
    absorb_exec(&empty, e)
}

/// Groups the entries by request id, one group per id, newest group first.
/// Groups with equal time stamps may come in any order.
pub fn group_log_entries(entries: &[LogEntry]) -> (r: Vec<LogGroup>)
    ensures
        is_grouping(entries@, r@),
        newest_first(r@),
{
    let gs = collect_groups(entries);
    sort_newest_first(&gs, Ghost(entries@))
}

proof fn lemma_group_update(
    s: Seq<LogEntry>,
    e: LogEntry,
    old_gs: Seq<LogGroup>,
    j: int,
    ng: LogGroup,
)
    requires
        is_grouping(s, old_gs),
        0 <= j < old_gs.len(),
        old_gs[j].req_id@ == e.spec_req_id(),
        ng.req_id == old_gs[j].req_id,
        fields_of(ng) == absorb(fields_of(old_gs[j]), e),
    ensures
        is_grouping(s.push(e), old_gs.update(j, ng)),
{
    reveal(is_grouping);
    let s2 = s.push(e);
    let gs = old_gs.update(j, ng);
    assert forall|t: int| 0 <= t < gs.len() implies fields_of(#[trigger] gs[t]) == group_fold(
        s2,
        gs[t].req_id@,
    ) && has_id(s2, gs[t].req_id@) by {
        lemma_fold_push(s, e, gs[t].req_id@);
        if t != j {
            assert(old_gs[t].req_id@ != old_gs[j].req_id@);
        }
        assert(has_id(s, old_gs[t].req_id@));
        let p = choose|p: int| 0 <= p < s.len() && #[trigger] s[p].spec_req_id() == old_gs[t].req_id@;
        assert(s2[p] == s[p]);
    }
    assert forall|p: int| 0 <= p < s2.len() implies has_group(gs, #[trigger] s2[p].spec_req_id()) by {
        if p < s.len() {
            assert(s2[p] == s[p]);
            assert(has_group(old_gs, s[p].spec_req_id()));
            let t = choose|t: int| 0 <= t < old_gs.len() && #[trigger] old_gs[t].req_id@ == s[p].spec_req_id();
            assert(gs[t].req_id@ == old_gs[t].req_id@);
        } else {
            assert(gs[j].req_id@ == s2[p].spec_req_id());
        }
    }
    assert forall|a: int, b: int| 0 <= a < b < gs.len() implies (#[trigger] gs[a]).req_id@ != (
    #[trigger] gs[b]).req_id@ by {
        assert(old_gs[a].req_id@ != old_gs[b].req_id@);
    }
}

proof fn lemma_group_new(s: Seq<LogEntry>, e: LogEntry, old_gs: Seq<LogGroup>, ng: LogGroup)
    requires
        is_grouping(s, old_gs),
        forall|t: int| 0 <= t < old_gs.len() ==> (#[trigger] old_gs[t]).req_id@ != e.spec_req_id(),
        ng.req_id@ == e.spec_req_id(),
        fields_of(ng) == absorb(no_fields(), e),
    ensures
        is_grouping(s.push(e), old_gs.push(ng)),
{
    reveal(is_grouping);
    let s2 = s.push(e);
    let gs = old_gs.push(ng);
    let n = old_gs.len() as int;
    let key = e.spec_req_id();
    assert(!has_id(s, key)) by {
        if has_id(s, key) {
            let p = choose|p: int| 0 <= p < s.len() && #[trigger] s[p].spec_req_id() == key;
            assert(has_group(old_gs, s[p].spec_req_id()));
            let t = choose|t: int| 0 <= t < old_gs.len() && #[trigger] old_gs[t].req_id@ == s[p].spec_req_id();
        }
    }
    lemma_fold_absent(s, key);
    assert forall|t: int| 0 <= t < gs.len() implies fields_of(#[trigger] gs[t]) == group_fold(
        s2,
        gs[t].req_id@,
    ) && has_id(s2, gs[t].req_id@) by {
        lemma_fold_push(s, e, gs[t].req_id@);
        if t < n {
            assert(gs[t] == old_gs[t]);
            assert(has_id(s, old_gs[t].req_id@));
            let p = choose|p: int|
                0 <= p < s.len() && #[trigger] s[p].spec_req_id() == old_gs[t].req_id@;
            assert(s2[p] == s[p]);
        } else {
            assert(s2[n as int + 0 - n + s.len()] == e);
            assert(s2[s.len() as int].spec_req_id() == gs[t].req_id@);
        }
    }
    assert forall|p: int| 0 <= p < s2.len() implies has_group(gs, #[trigger] s2[p].spec_req_id()) by {
        if p < s.len() {
            assert(s2[p] == s[p]);
            assert(has_group(old_gs, s[p].spec_req_id()));
            let t = choose|t: int| 0 <= t < old_gs.len() && #[trigger] old_gs[t].req_id@ == s[p].spec_req_id();
            assert(gs[t] == old_gs[t]);
        } else {
            assert(gs[n].req_id@ == s2[p].spec_req_id());
        }
    }
    assert forall|a: int, b: int| 0 <= a < b < gs.len() implies (#[trigger] gs[a]).req_id@ != (
    #[trigger] gs[b]).req_id@ by {
        if b < n {
            assert(old_gs[a].req_id@ != old_gs[b].req_id@);
        } else {
            assert(gs[a] == old_gs[a]);
        }
    }
}

fn collect_groups(entries: &[LogEntry]) -> (r: Vec<LogGroup>)
    ensures
        is_grouping(entries@, r@),
{
    let mut gs: Vec<LogGroup> = Vec::new();
    let mut ids: Vec<Vec<char>> = Vec::new();
    let mut i: usize = 0;
    proof {
        reveal(is_grouping);
    }
    while i < entries.len()
        invariant
            i <= entries.len(),
            ids.len() == gs.len(),
            forall|t: int| 0 <= t < ids.len() ==> (#[trigger] ids@[t])@ == gs@[t].req_id@,
            is_grouping(entries@.take(i as int), gs@),
        decreases entries.len() - i,
    {
        let e = &entries[i];
        let key = to_chars(e.req_id());
        let ghost s = entries@.take(i as int);
        assert(entries@.take(i + 1) =~= s.push(*e));
        let mut j: usize = 0;
        let mut found = false;
        while j < ids.len()
            invariant_except_break
                !found,
            invariant
                j <= ids.len(),
                ids.len() == gs.len(),
                forall|t: int| 0 <= t < j ==> (#[trigger] ids@[t])@ != key@,
            ensures
                j <= ids.len(),
                found ==> j < ids.len() && ids@[j as int]@ == key@,
                !found ==> forall|t: int| 0 <= t < ids.len() ==> (#[trigger] ids@[t])@ != key@,
            decreases ids.len() - j,
        {
            if chars_eq(&ids[j], &key) {
                found = true;
                break;
            }
            j += 1;
        }
        let ghost old_gs = gs@;
        if found {
            let ng = absorb_exec(&gs[j], e);
            proof {
                lemma_group_update(s, *e, old_gs, j as int, ng);
            }
            gs.set(j, ng);
        } else {
            let ng = start_group(e);
            proof {
                assert forall|t: int| 0 <= t < old_gs.len() implies (
                #[trigger] old_gs[t]).req_id@ != e.spec_req_id() by {
                    assert(ids@[t]@ != key@);
                }
                lemma_group_new(s, *e, old_gs, ng);
            }
            gs.push(ng);
            ids.push(key);
        }
        i += 1;
    }
    assert(entries@.take(entries.len() as int) =~= entries@);
    gs
}

/// Every group of `sorted` is one of the first `k` groups of `gs`.
#[verifier::opaque]
pub open spec fn drawn_from(sorted: Seq<LogGroup>, gs: Seq<LogGroup>, k: int) -> bool {
    forall|i: int|
        0 <= i < sorted.len() ==> exists|p: int|
            0 <= p < k && (#[trigger] sorted[i]) == (#[trigger] gs[p])
}

/// Each of the first `k` groups of `gs` is in `sorted`.
#[verifier::opaque]
pub open spec fn covers(sorted: Seq<LogGroup>, gs: Seq<LogGroup>, k: int) -> bool {
    forall|p: int| 0 <= p < k ==> sorted.contains(#[trigger] gs[p])
}

/// No two groups share a request id.
#[verifier::opaque]
pub open spec fn distinct_ids(gs: Seq<LogGroup>) -> bool {
    forall|a: int, b: int|
        0 <= a < b < gs.len() ==> (#[trigger] gs[a]).req_id@ != (#[trigger] gs[b]).req_id@
}

proof fn lemma_insert_order(old_sorted: Seq<LogGroup>, g: LogGroup, pos: int)
    requires
        newest_first(old_sorted),
        0 <= pos <= old_sorted.len(),
        forall|i: int| 0 <= i < pos ==> (#[trigger] old_sorted[i]).ts >= g.ts,
        pos < old_sorted.len() ==> old_sorted[pos].ts < g.ts,
    ensures
        newest_first(old_sorted.insert(pos, g)),
{
    reveal(newest_first);
    let ns = old_sorted.insert(pos, g);
    assert forall|i: int| pos <= i < old_sorted.len() implies (#[trigger] old_sorted[i]).ts
        < g.ts by {
        if i > pos {
            assert(old_sorted[pos].ts >= old_sorted[i].ts);
        }
    }
    assert forall|a: int, b: int| 0 <= a < b < ns.len() implies (#[trigger] ns[a]).ts >= (
    #[trigger] ns[b]).ts by {
        if a < pos && b < pos {
        } else if a < pos && b == pos {
        } else if a < pos {
            assert(old_sorted[a].ts >= old_sorted[b - 1].ts);
        } else if a == pos {
            assert(old_sorted[b - 1].ts < g.ts);
        } else {
            assert(old_sorted[a - 1].ts >= old_sorted[b - 1].ts);
        }
    }
}

proof fn lemma_insert_members(gs: Seq<LogGroup>, old_sorted: Seq<LogGroup>, k: int, pos: int)
    requires
        0 <= k < gs.len(),
        drawn_from(old_sorted, gs, k),
        covers(old_sorted, gs, k),
        0 <= pos <= old_sorted.len(),
    ensures
        drawn_from(old_sorted.insert(pos, gs[k]), gs, k + 1),
        covers(old_sorted.insert(pos, gs[k]), gs, k + 1),
{
    reveal(drawn_from);
    reveal(covers);
    let ns = old_sorted.insert(pos, gs[k]);
    assert forall|i: int| 0 <= i < ns.len() implies exists|p: int|
        0 <= p < k + 1 && (#[trigger] ns[i]) == (#[trigger] gs[p]) by {
        if i < pos {
            assert(ns[i] == old_sorted[i]);
        } else if i == pos {
            assert(ns[i] == gs[k]);
        } else {
            assert(ns[i] == old_sorted[i - 1]);
        }
    }
    assert forall|p: int| 0 <= p < k + 1 implies ns.contains(#[trigger] gs[p]) by {
        if p < k {
            assert(old_sorted.contains(gs[p]));
            let i = choose|i: int| 0 <= i < old_sorted.len() && old_sorted[i] == gs[p];
            if i < pos {
                assert(ns[i] == old_sorted[i]);
            } else {
                assert(ns[i + 1] == old_sorted[i]);
            }
        } else {
            assert(ns[pos] == gs[p]);
        }
    }
}

proof fn lemma_insert_distinct(
    s: Seq<LogEntry>,
    gs: Seq<LogGroup>,
    old_sorted: Seq<LogGroup>,
    k: int,
    pos: int,
)
    requires
        0 <= k < gs.len(),
        is_grouping(s, gs),
        drawn_from(old_sorted, gs, k),
        distinct_ids(old_sorted),
        0 <= pos <= old_sorted.len(),
    ensures
        distinct_ids(old_sorted.insert(pos, gs[k])),
{
    reveal(distinct_ids);
    reveal(drawn_from);
    reveal(is_grouping);
    let g = gs[k];
    let ns = old_sorted.insert(pos, g);
    assert forall|i: int| 0 <= i < old_sorted.len() implies (#[trigger] old_sorted[i]).req_id@
        != g.req_id@ by {
        let q = choose|q: int| 0 <= q < k && (#[trigger] old_sorted[i]) == (#[trigger] gs[q]);
        assert(gs[q].req_id@ != gs[k].req_id@);
    }
    assert forall|a: int, b: int| 0 <= a < b < ns.len() implies (#[trigger] ns[a]).req_id@ != (
    #[trigger] ns[b]).req_id@ by {
        if a < pos && b < pos {
            assert(old_sorted[a].req_id@ != old_sorted[b].req_id@);
        } else if a < pos && b == pos {
            assert(ns[a] == old_sorted[a]);
        } else if a < pos {
            assert(old_sorted[a].req_id@ != old_sorted[b - 1].req_id@);
        } else if a == pos {
            assert(ns[b] == old_sorted[b - 1]);
        } else {
            assert(old_sorted[a - 1].req_id@ != old_sorted[b - 1].req_id@);
        }
    }
}

proof fn lemma_sorted_fields(s: Seq<LogEntry>, gs: Seq<LogGroup>, sorted: Seq<LogGroup>)
    requires
        is_grouping(s, gs),
        drawn_from(sorted, gs, gs.len() as int),
    ensures
        forall|i: int|
            0 <= i < sorted.len() ==> fields_of(#[trigger] sorted[i]) == group_fold(
                s,
                sorted[i].req_id@,
            ) && has_id(s, sorted[i].req_id@),
{
    reveal(is_grouping);
    reveal(drawn_from);
    assert forall|i: int| 0 <= i < sorted.len() implies fields_of(#[trigger] sorted[i])
        == group_fold(s, sorted[i].req_id@) && has_id(s, sorted[i].req_id@) by {
        let p = choose|p: int| 0 <= p < gs.len() && (#[trigger] sorted[i]) == (#[trigger] gs[p]);
    }
}

proof fn lemma_sorted_covers(s: Seq<LogEntry>, gs: Seq<LogGroup>, sorted: Seq<LogGroup>)
    requires
        is_grouping(s, gs),
        covers(sorted, gs, gs.len() as int),
    ensures
        forall|p: int| 0 <= p < s.len() ==> has_group(sorted, #[trigger] s[p].spec_req_id()),
{
    reveal(is_grouping);
    reveal(covers);
    assert forall|p: int| 0 <= p < s.len() implies has_group(sorted, #[trigger] s[p].spec_req_id()) by {
        assert(has_group(gs, s[p].spec_req_id()));
        let t = choose|t: int| 0 <= t < gs.len() && #[trigger] gs[t].req_id@ == s[p].spec_req_id();
        assert(sorted.contains(gs[t]));
        let i = choose|i: int| 0 <= i < sorted.len() && sorted[i] == gs[t];
        assert(sorted[i].req_id@ == s[p].spec_req_id());
    }
}

proof fn lemma_sorted_grouping(s: Seq<LogEntry>, gs: Seq<LogGroup>, sorted: Seq<LogGroup>)
    requires
        is_grouping(s, gs),
        drawn_from(sorted, gs, gs.len() as int),
        covers(sorted, gs, gs.len() as int),
        distinct_ids(sorted),
    ensures
        is_grouping(s, sorted),
{
    lemma_sorted_fields(s, gs, sorted);
    lemma_sorted_covers(s, gs, sorted);
    reveal(distinct_ids);
    reveal(is_grouping);
}

fn sort_newest_first(gs: &Vec<LogGroup>, Ghost(s): Ghost<Seq<LogEntry>>) -> (r: Vec<LogGroup>)
    requires
        is_grouping(s, gs@),
    ensures
        is_grouping(s, r@),
        newest_first(r@),
{
    let mut sorted: Vec<LogGroup> = Vec::new();
    let mut k: usize = 0;
    proof {
        reveal(newest_first);
        reveal(drawn_from);
        reveal(covers);
        reveal(distinct_ids);
    }
    while k < gs.len()
        invariant
            k <= gs.len(),
            is_grouping(s, gs@),
            newest_first(sorted@),
            drawn_from(sorted@, gs@, k as int),
            covers(sorted@, gs@, k as int),
            distinct_ids(sorted@),
        decreases gs.len() - k,
    {
        let g = gs[k].clone();
        let mut pos: usize = 0;
        while pos < sorted.len() && sorted[pos].ts >= g.ts
            invariant
                pos <= sorted.len(),
                forall|i: int| 0 <= i < pos ==> (#[trigger] sorted@[i]).ts >= g.ts,
            decreases sorted.len() - pos,
        {
            pos += 1;
        }
        proof {
            lemma_insert_order(sorted@, g, pos as int);
            lemma_insert_members(gs@, sorted@, k as int, pos as int);
            lemma_insert_distinct(s, gs@, sorted@, k as int, pos as int);
        }
        sorted.insert(pos, g);
        k += 1;
    }
    proof {
        lemma_sorted_grouping(s, gs@, sorted@);
    }
    sorted
}

} // verus!
