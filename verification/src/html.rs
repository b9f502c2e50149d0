use vstd::prelude::*;
use crate::config::{Config, RequestModifier, ResponseModifier, ScriptRule};
use crate::groups::{group_log_entries, is_grouping, newest_first, LogGroup};
use crate::inject::opt_view;
use crate::json::{fields_view, json_pretty, spec_json_pretty, JsonLeaf, JsonValue};
use crate::log::LogEntry;
use crate::text::{
    contains, contains_seq, decimal, lemma_contains_left, lemma_contains_right, lemma_contains_self,
    lemma_contains_trans, decimal_string, html_esc, html_escape, join, pad2, push_char,
    push_decimal, push_pad2, seq_join, spec_to_lowercase, str_eq, strings_view, to_lowercase,
    url_encode_bytes,
    urlencode,
};

verus! {

pub const PAGE_SHELL_0: &'static str = r##"<!DOCTYPE html>
<html lang="en">
<head>
<meta charset="UTF-8">
<meta name="viewport" content="width=device-width, initial-scale=1.0">
<title>dope panel</title>
<link rel="stylesheet" href="/static/style.css">
<script src="/static/htmx.min.js"></script>
</head>
<body>
<nav>
  <h1>dope panel</h1>
  <a href="/dashboard" class="nav-link" hx-get="/dashboard" hx-target="#app" hx-push-url="true">Dashboard</a>
  <a href="/logs" class="nav-link" hx-get="/logs" hx-target="#app" hx-push-url="true">Logs</a>
  <a href="/config" class="nav-link" hx-get="/config" hx-target="#app" hx-push-url="true">Config</a>
</nav>
<div id="app">"##;
pub const PAGE_SHELL_1: &'static str = r##"</div>
<div id="toast" class="toast"></div>
<script>
  htmx.config.defaultSwap = "innerHTML";
  document.body.addEventListener('htmx:after:swap', function() {
    document.querySelectorAll('.nav-link').forEach(function(a) {
      a.classList.toggle('active', a.pathname === location.pathname);
    });
  });
  document.body.addEventListener('showToast', function(evt) {
    var el = document.getElementById('toast');
    el.textContent = evt.detail.value;
    el.classList.add('show');
    setTimeout(function() { el.classList.remove('show'); }, 2500);
  });
  function toggleRow(tr) {
    var next = tr.nextElementSibling;
    if (next && next.style.display === 'none') next.style.display = 'table-row';
    else if (next) next.style.display = 'none';
  }
</script>
</body>
</html>"##;
pub const STATS_0: &'static str = r##"<div class="stat-card"><div class="value">"##;
pub const STATS_1: &'static str = r##"</div><div class="label">Total Entries</div></div>
<div class="stat-card"><div class="value">"##;
pub const STATS_2: &'static str = r##"</div><div class="label">Unique Hosts</div></div>
<div class="stat-card"><div class="value">"##;
pub const STATS_3: &'static str = r##"</div><div class="label">Errors</div></div>"##;
pub const DASHBOARD_0: &'static str = r##"<h2>Dashboard</h2>
<div class="stats" id="stats" hx-get="/api/html/dashboard-stats" hx-trigger="every 3s" hx-target="#stats" hx-swap="innerHTML">"##;
pub const DASHBOARD_1: &'static str = r##"</div>
<h2>Recent Activity</h2>
<div id="activity" hx-get="/api/html/activity" hx-trigger="load, every 3s" hx-target="#activity" hx-swap="innerHTML"></div>"##;
pub const LOGS_PAGE_0: &'static str = r##"<h2>Logs</h2>
<div class="filters">
  <input type="text" id="filter-search" name="search" placeholder="Search by host, method, status, content type..."
         hx-get="/api/html/logs" hx-trigger="input delay:500ms" hx-target="#log-table"
         hx-swap="innerHTML" style="flex:1">
</div>
<div id="log-table" hx-get="/api/html/logs" hx-trigger="load, every 3s" hx-target="#log-table"
     hx-swap="innerHTML" hx-include="#filter-search"></div>"##;
pub const NO_ENTRIES: &'static str = r##"<div class="empty">No entries yet.</div>"##;
pub const NO_MATCH: &'static str = r##"<div class="empty">No matching entries.</div>"##;
pub const NO_SCRIPT_RULES: &'static str = r##"<div class="empty">No script rules configured.</div>"##;
pub const NO_RESPONSE_RULES: &'static str = r##"<div class="empty">No response modifiers configured.</div>"##;
pub const NO_REQUEST_RULES: &'static str = r##"<div class="empty">No request modifiers configured.</div>"##;
pub const TABLE_0: &'static str = r##"<table>
<thead><tr><th>Time</th><th>Method</th><th>Host</th><th>Status</th><th>Response</th></tr></thead>
<tbody>"##;
pub const TABLE_1: &'static str = r##"</tbody>
</table>"##;
pub const META_0: &'static str = r##"<span class="meta">"##;
pub const META_1: &'static str = r##"</span> "##;
pub const DURATION_0: &'static str = r##"<span class="duration">"##;
pub const DURATION_1: &'static str = r##"</span> "##;
pub const REQ_DETAIL_0: &'static str = r##"<div class="detail-section"><h4>Request</h4><pre>"##;
pub const REQ_DETAIL_1: &'static str = r##"</pre></div>"##;
pub const RESP_DETAIL_0: &'static str = r##"<div class="detail-section"><h4>Response</h4><pre>"##;
pub const RESP_DETAIL_1: &'static str = r##"</pre></div>"##;
pub const ERR_DETAIL_0: &'static str = r##"<div class="detail-section"><h4>Error</h4><pre>"##;
pub const ERR_DETAIL_1: &'static str = r##"</pre></div>"##;
pub const ROW_0: &'static str = r##"<tr class="combined-row" onclick="toggleRow(this)" style="cursor:pointer">
  <td>"##;
pub const ROW_1: &'static str = r##"</td>
  <td><span class="badge badge-"##;
pub const ROW_2: &'static str = r##"">"##;
pub const ROW_3: &'static str = r##"</span></td>
  <td>"##;
pub const ROW_4: &'static str = r##"</td>
  <td><span class="badge badge-"##;
pub const ROW_5: &'static str = r##"">"##;
pub const ROW_6: &'static str = r##"</span></td>
  <td>"##;
pub const ROW_7: &'static str = r##"</td>
</tr>
<tr class="combined-details" style="display:"##;
pub const ROW_8: &'static str = r##""><td colspan="5">"##;
pub const ROW_9: &'static str = r##"</td></tr>"##;
pub const CONFIG_PAGE_0: &'static str = r##"<h2>Configuration</h2>
<div class="config-section">
  <h3>Server</h3>
  <div class="config-row">
    <label>Port</label>
    <input type="number" id="cfg-port" name="value" value=""##;
pub const CONFIG_PAGE_1: &'static str = r##"" min="1" max="65535"
           hx-put="/api/html/config/server/port" hx-trigger="change" hx-target="#app" hx-swap="innerHTML">
  </div>
  <div class="config-row">
    <label>Pause</label>
    <input type="checkbox" id="cfg-pause" name="cfg-pause""##;
pub const CONFIG_PAGE_2: &'static str = r##"
           hx-put="/api/html/config/server/pause" hx-trigger="change" hx-target="#app" hx-swap="innerHTML">
  </div>
</div>
<div class="config-section">
  <h3>Script Rules</h3>
  <div id="scripts-list">"##;
pub const CONFIG_PAGE_3: &'static str = r##"</div>
  <button class="btn btn-primary btn-sm add-row" hx-post="/api/html/config/scripts" hx-target="#scripts-list" hx-swap="innerHTML">+ Add Rule</button>
</div>
<div class="config-section">
  <h3>Response Modifiers</h3>
  <div id="response-list">"##;
pub const CONFIG_PAGE_4: &'static str = r##"</div>
  <button class="btn btn-primary btn-sm add-row" hx-post="/api/html/config/response" hx-target="#response-list" hx-swap="innerHTML">+ Add Rule</button>
</div>
<div class="config-section">
  <h3>Request Modifiers</h3>
  <div id="request-list">"##;
pub const CONFIG_PAGE_5: &'static str = r##"</div>
  <button class="btn btn-primary btn-sm add-row" hx-post="/api/html/config/request" hx-target="#request-list" hx-swap="innerHTML">+ Add Rule</button>
</div>"##;
pub const SCRIPT_CARD_0: &'static str = r##"<div class="rule-card" id="script-card-"##;
pub const SCRIPT_CARD_1: &'static str = r##"">
  <div class="rule-header">
    <span class="domain-label">"##;
pub const SCRIPT_CARD_2: &'static str = r##"</span>
    <button class="btn btn-danger btn-sm" hx-delete="/api/html/config/scripts/"##;
pub const SCRIPT_CARD_3: &'static str = r##"" hx-target="#scripts-list" hx-swap="innerHTML">Remove</button>
  </div>
  <div class="config-row">
    <label>Domain</label>
    <input type="text" value=""##;
pub const SCRIPT_CARD_4: &'static str = r##"" name="domain"
           hx-put="/api/html/config/scripts/"##;
pub const SCRIPT_CARD_5: &'static str = r##"" hx-trigger="change" hx-target="#script-card-"##;
pub const SCRIPT_CARD_6: &'static str = r##"" hx-swap="outerHTML">
  </div>
  <div class="config-row">
    <label>Scripts</label>
    <input type="text" value=""##;
pub const SCRIPT_CARD_7: &'static str = r##"" name="scripts" placeholder="comma-separated"
           hx-put="/api/html/config/scripts/"##;
pub const SCRIPT_CARD_8: &'static str = r##"" hx-trigger="change" hx-target="#script-card-"##;
pub const SCRIPT_CARD_9: &'static str = r##"" hx-swap="outerHTML">
  </div>
</div>"##;
pub const RESPONSE_CARD_0: &'static str = r##"<div class="rule-card" id="response-card-"##;
pub const RESPONSE_CARD_1: &'static str = r##"">
  <div class="rule-header">
    <span class="domain-label">"##;
pub const RESPONSE_CARD_2: &'static str = r##"</span>
    <button class="btn btn-danger btn-sm" hx-delete="/api/html/config/response/"##;
pub const RESPONSE_CARD_3: &'static str = r##"" hx-target="#response-list" hx-swap="innerHTML">Remove</button>
  </div>
  <div class="config-row">
    <label>Domain</label>
    <input type="text" value=""##;
pub const RESPONSE_CARD_4: &'static str = r##"" name="domain"
           hx-put="/api/html/config/response/"##;
pub const RESPONSE_CARD_5: &'static str = r##"" hx-trigger="change" hx-target="#response-card-"##;
pub const RESPONSE_CARD_6: &'static str = r##"" hx-swap="outerHTML">
  </div>
  <div class="config-row">
    <label>CSP</label>
    <select name="csp" hx-put="/api/html/config/response/"##;
pub const RESPONSE_CARD_7: &'static str = r##"" hx-trigger="change" hx-target="#response-card-"##;
pub const RESPONSE_CARD_8: &'static str = r##"" hx-swap="outerHTML">
"##;
pub const RESPONSE_CARD_9: &'static str = r##"
    </select>
  </div>
  <div class="config-row"><label>Remove Headers</label></div>
  <div id="response-remove-headers-"##;
pub const RESPONSE_CARD_10: &'static str = r##"">"##;
pub const RESPONSE_CARD_11: &'static str = r##"</div>
  <button class="btn btn-sm btn-secondary" hx-post="/api/html/config/response/"##;
pub const RESPONSE_CARD_12: &'static str = r##"/remove-headers" hx-target="#response-card-"##;
pub const RESPONSE_CARD_13: &'static str = r##"" hx-swap="outerHTML">+ Add Header to Remove</button>
  <div class="config-row config-row-gap">
    <label>Inject At</label>
    <select name="inject_at" hx-put="/api/html/config/response/"##;
pub const RESPONSE_CARD_14: &'static str = r##"" hx-trigger="change" hx-target="#response-card-"##;
pub const RESPONSE_CARD_15: &'static str = r##"" hx-swap="outerHTML">
"##;
pub const RESPONSE_CARD_16: &'static str = r##"
    </select>
  </div>
  <div class="config-row config-row-gap"><label>Add Headers</label></div>
  <div id="response-headers-"##;
pub const RESPONSE_CARD_17: &'static str = r##"">"##;
pub const RESPONSE_CARD_18: &'static str = r##"</div>
  <button class="btn btn-sm btn-secondary" hx-post="/api/html/config/response/"##;
pub const RESPONSE_CARD_19: &'static str = r##"/headers" hx-target="#response-card-"##;
pub const RESPONSE_CARD_20: &'static str = r##"" hx-swap="outerHTML">+ Add Header</button>
</div>"##;
pub const REQUEST_CARD_0: &'static str = r##"<div class="rule-card" id="request-card-"##;
pub const REQUEST_CARD_1: &'static str = r##"">
  <div class="rule-header">
    <span class="domain-label">"##;
pub const REQUEST_CARD_2: &'static str = r##"</span>
    <button class="btn btn-danger btn-sm" hx-delete="/api/html/config/request/"##;
pub const REQUEST_CARD_3: &'static str = r##"" hx-target="#request-list" hx-swap="innerHTML">Remove</button>
  </div>
  <div class="config-row">
    <label>Domain</label>
    <input type="text" value=""##;
pub const REQUEST_CARD_4: &'static str = r##"" name="domain"
           hx-put="/api/html/config/request/"##;
pub const REQUEST_CARD_5: &'static str = r##"" hx-trigger="change" hx-target="#request-card-"##;
pub const REQUEST_CARD_6: &'static str = r##"" hx-swap="outerHTML">
  </div>
  <div class="config-row"><label>Remove Headers</label></div>
  <div id="request-remove-headers-"##;
pub const REQUEST_CARD_7: &'static str = r##"">"##;
pub const REQUEST_CARD_8: &'static str = r##"</div>
  <button class="btn btn-sm btn-secondary" hx-post="/api/html/config/request/"##;
pub const REQUEST_CARD_9: &'static str = r##"/remove-headers" hx-target="#request-card-"##;
pub const REQUEST_CARD_10: &'static str = r##"" hx-swap="outerHTML">+ Add Header to Remove</button>
  <div class="config-row config-row-gap"><label>Add Headers</label></div>
  <div id="request-headers-"##;
pub const REQUEST_CARD_11: &'static str = r##"">"##;
pub const REQUEST_CARD_12: &'static str = r##"</div>
  <button class="btn btn-sm btn-secondary" hx-post="/api/html/config/request/"##;
pub const REQUEST_CARD_13: &'static str = r##"/headers" hx-target="#request-card-"##;
pub const REQUEST_CARD_14: &'static str = r##"" hx-swap="outerHTML">+ Add Header</button>
</div>"##;
pub const OPTION_0: &'static str = r##"        <option value=""##;
pub const OPTION_1: &'static str = r##"""##;
pub const OPTION_2: &'static str = r##">"##;
pub const OPTION_3: &'static str = r##"</option>"##;
pub const PAIR_ROW_0: &'static str = r##"<div class="header-pair config-row">
  <input type="text" value=""##;
pub const PAIR_ROW_1: &'static str = r##"" name=""##;
pub const PAIR_ROW_2: &'static str = r##"" placeholder="Name"
         hx-put="/api/html/config/"##;
pub const PAIR_ROW_3: &'static str = r##"/"##;
pub const PAIR_ROW_4: &'static str = r##"/headers/key" hx-trigger="change" hx-target="#"##;
pub const PAIR_ROW_5: &'static str = r##"-card-"##;
pub const PAIR_ROW_6: &'static str = r##"" hx-swap="outerHTML">
  <span>=</span>
  <input type="text" value=""##;
pub const PAIR_ROW_7: &'static str = r##"" name=""##;
pub const PAIR_ROW_8: &'static str = r##"" placeholder="Value"
         hx-put="/api/html/config/"##;
pub const PAIR_ROW_9: &'static str = r##"/"##;
pub const PAIR_ROW_10: &'static str = r##"/headers/val" hx-trigger="change" hx-target="#"##;
pub const PAIR_ROW_11: &'static str = r##"-card-"##;
pub const PAIR_ROW_12: &'static str = r##"" hx-swap="outerHTML">
  <button class="btn btn-danger btn-sm" hx-delete="/api/html/config/"##;
pub const PAIR_ROW_13: &'static str = r##"/"##;
pub const PAIR_ROW_14: &'static str = r##"/headers/"##;
pub const PAIR_ROW_15: &'static str = r##"" hx-target="#"##;
pub const PAIR_ROW_16: &'static str = r##"-card-"##;
pub const PAIR_ROW_17: &'static str = r##"" hx-swap="outerHTML">x</button>
</div>"##;
pub const REMOVE_ROW_0: &'static str = r##"<div class="header-pair config-row">
  <input type="text" value=""##;
pub const REMOVE_ROW_1: &'static str = r##"" placeholder="Header name"
         hx-put="/api/html/config/"##;
pub const REMOVE_ROW_2: &'static str = r##"/"##;
pub const REMOVE_ROW_3: &'static str = r##"/remove-headers/"##;
pub const REMOVE_ROW_4: &'static str = r##"" hx-trigger="change" hx-target="#"##;
pub const REMOVE_ROW_5: &'static str = r##"-card-"##;
pub const REMOVE_ROW_6: &'static str = r##"" hx-swap="outerHTML">
  <button class="btn btn-danger btn-sm" hx-delete="/api/html/config/"##;
pub const REMOVE_ROW_7: &'static str = r##"/"##;
pub const REMOVE_ROW_8: &'static str = r##"/remove-headers/"##;
pub const REMOVE_ROW_9: &'static str = r##"" hx-target="#"##;
pub const REMOVE_ROW_10: &'static str = r##"-card-"##;
pub const REMOVE_ROW_11: &'static str = r##"" hx-swap="outerHTML">x</button>
</div>"##;

/* --- Page shell ---------------------------------------------------------- */

/// The full panel page around `content`.
pub open spec fn page_shell_spec(content: Seq<char>) -> Seq<char> {
    PAGE_SHELL_0@ + content + PAGE_SHELL_1@
}

/// Wraps a fragment in the full panel page (navigation, toast, scripts).
pub fn page_shell(content: &str) -> (r: String)
    ensures
        r@ == page_shell_spec(content@),
{
    let mut out = String::from_str(PAGE_SHELL_0);
    out.append(content);
    out.append(PAGE_SHELL_1);
    out
}

/* --- Dashboard ----------------------------------------------------------- */

pub open spec fn stats_cards_spec(total: nat, hosts: nat, errors: nat) -> Seq<char> {
    STATS_0@ + decimal(total) + STATS_1@ + decimal(hosts) + STATS_2@ + decimal(errors) + STATS_3@
}

/// The three statistic cards: entries, distinct hosts, errors.
pub fn stats_cards(total: usize, hosts: usize, errors: usize) -> (r: String)
    ensures
        r@ == stats_cards_spec(total as nat, hosts as nat, errors as nat),
{
    let mut out = String::from_str(STATS_0);
    push_decimal(&mut out, total as u64);
    out.append(STATS_1);
    push_decimal(&mut out, hosts as u64);
    out.append(STATS_2);
    push_decimal(&mut out, errors as u64);
    out.append(STATS_3);
    out
}

pub open spec fn dashboard_page_spec(total: nat, hosts: nat, errors: nat) -> Seq<char> {
    DASHBOARD_0@ + stats_cards_spec(total, hosts, errors) + DASHBOARD_1@
}

/// The dashboard: statistic cards and the recent-activity table.
pub fn dashboard_page(total: usize, hosts: usize, errors: usize) -> (r: String)
    ensures
        r@ == dashboard_page_spec(total as nat, hosts as nat, errors as nat),
{
    let stats = stats_cards(total, hosts, errors);
    let mut out = String::from_str(DASHBOARD_0);
    out.append(stats.as_str());
    out.append(DASHBOARD_1);
    out
}

/* --- Logs page ----------------------------------------------------------- */

pub open spec fn logs_page_spec() -> Seq<char> {
    LOGS_PAGE_0@
}

/// The log page: a search box and the table that loads into it.
pub fn logs_page() -> (r: String)
    ensures
        r@ == logs_page_spec(),
{
    let mut out = String::from_str(LOGS_PAGE_0);
    out
}

/* --- Time stamps --------------------------------------------------------- */

/// `HH:MM:SS` (UTC) of a time stamp in milliseconds.
pub open spec fn format_ts_spec(ts: u64) -> Seq<char> {
    let secs = ts / 1000;
    pad2(((secs / 3600) % 24) as nat) + seq![':'] + pad2(((secs / 60) % 60) as nat) + seq![':']
        + pad2((secs % 60) as nat)
}

/// Formats a millisecond time stamp as `HH:MM:SS`.
pub fn format_ts(ts: u64) -> (r: String)
    ensures
        r@ == format_ts_spec(ts),
{
    let secs = ts / 1000;
    let mut out = String::new();
    push_pad2(&mut out, (secs / 3600) % 24);
    push_char(&mut out, ':');
    push_pad2(&mut out, (secs / 60) % 60);
    push_char(&mut out, ':');
    push_pad2(&mut out, secs % 60);
    assert(out@ =~= format_ts_spec(ts));
    out
}

/* --- Rows of the log tables ---------------------------------------------- */

/// The method column: the request's method, `ERR` for a lone error.
pub open spec fn row_method(g: LogGroup) -> Seq<char> {
    match g.request {
        Some(LogEntry::Request { method, .. }) => method@,
        Some(_) => "???"@,
        None => if g.error is Some {
            "ERR"@
        } else {
            "???"@
        },
    }
}

/// The host column: the request's host, else the client of the error.
pub open spec fn row_host(g: LogGroup) -> Seq<char> {
    match g.request {
        Some(LogEntry::Request { host, .. }) => host@,
        Some(_) => "-"@,
        None => match g.error {
            Some(LogEntry::Error { client_addr, .. }) => client_addr@,
            _ => "-"@,
        },
    }
}

/// The response status, if a response was logged.
pub open spec fn row_status(g: LogGroup) -> Option<u16> {
    match g.response {
        Some(LogEntry::Response { status, .. }) => Some(status),
        Some(_) => Some(0u16),
        None => None,
    }
}

/// The status column: the status code, `ERR` or `-`.
pub open spec fn row_status_display(g: LogGroup) -> Seq<char> {
    match row_status(g) {
        Some(s) => decimal(s as nat),
        None => if g.error is Some {
            "ERR"@
        } else {
            "-"@
        },
    }
}

/// The content type of the response, empty when there is none.
pub open spec fn row_content_type(g: LogGroup) -> Seq<char> {
    match g.response {
        Some(LogEntry::Response { content_type, .. }) => content_type@,
        _ => Seq::empty(),
    }
}

/// Milliseconds from request to response, at least 1, when both are logged.
pub open spec fn row_duration(g: LogGroup) -> Option<u64> {
    match (g.request, g.response) {
        (Some(LogEntry::Request { ts: a, .. }), Some(LogEntry::Response { ts: b, .. })) => Some(
            if b > a {
                (b - a) as u64
            } else {
                1u64
            },
        ),
        _ => None,
    }
}

/// The badge class: the status class, `error` or `request`.
pub open spec fn badge_class(g: LogGroup) -> Seq<char> {
    match row_status(g) {
        Some(s) => if s < 300 {
            "2xx"@
        } else if s < 400 {
            "3xx"@
        } else if s < 500 {
            "4xx"@
        } else {
            "5xx"@
        },
        None => if g.error is Some {
            "error"@
        } else {
            "request"@
        },
    }
}

/// The response column: content type and duration, each when known.
pub open spec fn resp_details_spec(g: LogGroup) -> Seq<char> {
    (if row_content_type(g).len() > 0 {
        META_0@ + html_escape(row_content_type(g)) + META_1@
    } else {
        Seq::empty()
    }) + (match row_duration(g) {
        Some(d) => DURATION_0@ + decimal(d as nat) + "ms"@ + DURATION_1@,
        None => Seq::empty(),
    })
}

pub open spec fn req_fields_spec(g: LogGroup) -> Seq<(Seq<char>, JsonLeaf)> {
    match g.request {
        Some(LogEntry::Request { method, uri, host, user_agent, accept, .. }) => seq![
            ("method"@, JsonLeaf::Text(method@)),
            ("uri"@, JsonLeaf::Text(uri@)),
            ("host"@, JsonLeaf::Text(host@)),
            ("user_agent"@, JsonLeaf::Text(user_agent@)),
            ("accept"@, JsonLeaf::Text(accept@)),
        ],
        _ => Seq::empty(),
    }
}

pub open spec fn resp_fields_spec(g: LogGroup) -> Seq<(Seq<char>, JsonLeaf)> {
    match g.response {
        Some(LogEntry::Response { status, content_type, body_preview, .. }) => seq![
            ("status"@, JsonLeaf::Number(status as u64)),
            ("content_type"@, JsonLeaf::Text(content_type@)),
            ("body_preview"@, JsonLeaf::Text(body_preview@)),
        ],
        _ => Seq::empty(),
    }
}

pub open spec fn err_fields_spec(g: LogGroup) -> Seq<(Seq<char>, JsonLeaf)> {
    match g.error {
        Some(LogEntry::Error { client_addr, error, .. }) => seq![
            ("client_addr"@, JsonLeaf::Text(client_addr@)),
            ("error"@, JsonLeaf::Text(error@)),
        ],
        _ => Seq::empty(),
    }
}

/// The expanded details: each logged entry as escaped, pretty-printed JSON.
pub open spec fn details_spec(g: LogGroup, expanded: bool) -> Seq<char> {
    if !expanded {
        Seq::empty()
    } else {
        (if g.request matches Some(LogEntry::Request { .. }) {
            REQ_DETAIL_0@ + html_escape(spec_json_pretty(req_fields_spec(g))) + REQ_DETAIL_1@
        } else {
            Seq::empty()
        }) + (if g.response matches Some(LogEntry::Response { .. }) {
            RESP_DETAIL_0@ + html_escape(spec_json_pretty(resp_fields_spec(g))) + RESP_DETAIL_1@
        } else {
            Seq::empty()
        }) + (if g.error matches Some(LogEntry::Error { .. }) {
            ERR_DETAIL_0@ + html_escape(spec_json_pretty(err_fields_spec(g))) + ERR_DETAIL_1@
        } else {
            Seq::empty()
        })
    }
}

/// One table row for a group, followed by its (hidden) details row.
#[verifier::opaque]
pub open spec fn combined_row_spec(g: LogGroup, expanded: bool) -> Seq<char> {
    ROW_0@ + format_ts_spec(g.ts) + ROW_1@ + badge_class(g) + ROW_2@ + html_escape(row_method(g)) + ROW_3@ + html_escape(row_host(g)) + ROW_4@ + badge_class(g) + ROW_5@ + html_escape(row_status_display(g)) + ROW_6@ + resp_details_spec(g) + ROW_7@ + "none"@ + ROW_8@ + details_spec(g, expanded) + ROW_9@
}

fn method_of(g: &LogGroup) -> (r: &str)
    ensures
        r@ == row_method(*g),
{
    match &g.request {
        Some(LogEntry::Request { method, .. }) => method.as_str(),
        Some(_) => "???",
        None => if g.error.is_some() {
            "ERR"
        } else {
            "???"
        },
    }
}

fn host_of(g: &LogGroup) -> (r: &str)
    ensures
        r@ == row_host(*g),
{
    match &g.request {
        Some(LogEntry::Request { host, .. }) => host.as_str(),
        Some(_) => "-",
        None => match &g.error {
            Some(LogEntry::Error { client_addr, .. }) => client_addr.as_str(),
            _ => "-",
        },
    }
}

fn status_of(g: &LogGroup) -> (r: Option<u16>)
    ensures
        r == row_status(*g),
{
    match &g.response {
        Some(LogEntry::Response { status, .. }) => Some(*status),
        Some(_) => Some(0u16),
        None => None,
    }
}

fn status_display_of(g: &LogGroup) -> (r: String)
    ensures
        r@ == row_status_display(*g),
{
    match status_of(g) {
        Some(s) => decimal_string(s as u64),
        None => if g.error.is_some() {
            String::from_str("ERR")
        } else {
            String::from_str("-")
        },
    }
}

fn content_type_of(g: &LogGroup) -> (r: &str)
    ensures
        r@ == row_content_type(*g),
{
    proof {
        reveal_strlit("");
    }
    match &g.response {
        Some(LogEntry::Response { content_type, .. }) => content_type.as_str(),
        _ => "",
    }
}

fn duration_of(g: &LogGroup) -> (r: Option<u64>)
    ensures
        r == row_duration(*g),
{
    match (&g.request, &g.response) {
        (Some(LogEntry::Request { ts: a, .. }), Some(LogEntry::Response { ts: b, .. })) => {
            let d = if *b > *a {
                *b - *a
            } else {
                0
            };
            Some(
                if d > 1 {
                    d
                } else {
                    1
                },
            )
        },
        _ => None,
    }
}

fn badge_of(g: &LogGroup) -> (r: &'static str)
    ensures
        r@ == badge_class(*g),
{
    match status_of(g) {
        Some(s) => if s < 300 {
            "2xx"
        } else if s < 400 {
            "3xx"
        } else if s < 500 {
            "4xx"
        } else {
            "5xx"
        },
        None => if g.error.is_some() {
            "error"
        } else {
            "request"
        },
    }
}

fn resp_details_of(g: &LogGroup) -> (r: String)
    ensures
        r@ == resp_details_spec(*g),
{
    let ct = content_type_of(g);
    let mut out = String::new();
    if !ct.is_empty() {
        let ct_esc = html_esc(ct);
            let mut meta = String::from_str(META_0);
            meta.append(ct_esc.as_str());
            meta.append(META_1);
        out.append(meta.as_str());
    }
    match duration_of(g) {
        Some(d) => {
            let mut dur = decimal_string(d);
            dur.append("ms");
            let mut dspan = String::from_str(DURATION_0);
            dspan.append(dur.as_str());
            dspan.append(DURATION_1);
            out.append(dspan.as_str());
        },
        None => {},
    }
    assert(out@ =~= resp_details_spec(*g));
    out
}

fn text_field(key: &str, val: &String) -> (r: (String, JsonValue))
    ensures
        r.0@ == key@,
        r.1@ == JsonLeaf::Text(val@),
{
    (String::from_str(key), JsonValue::Text(val.clone()))
}

/// The details section of a logged request, given its pretty-printed JSON.
pub fn request_detail(json: &str) -> (r: String)
    ensures
        r@ == REQ_DETAIL_0@ + html_escape(json@) + REQ_DETAIL_1@,
{
    let body = html_esc(json);
    let mut sec = String::from_str(REQ_DETAIL_0);
    sec.append(body.as_str());
    sec.append(REQ_DETAIL_1);
    sec
}

/// The details section of a logged response, given its pretty-printed JSON.
pub fn response_detail(json: &str) -> (r: String)
    ensures
        r@ == RESP_DETAIL_0@ + html_escape(json@) + RESP_DETAIL_1@,
{
    let body = html_esc(json);
    let mut sec = String::from_str(RESP_DETAIL_0);
    sec.append(body.as_str());
    sec.append(RESP_DETAIL_1);
    sec
}

/// The details section of a logged error, given its pretty-printed JSON.
pub fn error_detail(json: &str) -> (r: String)
    ensures
        r@ == ERR_DETAIL_0@ + html_escape(json@) + ERR_DETAIL_1@,
{
    let body = html_esc(json);
    let mut sec = String::from_str(ERR_DETAIL_0);
    sec.append(body.as_str());
    sec.append(ERR_DETAIL_1);
    sec
}

fn details_of(g: &LogGroup, expanded: bool) -> (r: String)
    ensures
        r@ == details_spec(*g, expanded),
{
    let mut out = String::new();
    if !expanded {
        return out;
    }
    match &g.request {
        Some(LogEntry::Request { method, uri, host, user_agent, accept, .. }) => {
            let mut fields: Vec<(String, JsonValue)> = Vec::new();
            fields.push(text_field("method", method));
            fields.push(text_field("uri", uri));
            fields.push(text_field("host", host));
            fields.push(text_field("user_agent", user_agent));
            fields.push(text_field("accept", accept));
            assert(fields_view(fields@) =~= req_fields_spec(*g));
            let json = json_pretty(&fields);
            let sec = request_detail(json.as_str());
            out.append(sec.as_str());
        },
        _ => {},
    }
    match &g.response {
        Some(LogEntry::Response { status, content_type, body_preview, .. }) => {
            let mut fields: Vec<(String, JsonValue)> = Vec::new();
            fields.push((String::from_str("status"), JsonValue::Number(*status as u64)));
            fields.push(text_field("content_type", content_type));
            fields.push(text_field("body_preview", body_preview));
            assert(fields_view(fields@) =~= resp_fields_spec(*g));
            let json = json_pretty(&fields);
            let sec = response_detail(json.as_str());
            out.append(sec.as_str());
        },
        _ => {},
    }
    match &g.error {
        Some(LogEntry::Error { client_addr, error, .. }) => {
            let mut fields: Vec<(String, JsonValue)> = Vec::new();
            fields.push(text_field("client_addr", client_addr));
            fields.push(text_field("error", error));
            assert(fields_view(fields@) =~= err_fields_spec(*g));
            let json = json_pretty(&fields);
            let sec = error_detail(json.as_str());
            out.append(sec.as_str());
        },
        _ => {},
    }
    assert(out@ =~= details_spec(*g, expanded));
    out
}

/// Renders one group as a table row (and its details row, filled only when
/// `expanded`).
pub fn combined_row(g: &LogGroup, expanded: bool) -> (r: String)
    ensures
        r@ == combined_row_spec(*g, expanded),
{
    proof {
        reveal(combined_row_spec);
    }
    let ts = format_ts(g.ts);
    let badge = badge_of(g);
    let method = html_esc(method_of(g));
    let host = html_esc(host_of(g));
    let status_text = status_display_of(g);
    let status = html_esc(status_text.as_str());
    let details_line = resp_details_of(g);
    let details = details_of(g, expanded);
    let mut out = String::from_str(ROW_0);
    out.append(ts.as_str());
    out.append(ROW_1);
    out.append(badge);
    out.append(ROW_2);
    out.append(method.as_str());
    out.append(ROW_3);
    out.append(host.as_str());
    out.append(ROW_4);
    out.append(badge);
    out.append(ROW_5);
    out.append(status.as_str());
    out.append(ROW_6);
    out.append(details_line.as_str());
    out.append(ROW_7);
    out.append("none");
    out.append(ROW_8);
    out.append(details.as_str());
    out.append(ROW_9);
    out
}

/// The rows of all groups, in order.
pub open spec fn rows_concat(gs: Seq<LogGroup>, expanded: bool) -> Seq<char>
    decreases gs.len(),
{
    if gs.len() == 0 {
        Seq::empty()
    } else {
        rows_concat(gs.drop_last(), expanded) + combined_row_spec(gs.last(), expanded)
    }
}

fn rows_of(gs: &Vec<LogGroup>, n: usize, expanded: bool) -> (r: String)
    requires
        n <= gs.len(),
    ensures
        r@ == rows_concat(gs@.take(n as int), expanded),
{
    let mut out = String::new();
    let mut i: usize = 0;
    while i < n
        invariant
            i <= n <= gs.len(),
            out@ == rows_concat(gs@.take(i as int), expanded),
        decreases n - i,
    {
        let row = combined_row(&gs[i], expanded);
        out.append(row.as_str());
        assert(gs@.take(i + 1).drop_last() =~= gs@.take(i as int));
        i += 1;
    }
    out
}

/// A table with the usual header around `rows`.
pub open spec fn table_spec(rows: Seq<char>) -> Seq<char> {
    TABLE_0@ + rows + TABLE_1@
}

fn table_of(rows: &String) -> (r: String)
    ensures
        r@ == table_spec(rows@),
{
    let mut out = String::from_str(TABLE_0);
    out.append(rows.as_str());
    out.append(TABLE_1);
    out
}

/* --- Activity table ------------------------------------------------------ */

/// At most the first 20 groups.
pub open spec fn first_20(gs: Seq<LogGroup>) -> Seq<LogGroup> {
    if gs.len() <= 20 {
        gs
    } else {
        gs.take(20)
    }
}

/// The rows of the 20 newest groups of `entries`. Groups with equal time
/// stamps may come in any order, so the contract speaks of some grouping.
pub fn activity_rows(entries: &[LogEntry]) -> (r: String)
    ensures
        exists|gs: Seq<LogGroup>|
            is_grouping(entries@, gs) && newest_first(gs) && r@ == rows_concat(
                first_20(gs),
                false,
            ),
{
    let groups = group_log_entries(entries);
    let n = if groups.len() < 20 {
        groups.len()
    } else {
        20
    };
    let r = rows_of(&groups, n, false);
    assert(groups@.take(n as int) =~= first_20(groups@));
    r
}

pub open spec fn activity_table_spec(entries: Seq<LogEntry>, gs: Seq<LogGroup>) -> Seq<char> {
    if entries.len() == 0 {
        NO_ENTRIES@
    } else {
        table_spec(rows_concat(first_20(gs), false))
    }
}

/// The recent-activity table of the dashboard.
pub fn activity_table(entries: &[LogEntry]) -> (r: String)
    ensures
        exists|gs: Seq<LogGroup>|
            is_grouping(entries@, gs) && newest_first(gs) && r@ == activity_table_spec(
                entries@,
                gs,
            ),
{
    if entries.len() == 0 {
        let r = String::from_str(NO_ENTRIES);
        proof {
            reveal(is_grouping);
            reveal(newest_first);
            assert(is_grouping(entries@, Seq::<LogGroup>::empty()));
            assert(newest_first(Seq::<LogGroup>::empty()));
            assert(r@ == activity_table_spec(entries@, Seq::<LogGroup>::empty()));
        }
        return r;
    }
    let rows = activity_rows(entries);
    let r = table_of(&rows);
    proof {
        let gs = choose|gs: Seq<LogGroup>|
            is_grouping(entries@, gs) && newest_first(gs) && rows@ == rows_concat(
                first_20(gs),
                false,
            );
        assert(r@ == activity_table_spec(entries@, gs));
    }
    r
}

/* --- Log table ----------------------------------------------------------- */

pub open spec fn opt_str(o: Option<&str>) -> Option<Seq<char>> {
    match o {
        Some(s) => Some(s@),
        None => None,
    }
}

/// An entry matches a search when its JSON text, lower-cased, contains the
/// lower-cased search text.
pub open spec fn keep_entry(ser: Seq<char>, q: Seq<char>) -> bool {
    contains_seq(spec_to_lowercase(ser), spec_to_lowercase(q))
}

/// The first `n` entries that match the search, in order.
pub open spec fn filter_prefix(
    entries: Seq<LogEntry>,
    ser: Seq<Seq<char>>,
    q: Seq<char>,
    n: nat,
) -> Seq<LogEntry>
    decreases n,
{
    if n == 0 {
        Seq::empty()
    } else {
        let rest = filter_prefix(entries, ser, q, (n - 1) as nat);
        if keep_entry(ser[n - 1], q) {
            rest.push(entries[n - 1])
        } else {
            rest
        }
    }
}

/// The entries that a search keeps; no search, or an empty one, keeps all.
pub open spec fn searched(
    entries: Seq<LogEntry>,
    ser: Seq<Seq<char>>,
    search: Option<Seq<char>>,
) -> Seq<LogEntry> {
    match search {
        Some(q) => if q.len() > 0 {
            filter_prefix(entries, ser, q, entries.len())
        } else {
            entries
        },
        None => entries,
    }
}

pub open spec fn log_rows_spec(filtered: Seq<LogEntry>, gs: Seq<LogGroup>) -> Seq<char> {
    if filtered.len() == 0 || gs.len() == 0 {
        NO_MATCH@
    } else {
        table_spec(rows_concat(gs, true))
    }
}

/// The log table: the entries that match `search` (compared with the JSON
/// text of each entry, `serialized[i]` for `entries[i]`), grouped by
/// request, newest first, each with its details.
pub fn log_rows(entries: &[LogEntry], serialized: &[String], search: Option<&str>) -> (r: String)
    requires
        serialized.len() == entries.len(),
    ensures
        exists|gs: Seq<LogGroup>|
            is_grouping(searched(entries@, strings_view(serialized@), opt_str(search)), gs)
                && newest_first(gs) && r@ == log_rows_spec(
                searched(entries@, strings_view(serialized@), opt_str(search)),
                gs,
            ),
{
    let ghost sv = strings_view(serialized@);
    let ghost target = searched(entries@, sv, opt_str(search));
    let mut filtered: Vec<LogEntry> = Vec::new();
    let mut filtering = false;
    match search {
        Some(q) => {
            if !q.is_empty() {
                filtering = true;
                let q_lower = to_lowercase(q);
                let mut i: usize = 0;
                while i < entries.len()
                    invariant
                        i <= entries.len(),
                        serialized.len() == entries.len(),
                        sv == strings_view(serialized@),
                        q_lower@ == spec_to_lowercase(q@),
                        filtered@ == filter_prefix(entries@, sv, q@, i as nat),
                    decreases entries.len() - i,
                {
                    let s_lower = to_lowercase(serialized[i].as_str());
                    if contains(s_lower.as_str(), q_lower.as_str()) {
                        filtered.push(entries[i].clone());
                    }
                    i += 1;
                }
            }
        },
        None => {},
    }
    if !filtering {
        let mut i: usize = 0;
        while i < entries.len()
            invariant
                i <= entries.len(),
                filtered@ == entries@.take(i as int),
            decreases entries.len() - i,
        {
            filtered.push(entries[i].clone());
            i += 1;
            assert(filtered@ =~= entries@.take(i as int));
        }
        assert(entries@.take(entries.len() as int) =~= entries@);
    }
    assert(filtered@ == target);
    if filtered.len() == 0 {
        let r = String::from_str(NO_MATCH);
        proof {
            reveal(is_grouping);
            reveal(newest_first);
            assert(is_grouping(target, Seq::<LogGroup>::empty()));
            assert(newest_first(Seq::<LogGroup>::empty()));
            assert(r@ == log_rows_spec(target, Seq::<LogGroup>::empty()));
        }
        return r;
    }
    let groups = group_log_entries(filtered.as_slice());
    if groups.len() == 0 {
        let r = String::from_str(NO_MATCH);
        assert(r@ == log_rows_spec(target, groups@));
        return r;
    }
    let n = groups.len();
    let rows = rows_of(&groups, n, true);
    assert(groups@.take(n as int) =~= groups@);
    let r = table_of(&rows);
    assert(r@ == log_rows_spec(target, groups@));
    r
}

/* --- Configuration page -------------------------------------------------- */

/// ` selected` for the option that is the current value.
pub open spec fn selected_attr(val: Seq<char>, current: Option<Seq<char>>) -> Seq<char> {
    if current == Some(val) {
        " selected"@
    } else {
        ""@
    }
}

/// One `<option>` of a select box.
#[verifier::opaque]
pub open spec fn option_line(val: Seq<char>, label: Seq<char>, current: Option<Seq<char>>) -> Seq<
    char,
> {
    OPTION_0@ + html_escape(val) + OPTION_1@ + selected_attr(val, current) + OPTION_2@ + html_escape(label) + OPTION_3@
}

fn option_line_of(val: &str, label: &str, current: Option<&str>) -> (r: String)
    ensures
        r@ == option_line(val@, label@, opt_str(current)),
{
    proof {
        reveal(option_line);
    }
    let val_esc = html_esc(val);
    let label_esc = html_esc(label);
    let selected = match current {
        Some(c) => if str_eq(c, val) {
            " selected"
        } else {
            ""
        },
        None => "",
    };
    let mut out = String::from_str(OPTION_0);
    out.append(val_esc.as_str());
    out.append(OPTION_1);
    out.append(selected);
    out.append(OPTION_2);
    out.append(label_esc.as_str());
    out.append(OPTION_3);
    out
}

/// The choices of CSP handling, the current one selected.
pub open spec fn csp_options_spec(current: Option<Seq<char>>) -> Seq<char> {
    option_line(""@, "(none)"@, current) + "\n"@ + option_line(
        "remove_nonce"@,
        "remove_nonce"@,
        current,
    ) + "\n"@ + option_line("remove_all"@, "remove_all"@, current) + "\n"@ + option_line(
        "relax_connect_src"@,
        "relax_connect_src"@,
        current,
    ) + "\n"@ + option_line("keep"@, "keep"@, current)
}

/// The choices of injection position, the current one selected.
pub open spec fn inject_options_spec(current: Option<Seq<char>>) -> Seq<char> {
    option_line(""@, "(default)"@, current) + "\n"@ + option_line(
        "head_end"@,
        "head_end"@,
        current,
    ) + "\n"@ + option_line("body_end"@, "body_end"@, current) + "\n"@ + option_line(
        "html_end"@,
        "html_end"@,
        current,
    ) + "\n"@ + option_line("append"@, "append"@, current)
}

pub fn csp_options(current: Option<&str>) -> (r: String)
    ensures
        r@ == csp_options_spec(opt_str(current)),
{
    let mut out = option_line_of("", "(none)", current);
    out.append("\n");
    out.append(option_line_of("remove_nonce", "remove_nonce", current).as_str());
    out.append("\n");
    out.append(option_line_of("remove_all", "remove_all", current).as_str());
    out.append("\n");
    out.append(option_line_of("relax_connect_src", "relax_connect_src", current).as_str());
    out.append("\n");
    out.append(option_line_of("keep", "keep", current).as_str());
    out
}

pub fn inject_options(current: Option<&str>) -> (r: String)
    ensures
        r@ == inject_options_spec(opt_str(current)),
{
    let mut out = option_line_of("", "(default)", current);
    out.append("\n");
    out.append(option_line_of("head_end", "head_end", current).as_str());
    out.append("\n");
    out.append(option_line_of("body_end", "body_end", current).as_str());
    out.append("\n");
    out.append(option_line_of("html_end", "html_end", current).as_str());
    out.append("\n");
    out.append(option_line_of("append", "append", current).as_str());
    out
}

/// One editable added header: name, value and a delete button.
#[verifier::opaque]
pub open spec fn pair_row_lower_spec(ty_lower: Seq<char>, idx: nat, key: Seq<char>, val: Seq<char>) -> Seq<char> {
    PAIR_ROW_0@ + html_escape(key) + PAIR_ROW_1@ + html_escape(key) + PAIR_ROW_2@ + ty_lower + PAIR_ROW_3@ + decimal(idx) + PAIR_ROW_4@ + ty_lower + PAIR_ROW_5@ + decimal(idx) + PAIR_ROW_6@ + html_escape(val) + PAIR_ROW_7@ + html_escape(key) + PAIR_ROW_8@ + ty_lower + PAIR_ROW_9@ + decimal(idx) + PAIR_ROW_10@ + ty_lower + PAIR_ROW_11@ + decimal(idx) + PAIR_ROW_12@ + ty_lower + PAIR_ROW_13@ + decimal(idx) + PAIR_ROW_14@ + url_encode_bytes(vstd::utf8::encode_utf8(key)) + PAIR_ROW_15@ + ty_lower + PAIR_ROW_16@ + decimal(idx) + PAIR_ROW_17@
}

/// One editable added header; `ty` is lower-cased (`str::to_lowercase`) for
/// the ids and routes.
pub open spec fn pair_row_spec(ty: Seq<char>, idx: nat, key: Seq<char>, val: Seq<char>) -> Seq<char> {
    pair_row_lower_spec(spec_to_lowercase(ty), idx, key, val)
}

pub fn header_pair_row(ty: &str, idx: usize, _hi: usize, key: &str, val: &str) -> (r: String)
    ensures
        r@ == pair_row_spec(ty@, idx as nat, key@, val@),
{
    let ty_lower = to_lowercase(ty);
    pair_row_lowered(ty_lower.as_str(), idx, key, val)
}

/// One editable added header, `ty_lower` being the lower-cased kind.
pub fn pair_row_lowered(ty_lower: &str, idx: usize, key: &str, val: &str) -> (r: String)
    ensures
        r@ == pair_row_lower_spec(ty_lower@, idx as nat, key@, val@),
{
    proof {
        reveal(pair_row_lower_spec);
    }
    let key_esc = html_esc(key);
    let key_url = urlencode(key);
    let val_esc = html_esc(val);
    let mut out = String::from_str(PAIR_ROW_0);
    out.append(key_esc.as_str());
    out.append(PAIR_ROW_1);
    out.append(key_esc.as_str());
    out.append(PAIR_ROW_2);
    out.append(ty_lower);
    out.append(PAIR_ROW_3);
    push_decimal(&mut out, idx as u64);
    out.append(PAIR_ROW_4);
    out.append(ty_lower);
    out.append(PAIR_ROW_5);
    push_decimal(&mut out, idx as u64);
    out.append(PAIR_ROW_6);
    out.append(val_esc.as_str());
    out.append(PAIR_ROW_7);
    out.append(key_esc.as_str());
    out.append(PAIR_ROW_8);
    out.append(ty_lower);
    out.append(PAIR_ROW_9);
    push_decimal(&mut out, idx as u64);
    out.append(PAIR_ROW_10);
    out.append(ty_lower);
    out.append(PAIR_ROW_11);
    push_decimal(&mut out, idx as u64);
    out.append(PAIR_ROW_12);
    out.append(ty_lower);
    out.append(PAIR_ROW_13);
    push_decimal(&mut out, idx as u64);
    out.append(PAIR_ROW_14);
    out.append(key_url.as_str());
    out.append(PAIR_ROW_15);
    out.append(ty_lower);
    out.append(PAIR_ROW_16);
    push_decimal(&mut out, idx as u64);
    out.append(PAIR_ROW_17);
    out
}

/// One editable header to remove, with a delete button.
#[verifier::opaque]
pub open spec fn remove_row_spec(ty: Seq<char>, idx: nat, hi: nat, val: Seq<char>) -> Seq<char> {
    REMOVE_ROW_0@ + html_escape(val) + REMOVE_ROW_1@ + ty + REMOVE_ROW_2@ + decimal(idx) + REMOVE_ROW_3@ + decimal(hi) + REMOVE_ROW_4@ + ty + REMOVE_ROW_5@ + decimal(idx) + REMOVE_ROW_6@ + ty + REMOVE_ROW_7@ + decimal(idx) + REMOVE_ROW_8@ + decimal(hi) + REMOVE_ROW_9@ + ty + REMOVE_ROW_10@ + decimal(idx) + REMOVE_ROW_11@
}

pub fn remove_header_row(ty: &str, idx: usize, hi: usize, val: &str) -> (r: String)
    ensures
        r@ == remove_row_spec(ty@, idx as nat, hi as nat, val@),
{
    proof {
        reveal(remove_row_spec);
    }
    let val_esc = html_esc(val);
    let mut out = String::from_str(REMOVE_ROW_0);
    out.append(val_esc.as_str());
    out.append(REMOVE_ROW_1);
    out.append(ty);
    out.append(REMOVE_ROW_2);
    push_decimal(&mut out, idx as u64);
    out.append(REMOVE_ROW_3);
    push_decimal(&mut out, hi as u64);
    out.append(REMOVE_ROW_4);
    out.append(ty);
    out.append(REMOVE_ROW_5);
    push_decimal(&mut out, idx as u64);
    out.append(REMOVE_ROW_6);
    out.append(ty);
    out.append(REMOVE_ROW_7);
    push_decimal(&mut out, idx as u64);
    out.append(REMOVE_ROW_8);
    push_decimal(&mut out, hi as u64);
    out.append(REMOVE_ROW_9);
    out.append(ty);
    out.append(REMOVE_ROW_10);
    push_decimal(&mut out, idx as u64);
    out.append(REMOVE_ROW_11);
    out
}

/// The rows of all added headers, in order.
pub open spec fn pair_rows(ty: Seq<char>, idx: nat, hs: Seq<(String, String)>) -> Seq<char>
    decreases hs.len(),
{
    if hs.len() == 0 {
        Seq::empty()
    } else {
        pair_rows(ty, idx, hs.drop_last()) + pair_row_spec(ty, idx, hs.last().0@, hs.last().1@)
    }
}

pub open spec fn pair_rows_opt(ty: Seq<char>, idx: nat, hs: Option<Vec<(String, String)>>) -> Seq<
    char,
> {
    match hs {
        Some(v) => pair_rows(ty, idx, v@),
        None => Seq::empty(),
    }
}

/// The rows of all headers to remove, each with its index.
pub open spec fn remove_rows(ty: Seq<char>, idx: nat, hs: Seq<String>) -> Seq<char>
    decreases hs.len(),
{
    if hs.len() == 0 {
        Seq::empty()
    } else {
        remove_rows(ty, idx, hs.drop_last()) + remove_row_spec(
            ty,
            idx,
            (hs.len() - 1) as nat,
            hs.last()@,
        )
    }
}

pub open spec fn remove_rows_opt(ty: Seq<char>, idx: nat, hs: Option<Vec<String>>) -> Seq<char> {
    match hs {
        Some(v) => remove_rows(ty, idx, v@),
        None => Seq::empty(),
    }
}

fn pair_rows_of(ty: &str, idx: usize, hs: &Option<Vec<(String, String)>>) -> (r: String)
    ensures
        r@ == pair_rows_opt(ty@, idx as nat, *hs),
{
    let mut out = String::new();
    match hs {
        Some(v) => {
            let mut i: usize = 0;
            while i < v.len()
                invariant
                    i <= v.len(),
                    out@ == pair_rows(ty@, idx as nat, v@.take(i as int)),
                decreases v.len() - i,
            {
                let row = header_pair_row(ty, idx, i, v[i].0.as_str(), v[i].1.as_str());
                out.append(row.as_str());
                assert(v@.take(i + 1).drop_last() =~= v@.take(i as int));
                i += 1;
            }
            assert(v@.take(v.len() as int) =~= v@);
        },
        None => {},
    }
    out
}

fn remove_rows_of(ty: &str, idx: usize, hs: &Option<Vec<String>>) -> (r: String)
    ensures
        r@ == remove_rows_opt(ty@, idx as nat, *hs),
{
    let mut out = String::new();
    match hs {
        Some(v) => {
            let mut i: usize = 0;
            while i < v.len()
                invariant
                    i <= v.len(),
                    out@ == remove_rows(ty@, idx as nat, v@.take(i as int)),
                decreases v.len() - i,
            {
                let row = remove_header_row(ty, idx, i, v[i].as_str());
                out.append(row.as_str());
                assert(v@.take(i + 1).drop_last() =~= v@.take(i as int));
                i += 1;
            }
            assert(v@.take(v.len() as int) =~= v@);
        },
        None => {},
    }
    out
}

fn opt_as_str(o: &Option<String>) -> (r: Option<&str>)
    ensures
        opt_str(r) == opt_view(*o),
{
    match o {
        Some(s) => Some(s.as_str()),
        None => None,
    }
}

/* --- Script rules -------------------------------------------------------- */

#[verifier::opaque]
pub open spec fn script_card_spec(idx: nat, r: ScriptRule) -> Seq<char> {
    SCRIPT_CARD_0@ + decimal(idx as nat) + SCRIPT_CARD_1@ + html_escape(r.domain@) + SCRIPT_CARD_2@ + decimal(idx as nat) + SCRIPT_CARD_3@ + html_escape(r.domain@) + SCRIPT_CARD_4@ + decimal(idx as nat) + SCRIPT_CARD_5@ + decimal(idx as nat) + SCRIPT_CARD_6@ + html_escape(seq_join(strings_view(r.scripts@), ", "@)) + SCRIPT_CARD_7@ + decimal(idx as nat) + SCRIPT_CARD_8@ + decimal(idx as nat) + SCRIPT_CARD_9@
}

/// The editor of one script rule.
pub fn script_card(idx: usize, r: &ScriptRule) -> (res: String)
    ensures
        res@ == script_card_spec(idx as nat, *r),
{
    proof {
        reveal(script_card_spec);
    }
    let domain = html_esc(r.domain.as_str());
    let joined = join(&r.scripts, ", ");
    let scripts = html_esc(joined.as_str());
    let mut out = String::from_str(SCRIPT_CARD_0);
    push_decimal(&mut out, idx as u64);
    out.append(SCRIPT_CARD_1);
    out.append(domain.as_str());
    out.append(SCRIPT_CARD_2);
    push_decimal(&mut out, idx as u64);
    out.append(SCRIPT_CARD_3);
    out.append(domain.as_str());
    out.append(SCRIPT_CARD_4);
    push_decimal(&mut out, idx as u64);
    out.append(SCRIPT_CARD_5);
    push_decimal(&mut out, idx as u64);
    out.append(SCRIPT_CARD_6);
    out.append(scripts.as_str());
    out.append(SCRIPT_CARD_7);
    push_decimal(&mut out, idx as u64);
    out.append(SCRIPT_CARD_8);
    push_decimal(&mut out, idx as u64);
    out.append(SCRIPT_CARD_9);
    out
}

pub open spec fn script_cards(rules: Seq<ScriptRule>) -> Seq<char>
    decreases rules.len(),
{
    if rules.len() == 0 {
        Seq::empty()
    } else {
        script_cards(rules.drop_last()) + script_card_spec(
            (rules.len() - 1) as nat,
            rules.last(),
        )
    }
}

pub open spec fn scripts_section_spec(rules: Seq<ScriptRule>) -> Seq<char> {
    if rules.len() == 0 {
        NO_SCRIPT_RULES@
    } else {
        script_cards(rules)
    }
}

/// The editors of all script rules, or a note that there are none.
pub fn scripts_section(rules: &[ScriptRule]) -> (r: String)
    ensures
        r@ == scripts_section_spec(rules@),
{
    if rules.len() == 0 {
        return String::from_str(NO_SCRIPT_RULES);
    }
    let mut out = String::new();
    let mut i: usize = 0;
    while i < rules.len()
        invariant
            i <= rules.len(),
            out@ == script_cards(rules@.take(i as int)),
        decreases rules.len() - i,
    {
        let card = script_card(i, &rules[i]);
        out.append(card.as_str());
        assert(rules@.take(i + 1).drop_last() =~= rules@.take(i as int));
        i += 1;
    }
    assert(rules@.take(rules.len() as int) =~= rules@);
    out
}

/* --- Response rules ------------------------------------------------------ */

#[verifier::opaque]
pub open spec fn response_card_spec(idx: nat, r: ResponseModifier) -> Seq<char> {
    RESPONSE_CARD_0@ + decimal(idx as nat) + RESPONSE_CARD_1@ + html_escape(r.domain@) + RESPONSE_CARD_2@ + decimal(idx as nat) + RESPONSE_CARD_3@ + html_escape(r.domain@) + RESPONSE_CARD_4@ + decimal(idx as nat) + RESPONSE_CARD_5@ + decimal(idx as nat) + RESPONSE_CARD_6@ + decimal(idx as nat) + RESPONSE_CARD_7@ + decimal(idx as nat) + RESPONSE_CARD_8@ + csp_options_spec(opt_view(r.csp)) + RESPONSE_CARD_9@ + decimal(idx as nat) + RESPONSE_CARD_10@ + remove_rows_opt("response"@, idx as nat, r.remove_headers) + RESPONSE_CARD_11@ + decimal(idx as nat) + RESPONSE_CARD_12@ + decimal(idx as nat) + RESPONSE_CARD_13@ + decimal(idx as nat) + RESPONSE_CARD_14@ + decimal(idx as nat) + RESPONSE_CARD_15@ + inject_options_spec(opt_view(r.inject_at)) + RESPONSE_CARD_16@ + decimal(idx as nat) + RESPONSE_CARD_17@ + pair_rows_opt("Response"@, idx as nat, r.add_headers) + RESPONSE_CARD_18@ + decimal(idx as nat) + RESPONSE_CARD_19@ + decimal(idx as nat) + RESPONSE_CARD_20@
}

/// The editor of one response modifier.
pub fn response_card(idx: usize, r: &ResponseModifier) -> (res: String)
    ensures
        res@ == response_card_spec(idx as nat, *r),
{
    proof {
        reveal(response_card_spec);
    }
    let domain = html_esc(r.domain.as_str());
    let csp = csp_options(opt_as_str(&r.csp));
    let inject = inject_options(opt_as_str(&r.inject_at));
    let removes = remove_rows_of("response", idx, &r.remove_headers);
    let pairs = pair_rows_of("Response", idx, &r.add_headers);
    let mut out = String::from_str(RESPONSE_CARD_0);
    push_decimal(&mut out, idx as u64);
    out.append(RESPONSE_CARD_1);
    out.append(domain.as_str());
    out.append(RESPONSE_CARD_2);
    push_decimal(&mut out, idx as u64);
    out.append(RESPONSE_CARD_3);
    out.append(domain.as_str());
    out.append(RESPONSE_CARD_4);
    push_decimal(&mut out, idx as u64);
    out.append(RESPONSE_CARD_5);
    push_decimal(&mut out, idx as u64);
    out.append(RESPONSE_CARD_6);
    push_decimal(&mut out, idx as u64);
    out.append(RESPONSE_CARD_7);
    push_decimal(&mut out, idx as u64);
    out.append(RESPONSE_CARD_8);
    out.append(csp.as_str());
    out.append(RESPONSE_CARD_9);
    push_decimal(&mut out, idx as u64);
    out.append(RESPONSE_CARD_10);
    out.append(removes.as_str());
    out.append(RESPONSE_CARD_11);
    push_decimal(&mut out, idx as u64);
    out.append(RESPONSE_CARD_12);
    push_decimal(&mut out, idx as u64);
    out.append(RESPONSE_CARD_13);
    push_decimal(&mut out, idx as u64);
    out.append(RESPONSE_CARD_14);
    push_decimal(&mut out, idx as u64);
    out.append(RESPONSE_CARD_15);
    out.append(inject.as_str());
    out.append(RESPONSE_CARD_16);
    push_decimal(&mut out, idx as u64);
    out.append(RESPONSE_CARD_17);
    out.append(pairs.as_str());
    out.append(RESPONSE_CARD_18);
    push_decimal(&mut out, idx as u64);
    out.append(RESPONSE_CARD_19);
    push_decimal(&mut out, idx as u64);
    out.append(RESPONSE_CARD_20);
    out
}

pub open spec fn response_cards(rules: Seq<ResponseModifier>) -> Seq<char>
    decreases rules.len(),
{
    if rules.len() == 0 {
        Seq::empty()
    } else {
        response_cards(rules.drop_last()) + response_card_spec(
            (rules.len() - 1) as nat,
            rules.last(),
        )
    }
}

pub open spec fn response_section_spec(rules: Seq<ResponseModifier>) -> Seq<char> {
    if rules.len() == 0 {
        NO_RESPONSE_RULES@
    } else {
        response_cards(rules)
    }
}

/// The editors of all response modifiers, or a note that there are none.
pub fn response_section(rules: &[ResponseModifier]) -> (r: String)
    ensures
        r@ == response_section_spec(rules@),
{
    if rules.len() == 0 {
        return String::from_str(NO_RESPONSE_RULES);
    }
    let mut out = String::new();
    let mut i: usize = 0;
    while i < rules.len()
        invariant
            i <= rules.len(),
            out@ == response_cards(rules@.take(i as int)),
        decreases rules.len() - i,
    {
        let card = response_card(i, &rules[i]);
        out.append(card.as_str());
        assert(rules@.take(i + 1).drop_last() =~= rules@.take(i as int));
        i += 1;
    }
    assert(rules@.take(rules.len() as int) =~= rules@);
    out
}

/* --- Request rules ------------------------------------------------------- */

#[verifier::opaque]
pub open spec fn request_card_spec(idx: nat, r: RequestModifier) -> Seq<char> {
    REQUEST_CARD_0@ + decimal(idx as nat) + REQUEST_CARD_1@ + html_escape(r.domain@) + REQUEST_CARD_2@ + decimal(idx as nat) + REQUEST_CARD_3@ + html_escape(r.domain@) + REQUEST_CARD_4@ + decimal(idx as nat) + REQUEST_CARD_5@ + decimal(idx as nat) + REQUEST_CARD_6@ + decimal(idx as nat) + REQUEST_CARD_7@ + remove_rows_opt("request"@, idx as nat, r.remove_headers) + REQUEST_CARD_8@ + decimal(idx as nat) + REQUEST_CARD_9@ + decimal(idx as nat) + REQUEST_CARD_10@ + decimal(idx as nat) + REQUEST_CARD_11@ + pair_rows_opt("Request"@, idx as nat, r.add_headers) + REQUEST_CARD_12@ + decimal(idx as nat) + REQUEST_CARD_13@ + decimal(idx as nat) + REQUEST_CARD_14@
}

/// The editor of one request modifier.
pub fn request_card(idx: usize, r: &RequestModifier) -> (res: String)
    ensures
        res@ == request_card_spec(idx as nat, *r),
{
    proof {
        reveal(request_card_spec);
    }
    let domain = html_esc(r.domain.as_str());
    let removes = remove_rows_of("request", idx, &r.remove_headers);
    let pairs = pair_rows_of("Request", idx, &r.add_headers);
    let mut out = String::from_str(REQUEST_CARD_0);
    push_decimal(&mut out, idx as u64);
    out.append(REQUEST_CARD_1);
    out.append(domain.as_str());
    out.append(REQUEST_CARD_2);
    push_decimal(&mut out, idx as u64);
    out.append(REQUEST_CARD_3);
    out.append(domain.as_str());
    out.append(REQUEST_CARD_4);
    push_decimal(&mut out, idx as u64);
    out.append(REQUEST_CARD_5);
    push_decimal(&mut out, idx as u64);
    out.append(REQUEST_CARD_6);
    push_decimal(&mut out, idx as u64);
    out.append(REQUEST_CARD_7);
    out.append(removes.as_str());
    out.append(REQUEST_CARD_8);
    push_decimal(&mut out, idx as u64);
    out.append(REQUEST_CARD_9);
    push_decimal(&mut out, idx as u64);
    out.append(REQUEST_CARD_10);
    push_decimal(&mut out, idx as u64);
    out.append(REQUEST_CARD_11);
    out.append(pairs.as_str());
    out.append(REQUEST_CARD_12);
    push_decimal(&mut out, idx as u64);
    out.append(REQUEST_CARD_13);
    push_decimal(&mut out, idx as u64);
    out.append(REQUEST_CARD_14);
    out
}

pub open spec fn request_cards(rules: Seq<RequestModifier>) -> Seq<char>
    decreases rules.len(),
{
    if rules.len() == 0 {
        Seq::empty()
    } else {
        request_cards(rules.drop_last()) + request_card_spec(
            (rules.len() - 1) as nat,
            rules.last(),
        )
    }
}

pub open spec fn request_section_spec(rules: Seq<RequestModifier>) -> Seq<char> {
    if rules.len() == 0 {
        NO_REQUEST_RULES@
    } else {
        request_cards(rules)
    }
}

/// The editors of all request modifiers, or a note that there are none.
pub fn request_section(rules: &[RequestModifier]) -> (r: String)
    ensures
        r@ == request_section_spec(rules@),
{
    if rules.len() == 0 {
        return String::from_str(NO_REQUEST_RULES);
    }
    let mut out = String::new();
    let mut i: usize = 0;
    while i < rules.len()
        invariant
            i <= rules.len(),
            out@ == request_cards(rules@.take(i as int)),
        decreases rules.len() - i,
    {
        let card = request_card(i, &rules[i]);
        out.append(card.as_str());
        assert(rules@.take(i + 1).drop_last() =~= rules@.take(i as int));
        i += 1;
    }
    assert(rules@.take(rules.len() as int) =~= rules@);
    out
}

/* --- Whole configuration ------------------------------------------------- */

/// The rules of an optional list, none when it is absent.
pub open spec fn opt_rules<T>(o: Option<Vec<T>>) -> Seq<T> {
    match o {
        Some(v) => v@,
        None => Seq::empty(),
    }
}

/// ` checked` when the proxy is paused.
pub open spec fn paused_attr(p: Option<bool>) -> Seq<char> {
    if p == Some(true) {
        " checked"@
    } else {
        ""@
    }
}

pub open spec fn config_page_spec(config: Config) -> Seq<char> {
    CONFIG_PAGE_0@ + decimal(config.server.port as nat) + CONFIG_PAGE_1@ + paused_attr(config.server.pause) + CONFIG_PAGE_2@ + scripts_section_spec(opt_rules(config.scripts)) + CONFIG_PAGE_3@ + response_section_spec(opt_rules(config.modify_response)) + CONFIG_PAGE_4@ + request_section_spec(opt_rules(config.modify_request)) + CONFIG_PAGE_5@
}

/// The configuration editor: server settings and all rules.
pub fn config_page(config: &Config) -> (r: String)
    ensures
        r@ == config_page_spec(*config),
{
    let paused = match config.server.pause {
        Some(true) => " checked",
        _ => "",
    };
    let scripts = match &config.scripts {
        Some(v) => scripts_section(v.as_slice()),
        None => {
            let e: Vec<ScriptRule> = Vec::new();
            scripts_section(e.as_slice())
        },
    };
    let response = match &config.modify_response {
        Some(v) => response_section(v.as_slice()),
        None => {
            let e: Vec<ResponseModifier> = Vec::new();
            response_section(e.as_slice())
        },
    };
    let request = match &config.modify_request {
        Some(v) => request_section(v.as_slice()),
        None => {
            let e: Vec<RequestModifier> = Vec::new();
            request_section(e.as_slice())
        },
    };
    let mut out = String::from_str(CONFIG_PAGE_0);
    push_decimal(&mut out, config.server.port as u64);
    out.append(CONFIG_PAGE_1);
    out.append(paused);
    out.append(CONFIG_PAGE_2);
    out.append(scripts.as_str());
    out.append(CONFIG_PAGE_3);
    out.append(response.as_str());
    out.append(CONFIG_PAGE_4);
    out.append(request.as_str());
    out.append(CONFIG_PAGE_5);
    out
}

/* --- Laws of the configuration editor ---------------------------------------- */

/// Each script rule has its editor among the script cards.
proof fn lemma_script_card_in(rules: Seq<ScriptRule>, i: int)
    requires
        0 <= i < rules.len(),
    ensures
        contains_seq(script_cards(rules), script_card_spec(i as nat, rules[i])),
    decreases rules.len(),
{
    broadcast use {lemma_contains_left, lemma_contains_right};

    lemma_contains_self(script_card_spec(i as nat, rules[i]));
    if i < rules.len() - 1 {
        assert(rules.drop_last()[i] == rules[i]);
        lemma_script_card_in(rules.drop_last(), i);
    }
}

/// The script section lists one editor per rule, the one of rule `i` under
/// index `i`; with no rules it says there are none.
pub proof fn law_script_section(rules: Seq<ScriptRule>, i: int)
    ensures
        rules.len() == 0 ==> scripts_section_spec(rules) == NO_SCRIPT_RULES@,
        0 <= i < rules.len() ==> contains_seq(
            scripts_section_spec(rules),
            script_card_spec(i as nat, rules[i]),
        ),
{
    if 0 <= i < rules.len() {
        lemma_script_card_in(rules, i);
    }
}

proof fn lemma_response_card_in(rules: Seq<ResponseModifier>, i: int)
    requires
        0 <= i < rules.len(),
    ensures
        contains_seq(response_cards(rules), response_card_spec(i as nat, rules[i])),
    decreases rules.len(),
{
    broadcast use {lemma_contains_left, lemma_contains_right};

    lemma_contains_self(response_card_spec(i as nat, rules[i]));
    if i < rules.len() - 1 {
        assert(rules.drop_last()[i] == rules[i]);
        lemma_response_card_in(rules.drop_last(), i);
    }
}

/// The response section lists one editor per modifier, the one of modifier
/// `i` under index `i`; with no modifiers it says there are none.
pub proof fn law_response_section(rules: Seq<ResponseModifier>, i: int)
    ensures
        rules.len() == 0 ==> response_section_spec(rules) == NO_RESPONSE_RULES@,
        0 <= i < rules.len() ==> contains_seq(
            response_section_spec(rules),
            response_card_spec(i as nat, rules[i]),
        ),
{
    if 0 <= i < rules.len() {
        lemma_response_card_in(rules, i);
    }
}

proof fn lemma_request_card_in(rules: Seq<RequestModifier>, i: int)
    requires
        0 <= i < rules.len(),
    ensures
        contains_seq(request_cards(rules), request_card_spec(i as nat, rules[i])),
    decreases rules.len(),
{
    broadcast use {lemma_contains_left, lemma_contains_right};

    lemma_contains_self(request_card_spec(i as nat, rules[i]));
    if i < rules.len() - 1 {
        assert(rules.drop_last()[i] == rules[i]);
        lemma_request_card_in(rules.drop_last(), i);
    }
}

/// The request section lists one editor per modifier, the one of modifier
/// `i` under index `i`; with no modifiers it says there are none.
pub proof fn law_request_section(rules: Seq<RequestModifier>, i: int)
    ensures
        rules.len() == 0 ==> request_section_spec(rules) == NO_REQUEST_RULES@,
        0 <= i < rules.len() ==> contains_seq(
            request_section_spec(rules),
            request_card_spec(i as nat, rules[i]),
        ),
{
    if 0 <= i < rules.len() {
        lemma_request_card_in(rules, i);
    }
}

proof fn lemma_remove_row_in(ty: Seq<char>, idx: nat, hs: Seq<String>, hi: int)
    requires
        0 <= hi < hs.len(),
    ensures
        contains_seq(remove_rows(ty, idx, hs), remove_row_spec(ty, idx, hi as nat, hs[hi]@)),
    decreases hs.len(),
{
    broadcast use {lemma_contains_left, lemma_contains_right};

    lemma_contains_self(remove_row_spec(ty, idx, hi as nat, hs[hi]@));
    if hi < hs.len() - 1 {
        assert(hs.drop_last()[hi] == hs[hi]);
        lemma_remove_row_in(ty, idx, hs.drop_last(), hi);
    }
}

proof fn lemma_pair_row_in(ty: Seq<char>, idx: nat, hs: Seq<(String, String)>, j: int)
    requires
        0 <= j < hs.len(),
    ensures
        contains_seq(pair_rows(ty, idx, hs), pair_row_spec(ty, idx, hs[j].0@, hs[j].1@)),
    decreases hs.len(),
{
    broadcast use {lemma_contains_left, lemma_contains_right};

    lemma_contains_self(pair_row_spec(ty, idx, hs[j].0@, hs[j].1@));
    if j < hs.len() - 1 {
        assert(hs.drop_last()[j] == hs[j]);
        lemma_pair_row_in(ty, idx, hs.drop_last(), j);
    }
}

/// The editor of a response modifier offers its CSP handling and injection
/// point, a row for each header it removes (with that header's index) and a
/// row for each header it adds.
pub proof fn law_response_card_parts(idx: nat, r: ResponseModifier, hi: int, j: int)
    ensures
        contains_seq(response_card_spec(idx, r), csp_options_spec(opt_view(r.csp))),
        contains_seq(response_card_spec(idx, r), inject_options_spec(opt_view(r.inject_at))),
        r.remove_headers matches Some(rh) ==> 0 <= hi < rh@.len() ==> contains_seq(
            response_card_spec(idx, r),
            remove_row_spec("response"@, idx, hi as nat, rh@[hi]@),
        ),
        r.add_headers matches Some(ah) ==> 0 <= j < ah@.len() ==> contains_seq(
            response_card_spec(idx, r),
            pair_row_spec("Response"@, idx, ah@[j].0@, ah@[j].1@),
        ),
{
    broadcast use {lemma_contains_left, lemma_contains_right};

    reveal(response_card_spec);
    let card = response_card_spec(idx, r);
    lemma_contains_self(csp_options_spec(opt_view(r.csp)));
    lemma_contains_self(inject_options_spec(opt_view(r.inject_at)));
    let removes = remove_rows_opt("response"@, idx, r.remove_headers);
    let adds = pair_rows_opt("Response"@, idx, r.add_headers);
    lemma_contains_self(removes);
    lemma_contains_self(adds);
    assert(contains_seq(card, removes));
    assert(contains_seq(card, adds));
    if let Some(rh) = r.remove_headers {
        if 0 <= hi < rh@.len() {
            lemma_remove_row_in("response"@, idx, rh@, hi);
            lemma_contains_trans(card, removes, remove_row_spec("response"@, idx, hi as nat, rh@[hi]@));
        }
    }
    if let Some(ah) = r.add_headers {
        if 0 <= j < ah@.len() {
            lemma_pair_row_in("Response"@, idx, ah@, j);
            lemma_contains_trans(card, adds, pair_row_spec("Response"@, idx, ah@[j].0@, ah@[j].1@));
        }
    }
}

/// The editor of a request modifier has a row for each header it removes
/// (with that header's index) and a row for each header it adds.
pub proof fn law_request_card_parts(idx: nat, r: RequestModifier, hi: int, j: int)
    ensures
        r.remove_headers matches Some(rh) ==> 0 <= hi < rh@.len() ==> contains_seq(
            request_card_spec(idx, r),
            remove_row_spec("request"@, idx, hi as nat, rh@[hi]@),
        ),
        r.add_headers matches Some(ah) ==> 0 <= j < ah@.len() ==> contains_seq(
            request_card_spec(idx, r),
            pair_row_spec("Request"@, idx, ah@[j].0@, ah@[j].1@),
        ),
{
    broadcast use {lemma_contains_left, lemma_contains_right};

    reveal(request_card_spec);
    let card = request_card_spec(idx, r);
    let removes = remove_rows_opt("request"@, idx, r.remove_headers);
    let adds = pair_rows_opt("Request"@, idx, r.add_headers);
    lemma_contains_self(removes);
    lemma_contains_self(adds);
    assert(contains_seq(card, removes));
    assert(contains_seq(card, adds));
    if let Some(rh) = r.remove_headers {
        if 0 <= hi < rh@.len() {
            lemma_remove_row_in("request"@, idx, rh@, hi);
            lemma_contains_trans(card, removes, remove_row_spec("request"@, idx, hi as nat, rh@[hi]@));
        }
    }
    if let Some(ah) = r.add_headers {
        if 0 <= j < ah@.len() {
            lemma_pair_row_in("Request"@, idx, ah@, j);
            lemma_contains_trans(card, adds, pair_row_spec("Request"@, idx, ah@[j].0@, ah@[j].1@));
        }
    }
}

/// The configuration page shows the port, marks the pause switch checked
/// exactly when the proxy is paused, and holds the three rule sections.
pub proof fn law_config_page_parts(config: Config)
    ensures
        contains_seq(config_page_spec(config), decimal(config.server.port as nat)),
        paused_attr(config.server.pause) == (if config.server.pause == Some(true) {
            " checked"@
        } else {
            ""@
        }),
        contains_seq(config_page_spec(config), paused_attr(config.server.pause)),
        contains_seq(config_page_spec(config), scripts_section_spec(opt_rules(config.scripts))),
        contains_seq(config_page_spec(config), response_section_spec(opt_rules(config.modify_response))),
        contains_seq(config_page_spec(config), request_section_spec(opt_rules(config.modify_request))),
{
    broadcast use {lemma_contains_left, lemma_contains_right};

    lemma_contains_self(decimal(config.server.port as nat));
    lemma_contains_self(paused_attr(config.server.pause));
    lemma_contains_self(scripts_section_spec(opt_rules(config.scripts)));
    lemma_contains_self(response_section_spec(opt_rules(config.modify_response)));
    lemma_contains_self(request_section_spec(opt_rules(config.modify_request)));
}

/* --- Laws of the traffic tables ---------------------------------------------- */

proof fn lemma_row_in(gs: Seq<LogGroup>, expanded: bool, i: int)
    requires
        0 <= i < gs.len(),
    ensures
        contains_seq(rows_concat(gs, expanded), combined_row_spec(gs[i], expanded)),
    decreases gs.len(),
{
    broadcast use {lemma_contains_left, lemma_contains_right};

    lemma_contains_self(combined_row_spec(gs[i], expanded));
    if i < gs.len() - 1 {
        assert(gs.drop_last()[i] == gs[i]);
        lemma_row_in(gs.drop_last(), expanded, i);
    }
}

/// The dashboard's activity table: a note when there are no entries, else a
/// table of the 20 newest groups (all of them when there are fewer), each
/// with its row.
pub proof fn law_activity_table(entries: Seq<LogEntry>, gs: Seq<LogGroup>, i: int)
    ensures
        entries.len() == 0 ==> activity_table_spec(entries, gs) == NO_ENTRIES@,
        first_20(gs).len() == (if gs.len() < 20 {
            gs.len()
        } else {
            20
        }),
        entries.len() > 0 && 0 <= i < first_20(gs).len() ==> first_20(gs)[i] == gs[i]
            && contains_seq(activity_table_spec(entries, gs), combined_row_spec(gs[i], false)),
{
    broadcast use {lemma_contains_left, lemma_contains_right};

    if entries.len() > 0 && 0 <= i < first_20(gs).len() {
        lemma_row_in(first_20(gs), false, i);
        assert(first_20(gs)[i] == gs[i]);
    }
}

/// The log table: a note when nothing matches, else a table with the
/// expanded row of every group, none left out.
pub proof fn law_log_table(filtered: Seq<LogEntry>, gs: Seq<LogGroup>, i: int)
    ensures
        filtered.len() == 0 ==> log_rows_spec(filtered, gs) == NO_MATCH@,
        filtered.len() > 0 && 0 <= i < gs.len() ==> contains_seq(
            log_rows_spec(filtered, gs),
            combined_row_spec(gs[i], true),
        ),
{
    broadcast use {lemma_contains_left, lemma_contains_right};

    if filtered.len() > 0 && 0 <= i < gs.len() {
        lemma_row_in(gs, true, i);
    }
}

/// The first `n` entries, each with its JSON text.
pub open spec fn entry_texts(entries: Seq<LogEntry>, ser: Seq<Seq<char>>, n: nat) -> Seq<(LogEntry, Seq<char>)> {
    Seq::new(n, |i: int| (entries[i], ser[i]))
}

/// Whether an entry with its JSON text matches `q`.
pub open spec fn text_matches(q: Seq<char>) -> spec_fn((LogEntry, Seq<char>)) -> bool {
    |p: (LogEntry, Seq<char>)| keep_entry(p.1, q)
}

/// The entry of an entry with its JSON text.
pub open spec fn entry_of() -> spec_fn((LogEntry, Seq<char>)) -> LogEntry {
    |p: (LogEntry, Seq<char>)| p.0
}

/// The entries among the first `n` whose JSON text matches `q`, in order.
pub open spec fn matching(entries: Seq<LogEntry>, ser: Seq<Seq<char>>, q: Seq<char>, n: nat) -> Seq<LogEntry> {
    entry_texts(entries, ser, n).filter(text_matches(q)).map_values(entry_of())
}

proof fn lemma_filter_prefix_matching(entries: Seq<LogEntry>, ser: Seq<Seq<char>>, q: Seq<char>, n: nat)
    ensures
        filter_prefix(entries, ser, q, n) == matching(entries, ser, q, n),
    decreases n,
{
    reveal(Seq::filter);
    if n == 0 {
        assert(matching(entries, ser, q, n) =~= Seq::<LogEntry>::empty());
    } else {
        let m = (n - 1) as nat;
        lemma_filter_prefix_matching(entries, ser, q, m);
        let t = entry_texts(entries, ser, n);
        assert(t.drop_last() =~= entry_texts(entries, ser, m));
        assert(t.last() == (entries[m as int], ser[m as int]));
        let sub = entry_texts(entries, ser, m).filter(text_matches(q));
        if keep_entry(ser[m as int], q) {
            assert(t.filter(text_matches(q)) == sub.push(t.last()));
            assert(sub.push(t.last()).map_values(entry_of()) =~= sub.map_values(entry_of()).push(
                entries[m as int],
            ));
        } else {
            assert(t.filter(text_matches(q)) == sub);
        }
    }
}

/// A search keeps exactly the entries whose JSON text, lower-cased, contains
/// the lower-cased search text, in their order; an empty search or none keeps
/// every entry.
pub proof fn law_search_keeps_matching(entries: Seq<LogEntry>, ser: Seq<Seq<char>>, search: Option<Seq<char>>)
    ensures
        search matches Some(q) ==> q.len() > 0 ==> searched(entries, ser, search) == matching(
            entries,
            ser,
            q,
            entries.len(),
        ),
        search matches Some(q) ==> q.len() == 0 ==> searched(entries, ser, search) == entries,
        search is None ==> searched(entries, ser, search) == entries,
{
    if let Some(q) = search {
        lemma_filter_prefix_matching(entries, ser, q, entries.len());
    }
}

/* --- Laws of the status badges ------------------------------------------------ */

/// A group's badge follows the status of its response: below 300 `2xx`,
/// 300 to 399 `3xx`, 400 to 499 `4xx`, 500 and above `5xx`. Without a
/// response it reads `error` when the request failed, else `request`.
pub proof fn law_badge_by_status(g: LogGroup)
    ensures
        g.response matches Some(LogEntry::Response { status, .. }) ==> {
            &&& status < 300 ==> badge_class(g) == "2xx"@
            &&& 300 <= status < 400 ==> badge_class(g) == "3xx"@
            &&& 400 <= status < 500 ==> badge_class(g) == "4xx"@
            &&& 500 <= status ==> badge_class(g) == "5xx"@
        },
        g.response is None && g.error is Some ==> badge_class(g) == "error"@,
        g.response is None && g.error is None ==> badge_class(g) == "request"@,
{
}

/// Two groups whose responses (with statuses from 200 to 599) fall in
/// different hundreds get different badges.
pub proof fn law_badges_tell_classes_apart(g: LogGroup, h: LogGroup, s: u16, t: u16)
    requires
        g.response matches Some(LogEntry::Response { status, .. }) && status == s,
        h.response matches Some(LogEntry::Response { status, .. }) && status == t,
        200 <= s < 600,
        200 <= t < 600,
        s / 100 != t / 100,
    ensures
        badge_class(g) != badge_class(h),
{
    reveal_strlit("2xx");
    reveal_strlit("3xx");
    reveal_strlit("4xx");
    reveal_strlit("5xx");
    assert("2xx"@[0] != "3xx"@[0] && "2xx"@[0] != "4xx"@[0] && "2xx"@[0] != "5xx"@[0]);
    assert("3xx"@[0] != "4xx"@[0] && "3xx"@[0] != "5xx"@[0] && "4xx"@[0] != "5xx"@[0]);
}

/// A group's row shows its badge as the class of its badge element.
#[verifier::spinoff_prover]
#[verifier::rlimit(50)]
pub proof fn law_row_shows_badge(g: LogGroup, expanded: bool)
    ensures
        contains_seq(combined_row_spec(g, expanded), ROW_1@ + badge_class(g)),
{
    broadcast use {lemma_contains_left, lemma_contains_right};

    reveal(combined_row_spec);
    let a = ROW_0@ + format_ts_spec(g.ts);
    let part = ROW_1@ + badge_class(g);
    lemma_contains_self(part);
    assert(a + ROW_1@ + badge_class(g) =~= a + part);
    assert(contains_seq(a + part, part));
}

} // verus!
