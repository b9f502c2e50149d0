//! The single-binary variant of the proxy: a configuration without a pause
//! switch whose rules match their domain exactly, one pending address per
//! client, and byte-based body previews.

use vstd::prelude::*;
use vstd::utf8::{decode_utf8, encode_utf8, encode_utf8_decode_utf8, is_char_boundary};
use http::HeaderMap;
use crate::config::{
    clone_strings, first_index_with, first_with_domain, pairs_view, RequestModifier,
    ResponseModifier, ScriptRule,
};
use crate::edit::{map_get, map_insert, map_remove, pairs_insert, pairs_remove, Pairs};
use crate::headers::{
    has_room, header_entries, header_remove, header_room, without_header, Entries,
};
use crate::log::LogEntry;
use crate::logging::{escape_line_breaks, header_text_or, log_request, now_millis, request_entry};
use crate::modify::{
    request_room, response_room, apply_request_modifiers, pairs_or_none, room_needed, valid_adds, apply_response_modifiers, request_effect, response_effect};
use crate::text::{replace_all, str_eq};

verus! {

/* --- Configuration ---------------------------------------------------------------- */

pub struct ServerConfig {
    pub port: u16,
}

/// The configuration: the proxy's port and rules keyed by exact domains.
pub struct Config {
    pub server: ServerConfig,
    pub scripts: Option<Vec<ScriptRule>>,
    pub modify_response: Option<Vec<ResponseModifier>>,
    pub modify_request: Option<Vec<RequestModifier>>,
}

/// The configuration used when none can be read: port 8080, no rules.
pub fn fallback_config() -> (r: Config)
    ensures
        r.server.port == 8080,
        r.scripts is None,
        r.modify_response is None,
        r.modify_request is None,
{
    Config { server: ServerConfig { port: 8080 }, scripts: None, modify_response: None, modify_request: None }
}

/// The concatenated script lists of the rules for exactly `d`, in rule order.
pub open spec fn scripts_exact(rules: Seq<ScriptRule>, d: Seq<char>) -> Seq<String>
    decreases rules.len(),
{
    if rules.len() == 0 {
        Seq::empty()
    } else {
        let rest = scripts_exact(rules.drop_last(), d);
        if rules.last().domain@ == d {
            rest + rules.last().scripts@
        } else {
            rest
        }
    }
}

impl Config {
    pub open spec fn spec_scripts_for_domain(&self, d: Seq<char>) -> Seq<String> {
        match self.scripts {
            Some(rules) => scripts_exact(rules@, d),
            None => Seq::empty(),
        }
    }

    /// All scripts of every rule for exactly `domain`, in rule order.
    pub fn get_scripts_for_domain(&self, domain: &str) -> (r: Vec<String>)
        ensures
            r@ == self.spec_scripts_for_domain(domain@),
    {
        let mut result: Vec<String> = Vec::new();
        if let Some(scripts) = &self.scripts {
            let mut i: usize = 0;
            while i < scripts.len()
                invariant
                    i <= scripts.len(),
                    result@ == scripts_exact(scripts@.take(i as int), domain@),
                decreases scripts.len() - i,
            {
                assert(scripts@.take(i + 1).drop_last() =~= scripts@.take(i as int));
                if str_eq(scripts[i].domain.as_str(), domain) {
                    let mut more = clone_strings(&scripts[i].scripts);
                    result.append(&mut more);
                }
                i += 1;
            }
            assert(scripts@.take(scripts.len() as int) =~= scripts@);
        }
        result
    }

    /// The index of the response modifier for exactly `d`.
    pub open spec fn response_modifier_index(&self, d: Seq<char>) -> Option<int> {
        match self.modify_response {
            Some(v) => first_index_with(v@, d),
            None => None,
        }
    }

    /// The index of the request modifier for exactly `d`.
    pub open spec fn request_modifier_index(&self, d: Seq<char>) -> Option<int> {
        match self.modify_request {
            Some(v) => first_index_with(v@, d),
            None => None,
        }
    }

    /// The first response modifier for exactly `domain`.
    pub fn get_response_modifiers(&self, domain: &str) -> (r: Option<&ResponseModifier>)
        ensures
            match r {
                Some(m) => {
                    &&& self.modify_response is Some
                    &&& self.response_modifier_index(domain@) is Some
                    &&& *m == self.modify_response->0@[self.response_modifier_index(domain@)->0]
                },
                None => self.response_modifier_index(domain@) is None,
            },
    {
        match &self.modify_response {
            None => None,
            Some(modifiers) => match first_with_domain(modifiers, domain) {
                Some(i) => Some(&modifiers[i]),
                None => None,
            },
        }
    }

    /// The first request modifier for exactly `domain`.
    pub fn get_request_modifiers(&self, domain: &str) -> (r: Option<&RequestModifier>)
        ensures
            match r {
                Some(m) => {
                    &&& self.modify_request is Some
                    &&& self.request_modifier_index(domain@) is Some
                    &&& *m == self.modify_request->0@[self.request_modifier_index(domain@)->0]
                },
                None => self.request_modifier_index(domain@) is None,
            },
    {
        match &self.modify_request {
            None => None,
            Some(modifiers) => match first_with_domain(modifiers, domain) {
                Some(i) => Some(&modifiers[i]),
                None => None,
            },
        }
    }
}

/* --- Domains ------------------------------------------------------------------------ */

/// The domain of a URL here: its host part, port included.
pub fn extract_domain(full_url: &str) -> (r: String)
    ensures
        r@ == crate::proxy::url_host(full_url@),
{
    crate::proxy::url_host_text(full_url)
}

/// Where the traffic log lives.
pub fn get_trace_path() -> (r: &'static str)
    ensures
        r@ == "logs/dope-traces.jsonl"@,
{
    "logs/dope-traces.jsonl"
}

/* --- Pending addresses ----------------------------------------------------------------- */

/// The address of the last request of each client, until its response comes.
pub struct PendingUrls {
    entries: Vec<(String, String)>,
}

impl View for PendingUrls {
    type V = Pairs;

    closed spec fn view(&self) -> Pairs {
        pairs_view(self.entries@)
    }
}

impl PendingUrls {
    pub fn new() -> (r: Self)
        ensures
            r@ == Seq::<(Seq<char>, Seq<char>)>::empty(),
    {
        let r = PendingUrls { entries: Vec::new() };
        assert(r@ =~= Seq::<(Seq<char>, Seq<char>)>::empty());
        r
    }

    /// Records `url` as the pending address of `client`, in place of any
    /// earlier one.
    pub fn record(&mut self, client: &str, url: &str)
        ensures
            final(self)@ == map_insert(old(self)@, client@, url@),
    {
        pairs_insert(&mut self.entries, client.to_owned(), url.to_owned());
    }

    /// Takes the pending address of `client`: empty when there is none.
    pub fn take(&mut self, client: &str) -> (r: String)
        ensures
            final(self)@ == map_remove(old(self)@, client@),
            r@ == match map_get(old(self)@, client@) {
                Some(u) => u,
                None => Seq::empty(),
            },
    {
        match pairs_remove(&mut self.entries, client) {
            Some(u) => u,
            None => String::new(),
        }
    }
}

/* --- Rewriting a page ------------------------------------------------------------------ */

/// The room in the headers `e` that the response modifier for `domain`
/// needs.
pub open spec fn response_adds(config: Config, domain: Seq<char>, e: Entries) -> nat {
    if domain.len() > 0 {
        match config.response_modifier_index(domain) {
            Some(i) => {
                let m = config.modify_response->0@[i]@;
                room_needed(e, m.csp, m.add_headers)
            },
            None => 0,
        }
    } else {
        0
    }
}

/// The headers of an HTML response for `domain`: those of the domain's
/// response modifier, when the domain is known and has one.
pub open spec fn response_headers_after(config: Config, domain: Seq<char>, e: Entries) -> Entries {
    if domain.len() > 0 {
        match config.response_modifier_index(domain) {
            Some(i) => response_effect(e, config.modify_response->0@[i]@),
            None => e,
        }
    } else {
        e
    }
}

/// Applies the response modifier for `domain`, when the domain is known.
pub fn modify_html_response(headers: &mut HeaderMap, domain: &str, config: &Config)
    requires
        header_room(*old(headers), response_adds(*config, domain@, header_entries(*old(headers)))),
    ensures
        header_entries(*final(headers)) == response_headers_after(
            *config,
            domain@,
            header_entries(*old(headers)),
        ),
{
    if domain.is_empty() {
        return;
    }
    if let Some(m) = config.get_response_modifiers(domain) {
        apply_response_modifiers(headers, m);
    }
}

/// The room in `headers` that the response modifier for `domain` needs (see
/// `response_adds`).
pub fn response_room_for(headers: &HeaderMap, domain: &str, config: &Config) -> (r: usize)
    ensures
        r == response_adds(*config, domain@, header_entries(*headers)),
{
    if domain.is_empty() {
        return 0;
    }
    match config.get_response_modifiers(domain) {
        Some(m) => response_room(headers, m),
        None => 0,
    }
}

/// `modify_html_response`, where the headers have the room that the
/// modifier needs; otherwise they are left alone and `false` comes back.
pub fn try_modify_html_response(headers: &mut HeaderMap, domain: &str, config: &Config) -> (r: bool)
    ensures
        r == header_room(*old(headers), response_adds(*config, domain@, header_entries(*old(headers)))),
        !r ==> header_entries(*final(headers)) == header_entries(*old(headers)),
        r ==> header_entries(*final(headers)) == response_headers_after(
            *config,
            domain@,
            header_entries(*old(headers)),
        ),
{
    let needed = response_room_for(headers, domain, config);
    if !has_room(headers, needed) {
        return false;
    }
    modify_html_response(headers, domain, config);
    true
}

/* --- Handling a request --------------------------------------------------------------- */

/// How many headers the request modifier for `host` may add.
pub open spec fn request_adds(config: Config, host: Seq<char>) -> nat {
    match config.request_modifier_index(host) {
        Some(i) => valid_adds(pairs_or_none(config.modify_request->0@[i]@.add_headers)),
        None => 0,
    }
}

/// The headers a request goes on with: those of the request modifier for
/// exactly `host`, when there is one.
pub open spec fn request_headers_after(config: Config, host: Seq<char>, e: Entries) -> Entries {
    match config.request_modifier_index(host) {
        Some(i) => request_effect(e, config.modify_request->0@[i]@),
        None => e,
    }
}

/// What the proxy keeps of a request: its host and its log entry.
pub struct AdmittedRequest {
    pub host: String,
    pub entry: LogEntry,
}

/// The part of a request handler that decides: the request is logged, its
/// full address recorded as the client's pending one, and the request
/// modifier for its host applied.
pub fn admit_request(
    pending: &mut PendingUrls,
    client: &str,
    req_id: &str,
    method: &str,
    uri: &str,
    uri_host: Option<&str>,
    has_scheme: bool,
    headers: &mut HeaderMap,
    config: &Config,
) -> (r: AdmittedRequest)
    requires
        header_room(
            *old(headers),
            request_adds(
                *config,
                crate::proxy::request_host(crate::proxy::opt_str_view(uri_host), header_entries(*old(headers))),
            ),
        ),
    ensures
        r.host@ == crate::proxy::request_host(crate::proxy::opt_str_view(uri_host), header_entries(*old(headers))),
        request_entry(r.entry, req_id@, method@, uri@, r.host@, header_entries(*old(headers))),
        final(pending)@ == map_insert(old(pending)@, client@, crate::proxy::full_uri_spec(uri@, has_scheme, r.host@)),
        header_entries(*final(headers)) == request_headers_after(*config, r.host@, header_entries(*old(headers))),
{
    let host = crate::proxy::host_of(uri_host, headers);
    let full_uri = if has_scheme {
        uri.to_owned()
    } else {
        let mut f = "https://".to_owned();
        f.append(host.as_str());
        f.append(uri);
        f
    };
    let entry = log_request(req_id, method, uri, headers, host.as_str());
    pending.record(client, full_uri.as_str());
    if let Some(m) = config.get_request_modifiers(host.as_str()) {
        apply_request_modifiers(headers, m);
    }
    AdmittedRequest { host, entry }
}

/// The room in `headers` that the request modifier for the request's host
/// needs (see `request_adds`).
pub fn request_room_for(headers: &HeaderMap, uri_host: Option<&str>, config: &Config) -> (r: usize)
    ensures
        r == request_adds(
            *config,
            crate::proxy::request_host(crate::proxy::opt_str_view(uri_host), header_entries(*headers)),
        ),
{
    let host = crate::proxy::host_of(uri_host, headers);
    match config.get_request_modifiers(host.as_str()) {
        Some(m) => request_room(m),
        None => 0,
    }
}

/// `admit_request`, where the headers have the room that the request
/// modifier needs; otherwise nothing is done and `None` comes back.
pub fn try_admit_request(
    pending: &mut PendingUrls,
    client: &str,
    req_id: &str,
    method: &str,
    uri: &str,
    uri_host: Option<&str>,
    has_scheme: bool,
    headers: &mut HeaderMap,
    config: &Config,
) -> (r: Option<AdmittedRequest>)
    ensures
        r is Some <==> header_room(
            *old(headers),
            request_adds(
                *config,
                crate::proxy::request_host(crate::proxy::opt_str_view(uri_host), header_entries(*old(headers))),
            ),
        ),
        r is None ==> final(pending)@ == old(pending)@ && header_entries(*final(headers)) == header_entries(*old(headers)),
        r matches Some(a) ==> {
            &&& a.host@ == crate::proxy::request_host(crate::proxy::opt_str_view(uri_host), header_entries(*old(headers)))
            &&& request_entry(a.entry, req_id@, method@, uri@, a.host@, header_entries(*old(headers)))
            &&& final(pending)@ == map_insert(old(pending)@, client@, crate::proxy::full_uri_spec(uri@, has_scheme, a.host@))
            &&& header_entries(*final(headers)) == request_headers_after(*config, a.host@, header_entries(*old(headers)))
        },
{
    let needed = request_room_for(headers, uri_host, config);
    if !has_room(headers, needed) {
        return None;
    }
    Some(admit_request(pending, client, req_id, method, uri, uri_host, has_scheme, headers, config))
}

/// A page sent on decoded: without `content-encoding` or `content-length`.
pub fn finalize_headers(headers: &mut HeaderMap)
    ensures
        header_entries(*final(headers)) == without_header(
            without_header(header_entries(*old(headers)), "content-encoding"@),
            "content-length"@,
        ),
{
    header_remove(headers, "content-encoding");
    header_remove(headers, "content-length");
}

/* --- Logging responses ------------------------------------------------------------------- */

/// A body longer than 100 bytes is cut at byte 40 and 40 bytes before its
/// end; both must fall between characters.
pub open spec fn byte_cuts_ok(body: Seq<char>) -> bool {
    let b = encode_utf8(body);
    b.len() > 100 ==> is_char_boundary(b, 40) && is_char_boundary(b, b.len() - 40)
}

/// Whether a body's preview cuts fall between characters (see
/// `byte_cuts_ok`).
pub fn cuts_fall_between_chars(body: &str) -> (r: bool)
    ensures
        r == byte_cuts_ok(body@),
{
    let n = body.as_bytes().len();
    n <= 100 || (body.is_char_boundary(40) && body.is_char_boundary(n - 40))
}

/// The preview of a body here: up to 100 bytes as it is, a longer one as its
/// first 40 bytes, ` ... ` and its last 40 bytes; line breaks escaped.
pub open spec fn byte_preview_spec(body: Seq<char>) -> Seq<char> {
    let b = encode_utf8(body);
    let shown = if b.len() > 100 {
        decode_utf8(b.take(40)) + " ... "@ + decode_utf8(b.skip(b.len() - 40))
    } else {
        body
    };
    escape_line_breaks(shown)
}

pub fn byte_preview(body: &str) -> (r: String)
    requires
        byte_cuts_ok(body@),
    ensures
        r@ == byte_preview_spec(body@),
{
    let n = body.as_bytes().len();
    let shown = if n > 100 {
        let (head, _) = body.split_at(40);
        let (_, tail) = body.split_at(n - 40);
        proof {
            encode_utf8_decode_utf8(head@);
            encode_utf8_decode_utf8(tail@);
            assert(encode_utf8(body@).take(40) =~= encode_utf8(body@).subrange(0, 40));
            assert(encode_utf8(body@).skip(n - 40) =~= encode_utf8(body@).subrange(
                n - 40,
                n as int,
            ));
            reveal_strlit(" ... ");
        }
        let mut s = head.to_owned();
        s.append(" ... ");
        s.append(tail);
        s
    } else {
        body.to_owned()
    };
    proof {
        reveal_strlit("\n");
        reveal_strlit("\r");
    }
    let a = replace_all(shown.as_str(), "\n", "\\n");
    replace_all(a.as_str(), "\r", "\\r")
}

/// The log entry of a response, with the byte-based preview. The time stamp
/// is the clock's.
pub fn log_response(req_id: &str, status: u16, headers: &HeaderMap, body: &str) -> (r: LogEntry)
    requires
        byte_cuts_ok(body@),
    ensures
        r matches LogEntry::Response { req_id: i, status: s, content_type: c, body_preview: b, .. }
            && i@ == req_id@ && s == status
            && c@ == header_text_or(header_entries(*headers), "content-type"@, "-"@)
            && b@ == byte_preview_spec(body@),
{
    let content_type = match crate::headers::header_text(headers, "content-type") {
        Some(t) => t,
        None => "-".to_owned(),
    };
    LogEntry::Response {
        req_id: req_id.to_owned(),
        ts: now_millis(),
        status,
        content_type,
        body_preview: byte_preview(body),
    }
}

/// The log entry of a response, where its preview cuts fall between
/// characters; otherwise `None` (the preview cannot be cut there).
pub fn try_log_response(req_id: &str, status: u16, headers: &HeaderMap, body: &str) -> (r: Option<LogEntry>)
    ensures
        r is Some <==> byte_cuts_ok(body@),
        r matches Some(e) ==> (e matches LogEntry::Response { req_id: i, status: s, content_type: c, body_preview: b, .. }
            && i@ == req_id@ && s == status
            && c@ == header_text_or(header_entries(*headers), "content-type"@, "-"@)
            && b@ == byte_preview_spec(body@)),
{
    if !cuts_fall_between_chars(body) {
        return None;
    }
    Some(log_response(req_id, status, headers, body))
}

} // verus!
