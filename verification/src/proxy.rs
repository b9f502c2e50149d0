use vstd::prelude::*;
use vstd::utf8::encode_utf8;
use http::HeaderMap;
use std::collections::VecDeque;
use crate::config::Config;
use crate::headers::{
    has_room, header_entries, header_keys_len, values_present, header_remove, header_room, header_set_first, header_text,
    header_text_spec, lemma_byte_text_visible, lemma_trim_visible, lemma_until_visible,
    lemma_visible_concat, lemma_visible_value_ok, parse_header_value, visible_chars,
    with_first_value, without_header, Entries,
};
use crate::inject::{inject_all, inject_scripts, opt_view, position_for};
use crate::log::LogEntry;
use crate::logging::{header_text_or, log_request, request_entry};
use crate::modify::{
    request_room, response_room, apply_request_modifiers, pairs_or_none, room_needed, valid_adds, apply_response_modifiers, request_effect, response_effect};
use crate::text::{
    chars_from, eq_ignore_ascii_case, eq_ignore_ascii_case_seq, contains, contains_seq,
    starts_with, starts_with_seq, str_eq, to_chars, trim, trim_seq, until_char, until_char_string,
};

verus! {

/* --- URLs ------------------------------------------------------------------ */

/// `url` without a leading `https://` or `http://`, when it has one.
pub open spec fn strip_scheme(url: Seq<char>) -> Option<Seq<char>> {
    if starts_with_seq(url, "https://"@) {
        Some(url.skip(8))
    } else if starts_with_seq(url, "http://"@) {
        Some(url.skip(7))
    } else {
        None
    }
}

/// The host part of a URL: what follows the scheme up to the first `/`, or
/// the whole text when it has no `http(s)://` scheme.
pub open spec fn url_host(url: Seq<char>) -> Seq<char> {
    match strip_scheme(url) {
        Some(rest) => until_char(rest, '/'),
        None => url,
    }
}

/// The domain of a URL: its host part without a port.
pub open spec fn url_domain(url: Seq<char>) -> Seq<char> {
    until_char(url_host(url), ':')
}

/// The host part of `full_url` (see `url_host`).
pub fn url_host_text(full_url: &str) -> (r: String)
    ensures
        r@ == url_host(full_url@),
{
    proof {
        reveal_strlit("https://");
        reveal_strlit("http://");
    }
    let v = to_chars(full_url);
    if starts_with(full_url, "https://") {
        let rest = chars_from(&v, 8);
        until_char_string(rest.as_str(), '/')
    } else if starts_with(full_url, "http://") {
        let rest = chars_from(&v, 7);
        until_char_string(rest.as_str(), '/')
    } else {
        full_url.to_owned()
    }
}

/// The domain that the configuration rules are matched against for a
/// request to `full_url`.
pub fn extract_domain(full_url: &str) -> (r: String)
    ensures
        r@ == url_domain(full_url@),
{
    let host = url_host_text(full_url);
    until_char_string(host.as_str(), ':')
}

/* --- What the headers say --------------------------------------------------- */

/// The response is an HTML page: its `content-type` text mentions
/// `text/html`.
pub open spec fn html_content(e: Entries) -> bool {
    match header_text_spec(e, "content-type"@) {
        Some(t) => contains_seq(t, "text/html"@),
        None => false,
    }
}

/// Whether a response is an HTML page (see `html_content`).
pub fn is_html(headers: &HeaderMap) -> (r: bool)
    ensures
        r == html_content(header_entries(*headers)),
{
    match header_text(headers, "content-type") {
        Some(t) => contains(t.as_str(), "text/html"),
        None => false,
    }
}

/// The request asks for a WebSocket upgrade: its `upgrade` header is
/// `websocket` in any case.
pub open spec fn websocket_upgrade(e: Entries) -> bool {
    match header_text_spec(e, "upgrade"@) {
        Some(t) => eq_ignore_ascii_case_seq(t, "websocket"@),
        None => false,
    }
}

/// Whether a request asks for a WebSocket upgrade.
pub fn is_websocket_upgrade(headers: &HeaderMap) -> (r: bool)
    ensures
        r == websocket_upgrade(header_entries(*headers)),
{
    match header_text(headers, "upgrade") {
        Some(t) => eq_ignore_ascii_case(t.as_str(), "websocket"),
        None => false,
    }
}

/// A WebSocket upgrade goes on without its extension and protocol offers;
/// other requests keep their headers.
pub open spec fn websocket_stripped(e: Entries) -> Entries {
    if websocket_upgrade(e) {
        without_header(
            without_header(e, "sec-websocket-extensions"@),
            "sec-websocket-protocol"@,
        )
    } else {
        e
    }
}

/// Drops the WebSocket extension and protocol offers of an upgrade request.
pub fn strip_websocket_offers(headers: &mut HeaderMap)
    ensures
        header_entries(*final(headers)) == websocket_stripped(header_entries(*old(headers))),
{
    if is_websocket_upgrade(headers) {
        header_remove(headers, "sec-websocket-extensions");
        header_remove(headers, "sec-websocket-protocol");
    }
}

/// How a response body is to be decoded, by its `content-encoding`.
#[derive(Clone, Copy, Debug, PartialEq, Eq, Structural)]
pub enum Decoding {
    Gzip,
    Brotli,
    Deflate,
    Zstd,
    /// No encoding: the bytes are read as they are.
    Identity,
    /// An encoding the proxy does not know: the bytes are read as they are.
    Unsupported,
}

pub open spec fn decoding_for(encoding: Seq<char>) -> Decoding {
    if encoding == "gzip"@ {
        Decoding::Gzip
    } else if encoding == "br"@ {
        Decoding::Brotli
    } else if encoding == "deflate"@ {
        Decoding::Deflate
    } else if encoding == "zstd"@ {
        Decoding::Zstd
    } else if encoding.len() == 0 {
        Decoding::Identity
    } else {
        Decoding::Unsupported
    }
}

/// The decoding called for by the `content-encoding` header (its text, or
/// none when missing or not text).
pub fn pick_decoding(headers: &HeaderMap) -> (r: Decoding)
    ensures
        r == decoding_for(header_text_or(header_entries(*headers), "content-encoding"@, ""@)),
{
    proof {
        reveal_strlit("");
    }
    let encoding = match header_text(headers, "content-encoding") {
        Some(t) => t,
        None => "".to_owned(),
    };
    let e = encoding.as_str();
    if str_eq(e, "gzip") {
        Decoding::Gzip
    } else if str_eq(e, "br") {
        Decoding::Brotli
    } else if str_eq(e, "deflate") {
        Decoding::Deflate
    } else if str_eq(e, "zstd") {
        Decoding::Zstd
    } else if e.is_empty() {
        Decoding::Identity
    } else {
        Decoding::Unsupported
    }
}

/* --- Finishing a rewritten response ----------------------------------------- */

/// A content type restated in UTF-8: its part before any `;`, trimmed, then
/// `; charset=utf-8`.
pub open spec fn charset_value(t: Seq<char>) -> Seq<char> {
    trim_seq(until_char(t, ';')) + "; charset=utf-8"@
}

/// The headers of a rewritten page: no `content-encoding` or
/// `content-length` (the body is sent decoded, at its new length), and a
/// textual content type restated in UTF-8.
pub open spec fn finalized(e: Entries) -> Entries {
    let e1 = without_header(without_header(e, "content-encoding"@), "content-length"@);
    match header_text_spec(e1, "content-type"@) {
        Some(t) => with_first_value(e1, "content-type"@, encode_utf8(charset_value(t))),
        None => e1,
    }
}

/// A restated content type is always an acceptable header value.
pub proof fn lemma_charset_value_ok(t: Seq<char>)
    requires
        visible_chars(t),
    ensures
        crate::headers::value_bytes_ok(encode_utf8(charset_value(t))),
{
    lemma_until_visible(t, ';');
    lemma_trim_visible(until_char(t, ';'));
    let suffix = "; charset=utf-8"@;
    assert(visible_chars(suffix)) by {
        reveal_strlit("; charset=utf-8");
    }
    lemma_visible_concat(trim_seq(until_char(t, ';')), suffix);
    lemma_visible_value_ok(charset_value(t));
}

/// Readies the headers of a rewritten page (see `finalized`).
pub fn finalize_headers(headers: &mut HeaderMap)
    ensures
        header_entries(*final(headers)) == finalized(header_entries(*old(headers))),
        !header_entries(*final(headers)).contains_key("content-encoding"@),
        !header_entries(*final(headers)).contains_key("content-length"@),
        header_text_spec(header_entries(*old(headers)), "content-type"@) matches Some(t)
            ==> header_entries(*final(headers))["content-type"@][0] == encode_utf8(charset_value(t)),
{
    // Every name of a header map holds a value, as its key count shows.
    header_keys_len(headers);
    proof {
        law_finalized_headers(header_entries(*headers));
    }
    header_remove(headers, "content-encoding");
    header_remove(headers, "content-length");
    if let Some(t) = header_text(headers, "content-type") {
        let base = until_char_string(t.as_str(), ';');
        let mut restated = trim(base.as_str());
        restated.append("; charset=utf-8");
        proof {
            let b = crate::headers::first_value(header_entries(*headers), "content-type"@)->0;
            lemma_byte_text_visible(b);
            lemma_charset_value_ok(t@);
        }
        if let Some(value) = parse_header_value(restated.as_str()) {
            header_set_first(headers, "content-type", value);
        }
    }
}

/* --- Pending requests --------------------------------------------------------- */

/// A request waiting for its response: where it went and its log id.
pub struct PendingRequest {
    pub url: String,
    pub req_id: String,
}

impl View for PendingRequest {
    type V = (Seq<char>, Seq<char>);

    open spec fn view(&self) -> (Seq<char>, Seq<char>) {
        (self.url@, self.req_id@)
    }
}

pub type Queue = Seq<(Seq<char>, Seq<char>)>;

pub type Queues = Map<Seq<char>, Queue>;

/// The map that a list of (client, queue) rows with distinct clients stands
/// for.
pub open spec fn rows_map(rows: Seq<(Seq<char>, Queue)>) -> Queues
    decreases rows.len(),
{
    if rows.len() == 0 {
        Map::empty()
    } else {
        rows_map(rows.drop_last()).insert(rows.last().0, rows.last().1)
    }
}

pub open spec fn distinct_rows(rows: Seq<(Seq<char>, Queue)>) -> bool {
    forall|i: int, j: int| 0 <= i < j < rows.len() ==> rows[i].0 != rows[j].0
}

/// The queue of `client`, empty when it has none.
pub open spec fn queue_of(t: Queues, client: Seq<char>) -> Queue {
    if t.contains_key(client) {
        t[client]
    } else {
        Seq::empty()
    }
}

/// The queues after a request of `client` is added behind its others.
pub open spec fn pushed(t: Queues, client: Seq<char>, p: (Seq<char>, Seq<char>)) -> Queues {
    t.insert(client, queue_of(t, client).push(p))
}

/// The oldest pending request of `client`, if any.
pub open spec fn oldest(t: Queues, client: Seq<char>) -> Option<(Seq<char>, Seq<char>)> {
    if queue_of(t, client).len() > 0 {
        Some(queue_of(t, client)[0])
    } else {
        None
    }
}

/// The queues after the oldest request of `client` is taken.
pub open spec fn popped(t: Queues, client: Seq<char>) -> Queues {
    if queue_of(t, client).len() > 0 {
        t.insert(client, queue_of(t, client).drop_first())
    } else {
        t
    }
}

proof fn lemma_rows_map_contains(rows: Seq<(Seq<char>, Queue)>, k: Seq<char>)
    ensures
        rows_map(rows).contains_key(k) <==> exists|i: int| 0 <= i < rows.len() && rows[i].0 == k,
    decreases rows.len(),
{
    if rows.len() > 0 {
        lemma_rows_map_contains(rows.drop_last(), k);
        if rows_map(rows).contains_key(k) && rows.last().0 != k {
            let i = choose|i: int| 0 <= i < rows.drop_last().len() && rows.drop_last()[i].0 == k;
            assert(rows[i].0 == k);
        }
        if exists|i: int| 0 <= i < rows.len() && rows[i].0 == k {
            let i = choose|i: int| 0 <= i < rows.len() && rows[i].0 == k;
            if i < rows.len() - 1 {
                assert(rows.drop_last()[i].0 == k);
            }
        }
    }
}

proof fn lemma_rows_map_at(rows: Seq<(Seq<char>, Queue)>, i: int)
    requires
        distinct_rows(rows),
        0 <= i < rows.len(),
    ensures
        rows_map(rows).contains_key(rows[i].0),
        rows_map(rows)[rows[i].0] == rows[i].1,
    decreases rows.len(),
{
    if i < rows.len() - 1 {
        lemma_rows_map_at(rows.drop_last(), i);
        assert(rows.drop_last()[i] == rows[i]);
    }
}

proof fn lemma_rows_map_update(rows: Seq<(Seq<char>, Queue)>, i: int, q: Queue)
    requires
        distinct_rows(rows),
        0 <= i < rows.len(),
    ensures
        rows_map(rows.update(i, (rows[i].0, q))) == rows_map(rows).insert(rows[i].0, q),
    decreases rows.len(),
{
    let u = rows.update(i, (rows[i].0, q));
    if i == rows.len() - 1 {
        assert(u.drop_last() =~= rows.drop_last());
    } else {
        assert(u.drop_last() =~= rows.drop_last().update(i, (rows[i].0, q)));
        lemma_rows_map_update(rows.drop_last(), i, q);
        assert(rows.last().0 != rows[i].0);
        assert(rows_map(u) =~= rows_map(rows).insert(rows[i].0, q));
    }
}

/// The requests still waiting for a response, queued per client in the
/// order they were sent.
pub struct PendingTable {
    rows: Vec<(String, VecDeque<PendingRequest>)>,
}

pub open spec fn queue_view(q: VecDeque<PendingRequest>) -> Queue {
    q@.map_values(|p: PendingRequest| p@)
}

pub open spec fn row_view(r: (String, VecDeque<PendingRequest>)) -> (Seq<char>, Queue) {
    (r.0@, queue_view(r.1))
}

impl PendingTable {
    pub closed spec fn rows_view(&self) -> Seq<(Seq<char>, Queue)> {
        self.rows@.map_values(|r: (String, VecDeque<PendingRequest>)| row_view(r))
    }

    /// The table is well formed: one row per client.
    pub closed spec fn wf(&self) -> bool {
        distinct_rows(self.rows_view())
    }

    /// An empty table.
    pub fn new() -> (t: Self)
        ensures
            t.wf(),
            t@ == Map::<Seq<char>, Queue>::empty(),
    {
        let t = PendingTable { rows: Vec::new() };
        assert(t.rows_view() =~= Seq::<(Seq<char>, Queue)>::empty());
        t
    }

    fn find(&self, client: &str) -> (r: Option<usize>)
        requires
            self.wf(),
        ensures
            match r {
                Some(i) => i < self.rows@.len() && self.rows_view()[i as int].0 == client@,
                None => !self@.contains_key(client@),
            },
    {
        let mut i: usize = 0;
        while i < self.rows.len()
            invariant
                i <= self.rows@.len(),
                forall|k: int| 0 <= k < i ==> self.rows_view()[k].0 != client@,
            decreases self.rows.len() - i,
        {
            if str_eq(self.rows[i].0.as_str(), client) {
                return Some(i);
            }
            i += 1;
        }
        proof {
            lemma_rows_map_contains(self.rows_view(), client@);
        }
        None
    }

    /// Queues `p` behind the other pending requests of `client`.
    pub fn push(&mut self, client: &str, p: PendingRequest)
        requires
            old(self).wf(),
        ensures
            final(self).wf(),
            final(self)@ == pushed(old(self)@, client@, p@),
    {
        let ghost before = self.rows_view();
        match self.find(client) {
            Some(i) => {
                proof {
                    lemma_rows_map_at(before, i as int);
                }
                let (name, mut queue) = self.rows.remove(i);
                let ghost q0 = queue_view(queue);
                let ghost pv = p@;
                queue.push_back(p);
                let ghost q = queue_view(queue);
                assert(q =~= q0.push(pv));
                self.rows.insert(i, (name, queue));
                proof {
                    assert(self.rows_view() =~= before.update(i as int, (client@, q)));
                    lemma_rows_map_update(before, i as int, q);
                    assert(queue_of(rows_map(before), client@) == q0);
                }
            },
            None => {
                let ghost pv = p@;
                let mut queue: VecDeque<PendingRequest> = VecDeque::new();
                queue.push_back(p);
                assert(queue_view(queue) =~= seq![pv]);
                let row = (client.to_owned(), queue);
                assert(row_view(row) == (client@, seq![pv]));
                self.rows.push(row);
                proof {
                    assert(self.rows_view() =~= before.push((client@, seq![pv])));
                    assert forall|a: int, b: int|
                        0 <= a < b < self.rows_view().len() implies self.rows_view()[a].0
                        != self.rows_view()[b].0 by {
                        if b == before.len() {
                            lemma_rows_map_contains(before, client@);
                            assert(before[a].0 == self.rows_view()[a].0);
                        }
                    }
                    assert(queue_of(rows_map(before), client@) =~= Seq::<(Seq<char>, Seq<char>)>::empty());
                    assert(Seq::<(Seq<char>, Seq<char>)>::empty().push(pv) =~= seq![pv]);
                    assert(before.push((client@, seq![pv])).drop_last() =~= before);
                }
            },
        }
    }

    /// Takes the oldest pending request of `client`, if it has one.
    pub fn pop(&mut self, client: &str) -> (r: Option<PendingRequest>)
        requires
            old(self).wf(),
        ensures
            final(self).wf(),
            final(self)@ == popped(old(self)@, client@),
            opt_pending_view(r) == oldest(old(self)@, client@),
    {
        let ghost before = self.rows_view();
        match self.find(client) {
            Some(i) => {
                proof {
                    lemma_rows_map_at(before, i as int);
                }
                let (name, mut queue) = self.rows.remove(i);
                let ghost q0 = queue_view(queue);
                let r = queue.pop_front();
                let ghost q = queue_view(queue);
                self.rows.insert(i, (name, queue));
                proof {
                    assert(self.rows_view() =~= before.update(i as int, (client@, q)));
                    lemma_rows_map_update(before, i as int, q);
                    if q0.len() > 0 {
                        assert(q =~= q0.drop_first());
                    } else {
                        assert(q =~= q0);
                        assert(rows_map(before).insert(client@, q) =~= rows_map(before));
                    }
                }
                r
            },
            None => None,
        }
    }
}

impl View for PendingTable {
    type V = Queues;

    closed spec fn view(&self) -> Queues {
        rows_map(self.rows_view())
    }
}

pub open spec fn opt_pending_view(r: Option<PendingRequest>) -> Option<(Seq<char>, Seq<char>)> {
    match r {
        Some(p) => Some(p@),
        None => None,
    }
}


/* --- Request ids ---------------------------------------------------------------- */

/// A fresh request id: a random UUID (`uuid::Uuid::new_v4`) in its hyphenated
/// text form. Nothing is promised of its value.
#[verifier::external_body]
fn new_request_id() -> String {
    uuid::Uuid::new_v4().to_string()
}

/* --- Handling a request ------------------------------------------------------------ */

pub open spec fn opt_str_view(o: Option<&str>) -> Option<Seq<char>> {
    match o {
        Some(s) => Some(s@),
        None => None,
    }
}

/// The host a request is for: the host of its URI, else its `host` header,
/// else `unknown`.
pub open spec fn request_host(uri_host: Option<Seq<char>>, e: Entries) -> Seq<char> {
    match uri_host {
        Some(h) => h,
        None => header_text_or(e, "host"@, "unknown"@),
    }
}

/// The full address of a request: its URI when that has a scheme, else the
/// URI behind `https://` and the host.
pub open spec fn full_uri_spec(uri: Seq<char>, has_scheme: bool, host: Seq<char>) -> Seq<char> {
    if has_scheme {
        uri
    } else {
        "https://"@ + host + uri
    }
}

/// How many headers the request modifier for `host` may add.
pub open spec fn request_adds(config: Config, host: Seq<char>) -> nat {
    match config.request_modifier_index(host) {
        Some(i) => valid_adds(pairs_or_none(config.modify_request->0@[i]@.add_headers)),
        None => 0,
    }
}

/// The headers a request goes on with: WebSocket offers stripped, then the
/// request modifier for `host`, if any, applied.
pub open spec fn request_headers_after(config: Config, host: Seq<char>, e: Entries) -> Entries {
    let e1 = websocket_stripped(e);
    match config.request_modifier_index(host) {
        Some(i) => request_effect(e1, config.modify_request->0@[i]@),
        None => e1,
    }
}

/// The host a request is for (see `request_host`).
pub fn host_of(uri_host: Option<&str>, headers: &HeaderMap) -> (r: String)
    ensures
        r@ == request_host(opt_str_view(uri_host), header_entries(*headers)),
{
    match uri_host {
        Some(h) => h.to_owned(),
        None => match header_text(headers, "host") {
            Some(t) => t,
            None => "unknown".to_owned(),
        },
    }
}

/// The room in `headers` that the request modifier for the request's host
/// needs (see `request_adds`).
pub fn request_room_for(headers: &HeaderMap, uri_host: Option<&str>, config: &Config) -> (r: usize)
    ensures
        r == request_adds(*config, request_host(opt_str_view(uri_host), header_entries(*headers))),
{
    let host = host_of(uri_host, headers);
    match config.get_request_modifiers(host.as_str()) {
        Some(m) => request_room(m),
        None => 0,
    }
}

/// What the proxy keeps of a request it lets through.
pub struct AdmittedRequest {
    pub req_id: String,
    pub host: String,
    /// The entry to append to the traffic log.
    pub entry: LogEntry,
}

/// The part of a request handler that decides. A request gets a fresh id
/// and a log entry. A `CONNECT` goes on as it is. Any other request is
/// queued for `client` under its full address, and goes on with the headers
/// of `request_headers_after`.
pub fn admit_request(
    table: &mut PendingTable,
    client: &str,
    method: &str,
    uri: &str,
    uri_host: Option<&str>,
    has_scheme: bool,
    headers: &mut HeaderMap,
    config: &Config,
) -> (r: AdmittedRequest)
    requires
        old(table).wf(),
        method@ != "CONNECT"@ ==> header_room(
            *old(headers),
            request_adds(*config, request_host(opt_str_view(uri_host), header_entries(*old(headers)))),
        ),
    ensures
        final(table).wf(),
        r.host@ == request_host(opt_str_view(uri_host), header_entries(*old(headers))),
        request_entry(r.entry, r.req_id@, method@, uri@, r.host@, header_entries(*old(headers))),
        method@ == "CONNECT"@ ==> final(table)@ == old(table)@,
        method@ == "CONNECT"@ ==> header_entries(*final(headers)) == header_entries(*old(headers)),
        method@ != "CONNECT"@ ==> final(table)@ == pushed(
            old(table)@,
            client@,
            (full_uri_spec(uri@, has_scheme, r.host@), r.req_id@),
        ),
        method@ != "CONNECT"@ ==> header_entries(*final(headers)) == request_headers_after(
            *config,
            r.host@,
            header_entries(*old(headers)),
        ),
{
    let host = host_of(uri_host, headers);
    let full_uri = if has_scheme {
        uri.to_owned()
    } else {
        let mut f = "https://".to_owned();
        f.append(host.as_str());
        f.append(uri);
        f
    };
    let req_id = new_request_id();
    let entry = log_request(req_id.as_str(), method, uri, headers, host.as_str());
    if str_eq(method, "CONNECT") {
        return AdmittedRequest { req_id, host, entry };
    }
    table.push(client, PendingRequest { url: full_uri, req_id: req_id.clone() });
    let ghost e0 = header_entries(*headers);
    strip_websocket_offers(headers);
    proof {
        if request_adds(*config, host@) > 0 {
            crate::modify::lemma_ws_keeps_room(e0);
        }
    }
    if let Some(m) = config.get_request_modifiers(host.as_str()) {
        apply_request_modifiers(headers, m);
    }
    AdmittedRequest { req_id, host, entry }
}

/// `admit_request`, where the headers have the room that the request
/// modifier needs; otherwise (a non-`CONNECT` request whose map is too
/// large to take the modifier's headers) nothing is done and `None` comes
/// back.
pub fn try_admit_request(
    table: &mut PendingTable,
    client: &str,
    method: &str,
    uri: &str,
    uri_host: Option<&str>,
    has_scheme: bool,
    headers: &mut HeaderMap,
    config: &Config,
) -> (r: Option<AdmittedRequest>)
    requires
        old(table).wf(),
    ensures
        final(table).wf(),
        r is Some <==> (method@ == "CONNECT"@ || header_room(
            *old(headers),
            request_adds(*config, request_host(opt_str_view(uri_host), header_entries(*old(headers)))),
        )),
        r is None ==> final(table)@ == old(table)@ && header_entries(*final(headers)) == header_entries(*old(headers)),
        r matches Some(a) ==> {
            &&& a.host@ == request_host(opt_str_view(uri_host), header_entries(*old(headers)))
            &&& request_entry(a.entry, a.req_id@, method@, uri@, a.host@, header_entries(*old(headers)))
            &&& method@ == "CONNECT"@ ==> final(table)@ == old(table)@
            &&& method@ == "CONNECT"@ ==> header_entries(*final(headers)) == header_entries(*old(headers))
            &&& method@ != "CONNECT"@ ==> final(table)@ == pushed(
                old(table)@,
                client@,
                (full_uri_spec(uri@, has_scheme, a.host@), a.req_id@),
            )
            &&& method@ != "CONNECT"@ ==> header_entries(*final(headers)) == request_headers_after(
                *config,
                a.host@,
                header_entries(*old(headers)),
            )
        },
{
    if !str_eq(method, "CONNECT") {
        let needed = request_room_for(headers, uri_host, config);
        if !has_room(headers, needed) {
            return None;
        }
    }
    Some(admit_request(table, client, method, uri, uri_host, has_scheme, headers, config))
}

/* --- Handling a response -------------------------------------------------------------- */

/// The request id of the request a response answers, or `-`.
pub open spec fn origin_id(o: Option<(Seq<char>, Seq<char>)>) -> Seq<char> {
    match o {
        Some(p) => p.1,
        None => "-"@,
    }
}

/// The address of the request a response answers, or nothing.
pub open spec fn origin_url(o: Option<(Seq<char>, Seq<char>)>) -> Seq<char> {
    match o {
        Some(p) => p.0,
        None => Seq::empty(),
    }
}

/// The request that a response for `client` answers: the oldest one pending,
/// taken from the table, as (request id, address).
pub fn response_origin(table: &mut PendingTable, client: &str) -> (r: (String, String))
    requires
        old(table).wf(),
    ensures
        final(table).wf(),
        final(table)@ == popped(old(table)@, client@),
        r.0@ == origin_id(oldest(old(table)@, client@)),
        r.1@ == origin_url(oldest(old(table)@, client@)),
{
    match table.pop(client) {
        Some(p) => (p.req_id, p.url),
        None => ("-".to_owned(), String::new()),
    }
}

/// The request id to log a proxy error under: that of the oldest pending
/// request of `client`, taken from the table, or else a fresh one.
pub fn error_request_id(table: &mut PendingTable, client: &str) -> (r: String)
    requires
        old(table).wf(),
    ensures
        final(table).wf(),
        final(table)@ == popped(old(table)@, client@),
        oldest(old(table)@, client@) matches Some(p) ==> r@ == p.1,
{
    match table.pop(client) {
        Some(p) => p.req_id,
        None => new_request_id(),
    }
}

/// Pages of `domain` are rewritten: the domain is known and the proxy is not
/// paused.
pub open spec fn rewrites(config: Config, domain: Seq<char>) -> bool {
    domain.len() > 0 && config.server.pause != Some(true)
}

/// The room in the headers `e` that the rewrite for `domain` needs.
pub open spec fn response_adds(config: Config, domain: Seq<char>, e: Entries) -> nat {
    if rewrites(config, domain) {
        match config.response_modifier_index(domain) {
            Some(i) => {
                let m = config.modify_response->0@[i]@;
                room_needed(e, m.csp, m.add_headers)
            },
            None => 0,
        }
    } else {
        0
    }
}

/// The headers of an HTML response for `domain` after the rewrite.
pub open spec fn response_headers_after(config: Config, domain: Seq<char>, e: Entries) -> Entries {
    if rewrites(config, domain) {
        match config.response_modifier_index(domain) {
            Some(i) => response_effect(e, config.modify_response->0@[i]@),
            None => e,
        }
    } else {
        e
    }
}

/// An HTML page of `domain` after the rewrite: the configured scripts
/// injected (see `inject_scripts`).
pub open spec fn page_after(
    config: Config,
    domain: Seq<char>,
    html: Seq<char>,
    loaded: Seq<Option<Seq<char>>>,
    polyfill: Seq<char>,
) -> Seq<char> {
    if rewrites(config, domain) && config.spec_scripts_for_domain(domain).len() > 0 {
        inject_all(html, position_for(config, domain), loaded, polyfill)
    } else {
        html
    }
}

/// The part of a response handler that rewrites an HTML page of `domain`:
/// unless the domain is unknown or the proxy is paused, the domain's
/// response modifier is applied to the headers and its scripts are injected
/// into the page. `loaded` holds the texts of the domain's scripts, as for
/// `inject_scripts`.
pub fn rewrite_html(
    headers: &mut HeaderMap,
    html: &mut String,
    domain: &str,
    config: &Config,
    loaded: &Vec<Option<String>>,
    polyfill: &str,
)
    requires
        header_room(*old(headers), response_adds(*config, domain@, header_entries(*old(headers)))),
    ensures
        header_entries(*final(headers)) == response_headers_after(
            *config,
            domain@,
            header_entries(*old(headers)),
        ),
        final(html)@ == page_after(
            *config,
            domain@,
            old(html)@,
            loaded@.map_values(|o: Option<String>| opt_view(o)),
            polyfill@,
        ),
{
    if domain.is_empty() {
        return;
    }
    let paused = match config.server.pause {
        Some(p) => p,
        None => false,
    };
    if paused {
        return;
    }
    if let Some(m) = config.get_response_modifiers(domain) {
        apply_response_modifiers(headers, m);
    }
    inject_scripts(html, domain, config, loaded, polyfill);
}


/// The room in `headers` that the rewrite for `domain` needs (see
/// `response_adds`).
pub fn response_room_for(headers: &HeaderMap, domain: &str, config: &Config) -> (r: usize)
    ensures
        r == response_adds(*config, domain@, header_entries(*headers)),
{
    if domain.is_empty() {
        return 0;
    }
    let paused = match config.server.pause {
        Some(p) => p,
        None => false,
    };
    if paused {
        return 0;
    }
    match config.get_response_modifiers(domain) {
        Some(m) => response_room(headers, m),
        None => 0,
    }
}

/// `rewrite_html`, where the headers have the room that the domain's
/// response modifier needs; otherwise headers and page are left alone and
/// `false` comes back.
pub fn try_rewrite_html(
    headers: &mut HeaderMap,
    html: &mut String,
    domain: &str,
    config: &Config,
    loaded: &Vec<Option<String>>,
    polyfill: &str,
) -> (r: bool)
    ensures
        r == header_room(*old(headers), response_adds(*config, domain@, header_entries(*old(headers)))),
        !r ==> header_entries(*final(headers)) == header_entries(*old(headers)) && final(html)@ == old(html)@,
        r ==> header_entries(*final(headers)) == response_headers_after(
            *config,
            domain@,
            header_entries(*old(headers)),
        ),
        r ==> final(html)@ == page_after(
            *config,
            domain@,
            old(html)@,
            loaded@.map_values(|o: Option<String>| opt_view(o)),
            polyfill@,
        ),
{
    let needed = response_room_for(headers, domain, config);
    if !has_room(headers, needed) {
        return false;
    }
    rewrite_html(headers, html, domain, config, loaded, polyfill);
    true
}

/* --- Laws of the proxy ----------------------------------------------------------------- */

/// Responses are matched to requests in the order the requests were sent:
/// after a request is queued, the oldest pending request of the client is
/// still the one queued first.
pub proof fn law_oldest_first(t: Queues, client: Seq<char>, p: (Seq<char>, Seq<char>))
    ensures
        queue_of(pushed(t, client, p), client) == queue_of(t, client).push(p),
        oldest(pushed(t, client, p), client) == (if queue_of(t, client).len() == 0 {
            Some(p)
        } else {
            oldest(t, client)
        }),
        queue_of(popped(t, client), client) == (if queue_of(t, client).len() > 0 {
            queue_of(t, client).drop_first()
        } else {
            queue_of(t, client)
        }),
{
}

/// Every request queued for a client is handed out, in order: queuing `ps`
/// behind an empty queue and then taking as many requests gives `ps` back.
pub proof fn law_fifo(t: Queues, client: Seq<char>, ps: Seq<(Seq<char>, Seq<char>)>)
    requires
        queue_of(t, client).len() == 0,
    ensures
        queue_of(push_all(t, client, ps), client) == ps,
    decreases ps.len(),
{
    if ps.len() > 0 {
        law_fifo(t, client, ps.drop_last());
        assert(ps.drop_last().push(ps.last()) =~= ps);
    } else {
        assert(queue_of(t, client) =~= ps);
    }
}

/// `t` after queuing `ps` for `client`, in order.
pub open spec fn push_all(t: Queues, client: Seq<char>, ps: Seq<(Seq<char>, Seq<char>)>) -> Queues
    decreases ps.len(),
{
    if ps.len() == 0 {
        t
    } else {
        pushed(push_all(t, client, ps.drop_last()), client, ps.last())
    }
}

/// `t` after `n` responses of `client` have each taken the oldest request.
pub open spec fn pop_n(t: Queues, client: Seq<char>, n: nat) -> Queues
    decreases n,
{
    if n == 0 {
        t
    } else {
        popped(pop_n(t, client, (n - 1) as nat), client)
    }
}

proof fn lemma_pop_n_queue(t: Queues, client: Seq<char>, n: nat)
    requires
        n <= queue_of(t, client).len(),
    ensures
        queue_of(pop_n(t, client, n), client) == queue_of(t, client).skip(n as int),
    decreases n,
{
    if n == 0 {
        assert(queue_of(t, client).skip(0) =~= queue_of(t, client));
    } else {
        lemma_pop_n_queue(t, client, (n - 1) as nat);
        assert(queue_of(t, client).skip(n - 1).drop_first() =~= queue_of(t, client).skip(n as int));
    }
}

/// Responses pair with requests in order: after a client with nothing
/// pending sends the requests `ps` and `j` of its responses have come back,
/// the next response answers `ps[j]` and is logged under its id, and once all
/// are answered a response is logged under `-` with no address.
pub proof fn law_responses_pair_in_order(
    t: Queues,
    client: Seq<char>,
    ps: Seq<(Seq<char>, Seq<char>)>,
    j: nat,
)
    requires
        queue_of(t, client).len() == 0,
        j <= ps.len(),
    ensures
        queue_of(pop_n(push_all(t, client, ps), client, j), client) == ps.skip(j as int),
        j < ps.len() ==> oldest(pop_n(push_all(t, client, ps), client, j), client) == Some(ps[j as int]),
        j < ps.len() ==> origin_id(oldest(pop_n(push_all(t, client, ps), client, j), client)) == ps[j as int].1,
        j < ps.len() ==> origin_url(oldest(pop_n(push_all(t, client, ps), client, j), client)) == ps[j as int].0,
        j == ps.len() ==> origin_id(oldest(pop_n(push_all(t, client, ps), client, j), client)) == "-"@,
        j == ps.len() ==> origin_url(oldest(pop_n(push_all(t, client, ps), client, j), client)) == Seq::<char>::empty(),
{
    law_fifo(t, client, ps);
    lemma_pop_n_queue(push_all(t, client, ps), client, j);
    if j < ps.len() {
        assert(ps.skip(j as int)[0] == ps[j as int]);
    }
}

/// The requests of one client never affect those of another.
pub proof fn law_clients_independent(
    t: Queues,
    c: Seq<char>,
    d: Seq<char>,
    p: (Seq<char>, Seq<char>),
)
    requires
        c != d,
    ensures
        queue_of(pushed(t, c, p), d) == queue_of(t, d),
        queue_of(popped(t, c), d) == queue_of(t, d),
{
}

/// A response is logged under the id of the request it answers: with nothing
/// else pending for the client, the response origin is the queued request.
pub proof fn law_response_correlated(t: Queues, client: Seq<char>, url: Seq<char>, id: Seq<char>)
    requires
        queue_of(t, client).len() == 0,
    ensures
        origin_id(oldest(pushed(t, client, (url, id)), client)) == id,
        origin_url(oldest(pushed(t, client, (url, id)), client)) == url,
{
}

/// While the proxy is paused, pages and their headers pass through
/// unchanged.
pub proof fn law_paused_passes_through(
    config: Config,
    domain: Seq<char>,
    e: Entries,
    html: Seq<char>,
    loaded: Seq<Option<Seq<char>>>,
    polyfill: Seq<char>,
)
    requires
        config.server.pause == Some(true),
    ensures
        response_headers_after(config, domain, e) == e,
        page_after(config, domain, html, loaded, polyfill) == html,
{
}

/// A rewritten page is sent without `content-encoding` or `content-length`,
/// and a textual content type is restated with `charset=utf-8`.
pub proof fn law_finalized_headers(e: Entries)
    requires
        values_present(e),
    ensures
        !finalized(e).contains_key("content-encoding"@),
        !finalized(e).contains_key("content-length"@),
        header_text_spec(e, "content-type"@) matches Some(t)
            ==> finalized(e)["content-type"@][0] == encode_utf8(charset_value(t)),
{
    reveal_strlit("content-encoding");
    reveal_strlit("content-length");
    reveal_strlit("content-type");
    let k1 = "content-encoding"@;
    let k2 = "content-length"@;
    let k3 = "content-type"@;
    assert(crate::headers::lower_text(k1) =~= k1);
    assert(crate::headers::lower_text(k2) =~= k2);
    assert(crate::headers::lower_text(k3) =~= k3);
    assert(k3 != k1 && k3 != k2) by {
        assert(k3.len() != k1.len());
        assert(k3[8] != k2[8]);
    }
}

} // verus!
