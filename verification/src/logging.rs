use vstd::prelude::*;
use vstd::utf8::encode_utf8;
use http::HeaderMap;
use crate::headers::{header_entries, header_text, header_text_spec, Entries};
use crate::log::LogEntry;
use crate::text::{replace_all, replace_seq, to_chars, chars_from, push_char};

verus! {

/* --- Time ----------------------------------------------------------------- */

/// Milliseconds since the Unix epoch (`SystemTime::now`), or 0 should the
/// clock read before it. Nothing is promised of the value.
#[verifier::external_body]
pub fn now_millis() -> u64 {
    std::time::SystemTime::now().duration_since(std::time::UNIX_EPOCH).unwrap_or_default().as_millis() as u64
}

/* --- Header fields -------------------------------------------------------- */

/// The text of header `name`, or `d` when it is missing or not text.
pub open spec fn header_text_or(e: Entries, name: Seq<char>, d: Seq<char>) -> Seq<char> {
    match header_text_spec(e, name) {
        Some(t) => t,
        None => d,
    }
}

fn header_text_or_dash(headers: &HeaderMap, name: &str) -> (r: String)
    ensures
        r@ == header_text_or(header_entries(*headers), name@, "-"@),
{
    match header_text(headers, name) {
        Some(t) => t,
        None => "-".to_owned(),
    }
}

/* --- Body previews -------------------------------------------------------- */

/// `s` with line feeds and carriage returns written as `\n` and `\r`.
pub open spec fn escape_line_breaks(s: Seq<char>) -> Seq<char> {
    replace_seq(replace_seq(s, "\n"@, "\\n"@), "\r"@, "\\r"@)
}

/// The body of a response as the log shows it: up to 100 bytes as they are,
/// a longer one as its first 40 characters, ` ... ` and its last 40
/// characters; line breaks escaped either way.
pub open spec fn preview_spec(body: Seq<char>) -> Seq<char> {
    let n = body.len();
    let k: int = if n >= 40 {
        40
    } else {
        n as int
    };
    let shown = if encode_utf8(body).len() > 100 {
        body.take(k) + " ... "@ + body.skip(n - k)
    } else {
        body
    };
    escape_line_breaks(shown)
}

fn take_chars(v: &Vec<char>, k: usize) -> (r: String)
    requires
        k <= v.len(),
    ensures
        r@ == v@.take(k as int),
{
    let mut out = String::new();
    let mut i: usize = 0;
    while i < k
        invariant
            k <= v.len(),
            i <= k,
            out@ == v@.take(i as int),
        decreases k - i,
    {
        push_char(&mut out, v[i]);
        i += 1;
        assert(out@ =~= v@.take(i as int));
    }
    out
}

/// The preview of a response body kept in the log.
pub fn body_preview(body: &str) -> (r: String)
    ensures
        r@ == preview_spec(body@),
{
    let byte_len = body.as_bytes().len();
    let shown = if byte_len > 100 {
        let v = to_chars(body);
        let n = v.len();
        let k: usize = if n >= 40 {
            40
        } else {
            n
        };
        let mut s = take_chars(&v, k);
        s.append(" ... ");
        let tail = chars_from(&v, n - k);
        s.append(tail.as_str());
        proof {
            reveal_strlit(" ... ");
        }
        s
    } else {
        body.to_owned()
    };
    proof {
        reveal_strlit("\n");
        reveal_strlit("\r");
    }
    let a = replace_all(shown.as_str(), "\n", "\\n");
    replace_all(a.as_str(), "\r", "\\r")
}

/* --- Log entries ---------------------------------------------------------- */

/// `r` is the log entry of a request with these fields, its `user-agent`
/// and `accept` taken from the headers `e` (`-` when missing); any time stamp.
pub open spec fn request_entry(
    r: LogEntry,
    req_id: Seq<char>,
    method: Seq<char>,
    uri: Seq<char>,
    host: Seq<char>,
    e: Entries,
) -> bool {
    &&& r matches LogEntry::Request { req_id: i, method: m, uri: u, host: h, user_agent: ua, accept: a, .. }
    &&& i@ == req_id && m@ == method && u@ == uri && h@ == host
    &&& ua@ == header_text_or(e, "user-agent"@, "-"@)
    &&& a@ == header_text_or(e, "accept"@, "-"@)
}

/// `r` is the log entry of a response with this status, its content type
/// taken from the headers `e` (`-` when missing) and a preview of `body`.
pub open spec fn response_entry(r: LogEntry, req_id: Seq<char>, status: u16, e: Entries, body: Seq<char>) -> bool {
    &&& r matches LogEntry::Response { req_id: i, status: s, content_type: c, body_preview: b, .. }
    &&& i@ == req_id && s == status
    &&& c@ == header_text_or(e, "content-type"@, "-"@)
    &&& b@ == preview_spec(body)
}

/// `r` is the log entry of a proxy error.
pub open spec fn error_entry(r: LogEntry, req_id: Seq<char>, client_addr: Seq<char>, error: Seq<char>) -> bool {
    &&& r matches LogEntry::Error { req_id: i, client_addr: c, error: x, .. }
    &&& i@ == req_id && c@ == client_addr && x@ == error
}

/// The log entry of a request. The time stamp is the clock's.
pub fn log_request(req_id: &str, method: &str, uri: &str, headers: &HeaderMap, host: &str) -> (r:
    LogEntry)
    ensures
        request_entry(r, req_id@, method@, uri@, host@, header_entries(*headers)),
{
    let user_agent = header_text_or_dash(headers, "user-agent");
    let accept = header_text_or_dash(headers, "accept");
    LogEntry::Request {
        req_id: req_id.to_owned(),
        ts: now_millis(),
        method: method.to_owned(),
        uri: uri.to_owned(),
        host: host.to_owned(),
        user_agent,
        accept,
    }
}

/// The log entry of a response. The time stamp is the clock's.
pub fn log_response(req_id: &str, status: u16, headers: &HeaderMap, body: &str) -> (r: LogEntry)
    ensures
        response_entry(r, req_id@, status, header_entries(*headers), body@),
{
    let content_type = header_text_or_dash(headers, "content-type");
    LogEntry::Response {
        req_id: req_id.to_owned(),
        ts: now_millis(),
        status,
        content_type,
        body_preview: body_preview(body),
    }
}

/// The log entry of a proxy error: the client's address and the error's
/// text. The time stamp is the clock's.
pub fn log_proxy_error(req_id: &str, client_addr: &str, error: &str) -> (r: LogEntry)
    ensures
        error_entry(r, req_id@, client_addr@, error@),
{
    LogEntry::Error {
        req_id: req_id.to_owned(),
        ts: now_millis(),
        client_addr: client_addr.to_owned(),
        error: error.to_owned(),
    }
}

} // verus!
