use vstd::prelude::*;
use vstd::string::StringSliceAdditionalSpecFns;
use vstd::utf8::{encode_scalar, encode_utf8, is_ascii_chars, is_ascii_chars_encode_utf8};
use http::{HeaderMap, HeaderName, HeaderValue};
use crate::config::opt_string_view;
use crate::text::{ascii_lower, replace_seq, trim_end, trim_seq, trim_start, until_char};

verus! {

/* --- The header types of `http` ------------------------------------------- */

#[verifier::external_type_specification]
#[verifier::external_body]
#[verifier::reject_recursive_types(T)]
pub struct ExHeaderMap<T>(HeaderMap<T>);

#[verifier::external_type_specification]
#[verifier::external_body]
pub struct ExHeaderName(HeaderName);

#[verifier::external_type_specification]
#[verifier::external_body]
pub struct ExHeaderValue(HeaderValue);

/// What a header map holds: each header name, in lower case, mapped to its
/// values in the order they were added.
pub uninterp spec fn header_entries(m: HeaderMap) -> Map<Seq<char>, Seq<Seq<u8>>>;

/// The bytes of a header value.
pub uninterp spec fn header_value_bytes(v: HeaderValue) -> Seq<u8>;

/// The text of a header name.
pub uninterp spec fn header_name_text(n: HeaderName) -> Seq<char>;

/* --- Header names and values --------------------------------------------- */

/// A character allowed in a header name (an HTTP token character).
pub open spec fn is_token_char(c: char) -> bool {
    ||| ('0' <= c && c <= '9')
    ||| ('a' <= c && c <= 'z')
    ||| ('A' <= c && c <= 'Z')
    ||| c == '!' || c == '#' || c == '$' || c == '%' || c == '&' || c == '\''
    ||| c == '*' || c == '+' || c == '-' || c == '.' || c == '^' || c == '_'
    ||| c == '`' || c == '|' || c == '~'
}

/// A valid header name: 1 to 65535 token characters.
pub open spec fn valid_header_name(s: Seq<char>) -> bool {
    &&& 1 <= s.len() <= 65535
    &&& forall|i: int| 0 <= i < s.len() ==> is_token_char(#[trigger] s[i])
}

/// `s` in ASCII lower case.
pub open spec fn lower_text(s: Seq<char>) -> Seq<char> {
    s.map_values(|c: char| ascii_lower(c))
}

/// The key that a header name stands for in a map, when it is valid.
pub open spec fn header_key(s: Seq<char>) -> Option<Seq<char>> {
    if valid_header_name(s) {
        Some(lower_text(s))
    } else {
        None
    }
}

/// A byte allowed in a header value.
pub open spec fn value_byte_ok(b: u8) -> bool {
    (b >= 32 && b != 127) || b == 9
}

/// A byte of a header value that reads as text (visible ASCII or tab).
pub open spec fn visible_byte(b: u8) -> bool {
    (b >= 32 && b < 127) || b == 9
}

pub open spec fn value_bytes_ok(b: Seq<u8>) -> bool {
    forall|i: int| 0 <= i < b.len() ==> value_byte_ok(#[trigger] b[i])
}

pub open spec fn all_visible(b: Seq<u8>) -> bool {
    forall|i: int| 0 <= i < b.len() ==> visible_byte(#[trigger] b[i])
}

/// ASCII bytes read as characters.
pub open spec fn byte_text(b: Seq<u8>) -> Seq<char> {
    b.map_values(|x: u8| x as char)
}

/// The text of a header value, when it has one.
pub open spec fn value_text(b: Seq<u8>) -> Option<Seq<char>> {
    if all_visible(b) {
        Some(byte_text(b))
    } else {
        None
    }
}

/* --- Header maps ---------------------------------------------------------- */

pub type Entries = Map<Seq<char>, Seq<Seq<u8>>>;

/// The first value of the header `name`, as `HeaderMap::get` finds it.
pub open spec fn first_value(e: Entries, name: Seq<char>) -> Option<Seq<u8>> {
    match header_key(name) {
        Some(k) => if e.contains_key(k) {
            Some(e[k][0])
        } else {
            None
        },
        None => None,
    }
}

/// `e` without the header `name`.
pub open spec fn without_header(e: Entries, name: Seq<char>) -> Entries {
    match header_key(name) {
        Some(k) => e.remove(k),
        None => e,
    }
}

/// `e` with the first value of header `name` replaced, when it is there.
pub open spec fn with_first_value(e: Entries, name: Seq<char>, v: Seq<u8>) -> Entries {
    match header_key(name) {
        Some(k) => if e.contains_key(k) {
            e.insert(k, e[k].update(0, v))
        } else {
            e
        },
        None => e,
    }
}

/// The map can take `n` inserts of new names without reaching the size at
/// which `HeaderMap::insert` panics (6554 names, the most the map can hold
/// when its hashing degrades).
pub open spec fn header_room(m: HeaderMap, n: nat) -> bool {
    n == 0 || (header_entries(m).dom().finite() && header_entries(m).dom().len() + n <= 6554)
}

/// Every name in `e` holds at least one value.
pub open spec fn values_present(e: Entries) -> bool {
    forall|k: Seq<char>| #[trigger] e.contains_key(k) ==> e[k].len() > 0
}

/// `e` holds `n` names, each with at least one value.
pub open spec fn names_counted(e: Entries, n: nat) -> bool {
    &&& e.dom().finite()
    &&& e.dom().len() == n
    &&& values_present(e)
}

pub open spec fn opt_value_bytes(r: Option<&HeaderValue>) -> Option<Seq<u8>> {
    match r {
        Some(v) => Some(header_value_bytes(*v)),
        None => None,
    }
}

/* --- Calls into `http` ---------------------------------------------------- */

/// `HeaderMap::get` with a `&str` name: the first value stored under the
/// name's lower-case form, and nothing for an invalid name.
#[verifier::external_body]
pub(crate) fn header_get<'a>(m: &'a HeaderMap, name: &str) -> (r: Option<&'a HeaderValue>)
    ensures
        opt_value_bytes(r) == first_value(header_entries(*m), name@),
{
    m.get(name)
}

/// `HeaderMap::get_mut` with a `&str` name, through which the first value of
/// the header is replaced by `v`; gives whether the header was there.
#[verifier::external_body]
pub(crate) fn header_set_first(m: &mut HeaderMap, name: &str, v: HeaderValue) -> (r: bool)
    ensures
        r == (first_value(header_entries(*old(m)), name@) is Some),
        header_entries(*final(m)) == with_first_value(
            header_entries(*old(m)),
            name@,
            header_value_bytes(v),
        ),
{
    match m.get_mut(name) {
        Some(slot) => {
            *slot = v;
            true
        },
        None => false,
    }
}

/// `HeaderMap::remove` with a `&str` name: drops every value of the header.
#[verifier::external_body]
pub(crate) fn header_remove(m: &mut HeaderMap, name: &str)
    ensures
        header_entries(*final(m)) == without_header(header_entries(*old(m)), name@),
{
    m.remove(name);
}

/// `HeaderMap::insert`: the header's values become the single value `v`. It
/// panics once the map is too large to grow, which `header_room` rules out.
#[verifier::external_body]
pub(crate) fn header_insert(m: &mut HeaderMap, name: HeaderName, v: HeaderValue)
    requires
        header_room(*old(m), 1),
    ensures
        header_entries(*final(m)) == header_entries(*old(m)).insert(
            header_name_text(name),
            seq![header_value_bytes(v)],
        ),
{
    m.insert(name, v);
}

/// `HeaderMap::keys_len`: the number of distinct names in the map. Each name
/// is stored with its first value, so every name holds at least one.
#[verifier::external_body]
pub(crate) fn header_keys_len(m: &HeaderMap) -> (r: usize)
    ensures
        names_counted(header_entries(*m), r as nat),
{
    m.keys_len()
}

/// Whether `headers` can take `n` inserts of new names (see `header_room`).
pub fn has_room(headers: &HeaderMap, n: usize) -> (r: bool)
    ensures
        r == header_room(*headers, n as nat),
{
    if n == 0 {
        return true;
    }
    let k = header_keys_len(headers);
    k <= 6554 && n <= 6554 - k
}

/// `str::parse::<HeaderName>`: valid names give their lower-case form.
#[verifier::external_body]
pub(crate) fn parse_header_name(s: &str) -> (r: Option<HeaderName>)
    ensures
        r is Some == valid_header_name(s@),
        r matches Some(n) ==> header_name_text(n) == lower_text(s@),
{
    match s.parse::<HeaderName>() {
        Ok(n) => Some(n),
        Err(_) => None,
    }
}

/// `str::parse::<HeaderValue>`: accepted when every byte is allowed in a
/// header value; the value holds the string's bytes.
#[verifier::external_body]
pub(crate) fn parse_header_value(s: &str) -> (r: Option<HeaderValue>)
    ensures
        r is Some == value_bytes_ok(s.spec_bytes()),
        r matches Some(v) ==> header_value_bytes(v) == s.spec_bytes(),
{
    match s.parse::<HeaderValue>() {
        Ok(v) => Some(v),
        Err(_) => None,
    }
}

/// `HeaderValue::to_str`: the value as text when all its bytes are visible
/// ASCII or tabs.
#[verifier::external_body]
pub(crate) fn header_value_str(v: &HeaderValue) -> (r: Option<&str>)
    ensures
        r is Some == all_visible(header_value_bytes(*v)),
        r matches Some(s) ==> s.spec_bytes() == header_value_bytes(*v),
{
    match v.to_str() {
        Ok(s) => Some(s),
        Err(_) => None,
    }
}

/* --- Text of values ------------------------------------------------------- */

/// The text of the first value of header `name`, when there is one and it
/// reads as text.
pub open spec fn header_text_spec(e: Entries, name: Seq<char>) -> Option<Seq<char>> {
    match first_value(e, name) {
        Some(b) => value_text(b),
        None => None,
    }
}

/// The text of header `name`, as `headers.get(name).and_then(|v| v.to_str().ok())`.
pub fn header_text(headers: &HeaderMap, name: &str) -> (r: Option<String>)
    ensures
        opt_string_view(r) == header_text_spec(header_entries(*headers), name@),
{
    match header_get(headers, name) {
        Some(v) => match header_value_str(v) {
            Some(t) => {
                proof {
                    lemma_visible_text(t@);
                }
                Some(t.to_owned())
            },
            None => None,
        },
        None => None,
    }
}

proof fn lemma_wide_scalar_first_byte(v: u32)
    requires
        v > 0x7F,
    ensures
        encode_scalar(v).len() > 0,
        encode_scalar(v)[0] >= 0x80,
{
    assert((0xC0u8 | ((v >> 6) & 0x1F) as u8) >= 0x80u8) by (bit_vector);
    assert((0xE0u8 | ((v >> 12) & 0x0F) as u8) >= 0x80u8) by (bit_vector);
    assert((0xF0u8 | ((v >> 18) & 0x7) as u8) >= 0x80u8) by (bit_vector);
}

proof fn lemma_ascii_char(c: char)
    requires
        (c as u32) <= 0x7F,
    ensures
        '\0' <= c <= '\u{7f}',
{
}

/// Characters whose UTF-8 encoding has only bytes below 128 are ASCII.
proof fn lemma_ascii_from_bytes(s: Seq<char>)
    requires
        forall|i: int| 0 <= i < encode_utf8(s).len() ==> #[trigger] encode_utf8(s)[i] < 128,
    ensures
        is_ascii_chars(s),
    decreases s.len(),
{
    if s.len() > 0 {
        let head = encode_scalar(s[0] as u32);
        let rest = encode_utf8(s.drop_first());
        assert(encode_utf8(s) == head + rest);
        if s[0] as u32 > 0x7F {
            lemma_wide_scalar_first_byte(s[0] as u32);
            assert(encode_utf8(s)[0] == head[0]);
        }
        assert forall|i: int| 0 <= i < rest.len() implies #[trigger] rest[i] < 128 by {
            assert(encode_utf8(s)[head.len() + i] == rest[i]);
        }
        lemma_ascii_from_bytes(s.drop_first());
        lemma_ascii_char(s[0]);
        assert forall|i: int| 0 <= i < s.len() implies '\0' <= #[trigger] s[i] <= '\u{7f}' by {
            if i > 0 {
                assert(s[i] == s.drop_first()[i - 1]);
            }
        }
    }
}

/// A string whose bytes are visible ASCII reads as those bytes.
pub proof fn lemma_visible_text(s: Seq<char>)
    requires
        all_visible(encode_utf8(s)),
    ensures
        s == byte_text(encode_utf8(s)),
        is_ascii_chars(s),
{
    let b = encode_utf8(s);
    assert forall|i: int| 0 <= i < b.len() implies #[trigger] b[i] < 128 by {
        assert(visible_byte(b[i]));
    }
    lemma_ascii_from_bytes(s);
    is_ascii_chars_encode_utf8(s);
    assert forall|i: int| 0 <= i < s.len() implies s[i] == #[trigger] byte_text(b)[i] by {
        assert(s[i] as u8 == b[i]);
        assert('\0' <= s[i] <= '\u{7f}');
    }
    assert(s =~= byte_text(b));
}

/// The bytes of ASCII text are its characters.
pub proof fn lemma_ascii_bytes(s: Seq<char>)
    requires
        is_ascii_chars(s),
    ensures
        encode_utf8(s).len() == s.len(),
        forall|i: int| 0 <= i < s.len() ==> #[trigger] encode_utf8(s)[i] == s[i] as u8,
{
    is_ascii_chars_encode_utf8(s);
}


/* --- Visible text ---------------------------------------------------------- */

/// A character that may stand in header text: visible ASCII or a tab.
pub open spec fn visible_char(c: char) -> bool {
    (' ' <= c && c <= '~') || c == '\t'
}

pub open spec fn visible_chars(s: Seq<char>) -> bool {
    forall|i: int| 0 <= i < s.len() ==> visible_char(#[trigger] s[i])
}

/// The text of a value reads as visible characters.
pub proof fn lemma_byte_text_visible(b: Seq<u8>)
    requires
        all_visible(b),
    ensures
        visible_chars(byte_text(b)),
{
    assert forall|i: int| 0 <= i < byte_text(b).len() implies visible_char(
        #[trigger] byte_text(b)[i],
    ) by {
        assert(visible_byte(b[i]));
        lemma_visible_byte_char(b[i]);
    }
}

proof fn lemma_visible_byte_char(x: u8)
    requires
        visible_byte(x),
    ensures
        visible_char(x as char),
{
}

proof fn lemma_visible_char_byte(c: char)
    requires
        visible_char(c),
    ensures
        value_byte_ok(c as u8),
        (c as u32) <= 0x7F,
{
}

/// Visible text makes an acceptable header value.
pub proof fn lemma_visible_value_ok(s: Seq<char>)
    requires
        visible_chars(s),
    ensures
        value_bytes_ok(encode_utf8(s)),
{
    assert forall|i: int| 0 <= i < s.len() implies '\0' <= #[trigger] s[i] <= '\u{7f}' by {
        lemma_visible_char_byte(s[i]);
        lemma_ascii_char(s[i]);
    }
    lemma_ascii_bytes(s);
    assert forall|i: int| 0 <= i < encode_utf8(s).len() implies value_byte_ok(
        #[trigger] encode_utf8(s)[i],
    ) by {
        lemma_visible_char_byte(s[i]);
    }
}

pub proof fn lemma_visible_concat(a: Seq<char>, b: Seq<char>)
    requires
        visible_chars(a),
        visible_chars(b),
    ensures
        visible_chars(a + b),
{
    assert forall|i: int| 0 <= i < (a + b).len() implies visible_char(#[trigger] (a + b)[i]) by {
        if i < a.len() {
            assert((a + b)[i] == a[i]);
        } else {
            assert((a + b)[i] == b[i - a.len()]);
        }
    }
}

pub proof fn lemma_visible_skip(s: Seq<char>, k: int)
    requires
        visible_chars(s),
        0 <= k <= s.len(),
    ensures
        visible_chars(s.skip(k)),
        visible_chars(s.take(k)),
{
    assert forall|i: int| 0 <= i < s.skip(k).len() implies visible_char(#[trigger] s.skip(k)[i]) by {
        assert(s.skip(k)[i] == s[i + k]);
    }
    assert forall|i: int| 0 <= i < s.take(k).len() implies visible_char(#[trigger] s.take(k)[i]) by {
        assert(s.take(k)[i] == s[i]);
    }
}

pub proof fn lemma_until_visible(s: Seq<char>, c: char)
    requires
        visible_chars(s),
    ensures
        visible_chars(until_char(s, c)),
    decreases s.len(),
{
    if s.len() > 0 && s[0] != c {
        lemma_visible_skip(s, 1);
        lemma_until_visible(s.skip(1), c);
        lemma_visible_concat(seq![s[0]], until_char(s.skip(1), c));
    }
}

pub proof fn lemma_trim_visible(s: Seq<char>)
    requires
        visible_chars(s),
    ensures
        visible_chars(trim_seq(s)),
{
    lemma_trim_start_visible(s);
    lemma_trim_end_visible(trim_start(s));
}

proof fn lemma_trim_start_visible(s: Seq<char>)
    requires
        visible_chars(s),
    ensures
        visible_chars(trim_start(s)),
    decreases s.len(),
{
    if s.len() > 0 {
        lemma_visible_skip(s, 1);
        lemma_trim_start_visible(s.skip(1));
    }
}

proof fn lemma_trim_end_visible(s: Seq<char>)
    requires
        visible_chars(s),
    ensures
        visible_chars(trim_end(s)),
    decreases s.len(),
{
    if s.len() > 0 {
        lemma_visible_skip(s, s.len() - 1);
        assert(s.drop_last() =~= s.take(s.len() - 1));
        lemma_trim_end_visible(s.drop_last());
    }
}

/// Replacing within visible text by visible text keeps it visible.
pub proof fn lemma_replace_visible(s: Seq<char>, pat: Seq<char>, rep: Seq<char>)
    requires
        visible_chars(s),
        visible_chars(rep),
    ensures
        visible_chars(replace_seq(s, pat, rep)),
    decreases s.len(),
{
    if pat.len() == 0 || s.len() == 0 {
    } else if crate::text::matches_at(s, pat, 0) {
        lemma_visible_skip(s, pat.len() as int);
        lemma_replace_visible(s.skip(pat.len() as int), pat, rep);
        lemma_visible_concat(rep, replace_seq(s.skip(pat.len() as int), pat, rep));
    } else {
        lemma_visible_skip(s, 1);
        lemma_replace_visible(s.skip(1), pat, rep);
        lemma_visible_concat(seq![s[0]], replace_seq(s.skip(1), pat, rep));
    }
}

} // verus!
