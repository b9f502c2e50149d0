use vstd::prelude::*;
use vstd::utf8::encode_utf8;
use http::HeaderMap;
use crate::config::{
    pair_view, pairs_view, RequestModifier,
    RequestModifierView, ResponseModifier, ResponseModifierView,
};
use crate::headers::{
    first_value, header_text_spec, lemma_byte_text_visible, lemma_replace_visible,
    lemma_visible_value_ok, visible_chars, header_entries, header_get, header_insert, header_key, header_remove,
    header_room, header_value_str, lemma_visible_text, lower_text, parse_header_name,
    parse_header_value, value_bytes_ok, value_text, without_header, Entries,
};
use crate::text::{contains, contains_seq, replace_all, replace_seq, str_eq, strings_view};

verus! {

/* --- What the modifiers do to a header map -------------------------------- */

/// `e` after the CSP handling `mode`:
/// - `remove_nonce` drops the `content-security-policy` header when its text
///   mentions `'nonce-`;
/// - `remove_all` drops it;
/// - `relax_connect_src` rewrites `connect-src 'self'` to `connect-src *` in
///   its text (dropping the header should the result not be a valid value);
/// - any other mode (`keep` among them) leaves the map alone, as does a
///   header whose value is not text.
pub open spec fn csp_effect(e: Entries, mode: Seq<char>) -> Entries {
    let k = "content-security-policy"@;
    if mode == "remove_nonce"@ {
        match first_value(e, k) {
            Some(b) => match value_text(b) {
                Some(t) => if contains_seq(t, "'nonce-"@) {
                    without_header(e, k)
                } else {
                    e
                },
                None => e,
            },
            None => e,
        }
    } else if mode == "remove_all"@ {
        without_header(e, k)
    } else if mode == "relax_connect_src"@ {
        match first_value(e, k) {
            Some(b) => match value_text(b) {
                Some(t) => relaxed_csp(e, t),
                None => e,
            },
            None => e,
        }
    } else {
        e
    }
}

/// `e` with the CSP header set to `t` with `connect-src 'self'` relaxed.
pub open spec fn relaxed_csp(e: Entries, t: Seq<char>) -> Entries {
    let nb = encode_utf8(replace_seq(t, "connect-src 'self'"@, "connect-src *"@));
    if value_bytes_ok(nb) {
        e.insert("content-security-policy"@, seq![nb])
    } else {
        without_header(e, "content-security-policy"@)
    }
}

/// `e` without each of the headers `names`.
pub open spec fn remove_all(e: Entries, names: Seq<Seq<char>>) -> Entries
    decreases names.len(),
{
    if names.len() == 0 {
        e
    } else {
        without_header(remove_all(e, names.drop_last()), names.last())
    }
}

/// `e` with one header set: a valid name whose value is acceptable replaces
/// every earlier value of that header; anything else is skipped.
pub open spec fn add_one(e: Entries, name: Seq<char>, value: Seq<char>) -> Entries {
    match header_key(name) {
        Some(k) => if value_bytes_ok(encode_utf8(value)) {
            e.insert(k, seq![encode_utf8(value)])
        } else {
            e
        },
        None => e,
    }
}

/// `e` with the headers `pairs` set, in order.
pub open spec fn add_all(e: Entries, pairs: Seq<(Seq<char>, Seq<char>)>) -> Entries
    decreases pairs.len(),
{
    if pairs.len() == 0 {
        e
    } else {
        add_one(add_all(e, pairs.drop_last()), pairs.last().0, pairs.last().1)
    }
}

pub open spec fn names_or_empty(o: Option<Seq<Seq<char>>>) -> Seq<Seq<char>> {
    match o {
        Some(v) => v,
        None => Seq::empty(),
    }
}

pub open spec fn pairs_or_none(o: Option<Seq<(Seq<char>, Seq<char>)>>) -> Seq<
    (Seq<char>, Seq<char>),
> {
    match o {
        Some(v) => v,
        None => Seq::empty(),
    }
}

/// The headers of a response after modifier `m`: its CSP handling, then its
/// removals, then its additions.
pub open spec fn response_effect(e: Entries, m: ResponseModifierView) -> Entries {
    let after_csp = match m.csp {
        Some(mode) => csp_effect(e, mode),
        None => e,
    };
    add_all(remove_all(after_csp, names_or_empty(m.remove_headers)), pairs_or_none(m.add_headers))
}

/// The headers of a request after modifier `m`: its removals, then its
/// additions.
pub open spec fn request_effect(e: Entries, m: RequestModifierView) -> Entries {
    add_all(remove_all(e, names_or_empty(m.remove_headers)), pairs_or_none(m.add_headers))
}

/// A pair that `add_all` sets: a valid name with an acceptable value.
pub open spec fn valid_pair(p: (Seq<char>, Seq<char>)) -> bool {
    header_key(p.0) is Some && value_bytes_ok(encode_utf8(p.1))
}

/// How many pairs of `pairs` are set.
pub open spec fn valid_adds(pairs: Seq<(Seq<char>, Seq<char>)>) -> nat
    decreases pairs.len(),
{
    if pairs.len() == 0 {
        0
    } else {
        valid_adds(pairs.drop_last()) + if valid_pair(pairs.last()) {
            1nat
        } else {
            0nat
        }
    }
}

/// The CSP handling `mode` writes the policy header back (it relaxes a
/// textual policy).
pub open spec fn relax_inserts(e: Entries, mode: Seq<char>) -> bool {
    mode == "relax_connect_src"@ && header_text_spec(e, "content-security-policy"@) is Some
}

/// How many inserts into the headers `e` the CSP handling `mode` makes.
pub open spec fn csp_inserts(e: Entries, mode: Seq<char>) -> nat {
    if relax_inserts(e, mode) {
        1
    } else {
        0
    }
}

/// The room in the map that a modifier's inserts need: one per header it
/// sets, or one for the rewritten policy when it sets none.
pub open spec fn room_needed(e: Entries, csp: Option<Seq<char>>, adds: Option<Seq<(Seq<char>, Seq<char>)>>) -> nat {
    let v = valid_adds(pairs_or_none(adds));
    if v > 0 {
        v
    } else {
        match csp {
            Some(mode) => csp_inserts(e, mode),
            None => 0,
        }
    }
}

proof fn lemma_valid_adds_prefix(pairs: Seq<(Seq<char>, Seq<char>)>, i: int)
    requires
        0 <= i <= pairs.len(),
    ensures
        valid_adds(pairs.take(i)) <= valid_adds(pairs),
    decreases pairs.len() - i,
{
    if i < pairs.len() {
        lemma_valid_adds_prefix(pairs, i + 1);
        assert(pairs.take(i + 1).drop_last() =~= pairs.take(i));
    } else {
        assert(pairs.take(i) =~= pairs);
    }
}

/* --- Key counts ----------------------------------------------------------- */

proof fn lemma_without_shrinks(e: Entries, name: Seq<char>)
    requires
        e.dom().finite(),
    ensures
        without_header(e, name).dom().finite(),
        without_header(e, name).dom().len() <= e.dom().len(),
{
    match header_key(name) {
        Some(k) => {
            assert(e.remove(k).dom() =~= e.dom().remove(k));
        },
        None => {},
    }
}

/// Removing headers never adds names.
pub proof fn lemma_remove_all_shrinks(e: Entries, names: Seq<Seq<char>>)
    requires
        e.dom().finite(),
    ensures
        remove_all(e, names).dom().finite(),
        remove_all(e, names).dom().len() <= e.dom().len(),
    decreases names.len(),
{
    if names.len() > 0 {
        lemma_remove_all_shrinks(e, names.drop_last());
        lemma_without_shrinks(remove_all(e, names.drop_last()), names.last());
    }
}

/// The CSP handling never adds a header name.
pub proof fn lemma_csp_shrinks(e: Entries, mode: Seq<char>)
    requires
        e.dom().finite(),
    ensures
        csp_effect(e, mode).dom().finite(),
        csp_effect(e, mode).dom().len() <= e.dom().len(),
{
    let k = "content-security-policy"@;
    lemma_without_shrinks(e, k);
    if let Some(b) = first_value(e, k) {
        if let Some(t) = value_text(b) {
            assert(header_key(k) is Some);
            assert(e.contains_key(lower_text(k)));
            assert(lower_text(k) =~= k) by {
                reveal_strlit("content-security-policy");
            }
            assert(e.insert(k, seq![encode_utf8(replace_seq(t, "connect-src 'self'"@, "connect-src *"@))]).dom() =~= e.dom());
        }
    }
}

/// Stripping the WebSocket offers never adds a name.
pub proof fn lemma_ws_keeps_room(e: Entries)
    requires
        e.dom().finite(),
    ensures
        crate::proxy::websocket_stripped(e).dom().finite(),
        crate::proxy::websocket_stripped(e).dom().len() <= e.dom().len(),
{
    lemma_without_shrinks(e, "sec-websocket-extensions"@);
    lemma_without_shrinks(without_header(e, "sec-websocket-extensions"@), "sec-websocket-protocol"@);
}

/* --- Applying modifiers --------------------------------------------------- */

/// Applies the CSP handling `mode` to `headers`.
pub fn handle_csp(headers: &mut HeaderMap, mode: &str)
    requires
        header_room(*old(headers), csp_inserts(header_entries(*old(headers)), mode@)),
    ensures
        header_entries(*final(headers)) == csp_effect(header_entries(*old(headers)), mode@),
{
    let key = "content-security-policy";
    proof {
        reveal_strlit("content-security-policy");
        assert(lower_text(key@) =~= key@);
    }
    let ghost e = header_entries(*headers);
    if str_eq(mode, "remove_nonce") {
        let has_nonce: Option<bool> = match header_get(headers, key) {
            Some(v) => match header_value_str(v) {
                Some(t) => {
                    proof {
                        lemma_visible_text(t@);
                    }
                    Some(contains(t, "'nonce-"))
                },
                None => None,
            },
            None => None,
        };
        if let Some(true) = has_nonce {
            header_remove(headers, key);
        }
    } else if str_eq(mode, "remove_all") {
        header_remove(headers, key);
    } else if str_eq(mode, "relax_connect_src") {
        let relaxed: Option<String> = match header_get(headers, key) {
            Some(v) => match header_value_str(v) {
                Some(t) => {
                    proof {
                        lemma_visible_text(t@);
                        reveal_strlit("connect-src 'self'");
                    }
                    Some(replace_all(t, "connect-src 'self'", "connect-src *"))
                },
                None => None,
            },
            None => None,
        };
        if let Some(new_csp) = relaxed {
            match parse_header_value(new_csp.as_str()) {
                Some(val) => {
                    proof {
                        reveal_strlit("relax_connect_src");
                        assert(relax_inserts(e, mode@));
                    }
                    if let Some(name) = parse_header_name(key) {
                        header_insert(headers, name, val);
                    }
                },
                None => {
                    header_remove(headers, key);
                },
            }
        }
    }
}

/// Removes each header of `names` from `headers`.
fn remove_headers(headers: &mut HeaderMap, names: &Vec<String>)
    ensures
        header_entries(*final(headers)) == remove_all(
            header_entries(*old(headers)),
            strings_view(names@),
        ),
{
    let ghost e = header_entries(*headers);
    let ghost nv = strings_view(names@);
    let mut i: usize = 0;
    while i < names.len()
        invariant
            i <= names.len(),
            nv == strings_view(names@),
            header_entries(*headers) == remove_all(e, nv.take(i as int)),
        decreases names.len() - i,
    {
        assert(nv.take(i + 1).drop_last() =~= nv.take(i as int));
        header_remove(headers, names[i].as_str());
        i += 1;
    }
    assert(nv.take(names.len() as int) =~= nv);
}

/// Sets each header of `pairs` on `headers`, in order, skipping invalid
/// names and values.
fn add_headers(headers: &mut HeaderMap, pairs: &Vec<(String, String)>)
    requires
        header_room(*old(headers), valid_adds(pairs_view(pairs@))),
    ensures
        header_entries(*final(headers)) == add_all(header_entries(*old(headers)), pairs_view(pairs@)),
{
    let ghost e = header_entries(*headers);
    let ghost pv = pairs_view(pairs@);
    let mut i: usize = 0;
    while i < pairs.len()
        invariant
            i <= pairs.len(),
            pv == pairs_view(pairs@),
            header_entries(*headers) == add_all(e, pv.take(i as int)),
            valid_adds(pv) > 0 ==> e.dom().finite() && e.dom().len() + valid_adds(pv) <= 6554,
            valid_adds(pv) > 0 ==> header_entries(*headers).dom().finite()
                && header_entries(*headers).dom().len() <= e.dom().len() + valid_adds(pv.take(i as int)),
        decreases pairs.len() - i,
    {
        assert(pv.take(i + 1).drop_last() =~= pv.take(i as int));
        assert(pv.take(i + 1).last() == pair_view(pairs@[i as int]));
        proof {
            lemma_valid_adds_prefix(pv, i + 1);
        }
        let name = pairs[i].0.as_str();
        let value = pairs[i].1.as_str();
        if let Some(n) = parse_header_name(name) {
            if let Some(v) = parse_header_value(value) {
                header_insert(headers, n, v);
            }
        }
        i += 1;
    }
    assert(pv.take(pairs.len() as int) =~= pv);
}

/// Applies a response modifier to the headers of a response: CSP handling,
/// then removals, then additions.
pub fn apply_response_modifiers(headers: &mut HeaderMap, config: &ResponseModifier)
    requires
        header_room(
            *old(headers),
            room_needed(header_entries(*old(headers)), config@.csp, config@.add_headers),
        ),
    ensures
        header_entries(*final(headers)) == response_effect(header_entries(*old(headers)), config@),
{
    let ghost e = header_entries(*headers);
    if let Some(csp_mode) = &config.csp {
        handle_csp(headers, csp_mode.as_str());
        proof {
            if room_needed(e, config@.csp, config@.add_headers) > 0 {
                lemma_csp_shrinks(e, csp_mode@);
            }
        }
    }
    let ghost e1 = header_entries(*headers);
    if let Some(remove) = &config.remove_headers {
        remove_headers(headers, remove);
        proof {
            if room_needed(e, config@.csp, config@.add_headers) > 0 {
                lemma_remove_all_shrinks(e1, strings_view(remove@));
            }
        }
    }
    if let Some(add) = &config.add_headers {
        add_headers(headers, add);
    }
}

/// Applies a request modifier to the headers of a request: removals, then
/// additions.
pub fn apply_request_modifiers(headers: &mut HeaderMap, config: &RequestModifier)
    requires
        header_room(*old(headers), valid_adds(pairs_or_none(config@.add_headers))),
    ensures
        header_entries(*final(headers)) == request_effect(header_entries(*old(headers)), config@),
{
    let ghost e = header_entries(*headers);
    if let Some(remove) = &config.remove_headers {
        remove_headers(headers, remove);
        proof {
            if valid_adds(pairs_or_none(config@.add_headers)) > 0 {
                lemma_remove_all_shrinks(e, strings_view(remove@));
            }
        }
    }
    if let Some(add) = &config.add_headers {
        add_headers(headers, add);
    }
}


/* --- Room the modifiers need ------------------------------------------------- */

/// How many of `pairs` are set (see `valid_adds`).
fn count_valid_adds(pairs: &Vec<(String, String)>) -> (r: usize)
    ensures
        r == valid_adds(pairs_view(pairs@)),
{
    let ghost pv = pairs_view(pairs@);
    let mut count: usize = 0;
    let mut i: usize = 0;
    while i < pairs.len()
        invariant
            i <= pairs.len(),
            pv == pairs_view(pairs@),
            count == valid_adds(pv.take(i as int)),
            count <= i,
        decreases pairs.len() - i,
    {
        assert(pv.take(i + 1).drop_last() =~= pv.take(i as int));
        assert(pv.take(i + 1).last() == pair_view(pairs@[i as int]));
        let name_ok = parse_header_name(pairs[i].0.as_str()).is_some();
        let value_ok = parse_header_value(pairs[i].1.as_str()).is_some();
        if name_ok && value_ok {
            count += 1;
        }
        i += 1;
    }
    assert(pv.take(pairs.len() as int) =~= pv);
    count
}

fn count_adds(pairs: &Option<Vec<(String, String)>>) -> (r: usize)
    ensures
        r == valid_adds(pairs_or_none(crate::config::opt_pairs_view(*pairs))),
{
    match pairs {
        Some(p) => count_valid_adds(p),
        None => 0,
    }
}

/// The room in the map that a request modifier's inserts need.
pub fn request_room(config: &RequestModifier) -> (r: usize)
    ensures
        r == valid_adds(pairs_or_none(config@.add_headers)),
{
    count_adds(&config.add_headers)
}

/// The room in `headers` that a response modifier's inserts need (see
/// `room_needed`).
pub fn response_room(headers: &HeaderMap, config: &ResponseModifier) -> (r: usize)
    ensures
        r == room_needed(header_entries(*headers), config@.csp, config@.add_headers),
{
    let v = count_adds(&config.add_headers);
    if v > 0 {
        return v;
    }
    match &config.csp {
        Some(mode) => {
            proof {
                reveal_strlit("relax_connect_src");
            }
            if str_eq(mode.as_str(), "relax_connect_src")
                && crate::headers::header_text(headers, "content-security-policy").is_some() {
                1
            } else {
                0
            }
        },
        None => 0,
    }
}

/* --- Laws of the modifiers ------------------------------------------------------ */

/// Relaxing `connect-src` rewrites a textual policy header and never drops
/// it.
pub proof fn law_relax_keeps_policy(e: Entries)
    requires
        header_text_spec(e, "content-security-policy"@) is Some,
    ensures
        csp_effect(e, "relax_connect_src"@) == e.insert(
            "content-security-policy"@,
            seq![
                encode_utf8(
                    replace_seq(
                        header_text_spec(e, "content-security-policy"@)->0,
                        "connect-src 'self'"@,
                        "connect-src *"@,
                    ),
                ),
            ],
        ),
{
    reveal_strlit("relax_connect_src");
    reveal_strlit("remove_nonce");
    reveal_strlit("remove_all");
    reveal_strlit("connect-src *");
    let k = "content-security-policy"@;
    let b = first_value(e, k)->0;
    let t = header_text_spec(e, k)->0;
    lemma_byte_text_visible(b);
    assert(visible_chars("connect-src *"@));
    lemma_replace_visible(t, "connect-src 'self'"@, "connect-src *"@);
    lemma_visible_value_ok(replace_seq(t, "connect-src 'self'"@, "connect-src *"@));
    assert(value_text(b) == Some(t));
    assert("relax_connect_src"@.len() != "remove_nonce"@.len());
    assert("relax_connect_src"@.len() != "remove_all"@.len());
    assert(csp_effect(e, "relax_connect_src"@) == relaxed_csp(e, t));
}

/// `remove_nonce` drops a textual policy exactly when it mentions `'nonce-`
/// anywhere, and otherwise leaves every header alone; `remove_all` drops the
/// policy whatever it says; `keep` changes nothing. No mode touches another
/// header.
pub proof fn law_csp_modes(e: Entries, k: Seq<char>)
    requires
        k != "content-security-policy"@,
    ensures
        header_text_spec(e, "content-security-policy"@) matches Some(t) ==> (contains_seq(t, "'nonce-"@)
            ==> !csp_effect(e, "remove_nonce"@).contains_key("content-security-policy"@)),
        header_text_spec(e, "content-security-policy"@) matches Some(t) ==> (!contains_seq(t, "'nonce-"@)
            ==> csp_effect(e, "remove_nonce"@) == e),
        header_text_spec(e, "content-security-policy"@) is None ==> csp_effect(e, "remove_nonce"@) == e,
        !csp_effect(e, "remove_all"@).contains_key("content-security-policy"@),
        csp_effect(e, "keep"@) == e,
        csp_effect(e, "remove_nonce"@).contains_key(k) == e.contains_key(k),
        csp_effect(e, "remove_nonce"@).contains_key(k) ==> csp_effect(e, "remove_nonce"@)[k] == e[k],
        csp_effect(e, "remove_all"@).contains_key(k) == e.contains_key(k),
        csp_effect(e, "remove_all"@).contains_key(k) ==> csp_effect(e, "remove_all"@)[k] == e[k],
{
    reveal_strlit("content-security-policy");
    reveal_strlit("remove_nonce");
    reveal_strlit("remove_all");
    reveal_strlit("relax_connect_src");
    reveal_strlit("keep");
    let c = "content-security-policy"@;
    assert(lower_text(c) =~= c);
    assert(header_key(c) == Some(c));
    assert("remove_all"@ != "remove_nonce"@) by {
        assert("remove_all"@.len() != "remove_nonce"@.len());
    }
    assert("keep"@.len() != "remove_nonce"@.len());
    assert("keep"@.len() != "remove_all"@.len());
    assert("keep"@.len() != "relax_connect_src"@.len());
}

/// A header that a modifier adds ends up holding exactly the added value,
/// unless a later pair of the modifier names the same header.
pub proof fn law_added_header_holds_value(e: Entries, pairs: Seq<(Seq<char>, Seq<char>)>, i: int)
    requires
        0 <= i < pairs.len(),
        header_key(pairs[i].0) is Some,
        value_bytes_ok(encode_utf8(pairs[i].1)),
        forall|j: int| i < j < pairs.len() ==> header_key(#[trigger] pairs[j].0) != header_key(pairs[i].0),
    ensures
        add_all(e, pairs).contains_key(header_key(pairs[i].0)->0),
        add_all(e, pairs)[header_key(pairs[i].0)->0] == seq![encode_utf8(pairs[i].1)],
    decreases pairs.len(),
{
    if i < pairs.len() - 1 {
        let init = pairs.drop_last();
        assert(init[i] == pairs[i]);
        assert forall|j: int| i < j < init.len() implies header_key(#[trigger] init[j].0) != header_key(init[i].0) by {
            assert(init[j] == pairs[j]);
        }
        law_added_header_holds_value(e, init, i);
        assert(header_key(pairs.last().0) != header_key(pairs[i].0));
    }
}

proof fn lemma_remove_all_absent(e: Entries, names: Seq<Seq<char>>, n: Seq<char>)
    requires
        names.contains(n),
        header_key(n) is Some,
    ensures
        !remove_all(e, names).contains_key(header_key(n)->0),
    decreases names.len(),
{
    if names.last() != n {
        let i = choose|i: int| 0 <= i < names.len() && names[i] == n;
        assert(names.drop_last()[i] == n);
        lemma_remove_all_absent(e, names.drop_last(), n);
    }
}

proof fn lemma_add_all_keeps_absent(e: Entries, pairs: Seq<(Seq<char>, Seq<char>)>, k: Seq<char>)
    requires
        !e.contains_key(k),
        forall|j: int| 0 <= j < pairs.len() ==> header_key(#[trigger] pairs[j].0) != Some(k),
    ensures
        !add_all(e, pairs).contains_key(k),
    decreases pairs.len(),
{
    if pairs.len() > 0 {
        assert forall|j: int| 0 <= j < pairs.drop_last().len() implies header_key(
            #[trigger] pairs.drop_last()[j].0,
        ) != Some(k) by {
            assert(pairs.drop_last()[j] == pairs[j]);
        }
        lemma_add_all_keeps_absent(e, pairs.drop_last(), k);
        assert(header_key(pairs.last().0) != Some(k));
    }
}

/// A header that a modifier removes is gone afterwards, unless the modifier
/// also adds it.
pub proof fn law_removed_header_absent(
    e: Entries,
    names: Seq<Seq<char>>,
    pairs: Seq<(Seq<char>, Seq<char>)>,
    n: Seq<char>,
)
    requires
        names.contains(n),
        header_key(n) is Some,
        forall|j: int| 0 <= j < pairs.len() ==> header_key(#[trigger] pairs[j].0) != header_key(n),
    ensures
        !add_all(remove_all(e, names), pairs).contains_key(header_key(n)->0),
{
    lemma_remove_all_absent(e, names, n);
    lemma_add_all_keeps_absent(remove_all(e, names), pairs, header_key(n)->0);
}

} // verus!
