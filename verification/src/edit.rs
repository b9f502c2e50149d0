use vstd::prelude::*;
use crate::config::{
    opt_pairs_view, opt_strings_view, pair_view, pairs_view, request_rules_view,
    response_rules_view, script_rules_view, Config, ConfigView, RequestModifier,
    RequestModifierView, ResponseModifier, ResponseModifierView, ScriptRule, ScriptRuleView,
};
use crate::html::{
    opt_rules, request_card, request_card_spec, request_section, request_section_spec,
    response_card, response_card_spec, response_section, response_section_spec, script_card,
    script_card_spec, scripts_section, scripts_section_spec,
};
use crate::text::{
    digit_char,
    comma_list, contains, contains_seq, decimal, parse_comma_list, push_decimal, str_eq,
    strings_view, to_chars,
};

verus! {

/// Name/value pairs by characters; with distinct names they stand for a map.
pub type Pairs = Seq<(Seq<char>, Seq<char>)>;

/* --- Name/value pairs as a map ------------------------------------------- */

/// The index of the first pair named `k`.
pub open spec fn key_index(v: Pairs, k: Seq<char>) -> Option<int> {
    if exists|i: int| 0 <= i < v.len() && v[i].0 == k {
        Some(
            choose|i: int|
                0 <= i < v.len() && v[i].0 == k && forall|j: int| 0 <= j < i ==> v[j].0 != k,
        )
    } else {
        None
    }
}

/// The value of `k`.
pub open spec fn map_get(v: Pairs, k: Seq<char>) -> Option<Seq<char>> {
    match key_index(v, k) {
        Some(i) => Some(v[i].1),
        None => None,
    }
}

/// `k` set to `x`: its pair replaced in place, or a new pair at the end.
pub open spec fn map_insert(v: Pairs, k: Seq<char>, x: Seq<char>) -> Pairs {
    match key_index(v, k) {
        Some(i) => v.update(i, (k, x)),
        None => v.push((k, x)),
    }
}

/// The pair named `k` taken out.
pub open spec fn map_remove(v: Pairs, k: Seq<char>) -> Pairs {
    match key_index(v, k) {
        Some(i) => v.remove(i),
        None => v,
    }
}

/// No name occurs twice.
pub open spec fn distinct_keys(v: Pairs) -> bool {
    forall|i: int, j: int| 0 <= i < j < v.len() ==> v[i].0 != v[j].0
}

/// Each pair `(old, new)` of `form`, in order, renames header `old` to `new`
/// (keeping its value) when `old` is present.
pub open spec fn rename_all(v: Pairs, form: Pairs) -> Pairs
    decreases form.len(),
{
    if form.len() == 0 {
        v
    } else {
        let w = rename_all(v, form.drop_last());
        let o = form.last().0;
        let n = form.last().1;
        match map_get(w, o) {
            Some(x) => map_insert(map_remove(w, o), n, x),
            None => w,
        }
    }
}

/// Each pair `(name, value)` of `form`, in order, sets the value of header
/// `name` when it is present.
pub open spec fn set_values(v: Pairs, form: Pairs) -> Pairs
    decreases form.len(),
{
    if form.len() == 0 {
        v
    } else {
        let w = set_values(v, form.drop_last());
        let k = form.last().0;
        match map_get(w, k) {
            Some(_) => map_insert(w, k, form.last().1),
            None => w,
        }
    }
}

/// The name given to the n-th added header.
pub open spec fn new_header_key(n: nat) -> Seq<char> {
    "key"@ + decimal(n)
}

pub open spec fn pairs_or_empty(o: Option<Pairs>) -> Pairs {
    match o {
        Some(v) => v,
        None => Seq::empty(),
    }
}

pub open spec fn list_or_empty(o: Option<Seq<Seq<char>>>) -> Seq<Seq<char>> {
    match o {
        Some(v) => v,
        None => Seq::empty(),
    }
}

/// Finds the pair named `k`.
pub fn find_key(v: &Vec<(String, String)>, k: &str) -> (r: Option<usize>)
    ensures
        match r {
            Some(i) => i < v.len() && key_index(pairs_view(v@), k@) == Some(i as int),
            None => key_index(pairs_view(v@), k@) is None,
        },
{
    let ghost pv = pairs_view(v@);
    let mut i: usize = 0;
    while i < v.len()
        invariant
            i <= v.len(),
            pv == pairs_view(v@),
            forall|j: int| 0 <= j < i ==> pv[j].0 != k@,
        decreases v.len() - i,
    {
        if str_eq(v[i].0.as_str(), k) {
            let ghost m = choose|m: int|
                0 <= m < pv.len() && pv[m].0 == k@ && forall|j: int| 0 <= j < m ==> pv[j].0 != k@;
            assert(pv[i as int].0 == k@);
            assert(m == i as int) by {
                if m > i {
                    assert(pv[i as int].0 == k@);
                }
            }
            return Some(i);
        }
        i += 1;
    }
    None
}

/// Sets `k` to `x` (`HashMap::insert`).
pub fn pairs_insert(v: &mut Vec<(String, String)>, k: String, x: String)
    ensures
        pairs_view(final(v)@) == map_insert(pairs_view(old(v)@), k@, x@),
{
    match find_key(v, k.as_str()) {
        Some(i) => {
            v.set(i, (k, x));
            assert(pairs_view(v@) =~= pairs_view(old(v)@).update(i as int, (k@, x@)));
        },
        None => {
            v.push((k, x));
            assert(pairs_view(v@) =~= pairs_view(old(v)@).push((k@, x@)));
        },
    }
}

/// Takes out the pair named `k`, giving its value (`HashMap::remove`).
pub fn pairs_remove(v: &mut Vec<(String, String)>, k: &str) -> (r: Option<String>)
    ensures
        pairs_view(final(v)@) == map_remove(pairs_view(old(v)@), k@),
        match r {
            Some(x) => map_get(pairs_view(old(v)@), k@) == Some(x@),
            None => map_get(pairs_view(old(v)@), k@) is None,
        },
{
    match find_key(v, k) {
        Some(i) => {
            let p = v.remove(i);
            assert(pairs_view(v@) =~= pairs_view(old(v)@).remove(i as int));
            Some(p.1)
        },
        None => None,
    }
}

/// Whether a pair is named `k` (`HashMap::contains_key`).
pub fn pairs_contains(v: &Vec<(String, String)>, k: &str) -> (r: bool)
    ensures
        r == (map_get(pairs_view(v@), k@) is Some),
{
    find_key(v, k).is_some()
}

/* --- Headers of one modifier --------------------------------------------- */

/// The value that a form gives last, if any.
pub open spec fn last_value(form: Pairs) -> Option<Seq<char>> {
    if form.len() == 0 {
        None
    } else {
        Some(form.last().1)
    }
}


/// The added headers after adding the placeholder `key{n}` = `value`.
pub open spec fn added_with_default(o: Option<Pairs>) -> Option<Pairs> {
    Some(map_insert(pairs_or_empty(o), new_header_key(pairs_or_empty(o).len()), "value"@))
}

/// The added headers without `key`.
pub open spec fn added_without(o: Option<Pairs>, key: Seq<char>) -> Option<Pairs> {
    match o {
        Some(v) => Some(map_remove(v, key)),
        None => None,
    }
}

/// The added headers renamed as `form` says.
pub open spec fn added_renamed(o: Option<Pairs>, form: Pairs) -> Option<Pairs> {
    match o {
        Some(v) => Some(rename_all(v, form)),
        None => None,
    }
}

/// The added headers with values set as `form` says.
pub open spec fn added_revalued(o: Option<Pairs>, form: Pairs) -> Option<Pairs> {
    match o {
        Some(v) => Some(set_values(v, form)),
        None => None,
    }
}

/// The headers to remove with an empty name appended.
pub open spec fn removals_with_empty(o: Option<Seq<Seq<char>>>) -> Option<Seq<Seq<char>>> {
    Some(list_or_empty(o).push(Seq::<char>::empty()))
}

/// The headers to remove without the `hi`-th.
pub open spec fn removals_without(o: Option<Seq<Seq<char>>>, hi: int) -> Option<Seq<Seq<char>>> {
    match o {
        Some(v) => Some(
            if 0 <= hi < v.len() {
                v.remove(hi)
            } else {
                v
            },
        ),
        None => None,
    }
}

/// The headers to remove with the `hi`-th set to the last value of `form`.
pub open spec fn removals_set(o: Option<Seq<Seq<char>>>, hi: int, form: Pairs) -> Option<
    Seq<Seq<char>>,
> {
    match o {
        Some(v) => Some(
            if 0 <= hi < v.len() {
                match last_value(form) {
                    Some(x) => v.update(hi, x),
                    None => v,
                }
            } else {
                v
            },
        ),
        None => None,
    }
}

/// Adds a placeholder header `key{n}` = `value`, n being the number of
/// added headers before.
pub fn add_default_header(h: &mut Option<Vec<(String, String)>>)
    ensures
        opt_pairs_view(*final(h)) == added_with_default(opt_pairs_view(*old(h))),
{
    let mut v = match h.take() {
        Some(v) => v,
        None => Vec::new(),
    };
    assert(pairs_view(v@) == pairs_or_empty(opt_pairs_view(*old(h))));
    let n = v.len();
    let mut key = String::from_str("key");
    push_decimal(&mut key, n as u64);
    pairs_insert(&mut v, key, String::from_str("value"));
    *h = Some(v);
}

/// Removes the added header `key`, if any.
pub fn remove_added_header(h: &mut Option<Vec<(String, String)>>, key: &str)
    ensures
        opt_pairs_view(*final(h)) == added_without(opt_pairs_view(*old(h)), key@),
{
    if let Some(v) = h.take() {
        let mut v = v;
        pairs_remove(&mut v, key);
        *h = Some(v);
    }
}

/// Renames added headers as `form` says, pair by pair.
pub fn rename_added_headers(h: &mut Option<Vec<(String, String)>>, form: &Vec<(String, String)>)
    ensures
        opt_pairs_view(*final(h)) == added_renamed(opt_pairs_view(*old(h)), pairs_view(form@)),
{
    if let Some(v) = h.take() {
        let mut v = v;
        let ghost start = pairs_view(v@);
        let ghost fv = pairs_view(form@);
        let mut i: usize = 0;
        while i < form.len()
            invariant
                i <= form.len(),
                fv == pairs_view(form@),
                pairs_view(v@) == rename_all(start, fv.take(i as int)),
            decreases form.len() - i,
        {
            assert(fv.take(i + 1).drop_last() =~= fv.take(i as int));
            assert(fv.take(i + 1).last() == pair_view(form@[i as int]));
            let r = pairs_remove(&mut v, form[i].0.as_str());
            match r {
                Some(val) => {
                    pairs_insert(&mut v, form[i].1.clone(), val);
                },
                None => {},
            }
            i += 1;
        }
        assert(fv.take(form.len() as int) =~= fv);
        *h = Some(v);
    }
}

/// Sets the values of present added headers as `form` says, pair by pair.
pub fn set_added_header_values(
    h: &mut Option<Vec<(String, String)>>,
    form: &Vec<(String, String)>,
)
    ensures
        opt_pairs_view(*final(h)) == added_revalued(opt_pairs_view(*old(h)), pairs_view(form@)),
{
    if let Some(v) = h.take() {
        let mut v = v;
        let ghost start = pairs_view(v@);
        let ghost fv = pairs_view(form@);
        let mut i: usize = 0;
        while i < form.len()
            invariant
                i <= form.len(),
                fv == pairs_view(form@),
                pairs_view(v@) == set_values(start, fv.take(i as int)),
            decreases form.len() - i,
        {
            assert(fv.take(i + 1).drop_last() =~= fv.take(i as int));
            assert(fv.take(i + 1).last() == pair_view(form@[i as int]));
            if pairs_contains(&v, form[i].0.as_str()) {
                pairs_insert(&mut v, form[i].0.clone(), form[i].1.clone());
            }
            i += 1;
        }
        assert(fv.take(form.len() as int) =~= fv);
        *h = Some(v);
    }
}

/// Appends an empty header name to the headers to remove.
pub fn add_empty_removal(l: &mut Option<Vec<String>>)
    ensures
        opt_strings_view(*final(l)) == removals_with_empty(opt_strings_view(*old(l))),
{
    let mut v = match l.take() {
        Some(v) => v,
        None => Vec::new(),
    };
    assert(strings_view(v@) == list_or_empty(opt_strings_view(*old(l))));
    v.push(String::new());
    assert(strings_view(v@) =~= list_or_empty(opt_strings_view(*old(l))).push(
        Seq::<char>::empty(),
    ));
    *l = Some(v);
}

/// Removes the `hi`-th header to remove, when there is one.
pub fn remove_removal_at(l: &mut Option<Vec<String>>, hi: usize)
    ensures
        opt_strings_view(*final(l)) == removals_without(opt_strings_view(*old(l)), hi as int),
{
    if let Some(v) = l.take() {
        let mut v = v;
        if hi < v.len() {
            v.remove(hi);
            assert(strings_view(v@) =~= strings_view(old(l)->0@).remove(hi as int));
        }
        *l = Some(v);
    }
}

/// Sets the `hi`-th header to remove to each value of `form` in turn (the
/// last one stays), when there is such a header.
pub fn set_removal_at(l: &mut Option<Vec<String>>, hi: usize, form: &Vec<(String, String)>)
    ensures
        opt_strings_view(*final(l)) == removals_set(
            opt_strings_view(*old(l)),
            hi as int,
            pairs_view(form@),
        ),
{
    if let Some(v) = l.take() {
        let mut v = v;
        if hi < v.len() {
            let ghost start = strings_view(v@);
            let mut i: usize = 0;
            while i < form.len()
                invariant
                    i <= form.len(),
                    hi < v.len(),
                    strings_view(v@) == (if i == 0 {
                        start
                    } else {
                        start.update(hi as int, form@[i - 1].1@)
                    }),
                    start.len() == v.len(),
                decreases form.len() - i,
            {
                let ghost prev = strings_view(v@);
                let val = form[i].1.clone();
                assert(val@ == form@[i as int].1@);
                v.set(hi, val);
                assert(strings_view(v@) =~= prev.update(hi as int, form@[i as int].1@));
                i += 1;
                assert(strings_view(v@) =~= start.update(hi as int, form@[i - 1].1@));
            }
            assert(form.len() > 0 ==> pairs_view(form@).last() == pair_view(form@[form.len() - 1]));
        }
        *l = Some(v);
    }
}

/* --- Rules of the configuration ------------------------------------------ */

pub open spec fn response_exists(c: ConfigView, idx: int) -> bool {
    c.modify_response is Some && 0 <= idx < c.modify_response->0.len()
}

pub open spec fn request_exists(c: ConfigView, idx: int) -> bool {
    c.modify_request is Some && 0 <= idx < c.modify_request->0.len()
}

pub open spec fn script_exists(c: ConfigView, idx: int) -> bool {
    c.scripts is Some && 0 <= idx < c.scripts->0.len()
}

pub open spec fn response_at(c: ConfigView, idx: int) -> ResponseModifierView {
    c.modify_response->0[idx]
}

pub open spec fn request_at(c: ConfigView, idx: int) -> RequestModifierView {
    c.modify_request->0[idx]
}

pub open spec fn script_at(c: ConfigView, idx: int) -> ScriptRuleView {
    c.scripts->0[idx]
}

/// `c` with response modifier `idx` replaced by `r`.
pub open spec fn with_response(c: ConfigView, idx: int, r: ResponseModifierView) -> ConfigView {
    ConfigView { modify_response: Some(c.modify_response->0.update(idx, r)), ..c }
}

/// `c` with request modifier `idx` replaced by `r`.
pub open spec fn with_request(c: ConfigView, idx: int, r: RequestModifierView) -> ConfigView {
    ConfigView { modify_request: Some(c.modify_request->0.update(idx, r)), ..c }
}

/// `c` with script rule `idx` replaced by `r`.
pub open spec fn with_script(c: ConfigView, idx: int, r: ScriptRuleView) -> ConfigView {
    ConfigView { scripts: Some(c.scripts->0.update(idx, r)), ..c }
}

/// A response modifier's fields after an edit form: each pair, in order,
/// sets `domain`, `csp` or `inject_at` (an empty value clears the last two);
/// other names are ignored.
pub open spec fn apply_response_form(r: ResponseModifierView, form: Pairs) -> ResponseModifierView
    decreases form.len(),
{
    if form.len() == 0 {
        r
    } else {
        let w = apply_response_form(r, form.drop_last());
        let f = form.last().0;
        let v = form.last().1;
        let opt = if v.len() == 0 {
            None
        } else {
            Some(v)
        };
        if f == "domain"@ {
            ResponseModifierView { domain: v, ..w }
        } else if f == "csp"@ {
            ResponseModifierView { csp: opt, ..w }
        } else if f == "inject_at"@ {
            ResponseModifierView { inject_at: opt, ..w }
        } else {
            w
        }
    }
}

/// A request modifier's fields after an edit form: `domain` pairs set the
/// domain.
pub open spec fn apply_request_form(r: RequestModifierView, form: Pairs) -> RequestModifierView
    decreases form.len(),
{
    if form.len() == 0 {
        r
    } else {
        let w = apply_request_form(r, form.drop_last());
        if form.last().0 == "domain"@ {
            RequestModifierView { domain: form.last().1, ..w }
        } else {
            w
        }
    }
}

/// A script rule's fields after an edit form: `domain` sets the domain,
/// `scripts` the list of script names.
pub open spec fn apply_script_form(r: ScriptRuleView, form: Pairs) -> ScriptRuleView
    decreases form.len(),
{
    if form.len() == 0 {
        r
    } else {
        let w = apply_script_form(r, form.drop_last());
        let f = form.last().0;
        let v = form.last().1;
        if f == "domain"@ {
            ScriptRuleView { domain: v, ..w }
        } else if f == "scripts"@ {
            ScriptRuleView { scripts: comma_list(v), ..w }
        } else {
            w
        }
    }
}

fn opt_nonempty(v: &String) -> (r: Option<String>)
    ensures
        opt_string_view(r) == (if v@.len() == 0 {
            None::<Seq<char>>
        } else {
            Some(v@)
        }),
{
    if v.as_str().is_empty() {
        None
    } else {
        Some(v.clone())
    }
}

pub open spec fn opt_string_view(o: Option<String>) -> Option<Seq<char>> {
    crate::config::opt_string_view(o)
}

fn update_response_fields(rule: &mut ResponseModifier, form: &Vec<(String, String)>)
    ensures
        final(rule)@ == apply_response_form(old(rule)@, pairs_view(form@)),
{
    let ghost fv = pairs_view(form@);
    let ghost start = rule@;
    let mut i: usize = 0;
    while i < form.len()
        invariant
            i <= form.len(),
            fv == pairs_view(form@),
            rule@ == apply_response_form(start, fv.take(i as int)),
        decreases form.len() - i,
    {
        assert(fv.take(i + 1).drop_last() =~= fv.take(i as int));
        assert(fv.take(i + 1).last() == pair_view(form@[i as int]));
        let field = form[i].0.as_str();
        let value = &form[i].1;
        if str_eq(field, "domain") {
            rule.domain = value.clone();
        } else if str_eq(field, "csp") {
            rule.csp = opt_nonempty(value);
        } else if str_eq(field, "inject_at") {
            rule.inject_at = opt_nonempty(value);
        }
        i += 1;
    }
    assert(fv.take(form.len() as int) =~= fv);
}

fn update_request_fields(rule: &mut RequestModifier, form: &Vec<(String, String)>)
    ensures
        final(rule)@ == apply_request_form(old(rule)@, pairs_view(form@)),
{
    let ghost fv = pairs_view(form@);
    let ghost start = rule@;
    let mut i: usize = 0;
    while i < form.len()
        invariant
            i <= form.len(),
            fv == pairs_view(form@),
            rule@ == apply_request_form(start, fv.take(i as int)),
        decreases form.len() - i,
    {
        assert(fv.take(i + 1).drop_last() =~= fv.take(i as int));
        assert(fv.take(i + 1).last() == pair_view(form@[i as int]));
        if str_eq(form[i].0.as_str(), "domain") {
            rule.domain = form[i].1.clone();
        }
        i += 1;
    }
    assert(fv.take(form.len() as int) =~= fv);
}

fn update_script_fields(rule: &mut ScriptRule, form: &Vec<(String, String)>)
    ensures
        final(rule)@ == apply_script_form(old(rule)@, pairs_view(form@)),
{
    let ghost fv = pairs_view(form@);
    let ghost start = rule@;
    let mut i: usize = 0;
    while i < form.len()
        invariant
            i <= form.len(),
            fv == pairs_view(form@),
            rule@ == apply_script_form(start, fv.take(i as int)),
        decreases form.len() - i,
    {
        assert(fv.take(i + 1).drop_last() =~= fv.take(i as int));
        assert(fv.take(i + 1).last() == pair_view(form@[i as int]));
        let field = form[i].0.as_str();
        if str_eq(field, "domain") {
            rule.domain = form[i].1.clone();
        } else if str_eq(field, "scripts") {
            rule.scripts = parse_comma_list(form[i].1.as_str());
        }
        i += 1;
    }
    assert(fv.take(form.len() as int) =~= fv);
}

/* --- Adding and removing rules ------------------------------------------- */

pub open spec fn empty_response_view() -> ResponseModifierView {
    ResponseModifierView {
        domain: Seq::empty(),
        csp: None,
        remove_headers: None,
        add_headers: None,
        inject_at: None,
    }
}

pub open spec fn empty_request_view() -> RequestModifierView {
    RequestModifierView { domain: Seq::empty(), remove_headers: None, add_headers: None }
}

pub open spec fn empty_script_view() -> ScriptRuleView {
    ScriptRuleView { domain: Seq::empty(), scripts: Seq::empty() }
}

pub open spec fn or_empty<T>(o: Option<Seq<T>>) -> Seq<T> {
    match o {
        Some(v) => v,
        None => Seq::empty(),
    }
}

/// `c` with an empty response rule appended.
pub open spec fn response_rule_added(c: ConfigView) -> ConfigView {
    ConfigView { modify_response: Some(or_empty(c.modify_response).push(empty_response_view())), ..c }
}

/// `c` without its response rule `idx`, when there is one.
pub open spec fn response_rule_removed(c: ConfigView, idx: int) -> ConfigView {
    if response_exists(c, idx) {
        ConfigView { modify_response: Some(c.modify_response->0.remove(idx)), ..c }
    } else {
        c
    }
}

/// Removing the response rule just added gives the configuration back (when it
/// had a list of such rules).
pub proof fn law_response_rule_add_remove(c: ConfigView)
    requires
        c.modify_response is Some,
    ensures
        response_rule_removed(response_rule_added(c), c.modify_response->0.len() as int) == c,
{
    let v = c.modify_response->0;
    assert(v.push(empty_response_view()).remove(v.len() as int) =~= v);
}

/// Appends an empty response modifier.
pub fn add_response_rule(config: &mut Config)
    ensures
        final(config)@ == response_rule_added(old(config)@),
{
    let ghost c0 = config@;
    let mut rules = match config.modify_response.take() {
        Some(r) => r,
        None => Vec::new(),
    };
    let ghost before = response_rules_view(rules@);
    assert(before =~= or_empty(c0.modify_response));
    let d = ResponseModifier::default();
    assert(d@ =~~= empty_response_view());
    rules.push(d);
    assert(response_rules_view(rules@) =~= before.push(empty_response_view()));
    config.modify_response = Some(rules);
}

/// `c` with an empty request rule appended.
pub open spec fn request_rule_added(c: ConfigView) -> ConfigView {
    ConfigView { modify_request: Some(or_empty(c.modify_request).push(empty_request_view())), ..c }
}

/// `c` without its request rule `idx`, when there is one.
pub open spec fn request_rule_removed(c: ConfigView, idx: int) -> ConfigView {
    if request_exists(c, idx) {
        ConfigView { modify_request: Some(c.modify_request->0.remove(idx)), ..c }
    } else {
        c
    }
}

/// Removing the request rule just added gives the configuration back (when it
/// had a list of such rules).
pub proof fn law_request_rule_add_remove(c: ConfigView)
    requires
        c.modify_request is Some,
    ensures
        request_rule_removed(request_rule_added(c), c.modify_request->0.len() as int) == c,
{
    let v = c.modify_request->0;
    assert(v.push(empty_request_view()).remove(v.len() as int) =~= v);
}

/// Appends an empty request modifier.
pub fn add_request_rule(config: &mut Config)
    ensures
        final(config)@ == request_rule_added(old(config)@),
{
    let ghost c0 = config@;
    let mut rules = match config.modify_request.take() {
        Some(r) => r,
        None => Vec::new(),
    };
    let ghost before = request_rules_view(rules@);
    assert(before =~= or_empty(c0.modify_request));
    let d = RequestModifier::default();
    assert(d@ =~~= empty_request_view());
    rules.push(d);
    assert(request_rules_view(rules@) =~= before.push(empty_request_view()));
    config.modify_request = Some(rules);
}

/// `c` with an empty script rule appended.
pub open spec fn script_rule_added(c: ConfigView) -> ConfigView {
    ConfigView { scripts: Some(or_empty(c.scripts).push(empty_script_view())), ..c }
}

/// `c` without its script rule `idx`, when there is one.
pub open spec fn script_rule_removed(c: ConfigView, idx: int) -> ConfigView {
    if script_exists(c, idx) {
        ConfigView { scripts: Some(c.scripts->0.remove(idx)), ..c }
    } else {
        c
    }
}

/// Removing the script rule just added gives the configuration back (when it
/// had a list of such rules).
pub proof fn law_script_rule_add_remove(c: ConfigView)
    requires
        c.scripts is Some,
    ensures
        script_rule_removed(script_rule_added(c), c.scripts->0.len() as int) == c,
{
    let v = c.scripts->0;
    assert(v.push(empty_script_view()).remove(v.len() as int) =~= v);
}

/// Appends an empty script rule.
pub fn add_script_rule(config: &mut Config)
    ensures
        final(config)@ == script_rule_added(old(config)@),
{
    let ghost c0 = config@;
    let mut rules = match config.scripts.take() {
        Some(r) => r,
        None => Vec::new(),
    };
    let ghost before = script_rules_view(rules@);
    assert(before =~= or_empty(c0.scripts));
    let d = ScriptRule::default();
    assert(d@.scripts =~= Seq::<Seq<char>>::empty());
    assert(d@ =~~= empty_script_view());
    rules.push(d);
    assert(script_rules_view(rules@) =~= before.push(empty_script_view()));
    config.scripts = Some(rules);
}

/// Removes response modifier `idx`, when it exists.
pub fn remove_response_rule(config: &mut Config, idx: usize)
    ensures
        final(config)@ == response_rule_removed(old(config)@, idx as int),
{
    if let Some(r) = config.modify_response.take() {
        let mut rules = r;
        if idx < rules.len() {
            let ghost before = response_rules_view(rules@);
            rules.remove(idx);
            assert(response_rules_view(rules@) =~= before.remove(idx as int));
        }
        config.modify_response = Some(rules);
    }
}

/// Removes request modifier `idx`, when it exists.
pub fn remove_request_rule(config: &mut Config, idx: usize)
    ensures
        final(config)@ == request_rule_removed(old(config)@, idx as int),
{
    if let Some(r) = config.modify_request.take() {
        let mut rules = r;
        if idx < rules.len() {
            let ghost before = request_rules_view(rules@);
            rules.remove(idx);
            assert(request_rules_view(rules@) =~= before.remove(idx as int));
        }
        config.modify_request = Some(rules);
    }
}

/// Removes script rule `idx`, when it exists.
pub fn remove_script_rule(config: &mut Config, idx: usize)
    ensures
        final(config)@ == script_rule_removed(old(config)@, idx as int),
{
    if let Some(r) = config.scripts.take() {
        let mut rules = r;
        if idx < rules.len() {
            let ghost before = script_rules_view(rules@);
            rules.remove(idx);
            assert(script_rules_view(rules@) =~= before.remove(idx as int));
        }
        config.scripts = Some(rules);
    }
}

/* --- Editing rules ------------------------------------------------------- */

/// Applies an edit form to response modifier `idx`: `domain`, `csp` and `inject_at` (an empty value clears the last two).
/// Gives whether the rule exists, that is whether anything changed.
pub fn update_response_rule(config: &mut Config, idx: usize, form: &Vec<(String, String)>) -> (mutated: bool)
    ensures
        mutated == response_exists(old(config)@, idx as int),
        mutated ==> final(config)@ == with_response(
            old(config)@,
            idx as int,
            apply_response_form(response_at(old(config)@, idx as int), pairs_view(form@)),
        ),
        !mutated ==> final(config)@ == old(config)@,
{
    match config.modify_response.take() {
        None => false,
        Some(r) => {
            let mut rules = r;
            if idx >= rules.len() {
                config.modify_response = Some(rules);
                return false;
            }
            let ghost before = response_rules_view(rules@);
            let mut rule = rules.remove(idx);
            update_response_fields(&mut rule, form);
            rules.insert(idx, rule);
            config.modify_response = Some(rules);
            assert(response_rules_view(rules@) =~= before.update(idx as int, rule@));
            true
        }
    }
}

/// Adds the placeholder header `key{n}` = `value` to response modifier `idx`.
/// Gives whether the rule exists, that is whether anything changed.
pub fn add_response_header(config: &mut Config, idx: usize) -> (mutated: bool)
    ensures
        mutated == response_exists(old(config)@, idx as int),
        mutated ==> final(config)@ == with_response(
            old(config)@,
            idx as int,
            ResponseModifierView { add_headers: added_with_default(response_at(old(config)@, idx as int).add_headers), ..response_at(old(config)@, idx as int) },
        ),
        !mutated ==> final(config)@ == old(config)@,
{
    match config.modify_response.take() {
        None => false,
        Some(r) => {
            let mut rules = r;
            if idx >= rules.len() {
                config.modify_response = Some(rules);
                return false;
            }
            let ghost before = response_rules_view(rules@);
            let mut rule = rules.remove(idx);
            add_default_header(&mut rule.add_headers);
            rules.insert(idx, rule);
            config.modify_response = Some(rules);
            assert(response_rules_view(rules@) =~= before.update(idx as int, rule@));
            true
        }
    }
}

/// Removes the added header `key` of response modifier `idx`.
/// Gives whether the rule exists, that is whether anything changed.
pub fn remove_response_header(config: &mut Config, idx: usize, key: &str) -> (mutated: bool)
    ensures
        mutated == response_exists(old(config)@, idx as int),
        mutated ==> final(config)@ == with_response(
            old(config)@,
            idx as int,
            ResponseModifierView { add_headers: added_without(response_at(old(config)@, idx as int).add_headers, key@), ..response_at(old(config)@, idx as int) },
        ),
        !mutated ==> final(config)@ == old(config)@,
{
    match config.modify_response.take() {
        None => false,
        Some(r) => {
            let mut rules = r;
            if idx >= rules.len() {
                config.modify_response = Some(rules);
                return false;
            }
            let ghost before = response_rules_view(rules@);
            let mut rule = rules.remove(idx);
            remove_added_header(&mut rule.add_headers, key);
            rules.insert(idx, rule);
            config.modify_response = Some(rules);
            assert(response_rules_view(rules@) =~= before.update(idx as int, rule@));
            true
        }
    }
}

/// Renames added headers of response modifier `idx`: each form pair maps an old name to a new one.
/// Gives whether the rule exists, that is whether anything changed.
pub fn update_response_header_key(config: &mut Config, idx: usize, form: &Vec<(String, String)>) -> (mutated: bool)
    ensures
        mutated == response_exists(old(config)@, idx as int),
        mutated ==> final(config)@ == with_response(
            old(config)@,
            idx as int,
            ResponseModifierView { add_headers: added_renamed(response_at(old(config)@, idx as int).add_headers, pairs_view(form@)), ..response_at(old(config)@, idx as int) },
        ),
        !mutated ==> final(config)@ == old(config)@,
{
    match config.modify_response.take() {
        None => false,
        Some(r) => {
            let mut rules = r;
            if idx >= rules.len() {
                config.modify_response = Some(rules);
                return false;
            }
            let ghost before = response_rules_view(rules@);
            let mut rule = rules.remove(idx);
            rename_added_headers(&mut rule.add_headers, form);
            rules.insert(idx, rule);
            config.modify_response = Some(rules);
            assert(response_rules_view(rules@) =~= before.update(idx as int, rule@));
            true
        }
    }
}

/// Sets values of present added headers of response modifier `idx`: each form pair maps a name to its new value.
/// Gives whether the rule exists, that is whether anything changed.
pub fn update_response_header_val(config: &mut Config, idx: usize, form: &Vec<(String, String)>) -> (mutated: bool)
    ensures
        mutated == response_exists(old(config)@, idx as int),
        mutated ==> final(config)@ == with_response(
            old(config)@,
            idx as int,
            ResponseModifierView { add_headers: added_revalued(response_at(old(config)@, idx as int).add_headers, pairs_view(form@)), ..response_at(old(config)@, idx as int) },
        ),
        !mutated ==> final(config)@ == old(config)@,
{
    match config.modify_response.take() {
        None => false,
        Some(r) => {
            let mut rules = r;
            if idx >= rules.len() {
                config.modify_response = Some(rules);
                return false;
            }
            let ghost before = response_rules_view(rules@);
            let mut rule = rules.remove(idx);
            set_added_header_values(&mut rule.add_headers, form);
            rules.insert(idx, rule);
            config.modify_response = Some(rules);
            assert(response_rules_view(rules@) =~= before.update(idx as int, rule@));
            true
        }
    }
}

/// Appends an empty name to the headers that response modifier `idx` removes.
/// Gives whether the rule exists, that is whether anything changed.
pub fn add_response_remove_header(config: &mut Config, idx: usize) -> (mutated: bool)
    ensures
        mutated == response_exists(old(config)@, idx as int),
        mutated ==> final(config)@ == with_response(
            old(config)@,
            idx as int,
            ResponseModifierView { remove_headers: removals_with_empty(response_at(old(config)@, idx as int).remove_headers), ..response_at(old(config)@, idx as int) },
        ),
        !mutated ==> final(config)@ == old(config)@,
{
    match config.modify_response.take() {
        None => false,
        Some(r) => {
            let mut rules = r;
            if idx >= rules.len() {
                config.modify_response = Some(rules);
                return false;
            }
            let ghost before = response_rules_view(rules@);
            let mut rule = rules.remove(idx);
            add_empty_removal(&mut rule.remove_headers);
            rules.insert(idx, rule);
            config.modify_response = Some(rules);
            assert(response_rules_view(rules@) =~= before.update(idx as int, rule@));
            true
        }
    }
}

/// Drops the `hi`-th header that response modifier `idx` removes, when there is one.
/// Gives whether the rule exists, that is whether anything changed.
pub fn remove_response_remove_header(config: &mut Config, idx: usize, hi: usize) -> (mutated: bool)
    ensures
        mutated == response_exists(old(config)@, idx as int),
        mutated ==> final(config)@ == with_response(
            old(config)@,
            idx as int,
            ResponseModifierView { remove_headers: removals_without(response_at(old(config)@, idx as int).remove_headers, hi as int), ..response_at(old(config)@, idx as int) },
        ),
        !mutated ==> final(config)@ == old(config)@,
{
    match config.modify_response.take() {
        None => false,
        Some(r) => {
            let mut rules = r;
            if idx >= rules.len() {
                config.modify_response = Some(rules);
                return false;
            }
            let ghost before = response_rules_view(rules@);
            let mut rule = rules.remove(idx);
            remove_removal_at(&mut rule.remove_headers, hi);
            rules.insert(idx, rule);
            config.modify_response = Some(rules);
            assert(response_rules_view(rules@) =~= before.update(idx as int, rule@));
            true
        }
    }
}

/// Sets the `hi`-th header that response modifier `idx` removes to the last value of the form, when there is one.
/// Gives whether the rule exists, that is whether anything changed.
pub fn update_response_remove_header(config: &mut Config, idx: usize, hi: usize, form: &Vec<(String, String)>) -> (mutated: bool)
    ensures
        mutated == response_exists(old(config)@, idx as int),
        mutated ==> final(config)@ == with_response(
            old(config)@,
            idx as int,
            ResponseModifierView { remove_headers: removals_set(response_at(old(config)@, idx as int).remove_headers, hi as int, pairs_view(form@)), ..response_at(old(config)@, idx as int) },
        ),
        !mutated ==> final(config)@ == old(config)@,
{
    match config.modify_response.take() {
        None => false,
        Some(r) => {
            let mut rules = r;
            if idx >= rules.len() {
                config.modify_response = Some(rules);
                return false;
            }
            let ghost before = response_rules_view(rules@);
            let mut rule = rules.remove(idx);
            set_removal_at(&mut rule.remove_headers, hi, form);
            rules.insert(idx, rule);
            config.modify_response = Some(rules);
            assert(response_rules_view(rules@) =~= before.update(idx as int, rule@));
            true
        }
    }
}

/// Applies an edit form to request modifier `idx`: its `domain`.
/// Gives whether the rule exists, that is whether anything changed.
pub fn update_request_rule(config: &mut Config, idx: usize, form: &Vec<(String, String)>) -> (mutated: bool)
    ensures
        mutated == request_exists(old(config)@, idx as int),
        mutated ==> final(config)@ == with_request(
            old(config)@,
            idx as int,
            apply_request_form(request_at(old(config)@, idx as int), pairs_view(form@)),
        ),
        !mutated ==> final(config)@ == old(config)@,
{
    match config.modify_request.take() {
        None => false,
        Some(r) => {
            let mut rules = r;
            if idx >= rules.len() {
                config.modify_request = Some(rules);
                return false;
            }
            let ghost before = request_rules_view(rules@);
            let mut rule = rules.remove(idx);
            update_request_fields(&mut rule, form);
            rules.insert(idx, rule);
            config.modify_request = Some(rules);
            assert(request_rules_view(rules@) =~= before.update(idx as int, rule@));
            true
        }
    }
}

/// Adds the placeholder header `key{n}` = `value` to request modifier `idx`.
/// Gives whether the rule exists, that is whether anything changed.
pub fn add_request_header(config: &mut Config, idx: usize) -> (mutated: bool)
    ensures
        mutated == request_exists(old(config)@, idx as int),
        mutated ==> final(config)@ == with_request(
            old(config)@,
            idx as int,
            RequestModifierView { add_headers: added_with_default(request_at(old(config)@, idx as int).add_headers), ..request_at(old(config)@, idx as int) },
        ),
        !mutated ==> final(config)@ == old(config)@,
{
    match config.modify_request.take() {
        None => false,
        Some(r) => {
            let mut rules = r;
            if idx >= rules.len() {
                config.modify_request = Some(rules);
                return false;
            }
            let ghost before = request_rules_view(rules@);
            let mut rule = rules.remove(idx);
            add_default_header(&mut rule.add_headers);
            rules.insert(idx, rule);
            config.modify_request = Some(rules);
            assert(request_rules_view(rules@) =~= before.update(idx as int, rule@));
            true
        }
    }
}

/// Removes the added header `key` of request modifier `idx`.
/// Gives whether the rule exists, that is whether anything changed.
pub fn remove_request_header(config: &mut Config, idx: usize, key: &str) -> (mutated: bool)
    ensures
        mutated == request_exists(old(config)@, idx as int),
        mutated ==> final(config)@ == with_request(
            old(config)@,
            idx as int,
            RequestModifierView { add_headers: added_without(request_at(old(config)@, idx as int).add_headers, key@), ..request_at(old(config)@, idx as int) },
        ),
        !mutated ==> final(config)@ == old(config)@,
{
    match config.modify_request.take() {
        None => false,
        Some(r) => {
            let mut rules = r;
            if idx >= rules.len() {
                config.modify_request = Some(rules);
                return false;
            }
            let ghost before = request_rules_view(rules@);
            let mut rule = rules.remove(idx);
            remove_added_header(&mut rule.add_headers, key);
            rules.insert(idx, rule);
            config.modify_request = Some(rules);
            assert(request_rules_view(rules@) =~= before.update(idx as int, rule@));
            true
        }
    }
}

/// Renames added headers of request modifier `idx`: each form pair maps an old name to a new one.
/// Gives whether the rule exists, that is whether anything changed.
pub fn update_request_header_key(config: &mut Config, idx: usize, form: &Vec<(String, String)>) -> (mutated: bool)
    ensures
        mutated == request_exists(old(config)@, idx as int),
        mutated ==> final(config)@ == with_request(
            old(config)@,
            idx as int,
            RequestModifierView { add_headers: added_renamed(request_at(old(config)@, idx as int).add_headers, pairs_view(form@)), ..request_at(old(config)@, idx as int) },
        ),
        !mutated ==> final(config)@ == old(config)@,
{
    match config.modify_request.take() {
        None => false,
        Some(r) => {
            let mut rules = r;
            if idx >= rules.len() {
                config.modify_request = Some(rules);
                return false;
            }
            let ghost before = request_rules_view(rules@);
            let mut rule = rules.remove(idx);
            rename_added_headers(&mut rule.add_headers, form);
            rules.insert(idx, rule);
            config.modify_request = Some(rules);
            assert(request_rules_view(rules@) =~= before.update(idx as int, rule@));
            true
        }
    }
}

/// Sets values of present added headers of request modifier `idx`: each form pair maps a name to its new value.
/// Gives whether the rule exists, that is whether anything changed.
pub fn update_request_header_val(config: &mut Config, idx: usize, form: &Vec<(String, String)>) -> (mutated: bool)
    ensures
        mutated == request_exists(old(config)@, idx as int),
        mutated ==> final(config)@ == with_request(
            old(config)@,
            idx as int,
            RequestModifierView { add_headers: added_revalued(request_at(old(config)@, idx as int).add_headers, pairs_view(form@)), ..request_at(old(config)@, idx as int) },
        ),
        !mutated ==> final(config)@ == old(config)@,
{
    match config.modify_request.take() {
        None => false,
        Some(r) => {
            let mut rules = r;
            if idx >= rules.len() {
                config.modify_request = Some(rules);
                return false;
            }
            let ghost before = request_rules_view(rules@);
            let mut rule = rules.remove(idx);
            set_added_header_values(&mut rule.add_headers, form);
            rules.insert(idx, rule);
            config.modify_request = Some(rules);
            assert(request_rules_view(rules@) =~= before.update(idx as int, rule@));
            true
        }
    }
}

/// Appends an empty name to the headers that request modifier `idx` removes.
/// Gives whether the rule exists, that is whether anything changed.
pub fn add_request_remove_header(config: &mut Config, idx: usize) -> (mutated: bool)
    ensures
        mutated == request_exists(old(config)@, idx as int),
        mutated ==> final(config)@ == with_request(
            old(config)@,
            idx as int,
            RequestModifierView { remove_headers: removals_with_empty(request_at(old(config)@, idx as int).remove_headers), ..request_at(old(config)@, idx as int) },
        ),
        !mutated ==> final(config)@ == old(config)@,
{
    match config.modify_request.take() {
        None => false,
        Some(r) => {
            let mut rules = r;
            if idx >= rules.len() {
                config.modify_request = Some(rules);
                return false;
            }
            let ghost before = request_rules_view(rules@);
            let mut rule = rules.remove(idx);
            add_empty_removal(&mut rule.remove_headers);
            rules.insert(idx, rule);
            config.modify_request = Some(rules);
            assert(request_rules_view(rules@) =~= before.update(idx as int, rule@));
            true
        }
    }
}

/// Drops the `hi`-th header that request modifier `idx` removes, when there is one.
/// Gives whether the rule exists, that is whether anything changed.
pub fn remove_request_remove_header(config: &mut Config, idx: usize, hi: usize) -> (mutated: bool)
    ensures
        mutated == request_exists(old(config)@, idx as int),
        mutated ==> final(config)@ == with_request(
            old(config)@,
            idx as int,
            RequestModifierView { remove_headers: removals_without(request_at(old(config)@, idx as int).remove_headers, hi as int), ..request_at(old(config)@, idx as int) },
        ),
        !mutated ==> final(config)@ == old(config)@,
{
    match config.modify_request.take() {
        None => false,
        Some(r) => {
            let mut rules = r;
            if idx >= rules.len() {
                config.modify_request = Some(rules);
                return false;
            }
            let ghost before = request_rules_view(rules@);
            let mut rule = rules.remove(idx);
            remove_removal_at(&mut rule.remove_headers, hi);
            rules.insert(idx, rule);
            config.modify_request = Some(rules);
            assert(request_rules_view(rules@) =~= before.update(idx as int, rule@));
            true
        }
    }
}

/// Sets the `hi`-th header that request modifier `idx` removes to the last value of the form, when there is one.
/// Gives whether the rule exists, that is whether anything changed.
pub fn update_request_remove_header(config: &mut Config, idx: usize, hi: usize, form: &Vec<(String, String)>) -> (mutated: bool)
    ensures
        mutated == request_exists(old(config)@, idx as int),
        mutated ==> final(config)@ == with_request(
            old(config)@,
            idx as int,
            RequestModifierView { remove_headers: removals_set(request_at(old(config)@, idx as int).remove_headers, hi as int, pairs_view(form@)), ..request_at(old(config)@, idx as int) },
        ),
        !mutated ==> final(config)@ == old(config)@,
{
    match config.modify_request.take() {
        None => false,
        Some(r) => {
            let mut rules = r;
            if idx >= rules.len() {
                config.modify_request = Some(rules);
                return false;
            }
            let ghost before = request_rules_view(rules@);
            let mut rule = rules.remove(idx);
            set_removal_at(&mut rule.remove_headers, hi, form);
            rules.insert(idx, rule);
            config.modify_request = Some(rules);
            assert(request_rules_view(rules@) =~= before.update(idx as int, rule@));
            true
        }
    }
}

/// Applies an edit form to script rule `idx`: `domain`, and `scripts` as a comma-separated list.
/// Gives whether the rule exists, that is whether anything changed.
pub fn update_script_rule(config: &mut Config, idx: usize, form: &Vec<(String, String)>) -> (mutated: bool)
    ensures
        mutated == script_exists(old(config)@, idx as int),
        mutated ==> final(config)@ == with_script(
            old(config)@,
            idx as int,
            apply_script_form(script_at(old(config)@, idx as int), pairs_view(form@)),
        ),
        !mutated ==> final(config)@ == old(config)@,
{
    match config.scripts.take() {
        None => false,
        Some(r) => {
            let mut rules = r;
            if idx >= rules.len() {
                config.scripts = Some(rules);
                return false;
            }
            let ghost before = script_rules_view(rules@);
            let mut rule = rules.remove(idx);
            update_script_fields(&mut rule, form);
            rules.insert(idx, rule);
            config.scripts = Some(rules);
            assert(script_rules_view(rules@) =~= before.update(idx as int, rule@));
            true
        }
    }
}

/* --- Server settings ----------------------------------------------------- */

/// The numeric value of a string of decimal digits.
pub open spec fn digits_value(s: Seq<char>) -> int
    decreases s.len(),
{
    if s.len() == 0 {
        0
    } else {
        digits_value(s.drop_last()) * 10 + (s.last() as int - 48)
    }
}

pub open spec fn all_digits(s: Seq<char>) -> bool {
    forall|i: int| 0 <= i < s.len() ==> '0' <= #[trigger] s[i] && s[i] <= '9'
}

/// `s` without its leading `+`, if it has one.
pub open spec fn unsigned_part(s: Seq<char>) -> Seq<char> {
    if s.len() > 0 && s[0] == '+' {
        s.skip(1)
    } else {
        s
    }
}

/// `str::parse::<u16>`: an optional `+`, then at least one decimal digit,
/// the value at most 65535.
pub open spec fn parse_u16_spec(s: Seq<char>) -> Option<u16> {
    let d = unsigned_part(s);
    if d.len() > 0 && all_digits(d) && digits_value(d) <= 65535 {
        Some(digits_value(d) as u16)
    } else {
        None
    }
}

proof fn lemma_digits_value_grows(s: Seq<char>, i: int)
    requires
        0 <= i <= s.len(),
        all_digits(s),
    ensures
        digits_value(s.take(i)) <= digits_value(s),
        0 <= digits_value(s.take(i)),
    decreases s.len() - i,
{
    if i < s.len() {
        lemma_digits_value_grows(s, i + 1);
        assert(s.take(i + 1).drop_last() =~= s.take(i));
        assert(s.take(i + 1).last() == s[i]);
    } else {
        assert(s.take(i) =~= s);
    }
    lemma_digits_nonneg(s.take(i));
}

proof fn lemma_digits_nonneg(s: Seq<char>)
    requires
        all_digits(s),
    ensures
        0 <= digits_value(s),
    decreases s.len(),
{
    if s.len() > 0 {
        assert(all_digits(s.drop_last())) by {
            assert forall|i: int| 0 <= i < s.drop_last().len() implies '0' <= #[trigger] s.drop_last()[i]
                && s.drop_last()[i] <= '9' by {
                assert(s.drop_last()[i] == s[i]);
            }
        }
        lemma_digits_nonneg(s.drop_last());
        assert('0' <= s[s.len() - 1]);
    }
}

/// Parses a port number (`str::parse::<u16>`).
pub fn parse_u16(s: &str) -> (r: Option<u16>)
    ensures
        r == parse_u16_spec(s@),
{
    let v = to_chars(s);
    let start: usize = if v.len() > 0 && v[0] == '+' {
        1
    } else {
        0
    };
    let ghost d = unsigned_part(s@);
    assert(d =~= v@.skip(start as int));
    if start >= v.len() {
        return None;
    }
    let mut val: u32 = 0;
    let mut i: usize = start;
    while i < v.len()
        invariant
            start <= i <= v.len(),
            v@ == s@,
            d == unsigned_part(s@),
            d == v@.skip(start as int),
            val <= 65535,
            val == digits_value(d.take(i - start)),
            all_digits(d.take(i - start)),
        decreases v.len() - i,
    {
        let c = v[i];
        assert(d.take(i - start + 1).drop_last() =~= d.take(i - start));
        assert(d.take(i - start + 1).last() == c);
        if c < '0' || c > '9' {
            assert(!all_digits(d)) by {
                assert(d[i - start] == c);
            }
            return None;
        }
        let digit: u32 = (c as u32) - 48;
        let next: u32 = val * 10 + digit;
        assert(all_digits(d.take(i - start + 1))) by {
            assert forall|k: int| 0 <= k < d.take(i - start + 1).len() implies '0'
                <= #[trigger] d.take(i - start + 1)[k] && d.take(i - start + 1)[k] <= '9' by {
                if k < i - start {
                    assert(d.take(i - start + 1)[k] == d.take(i - start)[k]);
                }
            }
        }
        if next > 65535 {
            proof {
                if all_digits(d) {
                    lemma_digits_value_grows(d, i - start + 1);
                }
            }
            return None;
        }
        val = next;
        i += 1;
    }
    assert(d.take(i - start) =~= d);
    Some(val as u16)
}

/// The port text of a form: its `value` field, else its `cfg-port` field.
pub open spec fn port_input(form: Pairs) -> Option<Seq<char>> {
    match map_get(form, "value"@) {
        Some(v) => Some(v),
        None => map_get(form, "cfg-port"@),
    }
}

/// The configuration after a port form: the parsed port text, when there is
/// one and it parses; else unchanged.
pub open spec fn port_updated(c: ConfigView, form: Pairs) -> ConfigView {
    let port = match port_input(form) {
        Some(t) => match parse_u16_spec(t) {
            Some(p) => p,
            None => c.port,
        },
        None => c.port,
    };
    ConfigView { port: port, ..c }
}

/// Sets the proxy port from the form, when its port text parses.
pub fn update_server_port(config: &mut Config, form: &Vec<(String, String)>)
    ensures
        final(config)@ == port_updated(old(config)@, pairs_view(form@)),
{
    let input = match find_key(form, "value") {
        Some(i) => Some(form[i].1.as_str()),
        None => match find_key(form, "cfg-port") {
            Some(i) => Some(form[i].1.as_str()),
            None => None,
        },
    };
    match input {
        Some(t) => match parse_u16(t) {
            Some(p) => {
                config.server.port = p;
            },
            None => {},
        },
        None => {},
    }
}

/// The configuration after the pause form `body`: paused when the body
/// mentions `cfg-pause` (the checkbox is checked), else not paused.
pub open spec fn pause_updated(c: ConfigView, body: Seq<char>) -> ConfigView {
    let pause = if contains_seq(body, "cfg-pause"@) {
        Some(true)
    } else {
        None
    };
    ConfigView { pause: pause, ..c }
}

/// Pauses or unpauses the proxy from the submitted form.
pub fn update_server_pause(config: &mut Config, body: &str)
    ensures
        final(config)@ == pause_updated(old(config)@, body@),
{
    config.server.pause = if contains(body, "cfg-pause") {
        Some(true)
    } else {
        None
    };
}

/* --- Fragments after an edit --------------------------------------------- */

/// After editing script rule `idx`: its card when it exists, else all rules.
pub fn script_rule_fragment(config: &Config, idx: usize) -> (r: String)
    ensures
        r@ == (if script_exists(config@, idx as int) {
            script_card_spec(idx as nat, config.scripts->0@[idx as int])
        } else {
            scripts_section_spec(opt_rules(config.scripts))
        }),
{
    match &config.scripts {
        Some(rules) => {
            if idx < rules.len() {
                script_card(idx, &rules[idx])
            } else {
                scripts_section(rules.as_slice())
            }
        },
        None => {
            let e: Vec<ScriptRule> = Vec::new();
            scripts_section(e.as_slice())
        },
    }
}

/// After editing response modifier `idx`: its card when it exists, else all.
pub fn response_rule_fragment(config: &Config, idx: usize) -> (r: String)
    ensures
        r@ == (if response_exists(config@, idx as int) {
            response_card_spec(idx as nat, config.modify_response->0@[idx as int])
        } else {
            response_section_spec(opt_rules(config.modify_response))
        }),
{
    match &config.modify_response {
        Some(rules) => {
            if idx < rules.len() {
                response_card(idx, &rules[idx])
            } else {
                response_section(rules.as_slice())
            }
        },
        None => {
            let e: Vec<ResponseModifier> = Vec::new();
            response_section(e.as_slice())
        },
    }
}

/// After editing request modifier `idx`: its card when it exists, else all.
pub fn request_rule_fragment(config: &Config, idx: usize) -> (r: String)
    ensures
        r@ == (if request_exists(config@, idx as int) {
            request_card_spec(idx as nat, config.modify_request->0@[idx as int])
        } else {
            request_section_spec(opt_rules(config.modify_request))
        }),
{
    match &config.modify_request {
        Some(rules) => {
            if idx < rules.len() {
                request_card(idx, &rules[idx])
            } else {
                request_section(rules.as_slice())
            }
        },
        None => {
            let e: Vec<RequestModifier> = Vec::new();
            request_section(e.as_slice())
        },
    }
}


/* --- Laws of the edits -------------------------------------------------------------- */

proof fn lemma_decimal_digits(n: nat)
    ensures
        decimal(n).len() > 0,
        all_digits(decimal(n)),
        digits_value(decimal(n)) == n,
        decimal(n)[0] != '+',
    decreases n,
{
    if n < 10 {
        assert(decimal(n) =~= seq![digit_char(n)]);
        assert(decimal(n).drop_last() =~= Seq::<char>::empty());
        assert(digits_value(Seq::<char>::empty()) == 0);
        lemma_digit_char(n);
        assert(digits_value(decimal(n)) == digits_value(Seq::<char>::empty()) * 10 + (digit_char(n) as int - 48));
    } else {
        lemma_decimal_digits(n / 10);
        let d = decimal(n / 10);
        lemma_digit_char(n % 10);
        assert(decimal(n).drop_last() =~= d);
        assert(decimal(n).last() == digit_char(n % 10));
        assert(n == (n / 10) * 10 + n % 10);
        assert(digits_value(decimal(n)) == digits_value(d) * 10 + (digit_char(n % 10) as int - 48));
        assert(decimal(n)[0] == d[0]);
        assert forall|i: int| 0 <= i < decimal(n).len() implies '0' <= #[trigger] decimal(n)[i]
            && decimal(n)[i] <= '9' by {
            if i < d.len() {
                assert(decimal(n)[i] == d[i]);
            }
        }
    }
}

proof fn lemma_digit_char(d: nat)
    requires
        d < 10,
    ensures
        '0' <= digit_char(d) <= '9',
        digit_char(d) as int - 48 == d,
{
}

/// A port shown as a number reads back as the same port.
pub proof fn law_port_round_trip(p: u16)
    ensures
        parse_u16_spec(decimal(p as nat)) == Some(p),
{
    lemma_decimal_digits(p as nat);
}

/// Removing the placeholder header just added gives the headers back, when
/// no header had that name before.
pub proof fn law_placeholder_add_remove(v: Pairs)
    requires
        key_index(v, new_header_key(v.len())) is None,
    ensures
        map_remove(map_insert(v, new_header_key(v.len()), "value"@), new_header_key(v.len())) == v,
{
    let k = new_header_key(v.len());
    let w = v.push((k, "value"@));
    assert(w[v.len() as int].0 == k);
    let i = choose|i: int| 0 <= i < w.len() && w[i].0 == k && forall|j: int| 0 <= j < i ==> w[j].0 != k;
    assert(i == v.len()) by {
        if i < v.len() {
            assert(w[i] == v[i]);
        }
    }
    assert(w.remove(v.len() as int) =~= v);
}


proof fn lemma_key_index_none(v: Pairs, k: Seq<char>)
    requires
        key_index(v, k) is None,
    ensures
        forall|j: int| 0 <= j < v.len() ==> v[j].0 != k,
{
}

proof fn lemma_first_named(v: Pairs, k: Seq<char>, i: int)
    requires
        0 <= i < v.len(),
        v[i].0 == k,
    ensures
        exists|m: int| 0 <= m < v.len() && v[m].0 == k && forall|j: int| 0 <= j < m ==> v[j].0 != k,
    decreases i,
{
    if exists|j: int| 0 <= j < i && v[j].0 == k {
        let j = choose|j: int| 0 <= j < i && v[j].0 == k;
        lemma_first_named(v, k, j);
    } else {
        assert(0 <= i < v.len() && v[i].0 == k && forall|j: int| 0 <= j < i ==> v[j].0 != k);
    }
}

proof fn lemma_key_index_some(v: Pairs, k: Seq<char>)
    requires
        key_index(v, k) is Some,
    ensures
        0 <= key_index(v, k)->0 < v.len(),
        v[key_index(v, k)->0].0 == k,
{
    let i = choose|i: int| 0 <= i < v.len() && v[i].0 == k;
    lemma_first_named(v, k, i);
}

proof fn lemma_insert_distinct(v: Pairs, k: Seq<char>, x: Seq<char>)
    requires
        distinct_keys(v),
    ensures
        distinct_keys(map_insert(v, k, x)),
{
    match key_index(v, k) {
        Some(i) => {
            lemma_key_index_some(v, k);
            let w = v.update(i, (k, x));
            assert forall|a: int, b: int| 0 <= a < b < w.len() implies w[a].0 != w[b].0 by {
                assert(w[a].0 == v[a].0 && w[b].0 == v[b].0);
            }
        },
        None => {
            lemma_key_index_none(v, k);
            let w = v.push((k, x));
            assert forall|a: int, b: int| 0 <= a < b < w.len() implies w[a].0 != w[b].0 by {
                if b < v.len() {
                    assert(w[a] == v[a] && w[b] == v[b]);
                } else {
                    assert(w[a] == v[a]);
                }
            }
        },
    }
}

proof fn lemma_remove_distinct(v: Pairs, k: Seq<char>)
    requires
        distinct_keys(v),
    ensures
        distinct_keys(map_remove(v, k)),
{
    if let Some(i) = key_index(v, k) {
        lemma_key_index_some(v, k);
        let w = v.remove(i);
        assert forall|a: int, b: int| 0 <= a < b < w.len() implies w[a].0 != w[b].0 by {
            let a0 = if a < i { a } else { a + 1 };
            let b0 = if b < i { b } else { b + 1 };
            assert(w[a] == v[a0] && w[b] == v[b0]);
        }
    }
}

/// The headers a modifier adds keep distinct names through every edit:
/// adding the placeholder, removing, renaming and setting values.
pub proof fn law_edits_keep_names_distinct(v: Pairs, form: Pairs, k: Seq<char>)
    requires
        distinct_keys(v),
    ensures
        distinct_keys(map_insert(v, new_header_key(v.len()), "value"@)),
        distinct_keys(map_remove(v, k)),
        distinct_keys(rename_all(v, form)),
        distinct_keys(set_values(v, form)),
    decreases form.len(),
{
    lemma_insert_distinct(v, new_header_key(v.len()), "value"@);
    lemma_remove_distinct(v, k);
    if form.len() > 0 {
        law_edits_keep_names_distinct(v, form.drop_last(), k);
        let w = rename_all(v, form.drop_last());
        let o = form.last().0;
        let n = form.last().1;
        if let Some(x) = map_get(w, o) {
            lemma_remove_distinct(w, o);
            lemma_insert_distinct(map_remove(w, o), n, x);
        }
        let u = set_values(v, form.drop_last());
        lemma_insert_distinct(u, form.last().0, form.last().1);
    }
}

} // verus!
