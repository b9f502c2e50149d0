use vstd::prelude::*;
use crate::cli::CliOptions;
use crate::text::str_eq;

verus! {

/// The proxy's configuration: server settings, script-injection rules and
/// header modifiers, each rule keyed by a domain (`"*"` matches every
/// domain).
#[derive(Clone)]
pub struct Config {
    pub server: ServerConfig,
    pub scripts: Option<Vec<ScriptRule>>,
    pub modify_response: Option<Vec<ResponseModifier>>,
    pub modify_request: Option<Vec<RequestModifier>>,
}

#[derive(Clone)]
pub struct ServerConfig {
    pub port: u16,
    pub pause: Option<bool>,
}

/// Userscripts to inject into the pages of one domain.
#[derive(Clone)]
pub struct ScriptRule {
    pub domain: String,
    pub scripts: Vec<String>,
}

/// How to rewrite the responses of one domain. `add_headers` holds
/// name/value pairs with distinct names, in the order they are applied.
#[derive(Clone)]
pub struct ResponseModifier {
    pub domain: String,
    pub csp: Option<String>,
    pub remove_headers: Option<Vec<String>>,
    pub add_headers: Option<Vec<(String, String)>>,
    pub inject_at: Option<String>,
}

/// How to rewrite the requests sent to one domain.
#[derive(Clone)]
pub struct RequestModifier {
    pub domain: String,
    pub remove_headers: Option<Vec<String>>,
    pub add_headers: Option<Vec<(String, String)>>,
}

/* --- Views -------------------------------------------------------------- */

/// A name/value pair, by characters.
pub open spec fn pair_view(p: (String, String)) -> (Seq<char>, Seq<char>) {
    (p.0@, p.1@)
}

/// Name/value pairs, by characters.
pub open spec fn pairs_view(v: Seq<(String, String)>) -> Seq<(Seq<char>, Seq<char>)> {
    v.map_values(|p: (String, String)| pair_view(p))
}

pub open spec fn opt_string_view(o: Option<String>) -> Option<Seq<char>> {
    match o {
        Some(s) => Some(s@),
        None => None,
    }
}

pub open spec fn opt_strings_view(o: Option<Vec<String>>) -> Option<Seq<Seq<char>>> {
    match o {
        Some(v) => Some(v@.map_values(|s: String| s@)),
        None => None,
    }
}

pub open spec fn opt_pairs_view(o: Option<Vec<(String, String)>>) -> Option<
    Seq<(Seq<char>, Seq<char>)>,
> {
    match o {
        Some(v) => Some(pairs_view(v@)),
        None => None,
    }
}

pub ghost struct ScriptRuleView {
    pub domain: Seq<char>,
    pub scripts: Seq<Seq<char>>,
}

pub ghost struct ResponseModifierView {
    pub domain: Seq<char>,
    pub csp: Option<Seq<char>>,
    pub remove_headers: Option<Seq<Seq<char>>>,
    pub add_headers: Option<Seq<(Seq<char>, Seq<char>)>>,
    pub inject_at: Option<Seq<char>>,
}

pub ghost struct RequestModifierView {
    pub domain: Seq<char>,
    pub remove_headers: Option<Seq<Seq<char>>>,
    pub add_headers: Option<Seq<(Seq<char>, Seq<char>)>>,
}

pub ghost struct ConfigView {
    pub port: u16,
    pub pause: Option<bool>,
    pub scripts: Option<Seq<ScriptRuleView>>,
    pub modify_response: Option<Seq<ResponseModifierView>>,
    pub modify_request: Option<Seq<RequestModifierView>>,
}

impl View for ScriptRule {
    type V = ScriptRuleView;

    open spec fn view(&self) -> ScriptRuleView {
        ScriptRuleView { domain: self.domain@, scripts: self.scripts@.map_values(|s: String| s@) }
    }
}

impl View for ResponseModifier {
    type V = ResponseModifierView;

    open spec fn view(&self) -> ResponseModifierView {
        ResponseModifierView {
            domain: self.domain@,
            csp: opt_string_view(self.csp),
            remove_headers: opt_strings_view(self.remove_headers),
            add_headers: opt_pairs_view(self.add_headers),
            inject_at: opt_string_view(self.inject_at),
        }
    }
}

impl View for RequestModifier {
    type V = RequestModifierView;

    open spec fn view(&self) -> RequestModifierView {
        RequestModifierView {
            domain: self.domain@,
            remove_headers: opt_strings_view(self.remove_headers),
            add_headers: opt_pairs_view(self.add_headers),
        }
    }
}

pub open spec fn script_rules_view(v: Seq<ScriptRule>) -> Seq<ScriptRuleView> {
    v.map_values(|r: ScriptRule| r@)
}

pub open spec fn response_rules_view(v: Seq<ResponseModifier>) -> Seq<ResponseModifierView> {
    v.map_values(|r: ResponseModifier| r@)
}

pub open spec fn request_rules_view(v: Seq<RequestModifier>) -> Seq<RequestModifierView> {
    v.map_values(|r: RequestModifier| r@)
}

impl View for Config {
    type V = ConfigView;

    open spec fn view(&self) -> ConfigView {
        ConfigView {
            port: self.server.port,
            pause: self.server.pause,
            scripts: match self.scripts {
                Some(v) => Some(script_rules_view(v@)),
                None => None,
            },
            modify_response: match self.modify_response {
                Some(v) => Some(response_rules_view(v@)),
                None => None,
            },
            modify_request: match self.modify_request {
                Some(v) => Some(request_rules_view(v@)),
                None => None,
            },
        }
    }
}

/* --- Copies -------------------------------------------------------------- */

/// A copy of a list of strings.
pub fn clone_strings(v: &Vec<String>) -> (r: Vec<String>)
    ensures
        r@ == v@,
{
    let mut out: Vec<String> = Vec::new();
    let mut i: usize = 0;
    while i < v.len()
        invariant
            i <= v.len(),
            out@ == v@.take(i as int),
        decreases v.len() - i,
    {
        out.push(v[i].clone());
        i += 1;
        assert(out@ =~= v@.take(i as int));
    }
    assert(v@.take(v.len() as int) =~= v@);
    out
}

/// A copy of a list of name/value pairs.
pub fn clone_pairs(v: &Vec<(String, String)>) -> (r: Vec<(String, String)>)
    ensures
        r@ == v@,
{
    let mut out: Vec<(String, String)> = Vec::new();
    let mut i: usize = 0;
    while i < v.len()
        invariant
            i <= v.len(),
            out@ == v@.take(i as int),
        decreases v.len() - i,
    {
        out.push((v[i].0.clone(), v[i].1.clone()));
        i += 1;
        assert(out@ =~= v@.take(i as int));
    }
    assert(v@.take(v.len() as int) =~= v@);
    out
}


/* --- Defaults ------------------------------------------------------------ */

impl Default for ScriptRule {
    fn default() -> (r: Self)
        ensures
            r.domain@ == Seq::<char>::empty(),
            r.scripts@ == Seq::<String>::empty(),
    {
        ScriptRule { domain: String::new(), scripts: Vec::new() }
    }
}

impl Default for ResponseModifier {
    fn default() -> (r: Self)
        ensures
            r.domain@ == Seq::<char>::empty(),
            r.csp is None,
            r.remove_headers is None,
            r.add_headers is None,
            r.inject_at is None,
    {
        ResponseModifier {
            domain: String::new(),
            csp: None,
            remove_headers: None,
            add_headers: None,
            inject_at: None,
        }
    }
}

impl Default for RequestModifier {
    fn default() -> (r: Self)
        ensures
            r.domain@ == Seq::<char>::empty(),
            r.remove_headers is None,
            r.add_headers is None,
    {
        RequestModifier { domain: String::new(), remove_headers: None, add_headers: None }
    }
}

/// The configuration used when none can be read: port 8080, not paused, no
/// rules.
pub fn fallback_config() -> (r: Config)
    ensures
        r.server.port == 8080,
        r.server.pause is None,
        r.scripts is None,
        r.modify_response is None,
        r.modify_request is None,
{
    Config {
        server: ServerConfig { port: 8080, pause: None },
        scripts: None,
        modify_response: None,
        modify_request: None,
    }
}

/* --- Lookups ------------------------------------------------------------- */

/// A rule that applies to one domain.
pub trait Domained {
    spec fn domain_of(&self) -> Seq<char>;

    fn domain_str(&self) -> (r: &str)
        ensures
            r@ == self.domain_of(),
    ;
}

impl Domained for ScriptRule {
    open spec fn domain_of(&self) -> Seq<char> {
        self.domain@
    }

    fn domain_str(&self) -> (r: &str) {
        self.domain.as_str()
    }
}

impl Domained for ResponseModifier {
    open spec fn domain_of(&self) -> Seq<char> {
        self.domain@
    }

    fn domain_str(&self) -> (r: &str) {
        self.domain.as_str()
    }
}

impl Domained for RequestModifier {
    open spec fn domain_of(&self) -> Seq<char> {
        self.domain@
    }

    fn domain_str(&self) -> (r: &str) {
        self.domain.as_str()
    }
}

/// The index of the first rule of `s` whose domain is exactly `d`.
pub open spec fn first_index_with<T: Domained>(s: Seq<T>, d: Seq<char>) -> Option<int> {
    if exists|i: int| 0 <= i < s.len() && s[i].domain_of() == d {
        Some(
            choose|i: int|
                0 <= i < s.len() && s[i].domain_of() == d && forall|j: int|
                    0 <= j < i ==> s[j].domain_of() != d,
        )
    } else {
        None
    }
}

/// The index of the first rule for `d`, or failing that of the first rule
/// for every domain (`"*"`).
pub open spec fn pick_index<T: Domained>(s: Seq<T>, d: Seq<char>) -> Option<int> {
    match first_index_with(s, d) {
        Some(i) => Some(i),
        None => first_index_with(s, "*"@),
    }
}

/// Finds the first rule of `v` whose domain is exactly `d`.
pub fn first_with_domain<T: Domained>(v: &Vec<T>, d: &str) -> (r: Option<usize>)
    ensures
        match r {
            Some(i) => first_index_with(v@, d@) == Some(i as int) && i < v.len(),
            None => first_index_with(v@, d@) is None,
        },
{
    let mut i: usize = 0;
    while i < v.len()
        invariant
            i <= v.len(),
            forall|j: int| 0 <= j < i ==> v@[j].domain_of() != d@,
        decreases v.len() - i,
    {
        if str_eq(v[i].domain_str(), d) {
            let ghost k = choose|k: int|
                0 <= k < v@.len() && v@[k].domain_of() == d@ && forall|j: int|
                    0 <= j < k ==> v@[j].domain_of() != d@;
            assert(0 <= k < v@.len() && v@[k].domain_of() == d@);
            assert(k == i as int) by {
                if k < i {
                } else if k > i {
                    assert(v@[i as int].domain_of() == d@);
                }
            }
            return Some(i);
        }
        i += 1;
    }
    None
}

/// The concatenated script lists of the rules in `rules` that match `d`
/// exactly or through `"*"`, in rule order.
pub open spec fn scripts_matching(rules: Seq<ScriptRule>, d: Seq<char>) -> Seq<String>
    decreases rules.len(),
{
    if rules.len() == 0 {
        Seq::empty()
    } else {
        let rest = scripts_matching(rules.drop_last(), d);
        let r = rules.last();
        if r.domain@ == d || r.domain@ == "*"@ {
            rest + r.scripts@
        } else {
            rest
        }
    }
}

impl Config {
    /// The scripts to inject into pages of `d`.
    pub open spec fn spec_scripts_for_domain(&self, d: Seq<char>) -> Seq<String> {
        match self.scripts {
            Some(rules) => scripts_matching(rules@, d),
            None => Seq::empty(),
        }
    }

    /// All scripts of every rule for `domain` or for `"*"`, in rule order.
    pub fn get_scripts_for_domain(&self, domain: &str) -> (r: Vec<String>)
        ensures
            r@ == self.spec_scripts_for_domain(domain@),
    {
        let mut result: Vec<String> = Vec::new();
        if let Some(scripts) = &self.scripts {
            let mut i: usize = 0;
            while i < scripts.len()
                invariant
                    i <= scripts.len(),
                    result@ == scripts_matching(scripts@.take(i as int), domain@),
                decreases scripts.len() - i,
            {
                let rule = &scripts[i];
                assert(scripts@.take(i + 1).drop_last() =~= scripts@.take(i as int));
                if str_eq(rule.domain.as_str(), domain) || str_eq(rule.domain.as_str(), "*") {
                    let mut more = clone_strings(&rule.scripts);
                    result.append(&mut more);
                }
                i += 1;
            }
            assert(scripts@.take(scripts.len() as int) =~= scripts@);
        }
        result
    }

    /// The index of the response modifier that applies to `d`.
    pub open spec fn response_modifier_index(&self, d: Seq<char>) -> Option<int> {
        match self.modify_response {
            Some(v) => pick_index(v@, d),
            None => None,
        }
    }

    /// The index of the request modifier that applies to `d`.
    pub open spec fn request_modifier_index(&self, d: Seq<char>) -> Option<int> {
        match self.modify_request {
            Some(v) => pick_index(v@, d),
            None => None,
        }
    }

    /// The first response modifier for `domain`, or else the first for `"*"`.
    pub fn get_response_modifiers(&self, domain: &str) -> (r: Option<&ResponseModifier>)
        ensures
            match r {
                Some(m) => {
                    &&& self.modify_response is Some
                    &&& self.response_modifier_index(domain@) is Some
                    &&& *m == self.modify_response->0@[self.response_modifier_index(domain@)->0]
                },
                None => self.response_modifier_index(domain@) is None,
            },
    {
        match &self.modify_response {
            None => None,
            Some(modifiers) => match first_with_domain(modifiers, domain) {
                Some(i) => Some(&modifiers[i]),
                None => match first_with_domain(modifiers, "*") {
                    Some(i) => Some(&modifiers[i]),
                    None => None,
                },
            },
        }
    }

    /// The first request modifier for `domain`, or else the first for `"*"`.
    pub fn get_request_modifiers(&self, domain: &str) -> (r: Option<&RequestModifier>)
        ensures
            match r {
                Some(m) => {
                    &&& self.modify_request is Some
                    &&& self.request_modifier_index(domain@) is Some
                    &&& *m == self.modify_request->0@[self.request_modifier_index(domain@)->0]
                },
                None => self.request_modifier_index(domain@) is None,
            },
    {
        match &self.modify_request {
            None => None,
            Some(modifiers) => match first_with_domain(modifiers, domain) {
                Some(i) => Some(&modifiers[i]),
                None => match first_with_domain(modifiers, "*") {
                    Some(i) => Some(&modifiers[i]),
                    None => None,
                },
            },
        }
    }
}

/// Where the configuration file lives: the path given with `--config`
/// (`config.toml` when none is given).
pub fn config_path(options: &CliOptions) -> (r: String)
    ensures
        r@ == options.config_path@,
{
    options.config_path.clone()
}

/// The name of the traffic log within the logs directory.
pub open spec fn trace_file_name() -> Seq<char> {
    "dope-traces.jsonl"@
}

/// Where the traffic log lives: `dope-traces.jsonl` in the logs directory
/// given with `--logs` (`logs` when none is given).
pub fn trace_path(logs_dir: &str) -> (r: String)
    ensures
        r@ == logs_dir@ + "/"@ + trace_file_name(),
{
    let mut p = logs_dir.to_owned();
    p.append("/");
    p.append("dope-traces.jsonl");
    p
}

/* --- Laws of the lookups ------------------------------------------------------ */

/// Several rules for one domain are merged: the scripts of a list of rules
/// are those of its first part followed by those of the rest.
pub proof fn law_scripts_merged(a: Seq<ScriptRule>, b: Seq<ScriptRule>, d: Seq<char>)
    ensures
        scripts_matching(a + b, d) == scripts_matching(a, d) + scripts_matching(b, d),
    decreases b.len(),
{
    if b.len() == 0 {
        assert(a + b =~= a);
        assert(scripts_matching(a, d) + Seq::<String>::empty() =~= scripts_matching(a, d));
    } else {
        law_scripts_merged(a, b.drop_last(), d);
        assert((a + b).drop_last() =~= a + b.drop_last());
        assert((a + b).last() == b.last());
    }
}

/// Only the first rule for a domain applies: the rule picked for `d` is the
/// first one whose domain is exactly `d`, whatever follows, and a `"*"` rule
/// is picked only when no rule names `d`.
pub proof fn law_first_exact_rule_wins<T: Domained>(s: Seq<T>, d: Seq<char>, i: int)
    requires
        0 <= i < s.len(),
        s[i].domain_of() == d,
        forall|j: int| 0 <= j < i ==> s[j].domain_of() != d,
    ensures
        pick_index(s, d) == Some(i),
{
    let k = choose|k: int|
        0 <= k < s.len() && s[k].domain_of() == d && forall|j: int| 0 <= j < k ==> s[j].domain_of() != d;
    assert(k == i) by {
        if k < i {
        } else if k > i {
            assert(s[i].domain_of() == d);
        }
    }
}

/// With no rule for `d`, the first `"*"` rule (if any) is picked.
pub proof fn law_wildcard_fallback<T: Domained>(s: Seq<T>, d: Seq<char>)
    requires
        forall|j: int| 0 <= j < s.len() ==> s[j].domain_of() != d,
    ensures
        pick_index(s, d) == first_index_with(s, "*"@),
{
}

} // verus!
