use vstd::prelude::*;
use crate::config::{
    pair_view, pairs_view, Config, ConfigView, RequestModifier, RequestModifierView,
    ResponseModifier, ResponseModifierView, ScriptRule, ScriptRuleView,
};
use crate::text::{join, seq_join, str_eq, strings_view};

verus! {

/* --- Command line ----------------------------------------------------------------- */

/// Where the proxy finds its files, and how it logs.
pub struct CliOptions {
    pub pretty: bool,
    pub scripts_dir: String,
    pub logs_dir: String,
    pub ca_dir: String,
    pub config_path: String,
}

pub ghost struct OptionsView {
    pub pretty: bool,
    pub scripts_dir: Seq<char>,
    pub logs_dir: Seq<char>,
    pub ca_dir: Seq<char>,
    pub config_path: Seq<char>,
}

impl View for CliOptions {
    type V = OptionsView;

    open spec fn view(&self) -> OptionsView {
        OptionsView {
            pretty: self.pretty,
            scripts_dir: self.scripts_dir@,
            logs_dir: self.logs_dir@,
            ca_dir: self.ca_dir@,
            config_path: self.config_path@,
        }
    }
}

/// What the command line asks for.
pub enum CliCommand {
    /// Print the usage and stop.
    Help,
    /// Run the proxy with these options.
    Run(CliOptions),
    /// Stop on an option that is not known (or lacks its value).
    UnknownOption(String),
}

pub ghost enum CommandView {
    Help,
    Run(OptionsView),
    UnknownOption(Seq<char>),
}

impl View for CliCommand {
    type V = CommandView;

    open spec fn view(&self) -> CommandView {
        match self {
            CliCommand::Help => CommandView::Help,
            CliCommand::Run(o) => CommandView::Run(o@),
            CliCommand::UnknownOption(a) => CommandView::UnknownOption(a@),
        }
    }
}

/// The options when none is given.
pub open spec fn default_options() -> OptionsView {
    OptionsView {
        pretty: false,
        scripts_dir: "scripts"@,
        logs_dir: "logs"@,
        ca_dir: "ca"@,
        config_path: "config.toml"@,
    }
}

/// The command of `args`, read from position `i` on with the options `o`
/// gathered so far: `-h`/`--help` asks for help, `-pp` for pretty logs, and
/// `--scripts`, `--logs`, `--ca` and `--config` each take the next argument
/// as their value; anything else stops the parse.
pub open spec fn parse_from(args: Seq<Seq<char>>, i: int, o: OptionsView) -> CommandView
    decreases args.len() - i,
{
    if i < 0 || i >= args.len() {
        CommandView::Run(o)
    } else {
        let a = args[i];
        let has_value = i + 1 < args.len();
        if a == "-h"@ || a == "--help"@ {
            CommandView::Help
        } else if a == "-pp"@ {
            parse_from(args, i + 1, OptionsView { pretty: true, ..o })
        } else if a == "--scripts"@ && has_value {
            parse_from(args, i + 2, OptionsView { scripts_dir: args[i + 1], ..o })
        } else if a == "--logs"@ && has_value {
            parse_from(args, i + 2, OptionsView { logs_dir: args[i + 1], ..o })
        } else if a == "--ca"@ && has_value {
            parse_from(args, i + 2, OptionsView { ca_dir: args[i + 1], ..o })
        } else if a == "--config"@ && has_value {
            parse_from(args, i + 2, OptionsView { config_path: args[i + 1], ..o })
        } else {
            CommandView::UnknownOption(a)
        }
    }
}

/// Reads the command line `args` (the program's name first).
pub fn parse_args(args: &Vec<String>) -> (r: CliCommand)
    ensures
        r@ == parse_from(strings_view(args@), 1, default_options()),
{
    let ghost av = strings_view(args@);
    let mut o = CliOptions {
        pretty: false,
        scripts_dir: "scripts".to_owned(),
        logs_dir: "logs".to_owned(),
        ca_dir: "ca".to_owned(),
        config_path: "config.toml".to_owned(),
    };
    let mut i: usize = 1;
    while i < args.len()
        invariant
            av == strings_view(args@),
            av.len() == args@.len(),
            1 <= i,
            parse_from(av, 1, default_options()) == parse_from(av, i as int, o@),
        decreases args.len() - i,
    {
        proof {
            reveal_strlit("-h");
            reveal_strlit("--help");
            reveal_strlit("-pp");
            reveal_strlit("--scripts");
            reveal_strlit("--logs");
            reveal_strlit("--ca");
            reveal_strlit("--config");
        }
        let a = args[i].as_str();
        assert(av[i as int] == a@);
        let has_value = i + 1 < args.len();
        if has_value {
            assert(av[i + 1] == args@[i + 1]@);
        }
        if str_eq(a, "-h") || str_eq(a, "--help") {
            return CliCommand::Help;
        } else if str_eq(a, "-pp") {
            o.pretty = true;
            i += 1;
        } else if str_eq(a, "--scripts") && has_value {
            o.scripts_dir = args[i + 1].clone();
            i += 2;
        } else if str_eq(a, "--logs") && has_value {
            o.logs_dir = args[i + 1].clone();
            i += 2;
        } else if str_eq(a, "--config") && has_value {
            o.config_path = args[i + 1].clone();
            i += 2;
        } else if str_eq(a, "--ca") && has_value {
            o.ca_dir = args[i + 1].clone();
            i += 2;
        } else {
            return CliCommand::UnknownOption(args[i].clone());
        }
    }
    CliCommand::Run(o)
}

/* --- Laws of the command line ------------------------------------------------------- */

proof fn lemma_option_words_differ()
    ensures
        "--config"@ != "-h"@ && "--config"@ != "--help"@ && "--config"@ != "-pp"@,
        "--config"@ != "--scripts"@ && "--config"@ != "--logs"@ && "--config"@ != "--ca"@,
        "--logs"@ != "-h"@ && "--logs"@ != "--help"@ && "--logs"@ != "-pp"@,
        "--logs"@ != "--scripts"@,
{
    reveal_strlit("--config");
    reveal_strlit("-h");
    reveal_strlit("--help");
    reveal_strlit("-pp");
    reveal_strlit("--scripts");
    reveal_strlit("--logs");
    reveal_strlit("--ca");
    assert("--config"@.len() != "-h"@.len());
    assert("--config"@.len() != "--help"@.len());
    assert("--config"@.len() != "-pp"@.len());
    assert("--config"@.len() != "--scripts"@.len());
    assert("--config"@.len() != "--logs"@.len());
    assert("--config"@.len() != "--ca"@.len());
    assert("--logs"@.len() != "-h"@.len());
    assert("--logs"@[2] != "--help"@[2]);
    assert("--logs"@.len() != "-pp"@.len());
    assert("--logs"@.len() != "--scripts"@.len());
}

/// With no options the proxy runs with the default layout: `config.toml`,
/// `scripts`, `logs` and `ca`.
pub proof fn law_default_layout(program: Seq<char>)
    ensures
        parse_from(seq![program], 1, default_options()) == CommandView::Run(default_options()),
        default_options().config_path == "config.toml"@,
        default_options().logs_dir == "logs"@,
{
}

/// `--config P` makes `P` the configuration file and leaves the other
/// options at their defaults.
pub proof fn law_config_option(program: Seq<char>, path: Seq<char>)
    ensures
        parse_from(seq![program, "--config"@, path], 1, default_options()) == CommandView::Run(
            OptionsView { config_path: path, ..default_options() },
        ),
{
    lemma_option_words_differ();
    let args = seq![program, "--config"@, path];
    assert(args[1] == "--config"@);
    assert(args[2] == path);
    let o = OptionsView { config_path: path, ..default_options() };
    assert(parse_from(args, 3, o) == CommandView::Run(o));
}

/// `--logs L` makes `L` the logs directory and leaves the other options at
/// their defaults.
pub proof fn law_logs_option(program: Seq<char>, dir: Seq<char>)
    ensures
        parse_from(seq![program, "--logs"@, dir], 1, default_options()) == CommandView::Run(
            OptionsView { logs_dir: dir, ..default_options() },
        ),
{
    lemma_option_words_differ();
    let args = seq![program, "--logs"@, dir];
    assert(args[1] == "--logs"@);
    assert(args[2] == dir);
    let o = OptionsView { logs_dir: dir, ..default_options() };
    assert(parse_from(args, 3, o) == CommandView::Run(o));
}

/* --- Configuration summary ------------------------------------------------------------ */

/// The line that lists the scripts of one rule: `- {domain} ["a", "b"]`.
pub open spec fn script_line(r: ScriptRuleView) -> Seq<char> {
    "- "@ + r.domain + " ["@ + seq_join(r.scripts.map_values(|s: Seq<char>| "\""@ + s + "\""@), ", "@)
        + "]"@
}

pub open spec fn script_lines(rules: Seq<ScriptRuleView>) -> Seq<Seq<char>>
    decreases rules.len(),
{
    if rules.len() == 0 {
        Seq::empty()
    } else {
        script_lines(rules.drop_last()).push(script_line(rules.last()))
    }
}

pub open spec fn add_header_lines(pairs: Seq<(Seq<char>, Seq<char>)>) -> Seq<Seq<char>> {
    pairs.map_values(|p: (Seq<char>, Seq<char>)| "    add_header: "@ + p.0 + " = "@ + p.1)
}

pub open spec fn removal_lines(o: Option<Seq<Seq<char>>>) -> Seq<Seq<char>> {
    match o {
        Some(l) => seq!["    remove_headers: ["@ + seq_join(l, ", "@) + "]"@],
        None => Seq::empty(),
    }
}

pub open spec fn addition_lines(o: Option<Seq<(Seq<char>, Seq<char>)>>) -> Seq<Seq<char>> {
    match o {
        Some(p) => add_header_lines(p),
        None => Seq::empty(),
    }
}

pub open spec fn labelled_line(label: Seq<char>, o: Option<Seq<char>>) -> Seq<Seq<char>> {
    match o {
        Some(v) => seq!["    "@ + label + ": "@ + v],
        None => Seq::empty(),
    }
}

/// The lines that describe one response modifier.
pub open spec fn response_lines(m: ResponseModifierView) -> Seq<Seq<char>> {
    seq!["  modify_response on "@ + m.domain + ":"@] + labelled_line("csp"@, m.csp)
        + removal_lines(m.remove_headers) + addition_lines(m.add_headers) + labelled_line(
        "inject_at"@,
        m.inject_at,
    )
}

/// The lines that describe one request modifier.
pub open spec fn request_lines(m: RequestModifierView) -> Seq<Seq<char>> {
    seq!["  modify_request on "@ + m.domain + ":"@] + removal_lines(m.remove_headers)
        + addition_lines(m.add_headers)
}

pub open spec fn response_block(rules: Seq<ResponseModifierView>) -> Seq<Seq<char>>
    decreases rules.len(),
{
    if rules.len() == 0 {
        Seq::empty()
    } else {
        response_block(rules.drop_last()) + response_lines(rules.last())
    }
}

pub open spec fn request_block(rules: Seq<RequestModifierView>) -> Seq<Seq<char>>
    decreases rules.len(),
{
    if rules.len() == 0 {
        Seq::empty()
    } else {
        request_block(rules.drop_last()) + request_lines(rules.last())
    }
}

pub open spec fn or_none<T>(o: Option<Seq<T>>) -> Seq<T> {
    match o {
        Some(v) => v,
        None => Seq::empty(),
    }
}

/// The summary of a configuration printed when the proxy starts.
pub open spec fn summary_spec(c: ConfigView) -> Seq<Seq<char>> {
    seq!["----------"@, "Target domains:"@] + script_lines(or_none(c.scripts)) + response_block(
        or_none(c.modify_response),
    ) + request_block(or_none(c.modify_request)) + seq!["----------"@]
}

fn push_line(lines: &mut Vec<String>, s: String)
    ensures
        strings_view(final(lines)@) == strings_view(old(lines)@).push(s@),
{
    let ghost before = strings_view(lines@);
    lines.push(s);
    assert(strings_view(lines@) =~= before.push(s@));
}

fn script_line_text(r: &ScriptRule) -> (t: String)
    ensures
        t@ == script_line(r@),
{
    let ghost sv = r@.scripts;
    let mut quoted: Vec<String> = Vec::new();
    let mut i: usize = 0;
    while i < r.scripts.len()
        invariant
            i <= r.scripts.len(),
            sv == r@.scripts,
            sv == strings_view(r.scripts@),
            strings_view(quoted@) == sv.take(i as int).map_values(|s: Seq<char>| "\""@ + s + "\""@),
        decreases r.scripts.len() - i,
    {
        let mut q = "\"".to_owned();
        q.append(r.scripts[i].as_str());
        q.append("\"");
        push_line(&mut quoted, q);
        i += 1;
        assert(strings_view(quoted@) =~= sv.take(i as int).map_values(
            |s: Seq<char>| "\""@ + s + "\""@,
        ));
    }
    assert(sv.take(r.scripts.len() as int) =~= sv);
    let mut line = "- ".to_owned();
    line.append(r.domain.as_str());
    line.append(" [");
    let list = join(&quoted, ", ");
    line.append(list.as_str());
    line.append("]");
    line
}

fn push_labelled(lines: &mut Vec<String>, label: &str, o: &Option<String>)
    ensures
        strings_view(final(lines)@) == strings_view(old(lines)@) + labelled_line(
            label@,
            crate::config::opt_string_view(*o),
        ),
{
    let ghost before = strings_view(lines@);
    match o {
        Some(v) => {
            let mut t = "    ".to_owned();
            t.append(label);
            t.append(": ");
            t.append(v.as_str());
            push_line(lines, t);
        },
        None => {},
    }
    assert(strings_view(lines@) =~= before + labelled_line(label@, crate::config::opt_string_view(*o)));
}

fn push_removals(lines: &mut Vec<String>, o: &Option<Vec<String>>)
    ensures
        strings_view(final(lines)@) == strings_view(old(lines)@) + removal_lines(
            crate::config::opt_strings_view(*o),
        ),
{
    let ghost before = strings_view(lines@);
    match o {
        Some(l) => {
            let mut t = "    remove_headers: [".to_owned();
            let list = join(l, ", ");
            t.append(list.as_str());
            t.append("]");
            push_line(lines, t);
            assert(strings_view(l@) == l@.map_values(|s: String| s@));
        },
        None => {},
    }
    assert(strings_view(lines@) =~= before + removal_lines(crate::config::opt_strings_view(*o)));
}

fn push_additions(lines: &mut Vec<String>, o: &Option<Vec<(String, String)>>)
    ensures
        strings_view(final(lines)@) == strings_view(old(lines)@) + addition_lines(
            crate::config::opt_pairs_view(*o),
        ),
{
    let ghost before = strings_view(lines@);
    match o {
        Some(p) => {
            let ghost pv = pairs_view(p@);
            let mut i: usize = 0;
            while i < p.len()
                invariant
                    i <= p.len(),
                    pv == pairs_view(p@),
                    strings_view(lines@) == before + add_header_lines(pv.take(i as int)),
                decreases p.len() - i,
            {
                let mut t = "    add_header: ".to_owned();
                t.append(p[i].0.as_str());
                t.append(" = ");
                t.append(p[i].1.as_str());
                push_line(lines, t);
                assert(pv[i as int] == pair_view(p@[i as int]));
                assert(add_header_lines(pv.take(i + 1)) =~= add_header_lines(pv.take(i as int)).push(
                    "    add_header: "@ + pv[i as int].0 + " = "@ + pv[i as int].1,
                ));
                i += 1;
            }
            assert(pv.take(p.len() as int) =~= pv);
        },
        None => {
            assert(strings_view(lines@) =~= before + Seq::<Seq<char>>::empty());
        },
    }
}

fn push_response_lines(lines: &mut Vec<String>, m: &ResponseModifier)
    ensures
        strings_view(final(lines)@) == strings_view(old(lines)@) + response_lines(m@),
{
    let ghost before = strings_view(lines@);
    let mut head = "  modify_response on ".to_owned();
    head.append(m.domain.as_str());
    head.append(":");
    push_line(lines, head);
    push_labelled(lines, "csp", &m.csp);
    push_removals(lines, &m.remove_headers);
    push_additions(lines, &m.add_headers);
    push_labelled(lines, "inject_at", &m.inject_at);
    assert(strings_view(lines@) =~= before + response_lines(m@));
}

fn push_request_lines(lines: &mut Vec<String>, m: &RequestModifier)
    ensures
        strings_view(final(lines)@) == strings_view(old(lines)@) + request_lines(m@),
{
    let ghost before = strings_view(lines@);
    let mut head = "  modify_request on ".to_owned();
    head.append(m.domain.as_str());
    head.append(":");
    push_line(lines, head);
    push_removals(lines, &m.remove_headers);
    push_additions(lines, &m.add_headers);
    assert(strings_view(lines@) =~= before + request_lines(m@));
}

/// The lines that summarize `config` when the proxy starts.
pub fn config_summary(config: &Config) -> (r: Vec<String>)
    ensures
        strings_view(r@) == summary_spec(config@),
{
    let mut lines: Vec<String> = Vec::new();
    push_line(&mut lines, "----------".to_owned());
    push_line(&mut lines, "Target domains:".to_owned());
    let ghost head = strings_view(lines@);
    if let Some(rules) = &config.scripts {
        let ghost rv = crate::config::script_rules_view(rules@);
        let mut i: usize = 0;
        while i < rules.len()
            invariant
                i <= rules.len(),
                rv == crate::config::script_rules_view(rules@),
                strings_view(lines@) == head + script_lines(rv.take(i as int)),
            decreases rules.len() - i,
        {
            let t = script_line_text(&rules[i]);
            push_line(&mut lines, t);
            assert(rv.take(i + 1).drop_last() =~= rv.take(i as int));
            i += 1;
        }
        assert(rv.take(rules.len() as int) =~= rv);
    }
    let ghost mid = strings_view(lines@);
    if let Some(rules) = &config.modify_response {
        let ghost rv = crate::config::response_rules_view(rules@);
        let mut i: usize = 0;
        while i < rules.len()
            invariant
                i <= rules.len(),
                rv == crate::config::response_rules_view(rules@),
                strings_view(lines@) == mid + response_block(rv.take(i as int)),
            decreases rules.len() - i,
        {
            push_response_lines(&mut lines, &rules[i]);
            assert(rv.take(i + 1).drop_last() =~= rv.take(i as int));
            i += 1;
        }
        assert(rv.take(rules.len() as int) =~= rv);
    }
    let ghost late = strings_view(lines@);
    if let Some(rules) = &config.modify_request {
        let ghost rv = crate::config::request_rules_view(rules@);
        let mut i: usize = 0;
        while i < rules.len()
            invariant
                i <= rules.len(),
                rv == crate::config::request_rules_view(rules@),
                strings_view(lines@) == late + request_block(rv.take(i as int)),
            decreases rules.len() - i,
        {
            push_request_lines(&mut lines, &rules[i]);
            assert(rv.take(i + 1).drop_last() =~= rv.take(i as int));
            i += 1;
        }
        assert(rv.take(rules.len() as int) =~= rv);
    }
    push_line(&mut lines, "----------".to_owned());
    lines
}

} // verus!
