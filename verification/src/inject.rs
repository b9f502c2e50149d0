use vstd::prelude::*;
use crate::config::Config;
use crate::text::{contains, contains_seq, matches_at, replace_all, replace_seq, str_eq};

verus! {

/// The `<script>` element(s) that carry one userscript: the GM polyfill goes
/// first when the script calls any `GM_` function.
pub open spec fn script_tag_spec(content: Seq<char>, polyfill: Seq<char>) -> Seq<char> {
    if contains_seq(content, "GM_"@) {
        "<script>"@ + polyfill + "</script><script>"@ + content + "</script>"@
    } else {
        "<script>"@ + content + "</script>"@
    }
}

/// Replaces every `anchor` with `tag` followed by `anchor`.
pub open spec fn before_each(html: Seq<char>, anchor: Seq<char>, tag: Seq<char>) -> Seq<char> {
    replace_seq(html, anchor, tag + anchor)
}

/// `html` with `tag` placed at `position`:
/// `head_end` before `</head>`, else before `<body`, else at the end;
/// `body_end` before `</body>`, else before `</html>`, else at the end;
/// `html_end` before `</html>`, else at the end;
/// anything else (`append` among them) at the end.
pub open spec fn inject_at_spec(html: Seq<char>, position: Seq<char>, tag: Seq<char>) -> Seq<char> {
    if position == "head_end"@ {
        if contains_seq(html, "</head>"@) {
            before_each(html, "</head>"@, tag)
        } else if contains_seq(html, "<body"@) {
            before_each(html, "<body"@, tag)
        } else {
            html + tag
        }
    } else if position == "body_end"@ {
        if contains_seq(html, "</body>"@) {
            before_each(html, "</body>"@, tag)
        } else if contains_seq(html, "</html>"@) {
            before_each(html, "</html>"@, tag)
        } else {
            html + tag
        }
    } else if position == "html_end"@ {
        if contains_seq(html, "</html>"@) {
            before_each(html, "</html>"@, tag)
        } else {
            html + tag
        }
    } else {
        html + tag
    }
}

pub open spec fn opt_view(o: Option<String>) -> Option<Seq<char>> {
    match o {
        Some(s) => Some(s@),
        None => None,
    }
}

/// `html` after injecting, in order, every script that could be read
/// (`None` stands for one that could not).
pub open spec fn inject_all(
    html: Seq<char>,
    position: Seq<char>,
    contents: Seq<Option<Seq<char>>>,
    polyfill: Seq<char>,
) -> Seq<char>
    decreases contents.len(),
{
    if contents.len() == 0 {
        html
    } else {
        let before = inject_all(html, position, contents.drop_last(), polyfill);
        match contents.last() {
            Some(c) => inject_at_spec(before, position, script_tag_spec(c, polyfill)),
            None => before,
        }
    }
}

/// Where scripts go in the pages of `d`: the `inject_at` of its response
/// modifier, `body_end` by default.
pub open spec fn position_for(config: Config, d: Seq<char>) -> Seq<char> {
    match config.response_modifier_index(d) {
        Some(i) => match config.modify_response->0@[i].inject_at {
            Some(p) => p@,
            None => "body_end"@,
        },
        None => "body_end"@,
    }
}

/// Builds the `<script>` element(s) for one userscript.
pub fn script_tag(content: &str, polyfill: &str) -> (r: String)
    ensures
        r@ == script_tag_spec(content@, polyfill@),
{
    let mut tag = String::new();
    if contains(content, "GM_") {
        tag.append("<script>");
        tag.append(polyfill);
        tag.append("</script><script>");
        tag.append(content);
        tag.append("</script>");
    } else {
        tag.append("<script>");
        tag.append(content);
        tag.append("</script>");
    }
    tag
}

fn insert_before(html: &mut String, anchor: &str, tag: &str)
    requires
        anchor@.len() > 0,
    ensures
        final(html)@ == before_each(old(html)@, anchor@, tag@),
{
    let mut rep = String::new();
    rep.append(tag);
    rep.append(anchor);
    let out = replace_all(html.as_str(), anchor, rep.as_str());
    *html = out;
}

/// Places one tag at `position` of the page.
pub fn inject_tag(html: &mut String, position: &str, tag: &str)
    ensures
        final(html)@ == inject_at_spec(old(html)@, position@, tag@),
{
    proof {
        reveal_strlit("</head>");
        reveal_strlit("<body");
        reveal_strlit("</body>");
        reveal_strlit("</html>");
    }
    if str_eq(position, "head_end") {
        if contains(html.as_str(), "</head>") {
            insert_before(html, "</head>", tag);
        } else if contains(html.as_str(), "<body") {
            insert_before(html, "<body", tag);
        } else {
            html.append(tag);
        }
    } else if str_eq(position, "body_end") {
        if contains(html.as_str(), "</body>") {
            insert_before(html, "</body>", tag);
        } else if contains(html.as_str(), "</html>") {
            insert_before(html, "</html>", tag);
        } else {
            html.append(tag);
        }
    } else if str_eq(position, "html_end") {
        if contains(html.as_str(), "</html>") {
            insert_before(html, "</html>", tag);
        } else {
            html.append(tag);
        }
    } else {
        html.append(tag);
    }
}

/// The position at which scripts are injected into pages of `domain`.
pub fn inject_position(config: &Config, domain: &str) -> (r: String)
    ensures
        r@ == position_for(*config, domain@),
{
    match config.get_response_modifiers(domain) {
        Some(m) => match &m.inject_at {
            Some(p) => p.clone(),
            None => String::from_str("body_end"),
        },
        None => String::from_str("body_end"),
    }
}

/// Injects the userscripts configured for `domain` into the page `html`.
/// `loaded[i]` holds the text of the i-th script of
/// `config.get_scripts_for_domain(domain)`, or `None` when it could not be
/// read; those are skipped. Nothing changes when no script is configured.
pub fn inject_scripts(
    html: &mut String,
    domain: &str,
    config: &Config,
    loaded: &Vec<Option<String>>,
    polyfill: &str,
)
    ensures
        config.spec_scripts_for_domain(domain@).len() == 0 ==> final(html)@ == old(html)@,
        config.spec_scripts_for_domain(domain@).len() > 0 ==> final(html)@ == inject_all(
            old(html)@,
            position_for(*config, domain@),
            loaded@.map_values(|o: Option<String>| opt_view(o)),
            polyfill@,
        ),
{
    let scripts = config.get_scripts_for_domain(domain);
    if scripts.len() == 0 {
        return;
    }
    let position = inject_position(config, domain);
    let ghost start = html@;
    let ghost lv = loaded@.map_values(|o: Option<String>| opt_view(o));
    let mut i: usize = 0;
    while i < loaded.len()
        invariant
            i <= loaded.len(),
            lv == loaded@.map_values(|o: Option<String>| opt_view(o)),
            html@ == inject_all(start, position@, lv.take(i as int), polyfill@),
        decreases loaded.len() - i,
    {
        assert(lv.take(i + 1).drop_last() =~= lv.take(i as int));
        match &loaded[i] {
            Some(content) => {
                let tag = script_tag(content.as_str(), polyfill);
                inject_tag(html, position.as_str(), tag.as_str());
            },
            None => {},
        }
        i += 1;
    }
    assert(lv.take(loaded.len() as int) =~= lv);
}


/* --- Laws of injection ------------------------------------------------------------ */

proof fn lemma_contains_prefix(a: Seq<char>, b: Seq<char>, pat: Seq<char>)
    requires
        contains_seq(a, pat),
    ensures
        contains_seq(a + b, pat),
{
    let i = choose|i: int| matches_at(a, pat, i);
    assert((a + b).subrange(i, i + pat.len()) =~= a.subrange(i, i + pat.len()));
    assert(matches_at(a + b, pat, i));
}

proof fn lemma_contains_suffix(a: Seq<char>, b: Seq<char>, pat: Seq<char>)
    requires
        contains_seq(b, pat),
    ensures
        contains_seq(a + b, pat),
{
    let i = choose|i: int| matches_at(b, pat, i);
    assert((a + b).subrange(a.len() + i, a.len() + i + pat.len()) =~= b.subrange(i, i + pat.len()));
    assert(matches_at(a + b, pat, a.len() + i));
}

/// Replacing each occurrence of `pat` (when there is one) by `rep` leaves
/// `rep` in the text.
proof fn lemma_replace_leaves(s: Seq<char>, pat: Seq<char>, rep: Seq<char>)
    requires
        pat.len() > 0,
        contains_seq(s, pat),
    ensures
        contains_seq(replace_seq(s, pat, rep), rep),
    decreases s.len(),
{
    if matches_at(s, pat, 0) {
        assert(matches_at(rep, rep, 0)) by {
            assert(rep.subrange(0, rep.len() as int) =~= rep);
        }
        lemma_contains_prefix(rep, replace_seq(s.skip(pat.len() as int), pat, rep), rep);
    } else {
        let i = choose|i: int| matches_at(s, pat, i);
        assert(i > 0);
        assert(s.skip(1).subrange(i - 1, i - 1 + pat.len()) =~= s.subrange(i, i + pat.len()));
        assert(matches_at(s.skip(1), pat, i - 1));
        lemma_replace_leaves(s.skip(1), pat, rep);
        lemma_contains_suffix(seq![s[0]], replace_seq(s.skip(1), pat, rep), rep);
    }
}

/// An injected tag always ends up in the page, wherever it is asked to go.
pub proof fn law_tag_lands_in_page(html: Seq<char>, position: Seq<char>, tag: Seq<char>)
    ensures
        contains_seq(inject_at_spec(html, position, tag), tag),
{
    reveal_strlit("</head>");
    reveal_strlit("<body");
    reveal_strlit("</body>");
    reveal_strlit("</html>");
    assert(matches_at(tag, tag, 0)) by {
        assert(tag.subrange(0, tag.len() as int) =~= tag);
    }
    lemma_contains_suffix(html, tag, tag);
    if contains_seq(html, "</head>"@) {
        lemma_replace_leaves_tag(html, "</head>"@, tag);
    }
    if contains_seq(html, "<body"@) {
        lemma_replace_leaves_tag(html, "<body"@, tag);
    }
    if contains_seq(html, "</body>"@) {
        lemma_replace_leaves_tag(html, "</body>"@, tag);
    }
    if contains_seq(html, "</html>"@) {
        lemma_replace_leaves_tag(html, "</html>"@, tag);
    }
}

proof fn lemma_replace_leaves_tag(html: Seq<char>, anchor: Seq<char>, tag: Seq<char>)
    requires
        anchor.len() > 0,
        contains_seq(html, anchor),
        contains_seq(tag, tag),
    ensures
        contains_seq(before_each(html, anchor, tag), tag),
{
    lemma_replace_leaves(html, anchor, tag + anchor);
    let r = before_each(html, anchor, tag);
    let i = choose|i: int| matches_at(r, tag + anchor, i);
    assert(r.subrange(i, i + tag.len()) =~= (tag + anchor).subrange(0, tag.len() as int));
    assert((tag + anchor).subrange(0, tag.len() as int) =~= tag);
    assert(matches_at(r, tag, i));
}

/// With no occurrence of `pat`, replacing changes nothing.
proof fn lemma_replace_absent(s: Seq<char>, pat: Seq<char>, rep: Seq<char>)
    requires
        pat.len() > 0,
        forall|i: int| !matches_at(s, pat, i),
    ensures
        replace_seq(s, pat, rep) == s,
    decreases s.len(),
{
    if s.len() > 0 {
        assert(!matches_at(s, pat, 0));
        assert forall|i: int| !matches_at(s.skip(1), pat, i) by {
            if matches_at(s.skip(1), pat, i) {
                assert(s.subrange(i + 1, i + 1 + pat.len()) =~= s.skip(1).subrange(i, i + pat.len()));
                assert(matches_at(s, pat, i + 1));
            }
        }
        lemma_replace_absent(s.skip(1), pat, rep);
        assert(seq![s[0]] + s.skip(1) =~= s);
    }
}

/// Replacing reaches the first occurrence of `pat` unchanged, and replaces it.
proof fn lemma_replace_first(pre: Seq<char>, pat: Seq<char>, post: Seq<char>, rep: Seq<char>)
    requires
        pat.len() > 0,
        forall|i: int| 0 <= i < pre.len() ==> !matches_at(pre + pat + post, pat, i),
    ensures
        replace_seq(pre + pat + post, pat, rep) == pre + rep + replace_seq(post, pat, rep),
    decreases pre.len(),
{
    let s = pre + pat + post;
    if pre.len() == 0 {
        assert(s =~= pat + post);
        assert(s.subrange(0, pat.len() as int) =~= pat);
        assert(matches_at(s, pat, 0));
        assert(s.skip(pat.len() as int) =~= post);
        assert(pre + rep + replace_seq(post, pat, rep) =~= rep + replace_seq(post, pat, rep));
    } else {
        assert(!matches_at(s, pat, 0));
        let rest = pre.skip(1);
        assert(s.skip(1) =~= rest + pat + post);
        assert forall|i: int| 0 <= i < rest.len() implies !matches_at(rest + pat + post, pat, i) by {
            if matches_at(rest + pat + post, pat, i) {
                assert(s.subrange(i + 1, i + 1 + pat.len()) =~= (rest + pat + post).subrange(i, i + pat.len()));
                assert(matches_at(s, pat, i + 1));
            }
        }
        lemma_replace_first(rest, pat, post, rep);
        assert(seq![pre[0]] + (rest + rep + replace_seq(post, pat, rep)) =~= pre + rep + replace_seq(
            post,
            pat,
            rep,
        ));
    }
}

/// Before the only occurrence of `anchor`, a tag lands right in front of it.
proof fn lemma_before_single(pre: Seq<char>, anchor: Seq<char>, post: Seq<char>, tag: Seq<char>)
    requires
        anchor.len() > 0,
        forall|i: int| matches_at(pre + anchor + post, anchor, i) ==> i == pre.len(),
    ensures
        contains_seq(pre + anchor + post, anchor),
        before_each(pre + anchor + post, anchor, tag) == pre + tag + anchor + post,
{
    let html = pre + anchor + post;
    assert(html.subrange(pre.len() as int, pre.len() + anchor.len() as int) =~= anchor);
    assert(matches_at(html, anchor, pre.len() as int));
    lemma_replace_first(pre, anchor, post, tag + anchor);
    assert forall|i: int| !matches_at(post, anchor, i) by {
        if matches_at(post, anchor, i) {
            let j: int = pre.len() + anchor.len() + i;
            assert(html.subrange(j, j + anchor.len()) =~= post.subrange(i, i + anchor.len()));
            assert(matches_at(html, anchor, j));
        }
    }
    lemma_replace_absent(post, anchor, tag + anchor);
    assert(pre + (tag + anchor) + post =~= pre + tag + anchor + post);
}

proof fn lemma_positions_differ()
    ensures
        "body_end"@ != "head_end"@,
        "html_end"@ != "head_end"@,
        "html_end"@ != "body_end"@,
        "append"@ != "head_end"@,
        "append"@ != "body_end"@,
        "append"@ != "html_end"@,
{
    reveal_strlit("body_end");
    reveal_strlit("head_end");
    reveal_strlit("html_end");
    reveal_strlit("append");
    assert("body_end"@[0] != "head_end"@[0]);
    assert("html_end"@[1] != "head_end"@[1]);
    assert("html_end"@[0] != "body_end"@[0]);
    assert("append"@.len() != "head_end"@.len());
}

/// At `body_end`, in a page with a single `</body>`, a tag lands right
/// before that `</body>` and the rest of the page is kept as it was.
pub proof fn law_body_end_before_closing_body(pre: Seq<char>, post: Seq<char>, tag: Seq<char>)
    requires
        forall|i: int| matches_at(pre + "</body>"@ + post, "</body>"@, i) ==> i == pre.len(),
    ensures
        inject_at_spec(pre + "</body>"@ + post, "body_end"@, tag) == pre + tag + "</body>"@ + post,
{
    reveal_strlit("</body>");
    lemma_positions_differ();
    lemma_before_single(pre, "</body>"@, post, tag);
}

/// At `head_end`, in a page with a single `</head>`, a tag lands right
/// before that `</head>`.
pub proof fn law_head_end_before_closing_head(pre: Seq<char>, post: Seq<char>, tag: Seq<char>)
    requires
        forall|i: int| matches_at(pre + "</head>"@ + post, "</head>"@, i) ==> i == pre.len(),
    ensures
        inject_at_spec(pre + "</head>"@ + post, "head_end"@, tag) == pre + tag + "</head>"@ + post,
{
    reveal_strlit("</head>");
    lemma_before_single(pre, "</head>"@, post, tag);
}

/// At `head_end`, a page without `</head>` gets the tag right before its
/// only `<body`.
pub proof fn law_head_end_before_body(pre: Seq<char>, post: Seq<char>, tag: Seq<char>)
    requires
        forall|i: int| matches_at(pre + "<body"@ + post, "<body"@, i) ==> i == pre.len(),
        !contains_seq(pre + "<body"@ + post, "</head>"@),
    ensures
        inject_at_spec(pre + "<body"@ + post, "head_end"@, tag) == pre + tag + "<body"@ + post,
{
    reveal_strlit("<body");
    lemma_before_single(pre, "<body"@, post, tag);
}

/// At `html_end`, in a page with a single `</html>`, a tag lands right
/// before that `</html>`; so it does at `body_end` when the page has no
/// `</body>`.
pub proof fn law_html_end_before_closing_html(pre: Seq<char>, post: Seq<char>, tag: Seq<char>)
    requires
        forall|i: int| matches_at(pre + "</html>"@ + post, "</html>"@, i) ==> i == pre.len(),
    ensures
        inject_at_spec(pre + "</html>"@ + post, "html_end"@, tag) == pre + tag + "</html>"@ + post,
        !contains_seq(pre + "</html>"@ + post, "</body>"@) ==> inject_at_spec(
            pre + "</html>"@ + post,
            "body_end"@,
            tag,
        ) == pre + tag + "</html>"@ + post,
{
    reveal_strlit("</html>");
    lemma_positions_differ();
    lemma_before_single(pre, "</html>"@, post, tag);
}

/// At `append`, and wherever the page lacks the anchors a position looks
/// for, a tag goes at the very end of the page.
pub proof fn law_append_at_end(html: Seq<char>, position: Seq<char>, tag: Seq<char>)
    ensures
        inject_at_spec(html, "append"@, tag) == html + tag,
        !contains_seq(html, "</head>"@) && !contains_seq(html, "<body"@) && !contains_seq(html, "</body>"@)
            && !contains_seq(html, "</html>"@) ==> inject_at_spec(html, position, tag) == html + tag,
{
    lemma_positions_differ();
}

/// Scripts go where the domain's response modifier says, and at `body_end`
/// when it says nothing or there is no modifier.
pub proof fn law_default_position(config: Config, d: Seq<char>)
    ensures
        config.response_modifier_index(d) is None ==> position_for(config, d) == "body_end"@,
        config.response_modifier_index(d) matches Some(i) ==> (
        config.modify_response->0@[i].inject_at is None ==> position_for(config, d) == "body_end"@),
        config.response_modifier_index(d) matches Some(i) ==> (
        config.modify_response->0@[i].inject_at matches Some(p) ==> position_for(config, d) == p@),
{
}

/// A page of a domain whose scripts go to the default place gets a plain
/// script (one that calls no `GM_` function) right before its only
/// `</body>`.
pub proof fn law_default_injection(
    config: Config,
    d: Seq<char>,
    pre: Seq<char>,
    post: Seq<char>,
    script: Seq<char>,
    polyfill: Seq<char>,
)
    requires
        config.response_modifier_index(d) matches Some(i) ==> config.modify_response->0@[i].inject_at is None,
        forall|i: int| matches_at(pre + "</body>"@ + post, "</body>"@, i) ==> i == pre.len(),
        !contains_seq(script, "GM_"@),
    ensures
        inject_all(pre + "</body>"@ + post, position_for(config, d), seq![Some(script)], polyfill)
            == pre + "<script>"@ + script + "</script>"@ + "</body>"@ + post,
{
    law_default_position(config, d);
    let tag = "<script>"@ + script + "</script>"@;
    let html = pre + "</body>"@ + post;
    assert(seq![Some(script)].drop_last() =~= Seq::<Option<Seq<char>>>::empty());
    assert(inject_all(html, "body_end"@, seq![Some(script)].drop_last(), polyfill) == html);
    law_body_end_before_closing_body(pre, post, tag);
    assert(pre + tag + "</body>"@ + post =~= pre + "<script>"@ + script + "</script>"@ + "</body>"@ + post);
}

} // verus!
