use vstd::prelude::*;
use vstd::relations::{sorted_by, total_ordering};
use vstd::seq_lib::{lemma_sorted_unique, to_multiset_insert, to_multiset_build};
use crate::text::{strings_view, to_chars, chars_from, push_char};

verus! {

/* --- Userscript files ---------------------------------------------------------- */

/// The file of the userscript `name`: `./scripts/{name}.user.js`.
pub open spec fn script_path_spec(name: Seq<char>) -> Seq<char> {
    "./scripts/"@ + name + ".user.js"@
}

pub fn script_path(name: &str) -> (r: String)
    ensures
        r@ == script_path_spec(name@),
{
    let mut p = "./scripts/".to_owned();
    p.append(name);
    p.append(".user.js");
    p
}

/// A userscript that could not be read: the file's path and what went wrong.
pub struct ScriptError {
    path: String,
    source: String,
}

impl ScriptError {
    pub closed spec fn spec_path(&self) -> Seq<char> {
        self.path@
    }

    pub closed spec fn spec_source(&self) -> Seq<char> {
        self.source@
    }

    pub fn new(path: String, source: String) -> (r: Self)
        ensures
            r.spec_path() == path@,
            r.spec_source() == source@,
    {
        ScriptError { path, source }
    }

    /// The path of the file that could not be read.
    pub fn path(&self) -> (r: &str)
        ensures
            r@ == self.spec_path(),
    {
        self.path.as_str()
    }

    /// The description of the underlying failure.
    pub fn source(&self) -> (r: &str)
        ensures
            r@ == self.spec_source(),
    {
        self.source.as_str()
    }

    /// The error as it is shown: `Error while reading userscript {path}: {source}`.
    pub fn message(&self) -> (r: String)
        ensures
            r@ == "Error while reading userscript "@ + self.spec_path() + ": "@ + self.spec_source(),
    {
        let mut m = "Error while reading userscript ".to_owned();
        m.append(self.path.as_str());
        m.append(": ");
        m.append(self.source.as_str());
        m
    }
}

/* --- Ordering names ------------------------------------------------------------ */

/// `a` sorts before or with `b`: the order of `str`, character by
/// character.
pub open spec fn text_le(a: Seq<char>, b: Seq<char>) -> bool
    decreases a.len(),
{
    if a.len() == 0 {
        true
    } else if b.len() == 0 {
        false
    } else if a[0] != b[0] {
        a[0] < b[0]
    } else {
        text_le(a.skip(1), b.skip(1))
    }
}

pub open spec fn text_order() -> spec_fn(Seq<char>, Seq<char>) -> bool {
    |a: Seq<char>, b: Seq<char>| text_le(a, b)
}

proof fn lemma_text_le_reflexive(a: Seq<char>)
    ensures
        text_le(a, a),
    decreases a.len(),
{
    if a.len() > 0 {
        lemma_text_le_reflexive(a.skip(1));
    }
}

proof fn lemma_text_le_antisymmetric(a: Seq<char>, b: Seq<char>)
    requires
        text_le(a, b),
        text_le(b, a),
    ensures
        a == b,
    decreases a.len(),
{
    if a.len() > 0 && b.len() > 0 {
        lemma_text_le_antisymmetric(a.skip(1), b.skip(1));
        assert(a =~= seq![a[0]] + a.skip(1));
        assert(b =~= seq![b[0]] + b.skip(1));
    }
}

proof fn lemma_text_le_transitive(a: Seq<char>, b: Seq<char>, c: Seq<char>)
    requires
        text_le(a, b),
        text_le(b, c),
    ensures
        text_le(a, c),
    decreases a.len(),
{
    if a.len() > 0 && b.len() > 0 && c.len() > 0 {
        if a[0] == b[0] && b[0] == c[0] {
            lemma_text_le_transitive(a.skip(1), b.skip(1), c.skip(1));
        }
    }
}

proof fn lemma_text_le_total(a: Seq<char>, b: Seq<char>)
    ensures
        text_le(a, b) || text_le(b, a),
    decreases a.len(),
{
    if a.len() > 0 && b.len() > 0 && a[0] == b[0] {
        lemma_text_le_total(a.skip(1), b.skip(1));
    }
}

/// The order of names is a total order.
pub proof fn lemma_text_order_total()
    ensures
        total_ordering(text_order()),
{
    assert forall|x: Seq<char>| #[trigger] text_order()(x, x) by {
        lemma_text_le_reflexive(x);
    }
    assert forall|x: Seq<char>, y: Seq<char>|
        #[trigger] text_order()(x, y) && #[trigger] text_order()(y, x) implies x == y by {
        lemma_text_le_antisymmetric(x, y);
    }
    assert forall|x: Seq<char>, y: Seq<char>, z: Seq<char>|
        #[trigger] text_order()(x, y) && #[trigger] text_order()(y, z) implies text_order()(x, z) by {
        lemma_text_le_transitive(x, y, z);
    }
    assert forall|x: Seq<char>, y: Seq<char>|
        #[trigger] text_order()(x, y) || #[trigger] text_order()(y, x) by {
        lemma_text_le_total(x, y);
    }
}

/// Compares two names in the order of `str`.
pub fn text_le_exec(a: &str, b: &str) -> (r: bool)
    ensures
        r == text_le(a@, b@),
{
    let av = to_chars(a);
    let bv = to_chars(b);
    let mut i: usize = 0;
    assert(a@.skip(0) =~= a@);
    assert(b@.skip(0) =~= b@);
    while i < av.len() && i < bv.len()
        invariant
            av@ == a@,
            bv@ == b@,
            i <= av.len(),
            i <= bv.len(),
            text_le(a@, b@) == text_le(a@.skip(i as int), b@.skip(i as int)),
        decreases av.len() - i,
    {
        if av[i] != bv[i] {
            assert(a@.skip(i as int)[0] == av@[i as int]);
            assert(b@.skip(i as int)[0] == bv@[i as int]);
            return av[i] < bv[i];
        }
        assert(a@.skip(i as int).skip(1) =~= a@.skip(i + 1));
        assert(b@.skip(i as int).skip(1) =~= b@.skip(i + 1));
        i += 1;
    }
    i == av.len()
}

/// Sorts names in the order of `str`.
pub fn sort_names(names: Vec<String>) -> (r: Vec<String>)
    ensures
        strings_view(r@) == strings_view(names@).sort_by(text_order()),
{
    proof {
        lemma_text_order_total();
    }
    let ghost input = strings_view(names@);
    let mut out: Vec<String> = Vec::new();
    let mut i: usize = 0;
    assert(strings_view(out@) =~= input.take(0));
    while i < names.len()
        invariant
            i <= names.len(),
            input == strings_view(names@),
            total_ordering(text_order()),
            sorted_by(strings_view(out@), text_order()),
            strings_view(out@).to_multiset() == input.take(i as int).to_multiset(),
        decreases names.len() - i,
    {
        let x = names[i].clone();
        let mut j: usize = 0;
        while j < out.len() && text_le_exec(out[j].as_str(), x.as_str())
            invariant
                j <= out.len(),
                forall|k: int| 0 <= k < j ==> text_le(#[trigger] out@[k]@, x@),
            decreases out.len() - j,
        {
            j += 1;
        }
        let ghost before = strings_view(out@);
        out.insert(j, x);
        proof {
            assert(strings_view(out@) =~= before.insert(j as int, x@));
            to_multiset_insert(before, j as int, x@);
            assert(input.take(i + 1) =~= input.take(i as int).push(x@));
            to_multiset_build(input.take(i as int), x@);
            if j < before.len() {
                assert(!text_le(before[j as int], x@));
                lemma_text_le_total(before[j as int], x@);
            }
            let after = strings_view(out@);
            assert forall|a: int, b: int| 0 <= a < b < after.len() implies #[trigger] text_order()(
                after[a],
                after[b],
            ) by {
                if b < j {
                    assert(after[a] == before[a] && after[b] == before[b]);
                } else if b == j {
                    assert(after[a] == before[a]);
                } else if a == j {
                    assert(after[b] == before[b - 1]);
                    if b - 1 > j {
                        assert(text_order()(before[j as int], before[b - 1]));
                        lemma_text_le_transitive(x@, before[j as int], before[b - 1]);
                    }
                } else if a < j {
                    assert(after[a] == before[a] && after[b] == before[b - 1]);
                } else {
                    assert(after[a] == before[a - 1] && after[b] == before[b - 1]);
                }
            }
        }
        i += 1;
    }
    proof {
        assert(input.take(names.len() as int) =~= input);
        input.lemma_sort_by_ensures(text_order());
        lemma_sorted_unique(strings_view(out@), input.sort_by(text_order()), text_order());
    }
    out
}

/* --- Listing the userscripts ---------------------------------------------------- */

/// `s` ends with `suffix`.
pub open spec fn ends_with_seq(s: Seq<char>, suffix: Seq<char>) -> bool {
    suffix.len() <= s.len() && s.skip(s.len() - suffix.len()) == suffix
}

/// The userscripts among the file names `files`: each name ending in
/// `.user.js`, without that suffix, in the order given.
pub open spec fn user_scripts(files: Seq<Seq<char>>) -> Seq<Seq<char>>
    decreases files.len(),
{
    if files.len() == 0 {
        Seq::empty()
    } else {
        let rest = user_scripts(files.drop_last());
        let f = files.last();
        if ends_with_seq(f, ".user.js"@) {
            rest.push(f.take(f.len() - 8))
        } else {
            rest
        }
    }
}

/// The names of the available userscripts, given the names of the files in
/// the scripts directory: those of the `.user.js` files, without that
/// suffix, sorted.
pub fn script_names(files: &Vec<String>) -> (r: Vec<String>)
    ensures
        strings_view(r@) == user_scripts(strings_view(files@)).sort_by(text_order()),
{
    proof {
        reveal_strlit(".user.js");
    }
    let ghost fv = strings_view(files@);
    let mut found: Vec<String> = Vec::new();
    let mut i: usize = 0;
    while i < files.len()
        invariant
            i <= files.len(),
            fv == strings_view(files@),
            strings_view(found@) == user_scripts(fv.take(i as int)),
        decreases files.len() - i,
    {
        assert(fv.take(i + 1).drop_last() =~= fv.take(i as int));
        assert(fv.take(i + 1).last() == files@[i as int]@);
        proof {
            reveal_strlit(".user.js");
        }
        let v = to_chars(files[i].as_str());
        let n = v.len();
        if n >= 8 {
            let tail = chars_from(&v, n - 8);
            if crate::text::str_eq(tail.as_str(), ".user.js") {
                let mut name = String::new();
                let mut k: usize = 0;
                while k < n - 8
                    invariant
                        n == v.len(),
                        n >= 8,
                        k <= n - 8,
                        name@ == v@.take(k as int),
                    decreases n - 8 - k,
                {
                    push_char(&mut name, v[k]);
                    k += 1;
                    assert(name@ =~= v@.take(k as int));
                }
                let ghost before = strings_view(found@);
                found.push(name);
                assert(strings_view(found@) =~= before.push(v@.take(n - 8)));
            } else {
                assert(!ends_with_seq(v@, ".user.js"@));
            }
        } else {
            assert(!ends_with_seq(v@, ".user.js"@));
        }
        i += 1;
    }
    assert(fv.take(files.len() as int) =~= fv);
    sort_names(found)
}


/// The listed userscripts are sorted, and are exactly the `.user.js` files'
/// names.
pub proof fn law_script_names_sorted(files: Seq<Seq<char>>)
    ensures
        sorted_by(user_scripts(files).sort_by(text_order()), text_order()),
        user_scripts(files).sort_by(text_order()).to_multiset() == user_scripts(files).to_multiset(),
{
    lemma_text_order_total();
    user_scripts(files).lemma_sort_by_ensures(text_order());
}

} // verus!
