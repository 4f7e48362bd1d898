//! Wrapper functions: the `[functions.NAME]` tables of the configuration, and
//! the small interpreter that runs their bodies.
//!
//! Body syntax, one statement per line:
//!   `let var = value`, `let var = $(cmd arg...)`, `if COND` ... `end`,
//!   `# comment`, and plain command lines. `$args` is all arguments joined by
//!   spaces, `$0`..`$9` the single arguments, `$name` a local or, failing that,
//!   an environment variable.
use vstd::prelude::*;
use crate::executor::{as_strs, parse_input, shell_words, tokenize_operators, views_of_strs, shlex_split, tokenize_seq, units_of, unit_models, views_of_strings, Unit, UnitModel};
use crate::text::{trim_start, join_chars, lemma_views_push, trim_end, decimal_chars, lines_of, owned, split_lines, decimal, find_chars, find_seq, has_prefix, join, starts_with, strip_prefixes, strip_prefixes_chars, trim_char, trim_char_chars, views, chars_eq, chars_of, is_name_char, is_name_character, slice_of, split_words, str_eq, string_of, substring, trim, trim_chars, words};
use crate::vars::VarMap;

verus! {

/// One wrapper function.
#[derive(Debug, Clone)]
pub struct WrapperFunction {
    pub description: String,
    /// The body, in the shell's small scripting dialect.
    pub body: String,
}

impl Default for WrapperFunction {
    fn default() -> (r: Self)
        ensures
            r.description@.len() == 0,
            r.body@.len() == 0,
    {
        WrapperFunction { description: String::new(), body: String::new() }
    }
}

/// The value of a wrapper function.
pub struct WrapperModel {
    pub description: Seq<char>,
    pub body: Seq<char>,
}

impl WrapperFunction {
    pub open spec fn model(self) -> WrapperModel {
        WrapperModel { description: self.description@, body: self.body@ }
    }
}

pub open spec fn functions_map(e: Seq<(String, WrapperFunction)>) -> Map<Seq<char>, WrapperModel>
    decreases e.len(),
{
    if e.len() == 0 {
        Map::empty()
    } else {
        functions_map(e.drop_last()).insert(e.last().0@, e.last().1.model())
    }
}

proof fn lemma_functions_map_len(e: Seq<(String, WrapperFunction)>)
    requires
        distinct_names(e),
    ensures
        functions_map(e).dom().finite(),
        functions_map(e).dom().len() == e.len(),
    decreases e.len(),
{
    if e.len() > 0 {
        let d = e.drop_last();
        assert(distinct_names(d)) by {
            assert forall|i: int, j: int| 0 <= i < j < d.len() implies d[i].0@ != d[j].0@ by {
                assert(d[i] == e[i] && d[j] == e[j]);
            }
        }
        lemma_functions_map_len(d);
        lemma_functions_map(d);
        if functions_map(d).contains_key(e.last().0@) {
            let i = choose|i: int| 0 <= i < d.len() && d[i].0@ == e.last().0@;
            assert(d[i] == e[i]);
            assert(e[i].0@ != e[e.len() - 1].0@);
        }
        assert(functions_map(e).dom() == functions_map(d).dom().insert(e.last().0@));
    } else {
        assert(functions_map(e).dom() =~= Set::<Seq<char>>::empty());
    }
}

pub open spec fn distinct_names(e: Seq<(String, WrapperFunction)>) -> bool {
    forall|i: int, j: int| 0 <= i < j < e.len() ==> e[i].0@ != e[j].0@
}

proof fn lemma_functions_map(e: Seq<(String, WrapperFunction)>)
    requires
        distinct_names(e),
    ensures
        forall|k: Seq<char>| #[trigger] functions_map(e).contains_key(k) <==> exists|i: int|
            0 <= i < e.len() && e[i].0@ == k,
        forall|i: int| 0 <= i < e.len() ==> #[trigger] functions_map(e)[e[i].0@] == e[i].1.model(),
    decreases e.len(),
{
    if e.len() > 0 {
        let d = e.drop_last();
        lemma_functions_map(d);
        assert forall|k: Seq<char>| #[trigger] functions_map(e).contains_key(k) <==> exists|i: int|
            0 <= i < e.len() && e[i].0@ == k by {
            if functions_map(e).contains_key(k) {
                if k == e.last().0@ {
                    assert(e[e.len() - 1].0@ == k);
                } else {
                    assert(functions_map(d).contains_key(k));
                    let i = choose|i: int| 0 <= i < d.len() && d[i].0@ == k;
                    assert(d[i] == e[i]);
                }
            }
            if exists|i: int| 0 <= i < e.len() && e[i].0@ == k {
                let i = choose|i: int| 0 <= i < e.len() && e[i].0@ == k;
                if i < d.len() {
                    assert(d[i] == e[i]);
                    assert(functions_map(d).contains_key(k));
                }
            }
        }
        assert forall|i: int| 0 <= i < e.len() implies #[trigger] functions_map(e)[e[i].0@]
            == e[i].1.model() by {
            if i < d.len() {
                assert(d[i] == e[i]);
                assert(e[i].0@ != e.last().0@);
                assert(functions_map(d)[d[i].0@] == d[i].1.model());
            } else {
                assert(e[i] == e.last());
            }
        }
    }
}

/// Every `[functions.*]` table, by name.
#[derive(Debug)]
pub struct WrapperConfig {
    functions: Vec<(String, WrapperFunction)>,
}

impl WrapperConfig {
    #[verifier::type_invariant]
    spec fn inv(self) -> bool {
        distinct_names(self.functions@)
    }

    pub closed spec fn view(self) -> Map<Seq<char>, WrapperModel> {
        functions_map(self.functions@)
    }

    /// The names in the order they were added.
    pub closed spec fn order(self) -> Seq<Seq<char>> {
        self.functions@.map_values(|p: (String, WrapperFunction)| p.0@)
    }

    /// No function.
    pub fn new() -> (c: WrapperConfig)
        ensures
            c.view() == Map::<Seq<char>, WrapperModel>::empty(),
            c.order().len() == 0,
    {
        let c = WrapperConfig { functions: Vec::new() };
        assert(c.order() =~= Seq::<Seq<char>>::empty());
        c
    }

    fn position(&self, name: &str) -> (r: Option<usize>)
        ensures
            r matches Some(i) ==> i < self.functions@.len() && self.functions@[i as int].0@ == name@,
            r is None ==> forall|i: int| 0 <= i < self.functions@.len() ==> self.functions@[i].0@ != name@,
    {
        let mut i: usize = 0;
        while i < self.functions.len()
            invariant
                i <= self.functions@.len(),
                forall|j: int| 0 <= j < i ==> self.functions@[j].0@ != name@,
            decreases self.functions@.len() - i,
        {
            if str_eq(self.functions[i].0.as_str(), name) {
                return Some(i);
            }
            i += 1;
        }
        None
    }

    /// Adds function `name`, unless one of that name exists already.
    pub fn add(&mut self, name: String, func: WrapperFunction)
        ensures
            old(self).view().contains_key(name@) ==> final(self).view() == old(self).view(),
            !old(self).view().contains_key(name@) ==> final(self).view() == old(self).view().insert(name@, func.model()),
            old(self).view().contains_key(name@) ==> final(self).order() == old(self).order(),
            !old(self).view().contains_key(name@) ==> final(self).order() == old(self).order().push(name@),
    {
        proof {
            use_type_invariant(&*self);
            lemma_functions_map(self.functions@);
        }
        if self.position(name.as_str()).is_none() {
            let ghost before = self.functions@;
            let ghost n = name@;
            let mut entries: Vec<(String, WrapperFunction)> = Vec::new();
            std::mem::swap(&mut entries, &mut self.functions);
            entries.push((name, func));
            assert(entries@.drop_last() == before);
            self.functions = entries;
            assert(self.order() =~= old(self).order().push(n));
        }
    }

    /// The function called `name`, if any.
    pub fn get(&self, name: &str) -> (r: Option<&WrapperFunction>)
        ensures
            r matches Some(f) ==> self.view().contains_key(name@) && self.view()[name@] == f.model(),
            r is None ==> !self.view().contains_key(name@),
    {
        proof {
            use_type_invariant(self);
            lemma_functions_map(self.functions@);
        }
        match self.position(name) {
            Some(i) => Some(&self.functions[i].1),
            None => None,
        }
    }

    /// The names of all functions, in the order they were added: each
    /// defined name once, and nothing else.
    pub fn names(&self) -> (r: Vec<&str>)
        ensures
            r@.map_values(|s: &str| s@) == self.order(),
            forall|i: int| 0 <= i < r@.len() ==> #[trigger] self.view().contains_key(r@[i]@),
            forall|k: Seq<char>| #[trigger] self.view().contains_key(k) <==> exists|i: int| 0 <= i < r@.len() && r@[i]@ == k,
            forall|i: int, j: int| 0 <= i < j < r@.len() ==> r@[i]@ != r@[j]@,
            r@.len() == self.view().dom().len(),
    {
        proof {
            use_type_invariant(self);
            lemma_functions_map(self.functions@);
            lemma_functions_map_len(self.functions@);
        }
        let mut r: Vec<&str> = Vec::new();
        let mut i: usize = 0;
        while i < self.functions.len()
            invariant
                i <= self.functions@.len(),
                r@.len() == i,
                forall|j: int| 0 <= j < i ==> #[trigger] r@[j]@ == self.functions@[j].0@,
                distinct_names(self.functions@),
            decreases self.functions@.len() - i,
        {
            r.push(self.functions[i].0.as_str());
            i += 1;
        }
        assert(r@.map_values(|s: &str| s@) =~= self.order());
        proof {
            assert forall|i: int| 0 <= i < r@.len() implies #[trigger] self.view().contains_key(r@[i]@) by {
                assert(self.functions@[i].0@ == r@[i]@);
            }
            assert forall|k: Seq<char>| #[trigger] self.view().contains_key(k) <==> exists|i: int| 0 <= i < r@.len() && r@[i]@ == k by {
                if self.view().contains_key(k) {
                    let i = choose|i: int| 0 <= i < self.functions@.len() && self.functions@[i].0@ == k;
                    assert(r@[i]@ == k);
                }
                if exists|i: int| 0 <= i < r@.len() && r@[i]@ == k {
                    let i = choose|i: int| 0 <= i < r@.len() && r@[i]@ == k;
                    assert(self.functions@[i].0@ == k);
                }
            }
            assert forall|i: int, j: int| 0 <= i < j < r@.len() implies r@[i]@ != r@[j]@ by {
                assert(r@[i]@ == self.functions@[i].0@ && r@[j]@ == self.functions@[j].0@);
            }
        }
        r
    }

    /// Whether no function is defined.
    pub fn is_empty(&self) -> (r: bool)
        ensures
            r == (self.order().len() == 0),
            r == (self.view() =~= Map::<Seq<char>, WrapperModel>::empty()),
    {
        proof {
            use_type_invariant(self);
            lemma_functions_map(self.functions@);
            if self.functions@.len() > 0 {
                assert(functions_map(self.functions@).contains_key(self.functions@[0].0@));
            }
        }
        self.functions.len() == 0
    }
}

} // verus!

verus! {

impl Clone for WrapperConfig {
    /// A function-by-function copy.
    fn clone(&self) -> (r: Self)
        ensures
            r.view() == self.view(),
            r.order() == self.order(),
    {
        proof {
            use_type_invariant(self);
        }
        let mut functions: Vec<(String, WrapperFunction)> = Vec::new();
        let mut i: usize = 0;
        while i < self.functions.len()
            invariant
                i <= self.functions@.len(),
                functions@.len() == i,
                forall|j: int| 0 <= j < i ==> #[trigger] functions@[j].0 == self.functions@[j].0
                    && functions@[j].1.model() == self.functions@[j].1.model(),
            decreases self.functions@.len() - i,
        {
            let k = self.functions[i].0.clone();
            let f = WrapperFunction {
                description: self.functions[i].1.description.clone(),
                body: self.functions[i].1.body.clone(),
            };
            functions.push((k, f));
            i += 1;
        }
        proof {
            lemma_functions_map_congruent(functions@, self.functions@);
            assert(functions@.map_values(|p: (String, WrapperFunction)| p.0@) =~= self.functions@.map_values(|p: (String, WrapperFunction)| p.0@));
        }
        WrapperConfig { functions }
    }
}

proof fn lemma_functions_map_congruent(a: Seq<(String, WrapperFunction)>, b: Seq<(String, WrapperFunction)>)
    requires
        a.len() == b.len(),
        forall|j: int| 0 <= j < a.len() ==> #[trigger] a[j].0 == b[j].0 && a[j].1.model() == b[j].1.model(),
    ensures
        functions_map(a) == functions_map(b),
        distinct_names(b) ==> distinct_names(a),
    decreases a.len(),
{
    if a.len() > 0 {
        lemma_functions_map_congruent(a.drop_last(), b.drop_last());
        assert(a.last().0 == b.last().0);
    }
}

} // verus!

verus! {

// ───────────────────────────── variable expansion ─────────────────────────────

/// Number of name characters (alphanumeric or `_`) from position `j` on.
pub open spec fn name_len(s: Seq<char>, j: int) -> int
    decreases s.len() - j,
{
    if j < 0 || j >= s.len() || !is_name_char(s[j]) {
        0
    } else {
        1 + name_len(s, j + 1)
    }
}

pub proof fn lemma_name_len(s: Seq<char>, j: int)
    requires
        0 <= j <= s.len(),
    ensures
        0 <= name_len(s, j) <= s.len() - j,
    decreases s.len() - j,
{
    if j < s.len() && is_name_char(s[j]) {
        lemma_name_len(s, j + 1);
    }
}

/// The value of `$name`: a local first, then the environment, else nothing.
pub open spec fn lookup_var(name: Seq<char>, locals: Map<Seq<char>, Seq<char>>, env: Map<Seq<char>, Seq<char>>) -> Seq<char> {
    if locals.contains_key(name) {
        locals[name]
    } else if env.contains_key(name) {
        env[name]
    } else {
        Seq::empty()
    }
}

/// `s` from position `i` on with every `$name` replaced by its value; a `$`
/// not followed by a name character stays.
pub open spec fn expand_vars_from(s: Seq<char>, i: int, locals: Map<Seq<char>, Seq<char>>, env: Map<Seq<char>, Seq<char>>) -> Seq<char>
    decreases s.len() - i,
{
    if i < 0 || i >= s.len() {
        Seq::empty()
    } else if s[i] != '$' {
        seq![s[i]] + expand_vars_from(s, i + 1, locals, env)
    } else {
        let n = name_len(s, i + 1);
        proof {
            lemma_name_len(s, i + 1);
        }
        if n <= 0 {
            seq!['$'] + expand_vars_from(s, i + 1, locals, env)
        } else {
            lookup_var(s.subrange(i + 1, i + 1 + n), locals, env) + expand_vars_from(s, i + 1 + n, locals, env)
        }
    }
}

pub open spec fn expand_vars_spec(s: Seq<char>, locals: Map<Seq<char>, Seq<char>>, env: Map<Seq<char>, Seq<char>>) -> Seq<char> {
    expand_vars_from(s, 0, locals, env)
}

proof fn lemma_expand_from_plain(s: Seq<char>, i: int, locals: Map<Seq<char>, Seq<char>>, env: Map<Seq<char>, Seq<char>>)
    requires
        0 <= i <= s.len(),
        forall|k: int| i <= k < s.len() ==> s[k] != '$',
    ensures
        expand_vars_from(s, i, locals, env) == s.skip(i),
    decreases s.len() - i,
{
    if i < s.len() {
        lemma_expand_from_plain(s, i + 1, locals, env);
        assert(s.skip(i) =~= seq![s[i]] + s.skip(i + 1));
    } else {
        assert(s.skip(i) =~= Seq::<char>::empty());
    }
}

/// A text without `$` expands to itself.
pub proof fn lemma_expand_without_dollar(s: Seq<char>, locals: Map<Seq<char>, Seq<char>>, env: Map<Seq<char>, Seq<char>>)
    requires
        !s.contains('$'),
    ensures
        expand_vars_spec(s, locals, env) == s,
{
    assert forall|k: int| 0 <= k < s.len() implies s[k] != '$' by {
        if s[k] == '$' {
            assert(s.contains('$'));
        }
    }
    lemma_expand_from_plain(s, 0, locals, env);
    assert(s.skip(0) =~= s);
}

/// Expands `$args`, `$0`..`$9`, `$name` (locals) and `$NAME` (the environment
/// snapshot `env`) in `s`. Unknown names expand to nothing.
pub fn expand_vars(s: &str, locals: &VarMap, _args: &[&str], env: &VarMap) -> (r: String)
    ensures
        r@ == expand_vars_spec(s@, locals.view(), env.view()),
{
    let v = chars_of(s);
    let r = expand_vars_chars(&v, locals, env);
    string_of(&r)
}

pub fn expand_vars_chars(v: &Vec<char>, locals: &VarMap, env: &VarMap) -> (r: Vec<char>)
    ensures
        r@ == expand_vars_spec(v@, locals.view(), env.view()),
{
    let ghost lm = locals.view();
    let ghost em = env.view();
    let mut out: Vec<char> = Vec::new();
    let mut i: usize = 0;
    while i < v.len()
        invariant
            i <= v.len(),
            lm == locals.view(),
            em == env.view(),
            expand_vars_spec(v@, lm, em) == out@ + expand_vars_from(v@, i as int, lm, em),
        decreases v.len() - i,
    {
        let ch = v[i];
        if ch != '$' {
            out.push(ch);
            i += 1;
            continue;
        }
        let mut j = i + 1;
        while j < v.len() && is_name_character(v[j])
            invariant
                i < j <= v.len(),
                name_len(v@, i + 1) == (j - (i + 1)) + name_len(v@, j as int),
            decreases v.len() - j,
        {
            j += 1;
        }
        assert(name_len(v@, j as int) == 0);
        if j == i + 1 {
            out.push('$');
            i += 1;
            continue;
        }
        let name = substring(v, i + 1, j);
        let ghost before = out@;
        match locals.get(name.as_str()) {
            Some(val) => {
                let c = chars_of(val.as_str());
                out.extend_from_slice(&c);
            },
            None => {
                match env.get(name.as_str()) {
                    Some(val) => {
                        let c = chars_of(val.as_str());
                        out.extend_from_slice(&c);
                    },
                    None => {},
                }
            },
        }
        assert(out@ == before + lookup_var(v@.subrange(i + 1, j as int), lm, em));
        i = j;
    }
    assert(expand_vars_from(v@, i as int, lm, em) == Seq::<char>::empty());
    assert(out@ + Seq::<char>::empty() == out@);
    out
}

// ───────────────────────────── conditions ─────────────────────────────

/// Whether `s`, trimmed, is a lone quote character, which has no inside.
pub open spec fn lone_quote(s: Seq<char>) -> bool {
    trim(s) == seq!['"'] || trim(s) == seq!['\'']
}

/// `s` trimmed, without one pair of surrounding `"` or `'` quotes.
pub open spec fn strip_quotes_spec(s: Seq<char>) -> Seq<char> {
    let t = trim(s);
    if t.len() >= 2 && ((t[0] == '"' && t.last() == '"') || (t[0] == '\'' && t.last() == '\'')) {
        t.subrange(1, t.len() - 1)
    } else {
        t
    }
}

/// Removes white space and one pair of surrounding quotes.
pub fn strip_quotes(s: &str) -> (r: String)
    requires
        !lone_quote(s@),
    ensures
        r@ == strip_quotes_spec(s@),
{
    let v = chars_of(s);
    let t = trim_chars(&v);
    if t.len() >= 2 && ((t[0] == '"' && t[t.len() - 1] == '"') || (t[0] == '\'' && t[t.len() - 1] == '\'')) {
        substring(&t, 1, t.len() - 1)
    } else {
        string_of(&t)
    }
}

/// The file system test a condition asks for.
#[derive(Debug, Clone, Copy, PartialEq, Eq, Structural)]
pub enum PathTest {
    /// `-f`: a regular file.
    IsFile,
    /// `-d`: a directory.
    IsDir,
    /// `-e`: anything.
    Exists,
}

/// What an `if` condition amounts to.
#[derive(Debug)]
pub enum Condition {
    /// Decided by the text alone.
    Known(bool),
    /// Decided by a file system test on a path.
    Path(PathTest, String),
    /// Not one of the supported forms (it counts as false); the text is the
    /// condition without its brackets.
    Unsupported(String),
}

pub enum ConditionModel {
    Known(bool),
    Path(PathTest, Seq<char>),
    Unsupported(Seq<char>),
}

impl Condition {
    pub open spec fn model(self) -> ConditionModel {
        match self {
            Condition::Known(b) => ConditionModel::Known(b),
            Condition::Path(t, p) => ConditionModel::Path(t, p@),
            Condition::Unsupported(s) => ConditionModel::Unsupported(s@),
        }
    }
}

/// The condition without white space and, when it has them, without its `[` `]`.
pub open spec fn condition_inner(cond: Seq<char>) -> Seq<char> {
    let t = trim(cond);
    if t.len() >= 1 && t[0] == '[' && t.last() == ']' && t.len() >= 2 {
        trim(t.subrange(1, t.len() - 1))
    } else {
        t
    }
}

/// The words of `cur` so far, if any.
pub open spec fn flush_word(cur: Seq<char>) -> Seq<Seq<char>> {
    if cur.len() > 0 {
        seq![cur]
    } else {
        Seq::empty()
    }
}

/// The words of a condition from position `i` on, with `cur` the word being
/// read and `q` the quote it is inside: white space outside quotes separates
/// words, and a quoted stretch (`"..."` or `'...'`) stays in one word, spaces
/// and all.
pub open spec fn cond_words_from(s: Seq<char>, i: int, cur: Seq<char>, q: Option<char>) -> Seq<Seq<char>>
    decreases s.len() - i,
{
    if i < 0 || i >= s.len() {
        flush_word(cur)
    } else {
        let c = s[i];
        match q {
            Some(qc) => cond_words_from(s, i + 1, cur.push(c), if c == qc { None } else { q }),
            None => if crate::text::is_ws(c) {
                flush_word(cur) + cond_words_from(s, i + 1, Seq::empty(), None)
            } else {
                cond_words_from(s, i + 1, cur.push(c), if c == '"' || c == '\'' { Some(c) } else { None })
            },
        }
    }
}

/// The words of a condition, quoted stretches kept whole.
pub open spec fn cond_words(s: Seq<char>) -> Seq<Seq<char>> {
    cond_words_from(s, 0, Seq::empty(), None)
}

/// Splits a condition into [`cond_words`].
pub fn split_cond_words(v: &Vec<char>) -> (r: Vec<Vec<char>>)
    ensures
        views(r@) == cond_words(v@),
{
    let mut out: Vec<Vec<char>> = Vec::new();
    let mut cur: Vec<char> = Vec::new();
    let mut q: Option<char> = None;
    let mut i: usize = 0;
    assert(views(out@) =~= Seq::<Seq<char>>::empty());
    assert(Seq::<Seq<char>>::empty() + cond_words(v@) =~= cond_words(v@));
    while i < v.len()
        invariant
            i <= v@.len(),
            views(out@) + cond_words_from(v@, i as int, cur@, q) == cond_words(v@),
        decreases v@.len() - i,
    {
        let c = v[i];
        let ghost before = views(out@);
        let ghost cw = cur@;
        match q {
            Some(qc) => {
                cur.push(c);
                if c == qc {
                    q = None;
                }
            },
            None => {
                if crate::text::is_whitespace(c) {
                    let ghost rest = cond_words_from(v@, i + 1, Seq::empty(), None);
                    if cur.len() > 0 {
                        proof { lemma_views_push(out@, cur); }
                        out.push(cur);
                        cur = Vec::new();
                        assert(before + (flush_word(cw) + rest) =~= views(out@) + rest);
                    } else {
                        assert(before + (flush_word(cw) + rest) =~= views(out@) + rest);
                    }
                    assert(cur@ =~= Seq::<char>::empty());
                } else {
                    cur.push(c);
                    if c == '"' || c == '\'' {
                        q = Some(c);
                    }
                }
            },
        }
        i += 1;
    }
    let ghost before = views(out@);
    let ghost cw = cur@;
    if cur.len() > 0 {
        proof { lemma_views_push(out@, cur); }
        out.push(cur);
        assert(views(out@) =~= before + flush_word(cw));
    } else {
        assert(views(out@) =~= before + flush_word(cw));
    }
    out
}

/// Whether evaluating `cond` would strip the quotes of a lone quote character.
pub open spec fn condition_faults(cond: Seq<char>) -> bool {
    let w = cond_words(condition_inner(cond));
    ||| (w.len() == 2 && (w[0] == seq!['-', 'z'] || w[0] == seq!['-', 'n'] || w[0] == seq!['-', 'f']
        || w[0] == seq!['-', 'd'] || w[0] == seq!['-', 'e']) && lone_quote(w[1]))
    ||| (w.len() == 3 && !(w.len() == 2) && (w[1] == seq!['='] || w[1] == seq!['!', '='])
        && (lone_quote(w[0]) || lone_quote(w[2])))
}

/// The supported POSIX `test` forms: `-z S`, `-n S`, `-f P`, `-d P`, `-e P`,
/// `A = B`, `A != B`, optionally inside `[ ]`; quotes around operands are removed.
pub open spec fn classify_condition_spec(cond: Seq<char>) -> ConditionModel {
    let inner = condition_inner(cond);
    let w = cond_words(inner);
    if w.len() == 2 && w[0] == seq!['-', 'z'] {
        ConditionModel::Known(strip_quotes_spec(w[1]).len() == 0)
    } else if w.len() == 2 && w[0] == seq!['-', 'n'] {
        ConditionModel::Known(strip_quotes_spec(w[1]).len() != 0)
    } else if w.len() == 2 && w[0] == seq!['-', 'f'] {
        ConditionModel::Path(PathTest::IsFile, strip_quotes_spec(w[1]))
    } else if w.len() == 2 && w[0] == seq!['-', 'd'] {
        ConditionModel::Path(PathTest::IsDir, strip_quotes_spec(w[1]))
    } else if w.len() == 2 && w[0] == seq!['-', 'e'] {
        ConditionModel::Path(PathTest::Exists, strip_quotes_spec(w[1]))
    } else if w.len() == 3 && w[1] == seq!['='] {
        ConditionModel::Known(strip_quotes_spec(w[0]) == strip_quotes_spec(w[2]))
    } else if w.len() == 3 && w[1] == seq!['!', '='] {
        ConditionModel::Known(strip_quotes_spec(w[0]) != strip_quotes_spec(w[2]))
    } else {
        ConditionModel::Unsupported(inner)
    }
}

/// The file tests of a condition: whatever the condition's text, when its
/// words (brackets taken off) are a flag and one operand `p`, `-e` asks
/// whether `p` exists, `-f` whether it is a regular file and `-d` whether it
/// is a directory, each on `p` without its quotes; the three tests differ.
pub proof fn lemma_file_tests(cond: Seq<char>, p: Seq<char>)
    ensures
        cond_words(condition_inner(cond)) == seq![seq!['-', 'e'], p]
            ==> classify_condition_spec(cond) == ConditionModel::Path(PathTest::Exists, strip_quotes_spec(p)),
        cond_words(condition_inner(cond)) == seq![seq!['-', 'f'], p]
            ==> classify_condition_spec(cond) == ConditionModel::Path(PathTest::IsFile, strip_quotes_spec(p)),
        cond_words(condition_inner(cond)) == seq![seq!['-', 'd'], p]
            ==> classify_condition_spec(cond) == ConditionModel::Path(PathTest::IsDir, strip_quotes_spec(p)),
        PathTest::Exists != PathTest::IsFile && PathTest::Exists != PathTest::IsDir && PathTest::IsFile != PathTest::IsDir,
{
    let w = cond_words(condition_inner(cond));
    let e = seq!['-', 'e'];
    let f = seq!['-', 'f'];
    let d = seq!['-', 'd'];
    let z = seq!['-', 'z'];
    let n = seq!['-', 'n'];
    assert(e[1] == 'e' && f[1] == 'f' && d[1] == 'd' && z[1] == 'z' && n[1] == 'n');
    assert(e != z && e != n && e != f && e != d);
    assert(f != z && f != n);
    assert(d != z && d != n && d != f);
}

proof fn lemma_cond_words_solid(s: Seq<char>, i: int, cur: Seq<char>, q: Option<char>)
    requires
        0 <= i <= s.len(),
        forall|k: int| i <= k < s.len() ==> !crate::text::is_ws(#[trigger] s[k]),
    ensures
        cond_words_from(s, i, cur, q) == flush_word(cur + s.subrange(i, s.len() as int)),
    decreases s.len() - i,
{
    if i == s.len() {
        assert(cur + s.subrange(i, s.len() as int) =~= cur);
    } else {
        let c = s[i];
        assert(!crate::text::is_ws(c));
        let q2 = match q {
            Some(qc) => if c == qc { None } else { q },
            None => if c == '"' || c == '\'' { Some(c) } else { None },
        };
        lemma_cond_words_solid(s, i + 1, cur.push(c), q2);
        assert(cur.push(c) + s.subrange(i + 1, s.len() as int) =~= cur + s.subrange(i, s.len() as int));
    }
}

/// The words of `[ -x P ]` (flag letter `x`, operand `P` without white space).
proof fn lemma_flag_condition_words(x: char, p: Seq<char>)
    requires
        p.len() > 0,
        !crate::text::is_ws(x),
        x != '"' && x != '\'',
        forall|k: int| 0 <= k < p.len() ==> !crate::text::is_ws(#[trigger] p[k]),
    ensures
        cond_words(condition_inner(seq!['[', ' ', '-', x, ' '] + p + seq![' ', ']'])) == seq![seq!['-', x], p],
{
    let cond = seq!['[', ' ', '-', x, ' '] + p + seq![' ', ']'];
    let n = cond.len() as int;
    assert(cond[0] == '[' && cond[n - 1] == ']');
    assert(!crate::text::is_ws('[') && !crate::text::is_ws(']') && !crate::text::is_ws('-') && crate::text::is_ws(' '));
    assert(trim_start(cond) == cond);
    assert(trim_end(cond) == cond);
    let mid = cond.subrange(1, n - 1);
    assert(mid =~= seq![' ', '-', x, ' '] + p + seq![' ']);
    crate::text::lemma_trim_start_at(mid, 1);
    let m1 = mid.subrange(1, mid.len() as int);
    assert(m1 =~= seq!['-', x, ' '] + p + seq![' ']);
    assert(trim_start(m1) == m1);
    crate::text::lemma_trim_end_at(m1, m1.len() - 1);
    let w = m1.subrange(0, m1.len() - 1);
    assert(w =~= seq!['-', x, ' '] + p);
    assert(w.last() == p.last());
    assert(trim_end(w) == w);
    assert(condition_inner(cond) == w);
    assert(w[0] == '-' && w[1] == x && w[2] == ' ');
    assert forall|k: int| 3 <= k < w.len() implies !crate::text::is_ws(#[trigger] w[k]) by {
        assert(w[k] == p[k - 3]);
    }
    lemma_cond_words_solid(w, 3, Seq::empty(), None);
    assert(Seq::<char>::empty() + w.subrange(3, w.len() as int) =~= p);
    assert(cond_words_from(w, 2, seq!['-', x], None) == flush_word(seq!['-', x]) + cond_words_from(w, 3, Seq::empty(), None));
    assert(seq!['-'].push(x) =~= seq!['-', x]);
    assert(Seq::<char>::empty().push('-') =~= seq!['-']);
    assert(cond_words(w) == cond_words_from(w, 1, seq!['-'], None));
    assert(cond_words_from(w, 1, seq!['-'], None) == cond_words_from(w, 2, seq!['-', x], None));
    assert(flush_word(seq!['-', x]) + seq![p] =~= seq![seq!['-', x], p]);
}

/// `[ -e P ]`, `[ -f P ]` and `[ -d P ]` for an operand `P` without white
/// space (quoted or not): `-e` is the existence test, `-f` the regular-file
/// test and `-d` the directory test, each on `P` without its quotes; the
/// condition is classified (it does not fault) unless `P` is a lone quote.
pub proof fn lemma_bracket_file_tests(p: Seq<char>)
    requires
        p.len() > 0,
        forall|k: int| 0 <= k < p.len() ==> !crate::text::is_ws(#[trigger] p[k]),
    ensures
        classify_condition_spec(seq!['[', ' ', '-', 'e', ' '] + p + seq![' ', ']']) == ConditionModel::Path(PathTest::Exists, strip_quotes_spec(p)),
        classify_condition_spec(seq!['[', ' ', '-', 'f', ' '] + p + seq![' ', ']']) == ConditionModel::Path(PathTest::IsFile, strip_quotes_spec(p)),
        classify_condition_spec(seq!['[', ' ', '-', 'd', ' '] + p + seq![' ', ']']) == ConditionModel::Path(PathTest::IsDir, strip_quotes_spec(p)),
        !lone_quote(p) ==> !condition_faults(seq!['[', ' ', '-', 'e', ' '] + p + seq![' ', ']']),
{
    lemma_flag_condition_words('e', p);
    lemma_flag_condition_words('f', p);
    lemma_flag_condition_words('d', p);
    lemma_file_tests(seq!['[', ' ', '-', 'e', ' '] + p + seq![' ', ']'], p);
    lemma_file_tests(seq!['[', ' ', '-', 'f', ' '] + p + seq![' ', ']'], p);
    lemma_file_tests(seq!['[', ' ', '-', 'd', ' '] + p + seq![' ', ']'], p);
}

fn lit2(a: char, b: char) -> (r: Vec<char>)
    ensures
        r@ == seq![a, b],
{
    vec![a, b]
}

fn strip_quotes_chars(v: &Vec<char>) -> (r: Vec<char>)
    requires
        !lone_quote(v@),
    ensures
        r@ == strip_quotes_spec(v@),
{
    let t = trim_chars(v);
    if t.len() >= 2 && ((t[0] == '"' && t[t.len() - 1] == '"') || (t[0] == '\'' && t[t.len() - 1] == '\'')) {
        slice_of(&t, 1, t.len() - 1)
    } else {
        t
    }
}

fn is_lone_quote(v: &Vec<char>) -> (r: bool)
    ensures
        r == lone_quote(v@),
{
    let t = trim_chars(v);
    let r = t.len() == 1 && (t[0] == '"' || t[0] == '\'');
    assert(r ==> (t@ =~= seq!['"'] || t@ =~= seq!['\'']));
    r
}

/// Sorts a condition into a decided value, a file test, or an unsupported
/// form; `None` when evaluating it would strip the quotes of a lone quote.
pub fn classify_condition(cond: &str) -> (r: Option<Condition>)
    ensures
        r is None <==> condition_faults(cond@),
        r matches Some(c) ==> c.model() == classify_condition_spec(cond@),
{
    let v = chars_of(cond);
    let t = trim_chars(&v);
    let inner: Vec<char> = if t.len() >= 1 && t[0] == '[' && t[t.len() - 1] == ']' && t.len() >= 2 {
        let mid = slice_of(&t, 1, t.len() - 1);
        trim_chars(&mid)
    } else {
        t
    };
    assert(inner@ == condition_inner(cond@));
    let w = split_cond_words(&inner);
    let n = w.len();
    if n == 2 {
        assert(w@[0]@ == cond_words(inner@)[0] && w@[1]@ == cond_words(inner@)[1]);
        let flag = &w[0];
        let is_z = chars_eq(flag, &lit2('-', 'z'));
        let is_n = chars_eq(flag, &lit2('-', 'n'));
        let is_f = chars_eq(flag, &lit2('-', 'f'));
        let is_d = chars_eq(flag, &lit2('-', 'd'));
        let is_e = chars_eq(flag, &lit2('-', 'e'));
        if is_z || is_n || is_f || is_d || is_e {
            if is_lone_quote(&w[1]) {
                return None;
            }
            let val = strip_quotes_chars(&w[1]);
            if is_z {
                return Some(Condition::Known(val.len() == 0));
            } else if is_n {
                return Some(Condition::Known(val.len() != 0));
            } else if is_f {
                return Some(Condition::Path(PathTest::IsFile, string_of(&val)));
            } else if is_d {
                return Some(Condition::Path(PathTest::IsDir, string_of(&val)));
            } else {
                return Some(Condition::Path(PathTest::Exists, string_of(&val)));
            }
        }
    } else if n == 3 {
        let ghost ws = cond_words(inner@);
        assert(w@[0]@ == ws[0] && w@[1]@ == ws[1] && w@[2]@ == ws[2]);
        let eq_sign: Vec<char> = vec!['='];
        let is_eq = chars_eq(&w[1], &eq_sign);
        let is_ne = chars_eq(&w[1], &lit2('!', '='));
        assert(eq_sign@ == seq!['=']);
        assert(is_eq == (ws[1] == seq!['=']));
        assert(is_ne == (ws[1] == seq!['!', '=']));
        if is_eq || is_ne {
            if is_lone_quote(&w[0]) || is_lone_quote(&w[2]) {
                return None;
            }
            let a = strip_quotes_chars(&w[0]);
            let b = strip_quotes_chars(&w[2]);
            let same = chars_eq(&a, &b);
            return Some(Condition::Known(if is_eq { same } else { !same }));
        }
    }
    Some(Condition::Unsupported(string_of(&inner)))
}

} // verus!

verus! {

// ───────────────────────────── body lines ─────────────────────────────

pub open spec fn lit_let() -> Seq<char> { seq!['l', 'e', 't', ' '] }
pub open spec fn lit_if() -> Seq<char> { seq!['i', 'f', ' '] }
pub open spec fn lit_end() -> Seq<char> { seq!['e', 'n', 'd'] }
pub open spec fn lit_cd() -> Seq<char> { seq!['c', 'd'] }
pub open spec fn lit_cd_space() -> Seq<char> { seq!['c', 'd', ' '] }

/// What a (trimmed) body line does.
pub enum LineKindModel {
    /// Blank lines, comments, `end`, and `let` without `=`.
    Skip,
    /// `let var = value`.
    Let(Seq<char>, Seq<char>),
    /// `let var = $(command)`.
    LetCommand(Seq<char>, Seq<char>),
    /// `if condition`.
    If(Seq<char>),
    /// Any other line: a command line.
    Command(Seq<char>),
}

pub open spec fn line_kind(raw: Seq<char>) -> LineKindModel {
    if raw.len() == 0 || raw[0] == '#' {
        LineKindModel::Skip
    } else if starts_with(raw, lit_let()) {
        let rest = raw.skip(4);
        match find_seq(rest, seq!['=']) {
            None => LineKindModel::Skip,
            Some(e) => {
                let var = trim(rest.take(e));
                let val = trim(rest.skip(e + 1));
                if val.len() >= 3 && val[0] == '$' && val[1] == '(' && val.last() == ')' {
                    LineKindModel::LetCommand(var, val.subrange(2, val.len() - 1))
                } else {
                    LineKindModel::Let(var, val)
                }
            },
        }
    } else if starts_with(raw, lit_if()) {
        LineKindModel::If(raw.skip(3))
    } else if raw == lit_end() {
        LineKindModel::Skip
    } else {
        LineKindModel::Command(raw)
    }
}

pub enum LineKind {
    Skip,
    Let(Vec<char>, Vec<char>),
    LetCommand(Vec<char>, Vec<char>),
    If(Vec<char>),
    Command(Vec<char>),
}

impl LineKind {
    pub open spec fn model(self) -> LineKindModel {
        match self {
            LineKind::Skip => LineKindModel::Skip,
            LineKind::Let(a, b) => LineKindModel::Let(a@, b@),
            LineKind::LetCommand(a, b) => LineKindModel::LetCommand(a@, b@),
            LineKind::If(c) => LineKindModel::If(c@),
            LineKind::Command(c) => LineKindModel::Command(c@),
        }
    }
}

fn chars4(a: char, b: char, c: char, d: char) -> (r: Vec<char>)
    ensures
        r@ == seq![a, b, c, d],
{
    vec![a, b, c, d]
}

fn chars3(a: char, b: char, c: char) -> (r: Vec<char>)
    ensures
        r@ == seq![a, b, c],
{
    vec![a, b, c]
}

/// Sorts a trimmed body line.
pub fn classify_line(raw: &Vec<char>) -> (r: LineKind)
    ensures
        r.model() == line_kind(raw@),
{
    if raw.len() == 0 || raw[0] == '#' {
        return LineKind::Skip;
    }
    if has_prefix(raw, &chars4('l', 'e', 't', ' ')) {
        let rest = slice_of(raw, 4, raw.len());
        assert(rest@ == raw@.skip(4));
        assert(starts_with(raw@, lit_let()));
        let eq: Vec<char> = vec!['='];
        assert(eq@ == seq!['=']);
        match find_chars(&rest, &eq) {
            None => LineKind::Skip,
            Some(e) => {
                proof {
                    crate::text::lemma_find_from_bounds(rest@, eq@, 0);
                }
                let var = trim_chars(&slice_of(&rest, 0, e));
                let val = trim_chars(&slice_of(&rest, e + 1, rest.len()));
                assert(rest@.take(e as int) == rest@.subrange(0, e as int));
                assert(rest@.skip(e + 1) == rest@.subrange(e + 1, rest@.len() as int));
                if val.len() >= 3 && val[0] == '$' && val[1] == '(' && val[val.len() - 1] == ')' {
                    LineKind::LetCommand(var, slice_of(&val, 2, val.len() - 1))
                } else {
                    LineKind::Let(var, val)
                }
            },
        }
    } else if has_prefix(raw, &chars3('i', 'f', ' ')) {
        let c = slice_of(raw, 3, raw.len());
        assert(c@ == raw@.skip(3));
        assert(!starts_with(raw@, lit_let()));
        LineKind::If(c)
    } else if chars_eq(raw, &chars3('e', 'n', 'd')) {
        LineKind::Skip
    } else {
        let c = slice_of(raw, 0, raw.len());
        assert(c@ == raw@);
        LineKind::Command(c)
    }
}

/// The position after the `end` that closes an `if` whose block starts at
/// `pc`, or the end of the lines when none does; `depth` counts open `if`s.
pub open spec fn if_scan(lines: Seq<Seq<char>>, pc: int, depth: int) -> int
    decreases lines.len() - pc,
{
    if pc < 0 || pc >= lines.len() {
        pc
    } else {
        let l = trim(lines[pc]);
        let d = if starts_with(l, lit_if()) {
            depth + 1
        } else {
            depth
        };
        if l == lit_end() {
            if d - 1 == 0 {
                pc + 1
            } else {
                if_scan(lines, pc + 1, d - 1)
            }
        } else {
            if_scan(lines, pc + 1, d)
        }
    }
}

proof fn lemma_if_scan(lines: Seq<Seq<char>>, pc: int, depth: int)
    requires
        0 <= pc <= lines.len(),
    ensures
        pc <= if_scan(lines, pc, depth) <= lines.len(),
        pc < lines.len() ==> pc < if_scan(lines, pc, depth),
    decreases lines.len() - pc,
{
    if pc < lines.len() {
        let l = trim(lines[pc]);
        let d = if starts_with(l, lit_if()) { depth + 1 } else { depth };
        if l == lit_end() {
            if d - 1 != 0 {
                lemma_if_scan(lines, pc + 1, d - 1);
            }
        } else {
            lemma_if_scan(lines, pc + 1, d);
        }
    }
}

fn find_block_end(lines: &Vec<Vec<char>>, start: usize) -> (r: usize)
    requires
        1 <= start <= lines@.len(),
    ensures
        r as int == if_scan(views(lines@), start as int, 1),
        start <= r <= lines@.len(),
        start < lines@.len() ==> start < r,
{
    let ghost ls = views(lines@);
    proof {
        lemma_if_scan(ls, start as int, 1);
    }
    let mut pc = start;
    let mut depth: usize = 1;
    while pc < lines.len()
        invariant
            start <= pc <= lines@.len(),
            ls == views(lines@),
            1 <= depth <= pc - start + 1,
            1 <= start,
            if_scan(ls, start as int, 1) == if_scan(ls, pc as int, depth as int),
        decreases lines@.len() - pc,
    {
        let l = trim_chars(&lines[pc]);
        assert(ls[pc as int] == lines@[pc as int]@);
        let opens = has_prefix(&l, &chars3('i', 'f', ' '));
        if opens {
            depth += 1;
        }
        pc += 1;
        if chars_eq(&l, &chars3('e', 'n', 'd')) {
            depth -= 1;
            if depth == 0 {
                return pc;
            }
        }
    }
    pc
}

/// Whether an expanded command line is `cd` with a target that is empty once
/// quotes are removed; such a line is not run.
pub open spec fn cd_without_target(e: Seq<char>) -> bool {
    let t = trim(e);
    (t == lit_cd() || starts_with(t, lit_cd_space())) && trim_char(
        trim_char(trim(strip_prefixes(t, lit_cd())), '"'),
        '\'',
    ).len() == 0
}

fn is_cd_without_target(e: &Vec<char>) -> (r: bool)
    ensures
        r == cd_without_target(e@),
{
    let t = trim_chars(e);
    let cd: Vec<char> = vec!['c', 'd'];
    assert(cd@ == lit_cd());
    if chars_eq(&t, &cd) || has_prefix(&t, &chars3('c', 'd', ' ')) {
        let a = strip_prefixes_chars(&t, &cd);
        let b = trim_chars(&a);
        let c = trim_char_chars(&b, '"');
        let d = trim_char_chars(&c, '\'');
        d.len() == 0
    } else {
        false
    }
}

/// What running one line of a body amounts to.
pub enum LinePlanModel {
    /// Nothing to run (blank, comment, or no command).
    Skip,
    /// Malformed quoting in the (trimmed) line; the line's code is 1.
    BadQuote(Seq<char>),
    /// Units to run; the line's code is 0 whatever they return.
    Run(Seq<UnitModel>),
}

pub open spec fn line_plan(line: Seq<char>) -> LinePlanModel {
    let l = trim(line);
    if l.len() == 0 || l[0] == '#' {
        LinePlanModel::Skip
    } else {
        match shlex_split(l) {
            None => LinePlanModel::BadQuote(l),
            Some(w) => if w.len() == 0 {
                LinePlanModel::Skip
            } else {
                let u = units_of(tokenize_seq(w));
                if u.len() == 0 {
                    LinePlanModel::Skip
                } else {
                    LinePlanModel::Run(u)
                }
            },
        }
    }
}

// ───────────────────────────── running a body ─────────────────────────────

/// One open block of a running body: its lines, the next line, and the code of the last command.
pub struct FrameModel {
    pub lines: Seq<Seq<char>>,
    pub pc: int,
    pub last_exit: i32,
}

/// What a running body waits for.
#[derive(Debug, Clone, Copy, PartialEq, Eq, Structural)]
pub enum Wait {
    /// Ready for the next step.
    Ready,
    /// The output of a command substitution.
    Output,
    /// The truth of a condition (a file test, or `false` for an unsupported one).
    Truth,
    /// The exit code of a command line it asked to run.
    Code,
    /// The body has finished.
    Finished,
}

/// A request from a running body to whoever drives it.
#[derive(Debug)]
pub enum WrapperStep {
    /// Nothing to do outside; step again.
    Continue,
    /// Run these units as a command line.
    Run(Vec<Unit>),
    /// Report malformed quoting in this line.
    BadQuote(String),
    /// Run this command and hand back its standard output.
    Substitute(Vec<String>),
    /// Test this path and hand back the answer.
    TestPath(PathTest, String),
    /// Report this unsupported condition; it counts as false.
    Unsupported(String),
    /// An `if` on the last line of a block has no block at all; the body cannot go on.
    Fault,
    /// The body finished with this exit code.
    Done(i32),
}

pub enum StepModel {
    Continue,
    Run(Seq<UnitModel>),
    BadQuote(Seq<char>),
    Substitute(Seq<Seq<char>>),
    TestPath(PathTest, Seq<char>),
    Unsupported(Seq<char>),
    Fault,
    Done(i32),
}

impl WrapperStep {
    pub open spec fn model(self) -> StepModel {
        match self {
            WrapperStep::Continue => StepModel::Continue,
            WrapperStep::Run(u) => StepModel::Run(unit_models(u@)),
            WrapperStep::BadQuote(s) => StepModel::BadQuote(s@),
            WrapperStep::Substitute(w) => StepModel::Substitute(views_of_strings(w@)),
            WrapperStep::TestPath(t, p) => StepModel::TestPath(t, p@),
            WrapperStep::Unsupported(s) => StepModel::Unsupported(s@),
            WrapperStep::Fault => StepModel::Fault,
            WrapperStep::Done(c) => StepModel::Done(c),
        }
    }
}

struct Frame {
    lines: Vec<Vec<char>>,
    pc: usize,
    last_exit: i32,
}

impl Frame {
    spec fn model(self) -> FrameModel {
        FrameModel { lines: views(self.lines@), pc: self.pc as int, last_exit: self.last_exit }
    }
}

/// A wrapper function's body being run, one line per step.
pub struct WrapperRun {
    frames: Vec<Frame>,
    locals: VarMap,
    wait: Wait,
    /// The variable that a pending command substitution assigns.
    target: Vec<char>,
}

/// The locals a wrapper starts with after `n` arguments are bound: `args`
/// (all arguments joined by spaces) and `0`, `1`, ... for the single arguments.
pub open spec fn arg_locals(args: Seq<Seq<char>>, n: int) -> Map<Seq<char>, Seq<char>>
    decreases n,
{
    if n <= 0 {
        Map::empty().insert(seq!['a', 'r', 'g', 's'], join(args, seq![' ']))
    } else {
        arg_locals(args, n - 1).insert(decimal((n - 1) as nat), args[n - 1])
    }
}

/// The locals a wrapper starts with: `args` and `0`..`9`.
pub open spec fn initial_locals(args: Seq<Seq<char>>) -> Map<Seq<char>, Seq<char>> {
    arg_locals(args, if args.len() < 10 { args.len() as int } else { 10 })
}

impl WrapperRun {
    pub closed spec fn frames(&self) -> Seq<FrameModel> {
        self.frames@.map_values(|f: Frame| f.model())
    }

    pub closed spec fn locals(&self) -> Map<Seq<char>, Seq<char>> {
        self.locals.view()
    }

    pub closed spec fn wait(&self) -> Wait {
        self.wait
    }

    /// The variable a pending command substitution assigns.
    pub closed spec fn target(&self) -> Seq<char> {
        self.target@
    }

    pub closed spec fn well_formed(&self) -> bool {
        &&& (self.wait == Wait::Finished) == (self.frames@.len() == 0)
        &&& (self.wait == Wait::Truth ==> self.frames@.last().pc >= 1)
        &&& forall|i: int| 0 <= i < self.frames@.len() ==> #[trigger] self.frames@[i].pc <= self.frames@[i].lines@.len()
    }
}

} // verus!

verus! {

/// The state of a running body.
pub struct RunModel {
    pub frames: Seq<FrameModel>,
    pub locals: Map<Seq<char>, Seq<char>>,
    pub wait: Wait,
    pub target: Seq<char>,
}

/// Frames after the `if` whose block starts at the top frame's `pc` was
/// decided: the top frame moves past the block, and a frame for the block's
/// lines is opened when the condition holds. `None` when the `if` was the last
/// line of its block.
pub open spec fn after_if(frames: Seq<FrameModel>, holds: bool) -> Option<Seq<FrameModel>> {
    let f = frames.last();
    let start = f.pc;
    if start >= f.lines.len() {
        None
    } else {
        let end = if_scan(f.lines, start, 1);
        let block = f.lines.subrange(start, end - 1);
        let moved = frames.update(frames.len() - 1, FrameModel { pc: end, ..f });
        if holds {
            Some(moved.push(FrameModel { lines: lines_of(join(block, seq!['\n'])), pc: 0, last_exit: 0 }))
        } else {
            Some(moved)
        }
    }
}

pub open spec fn faulted(m: RunModel) -> RunModel {
    RunModel { frames: Seq::empty(), wait: Wait::Finished, ..m }
}

/// One step of a body in state `m` (ready, with an open frame), with the
/// environment snapshot `env`: the next line of the innermost block runs, or
/// a finished block closes and hands its code to the block around it.
pub open spec fn step_spec(m: RunModel, env: Map<Seq<char>, Seq<char>>) -> (RunModel, StepModel) {
    let n = m.frames.len();
    let f = m.frames.last();
    if f.pc >= f.lines.len() {
        let rest = m.frames.drop_last();
        if rest.len() == 0 {
            (RunModel { frames: rest, wait: Wait::Finished, ..m }, StepModel::Done(f.last_exit))
        } else {
            (RunModel { frames: rest.update(rest.len() - 1, FrameModel { last_exit: f.last_exit, ..rest.last() }), ..m }, StepModel::Continue)
        }
    } else {
        let raw = trim(f.lines[f.pc]);
        let next = m.frames.update(n - 1, FrameModel { pc: f.pc + 1, ..f });
        let moved = RunModel { frames: next, ..m };
        match line_kind(raw) {
            LineKindModel::Skip => (moved, StepModel::Continue),
            LineKindModel::Let(var, val) => (
                RunModel { locals: m.locals.insert(var, expand_vars_spec(val, m.locals, env)), ..moved },
                StepModel::Continue,
            ),
            LineKindModel::LetCommand(var, cmd) => {
                let e = expand_vars_spec(cmd, m.locals, env);
                match shlex_split(e) {
                    Some(w) => if w.len() > 0 {
                        (RunModel { wait: Wait::Output, target: var, ..moved }, StepModel::Substitute(w))
                    } else {
                        (RunModel { locals: m.locals.insert(var, Seq::empty()), ..moved }, StepModel::Continue)
                    },
                    None => (RunModel { locals: m.locals.insert(var, Seq::empty()), ..moved }, StepModel::Continue),
                }
            },
            LineKindModel::If(c) => {
                let cond = expand_vars_spec(c, m.locals, env);
                if condition_faults(cond) {
                    (faulted(moved), StepModel::Fault)
                } else {
                    match classify_condition_spec(cond) {
                        ConditionModel::Known(b) => match after_if(next, b) {
                            Some(fs) => (RunModel { frames: fs, ..moved }, StepModel::Continue),
                            None => (faulted(moved), StepModel::Fault),
                        },
                        ConditionModel::Path(t, p) => (RunModel { wait: Wait::Truth, ..moved }, StepModel::TestPath(t, p)),
                        ConditionModel::Unsupported(i) => (RunModel { wait: Wait::Truth, ..moved }, StepModel::Unsupported(i)),
                    }
                }
            },
            LineKindModel::Command(c) => {
                let e = expand_vars_spec(c, m.locals, env);
                if cd_without_target(e) {
                    (moved, StepModel::Continue)
                } else {
                    let top = next.last();
                    match line_plan(e) {
                        LinePlanModel::Skip => (RunModel { frames: next.update(n - 1, FrameModel { last_exit: 0, ..top }), ..m }, StepModel::Continue),
                        LinePlanModel::BadQuote(l) => (RunModel { frames: next.update(n - 1, FrameModel { last_exit: 1, ..top }), ..m }, StepModel::BadQuote(l)),
                        LinePlanModel::Run(u) => (RunModel { wait: Wait::Code, ..moved }, StepModel::Run(u)),
                    }
                }
            },
        }
    }
}

pub enum LinePlan {
    Skip,
    BadQuote(String),
    Run(Vec<Unit>),
}

impl LinePlan {
    pub open spec fn model(self) -> LinePlanModel {
        match self {
            LinePlan::Skip => LinePlanModel::Skip,
            LinePlan::BadQuote(s) => LinePlanModel::BadQuote(s@),
            LinePlan::Run(u) => LinePlanModel::Run(unit_models(u@)),
        }
    }
}

/// What running one command line of a body amounts to.
pub fn plan_line(line: &Vec<char>) -> (r: LinePlan)
    ensures
        r.model() == line_plan(line@),
{
    let l = trim_chars(line);
    if l.len() == 0 || l[0] == '#' {
        return LinePlan::Skip;
    }
    let text = string_of(&l);
    match shell_words(text.as_str()) {
        None => LinePlan::BadQuote(text),
        Some(words) => {
            if words.len() == 0 {
                return LinePlan::Skip;
            }
            let owned_tokens = tokenize_operators(words);
            let tokens = as_strs(&owned_tokens);
            let units = parse_input(tokens.as_slice());
            if units.len() == 0 {
                LinePlan::Skip
            } else {
                LinePlan::Run(units)
            }
        },
    }
}

impl WrapperRun {
    pub closed spec fn model(&self) -> RunModel {
        RunModel { frames: self.frames(), locals: self.locals(), wait: self.wait, target: self.target@ }
    }

    /// Starts `func` with arguments `args`.
    pub fn start(func: &WrapperFunction, args: &[&str]) -> (r: WrapperRun)
        ensures
            r.well_formed(),
            r.wait() == Wait::Ready,
            r.locals() == initial_locals(views_of_strs(args@)),
            r.frames() == seq![FrameModel { lines: lines_of(func.body@), pc: 0, last_exit: 0 }],
    {
        let ghost a = views_of_strs(args@);
        let mut locals = VarMap::new();
        let mut joined: Vec<char> = Vec::new();
        let mut i: usize = 0;
        while i < args.len()
            invariant
                i <= args@.len(),
                a == views_of_strs(args@),
                joined@ == join(a.take(i as int), seq![' ']),
            decreases args@.len() - i,
        {
            if i > 0 {
                joined.push(' ');
            }
            let c = chars_of(args[i]);
            joined.extend_from_slice(&c);
            proof {
                let t = a.take(i + 1);
                assert(t.drop_last() == a.take(i as int));
                assert(t.last() == args@[i as int]@);
                if i == 0 {
                    assert(t.len() == 1);
                }
            }
            i += 1;
        }
        assert(a.take(args@.len() as int) == a);
        locals.insert(string_of(&['a', 'r', 'g', 's']), string_of(&joined));
        let mut k: usize = 0;
        while k < args.len() && k < 10
            invariant
                k <= args@.len(),
                k <= 10,
                a == views_of_strs(args@),
                locals.view() == arg_locals(a, k as int),
            decreases 10 - k,
        {
            let key = string_of(&decimal_chars(k as u64));
            let val = owned(args[k]);
            locals.insert(key, val);
            k += 1;
        }
        let body = chars_of(func.body.as_str());
        let lines = split_lines(&body);
        let mut frames: Vec<Frame> = Vec::new();
        frames.push(Frame { lines, pc: 0, last_exit: 0 });
        let r = WrapperRun { frames, locals, wait: Wait::Ready, target: Vec::new() };
        assert(r.frames() =~= seq![FrameModel { lines: lines_of(func.body@), pc: 0, last_exit: 0 }]);
        r
    }
}

} // verus!

verus! {

proof fn lemma_frames_push(s: Seq<Frame>, f: Frame)
    ensures
        s.push(f).map_values(|x: Frame| x.model()) == s.map_values(|x: Frame| x.model()).push(f.model()),
{
    assert(s.push(f).map_values(|x: Frame| x.model()) =~= s.map_values(|x: Frame| x.model()).push(f.model()));
}

proof fn lemma_frames_pop(s: Seq<Frame>)
    requires
        s.len() > 0,
    ensures
        s.drop_last().map_values(|x: Frame| x.model()) == s.map_values(|x: Frame| x.model()).drop_last(),
        s.map_values(|x: Frame| x.model()).last() == s.last().model(),
{
    assert(s.drop_last().map_values(|x: Frame| x.model()) =~= s.map_values(|x: Frame| x.model()).drop_last());
}

impl WrapperRun {
    /// Opens the block of the `if` whose block starts at the top frame's
    /// position, when `holds`; `false` when that `if` was the last line.
    fn open_block(&mut self, holds: bool) -> (ok: bool)
        requires
            old(self).frames@.len() > 0,
            old(self).well_formed(),
            old(self).wait == Wait::Ready,
            old(self).frames@.last().pc >= 1,
        ensures
            ok == (after_if(old(self).frames(), holds) is Some),
            ok ==> final(self).frames() == after_if(old(self).frames(), holds)->0,
            ok ==> final(self).well_formed(),
            final(self).locals == old(self).locals,
            final(self).wait == old(self).wait,
            final(self).target == old(self).target,
    {
        let ghost before = self.frames@;
        proof {
            lemma_frames_pop(before);
        }
        let mut f = self.frames.pop().unwrap();
        assert(self.frames@ == before.drop_last());
        assert(f == before.last());
        let start = f.pc;
        if start >= f.lines.len() {
            proof { lemma_frames_push(self.frames@, f); }
            self.frames.push(f);
            assert(self.frames@ =~= before);
            return false;
        }
        let end = find_block_end(&f.lines, start);
        let mut block: Vec<Vec<char>> = Vec::new();
        assert(views(block@) =~= Seq::<Seq<char>>::empty());
        let mut j = start;
        while j < end - 1
            invariant
                start <= j <= end - 1,
                end <= f.lines@.len(),
                views(block@) == views(f.lines@).subrange(start as int, j as int),
            decreases end - j,
        {
            let line = slice_of(&f.lines[j], 0, f.lines[j].len());
            proof {
                lemma_views_push(block@, line);
                assert(line@ =~= views(f.lines@)[j as int]);
                assert(views(f.lines@).subrange(start as int, j + 1) =~= views(f.lines@).subrange(start as int, j as int).push(line@));
            }
            block.push(line);
            j += 1;
        }
        let ghost fm = f.model();
        f.pc = end;
        proof { lemma_frames_push(self.frames@, f); }
        self.frames.push(f);
        proof {
            assert(self.frames() =~= before.map_values(|x: Frame| x.model()).update(before.len() - 1, FrameModel { pc: end as int, ..fm }));
        }
        if holds {
            let sep: Vec<char> = vec!['\n'];
            assert(sep@ == seq!['\n']);
            let text = join_chars(&block, &sep);
            let lines = split_lines(&text);
            let nf = Frame { lines, pc: 0, last_exit: 0 };
            proof { lemma_frames_push(self.frames@, nf); }
            self.frames.push(nf);
        }
        proof {
            assert forall|i: int| 0 <= i < self.frames@.len() implies #[trigger] self.frames@[i].pc <= self.frames@[i].lines@.len() by {
                if i < before.len() - 1 {
                    assert(self.frames@[i] == before[i]);
                }
            }
        }
        true
    }

    /// Runs one step of the body (see [`step_spec`]).
    pub fn step(&mut self, env: &VarMap) -> (r: WrapperStep)
        requires
            old(self).well_formed(),
            old(self).wait() == Wait::Ready,
        ensures
            final(self).well_formed(),
            (final(self).model(), r.model()) == step_spec(old(self).model(), env.view()),
    {
        let ghost m = self.model();
        let ghost before = self.frames@;
        proof {
            lemma_frames_pop(before);
        }
        let mut f = self.frames.pop().unwrap();
        assert(self.frames@ == before.drop_last());
        if f.pc >= f.lines.len() {
            if self.frames.len() == 0 {
                self.wait = Wait::Finished;
                return WrapperStep::Done(f.last_exit);
            }
            let ghost mid = self.frames@;
            proof { lemma_frames_pop(mid); }
            let mut p = self.frames.pop().unwrap();
            p.last_exit = f.last_exit;
            proof { lemma_frames_push(self.frames@, p); }
            self.frames.push(p);
            proof {
                assert(self.frames() =~= m.frames.drop_last().update(m.frames.len() - 2, FrameModel { last_exit: f.last_exit, ..m.frames.drop_last().last() }));
                assert forall|i: int| 0 <= i < self.frames@.len() implies #[trigger] self.frames@[i].pc <= self.frames@[i].lines@.len() by {
                    if i < mid.len() - 1 {
                        assert(self.frames@[i] == before[i]);
                    }
                }
            }
            return WrapperStep::Continue;
        }
        let raw = trim_chars(&f.lines[f.pc]);
        assert(raw@ == trim(m.frames.last().lines[m.frames.last().pc]));
        f.pc = f.pc + 1;
        let kind = classify_line(&raw);
        let ghost fm1 = f.model();
        let ghost next = m.frames.update(m.frames.len() - 1, fm1);
        match kind {
            LineKind::Command(c) => {
                let e = expand_vars_chars(&c, &self.locals, env);
                if !is_cd_without_target(&e) {
                    match plan_line(&e) {
                        LinePlan::Skip => {
                            f.last_exit = 0;
                            proof { lemma_frames_push(self.frames@, f); }
                            self.frames.push(f);
                            proof { assert(self.frames() =~= next.update(next.len() - 1, FrameModel { last_exit: 0, ..fm1 })); }
                            return WrapperStep::Continue;
                        },
                        LinePlan::BadQuote(l) => {
                            f.last_exit = 1;
                            proof { lemma_frames_push(self.frames@, f); }
                            self.frames.push(f);
                            proof { assert(self.frames() =~= next.update(next.len() - 1, FrameModel { last_exit: 1, ..fm1 })); }
                            return WrapperStep::BadQuote(l);
                        },
                        LinePlan::Run(u) => {
                            proof { lemma_frames_push(self.frames@, f); }
                            self.frames.push(f);
                            proof { assert(self.frames() =~= next); }
                            self.wait = Wait::Code;
                            return WrapperStep::Run(u);
                        },
                    }
                }
                proof { lemma_frames_push(self.frames@, f); }
                self.frames.push(f);
                proof { assert(self.frames() =~= next); }
                WrapperStep::Continue
            },
            LineKind::Skip => {
                proof { lemma_frames_push(self.frames@, f); }
                self.frames.push(f);
                proof { assert(self.frames() =~= next); }
                WrapperStep::Continue
            },
            LineKind::Let(var, val) => {
                let v = expand_vars_chars(&val, &self.locals, env);
                self.locals.insert(string_of(&var), string_of(&v));
                proof { lemma_frames_push(self.frames@, f); }
                self.frames.push(f);
                proof { assert(self.frames() =~= next); }
                WrapperStep::Continue
            },
            LineKind::LetCommand(var, cmd) => {
                let e = expand_vars_chars(&cmd, &self.locals, env);
                proof { lemma_frames_push(self.frames@, f); }
                self.frames.push(f);
                proof { assert(self.frames() =~= next); }
                let text = string_of(&e);
                match shell_words(text.as_str()) {
                    Some(w) => {
                        if w.len() > 0 {
                            self.wait = Wait::Output;
                            self.target = var;
                            return WrapperStep::Substitute(w);
                        }
                    },
                    None => {},
                }
                self.locals.insert(string_of(&var), String::new());
                WrapperStep::Continue
            },
            LineKind::If(c) => {
                let e = expand_vars_chars(&c, &self.locals, env);
                let text = string_of(&e);
                proof { lemma_frames_push(self.frames@, f); }
                self.frames.push(f);
                proof { assert(self.frames() =~= next); }
                match classify_condition(text.as_str()) {
                    None => {
                        self.frames = Vec::new();
                        self.wait = Wait::Finished;
                        proof { assert(self.frames() =~= Seq::<FrameModel>::empty()); }
                        WrapperStep::Fault
                    },
                    Some(Condition::Known(b)) => {
                        if self.open_block(b) {
                            WrapperStep::Continue
                        } else {
                            self.frames = Vec::new();
                            self.wait = Wait::Finished;
                            proof { assert(self.frames() =~= Seq::<FrameModel>::empty()); }
                            WrapperStep::Fault
                        }
                    },
                    Some(Condition::Path(t, p)) => {
                        self.wait = Wait::Truth;
                        WrapperStep::TestPath(t, p)
                    },
                    Some(Condition::Unsupported(i)) => {
                        self.wait = Wait::Truth;
                        WrapperStep::Unsupported(i)
                    },
                }
            },
        }
    }

    /// Hands back the standard output of the pending command substitution;
    /// the variable gets it without trailing white space.
    /// Hands back the exit code of the command line the body asked to run;
    /// it becomes the code of the block it stands in.
    pub fn resume_code(&mut self, code: i32)
        requires
            old(self).well_formed(),
            old(self).wait() == Wait::Code,
        ensures
            final(self).well_formed(),
            final(self).wait() == Wait::Ready,
            final(self).locals() == old(self).locals(),
            final(self).frames() == old(self).frames().update(
                old(self).frames().len() - 1,
                FrameModel { last_exit: code, ..old(self).frames().last() },
            ),
    {
        let ghost before = self.frames@;
        proof {
            lemma_frames_pop(before);
        }
        let mut f = self.frames.pop().unwrap();
        f.last_exit = code;
        proof { lemma_frames_push(self.frames@, f); }
        self.frames.push(f);
        self.wait = Wait::Ready;
        proof {
            assert(self.frames() =~= old(self).frames().update(
                old(self).frames().len() - 1,
                FrameModel { last_exit: code, ..old(self).frames().last() },
            ));
            assert forall|i: int| 0 <= i < self.frames@.len() implies #[trigger] self.frames@[i].pc <= self.frames@[i].lines@.len() by {
                if i < before.len() - 1 {
                    assert(self.frames@[i] == before[i]);
                }
            }
        }
    }

    pub fn resume_output(&mut self, output: &str)
        requires
            old(self).well_formed(),
            old(self).wait() == Wait::Output,
        ensures
            final(self).well_formed(),
            final(self).wait() == Wait::Ready,
            final(self).frames() == old(self).frames(),
            final(self).locals() == old(self).locals().insert(old(self).target(), trim_end(output@)),
    {
        let v = chars_of(output);
        let (a, b) = crate::text::trim_end_bounds(&v);
        let t = slice_of(&v, 0, b);
        let key = string_of(&self.target);
        self.locals.insert(key, string_of(&t));
        self.wait = Wait::Ready;
    }

    /// Hands back whether the pending condition holds.
    pub fn resume_truth(&mut self, holds: bool) -> (r: WrapperStep)
        requires
            old(self).well_formed(),
            old(self).wait() == Wait::Truth,
        ensures
            final(self).well_formed(),
            final(self).locals() == old(self).locals(),
            match after_if(old(self).frames(), holds) {
                Some(fs) => final(self).frames() == fs && final(self).wait() == Wait::Ready && r.model() == StepModel::Continue,
                None => final(self).wait() == Wait::Finished && r.model() == StepModel::Fault,
            },
    {
        self.wait = Wait::Ready;
        if self.open_block(holds) {
            WrapperStep::Continue
        } else {
            self.frames = Vec::new();
            self.wait = Wait::Finished;
            WrapperStep::Fault
        }
    }
}

} // verus!

verus! {

/// Starts running the wrapper function `func` with arguments `args`; the
/// shell drives the run with [`WrapperRun::step`] and resumes it with what
/// the commands it asks for give back.
pub fn execute_wrapper(func: &WrapperFunction, args: &[&str]) -> (r: WrapperRun)
    ensures
        r.well_formed(),
        r.wait() == Wait::Ready,
        r.locals() == initial_locals(views_of_strs(args@)),
        r.frames() == seq![FrameModel { lines: lines_of(func.body@), pc: 0, last_exit: 0 }],
{
    WrapperRun::start(func, args)
}

} // verus!
