//! The shell's configuration (`config.toml`) and the lookups it answers.
use vstd::prelude::*;
use crate::config::prompt::PromptConfig;
use crate::config::wrapper::WrapperConfig;
use crate::executor::{expand_tilde, expand_tilde_spec, opt_view};
use crate::text::{chars_of, chars_eq, has_prefix, join, owned, push_chars, push_str, slice_of, starts_with, string_of, views};
use crate::vars::VarMap;

verus! {

/// `[shell]`.
#[derive(Debug, Clone)]
pub struct ShellSection {
    pub show_greeting: bool,
    pub add_newline_before_prompt: bool,
    pub syntax_highlighting: bool,
}

impl Default for ShellSection {
    fn default() -> (r: Self)
        ensures
            r.show_greeting,
            !r.add_newline_before_prompt,
            r.syntax_highlighting,
    {
        ShellSection { show_greeting: true, add_newline_before_prompt: false, syntax_highlighting: true }
    }
}

/// `[startup]`: commands run once when the shell starts.
#[derive(Debug, Clone)]
pub struct StartupSection {
    pub commands: Vec<String>,
}

impl Default for StartupSection {
    fn default() -> (r: Self)
        ensures
            r.commands@.len() == 0,
    {
        StartupSection { commands: Vec::new() }
    }
}

/// A value of the `[env]` table: text for strings, numbers and booleans,
/// nothing for tables and arrays.
#[derive(Debug, Clone)]
pub struct EnvVal(pub Option<String>);

/// `[env]`.
#[derive(Debug, Clone)]
pub struct EnvSection {
    pub editor: Option<String>,
    pub visual: Option<String>,
    pub lang: Option<String>,
    /// Directories put in front of `PATH`.
    pub path_extra: Vec<String>,
    /// Every other variable of the table, in table order.
    pub extra: Vec<(String, EnvVal)>,
}

impl Default for EnvSection {
    fn default() -> (r: Self)
        ensures
            r.editor is None,
            r.visual is None,
            r.lang is None,
            r.path_extra@.len() == 0,
            r.extra@.len() == 0,
    {
        EnvSection { editor: None, visual: None, lang: None, path_extra: Vec::new(), extra: Vec::new() }
    }
}

/// `[completion]`.
#[derive(Debug, Clone)]
pub struct CompletionSection {
    pub case_sensitive: bool,
    pub fuzzy_search: bool,
    pub inline_suggestions: bool,
}

impl Default for CompletionSection {
    fn default() -> (r: Self)
        ensures
            !r.case_sensitive,
            !r.fuzzy_search,
            !r.inline_suggestions,
    {
        CompletionSection { case_sensitive: false, fuzzy_search: false, inline_suggestions: false }
    }
}

/// `[hooks]`: command lines run on events.
#[derive(Debug, Clone)]
pub struct HooksSection {
    pub on_cd: String,
    pub on_clear: String,
    pub pre_command: String,
}

impl Default for HooksSection {
    fn default() -> (r: Self)
        ensures
            r.on_cd@.len() == 0,
            r.on_clear@.len() == 0,
            r.pre_command@.len() == 0,
    {
        HooksSection { on_cd: String::new(), on_clear: String::new(), pre_command: String::new() }
    }
}

/// `[history]`.
#[derive(Debug, Clone)]
pub struct HistorySection {
    pub max_entries: usize,
    pub ignore_space: bool,
    pub ignore_dups: bool,
    pub timestamp_format: String,
}

impl Default for HistorySection {
    fn default() -> (r: Self)
        ensures
            r.max_entries == 10_000,
            r.ignore_space,
            r.ignore_dups,
            r.timestamp_format@ == "%Y-%m-%d %H:%M:%S"@,
    {
        HistorySection {
            max_entries: 10_000,
            ignore_space: true,
            ignore_dups: true,
            timestamp_format: owned("%Y-%m-%d %H:%M:%S"),
        }
    }
}

/// `[theme]`: colours of the command-line highlighting.
#[derive(Debug, Clone)]
pub struct ThemeSection {
    pub command_valid: String,
    pub command_invalid: String,
    pub string: String,
}

impl Default for ThemeSection {
    fn default() -> (r: Self)
        ensures
            r.command_valid@ == "green"@,
            r.command_invalid@ == "red"@,
            r.string@ == "yellow"@,
    {
        ThemeSection {
            command_valid: owned("green"),
            command_invalid: owned("red"),
            string: owned("yellow"),
        }
    }
}

/// The whole configuration.
#[derive(Debug, Clone)]
pub struct ShellConfig {
    pub shell: ShellSection,
    pub startup: StartupSection,
    pub env: EnvSection,
    pub aliases: VarMap,
    pub bindings: VarMap,
    pub completion: CompletionSection,
    pub dir_aliases: VarMap,
    pub hooks: HooksSection,
    pub history: HistorySection,
    pub theme: ThemeSection,
    pub functions: WrapperConfig,
    pub prompt: PromptConfig,
}

impl Default for ShellConfig {
    fn default() -> (r: Self)
        ensures
            r.shell.show_greeting,
            r.aliases.view() == Map::<Seq<char>, Seq<char>>::empty(),
            r.bindings.view() == Map::<Seq<char>, Seq<char>>::empty(),
            r.dir_aliases.view() == Map::<Seq<char>, Seq<char>>::empty(),
            r.dir_aliases.pairs().len() == 0,
            r.functions.view() == Map::<Seq<char>, crate::config::wrapper::WrapperModel>::empty(),
            r.hooks.on_cd@.len() == 0,
            r.hooks.on_clear@.len() == 0,
            r.history.max_entries == 10_000,
            r.theme.command_valid@ == "green"@,
            !r.completion.case_sensitive,
    {
        ShellConfig {
            shell: ShellSection::default(),
            startup: StartupSection::default(),
            env: EnvSection::default(),
            aliases: VarMap::new(),
            bindings: VarMap::new(),
            completion: CompletionSection::default(),
            dir_aliases: VarMap::new(),
            hooks: HooksSection::default(),
            history: HistorySection::default(),
            theme: ThemeSection::default(),
            functions: WrapperConfig::new(),
            prompt: PromptConfig::default(),
        }
    }
}

/// `~alias` matches `alias` itself and anything below it (`alias/...`).
pub open spec fn dir_alias_matches(rest: Seq<char>, alias: Seq<char>) -> bool {
    rest == alias || starts_with(rest, alias.push('/'))
}

/// The first directory alias, from position `k` on, that `rest` matches.
pub open spec fn first_dir_alias(rest: Seq<char>, pairs: Seq<(String, String)>, k: int) -> Option<int>
    decreases pairs.len() - k,
{
    if k < 0 || k >= pairs.len() {
        None
    } else if dir_alias_matches(rest, pairs[k].0@) {
        Some(k)
    } else {
        first_dir_alias(rest, pairs, k + 1)
    }
}

/// `~alias/rest` becomes the alias's target (with `~` expanded) followed by `/rest`.
pub open spec fn resolve_dir_alias_spec(path: Seq<char>, pairs: Seq<(String, String)>, home: Option<Seq<char>>) -> Seq<char> {
    if path.len() > 0 && path[0] == '~' {
        let rest = path.drop_first();
        match first_dir_alias(rest, pairs, 0) {
            Some(k) => if 0 <= k < pairs.len() {
                expand_tilde_spec(pairs[k].1@, home) + rest.skip(pairs[k].0@.len() as int)
            } else {
                path
            },
            None => path,
        }
    } else {
        path
    }
}

impl ShellConfig {
    /// The expansion of alias `cmd`, if it is one.
    pub fn resolve_alias(&self, cmd: &str) -> (r: Option<&str>)
        ensures
            r matches Some(s) ==> self.aliases.view().contains_key(cmd@) && self.aliases.view()[cmd@] == s@,
            r is None ==> !self.aliases.view().contains_key(cmd@),
    {
        match self.aliases.get(cmd) {
            Some(s) => Some(s.as_str()),
            None => None,
        }
    }

    /// Replaces a leading `~alias` by the alias's directory; `home` is the home
    /// directory used to expand a `~` in that directory.
    pub fn resolve_dir_alias(&self, path: &str, home: Option<&str>) -> (r: String)
        ensures
            r@ == resolve_dir_alias_spec(path@, self.dir_aliases.pairs(), opt_view(home)),
    {
        let p = chars_of(path);
        if p.len() > 0 && p[0] == '~' {
            let rest = slice_of(&p, 1, p.len());
            assert(rest@ =~= p@.drop_first());
            let ghost pairs = self.dir_aliases.pairs();
            let mut k: usize = 0;
            while k < self.dir_aliases.len()
                invariant
                    k <= pairs.len(),
                    pairs == self.dir_aliases.pairs(),
                    rest@ == path@.drop_first(),
                    path@.len() > 0 && path@[0] == '~',
                    first_dir_alias(rest@, pairs, 0) == first_dir_alias(rest@, pairs, k as int),
                decreases pairs.len() - k,
            {
                let (alias, target) = self.dir_aliases.entry(k);
                let a = chars_of(alias.as_str());
                let mut with_slash = slice_of(&a, 0, a.len());
                with_slash.push('/');
                assert(with_slash@ =~= a@.push('/'));
                if chars_eq(&rest, &a) || has_prefix(&rest, &with_slash) {
                    assert(dir_alias_matches(rest@, pairs[k as int].0@));
                    assert(first_dir_alias(rest@, pairs, k as int) == Some(k as int));
                    let mut r = expand_tilde(target.as_str(), home);
                    let suffix = slice_of(&rest, a.len(), rest.len());
                    assert(suffix@ =~= rest@.skip(a@.len() as int));
                    push_chars(&mut r, &suffix);
                    assert(a@ == pairs[k as int].0@);
                    assert(target@ == pairs[k as int].1@);
                    assert(r@ == expand_tilde_spec(pairs[k as int].1@, opt_view(home)) + rest@.skip(pairs[k as int].0@.len() as int));
                    return r;
                }
                k += 1;
            }
            return string_of(&p);
        }
        string_of(&p)
    }

    /// The directory of alias `name`, with `~` expanded against `home`.
    pub fn dir_alias_path(&self, name: &str, home: Option<&str>) -> (r: Option<String>)
        ensures
            r matches Some(s) ==> self.dir_aliases.view().contains_key(name@)
                && s@ == expand_tilde_spec(self.dir_aliases.view()[name@], opt_view(home)),
            r is None ==> !self.dir_aliases.view().contains_key(name@),
    {
        match self.dir_aliases.get(name) {
            Some(p) => Some(expand_tilde(p.as_str(), home)),
            None => None,
        }
    }

    /// The names of all aliases, in configuration order.
    pub fn alias_names(&self) -> (r: Vec<String>)
        ensures
            r@.len() == self.aliases.pairs().len(),
            forall|i: int| 0 <= i < r@.len() ==> #[trigger] r@[i]@ == self.aliases.pairs()[i].0@,
    {
        let mut r: Vec<String> = Vec::new();
        let mut i: usize = 0;
        while i < self.aliases.len()
            invariant
                i <= self.aliases.pairs().len(),
                r@.len() == i,
                forall|j: int| 0 <= j < i ==> #[trigger] r@[j]@ == self.aliases.pairs()[j].0@,
            decreases self.aliases.pairs().len() - i,
        {
            let (k, _) = self.aliases.entry(i);
            r.push(k.clone());
            i += 1;
        }
        r
    }
}

} // verus!

verus! {

pub open spec fn word_editor() -> Seq<char> { seq!['E', 'D', 'I', 'T', 'O', 'R'] }
pub open spec fn word_visual() -> Seq<char> { seq!['V', 'I', 'S', 'U', 'A', 'L'] }
pub open spec fn word_lang() -> Seq<char> { seq!['L', 'A', 'N', 'G'] }
pub open spec fn word_path() -> Seq<char> { seq!['P', 'A', 'T', 'H'] }

/// The variables that `[env]` names by themselves.
pub open spec fn reserved_env(k: Seq<char>) -> bool {
    k == word_editor() || k == word_visual() || k == word_lang() || k == word_path()
}

/// The other variables of `[env]` that have a text value, in table order.
pub open spec fn extra_assignments(extra: Seq<(String, EnvVal)>) -> Seq<(Seq<char>, Seq<char>)>
    decreases extra.len(),
{
    if extra.len() == 0 {
        Seq::empty()
    } else {
        let rest = extra_assignments(extra.drop_last());
        let (k, v) = extra.last();
        match v.0 {
            Some(s) => if !reserved_env(k@) {
                rest.push((k@, s@))
            } else {
                rest
            },
            None => rest,
        }
    }
}

pub open spec fn opt_assign(name: Seq<char>, v: Option<String>) -> Seq<(Seq<char>, Seq<char>)> {
    match v {
        Some(s) => seq![(name, s@)],
        None => Seq::empty(),
    }
}

pub open spec fn expanded_dirs(dirs: Seq<String>, home: Option<Seq<char>>) -> Seq<Seq<char>> {
    dirs.map_values(|d: String| expand_tilde_spec(d@, home))
}

/// The variables that applying `[env]` sets, in order: `EDITOR`, `VISUAL`
/// and `LANG` when given, `PATH` with the extra directories (`~` expanded)
/// in front of the current one, then the table's other text values.
pub open spec fn env_assignments_spec(env: EnvSection, current_path: Option<Seq<char>>, home: Option<Seq<char>>) -> Seq<
    (Seq<char>, Seq<char>),
> {
    opt_assign(word_editor(), env.editor) + opt_assign(word_visual(), env.visual) + opt_assign(word_lang(), env.lang) + (if env.path_extra@.len()
        > 0 {
        seq![
            (
                word_path(),
                join(expanded_dirs(env.path_extra@, home), seq![':']) + seq![':'] + match current_path {
                    Some(p) => p,
                    None => Seq::empty(),
                },
            ),
        ]
    } else {
        Seq::empty()
    }) + extra_assignments(env.extra@)
}

pub open spec fn pair_views(v: Seq<(String, String)>) -> Seq<(Seq<char>, Seq<char>)> {
    v.map_values(|p: (String, String)| (p.0@, p.1@))
}

fn push_assign(out: &mut Vec<(String, String)>, k: String, v: String)
    ensures
        pair_views(final(out)@) == pair_views(old(out)@).push((k@, v@)),
{
    let ghost o = out@;
    out.push((k, v));
    assert(pair_views(out@) =~= pair_views(o).push((k@, v@)));
}

impl ShellConfig {
    /// The environment variables that `[env]` sets, in the order they are
    /// set; `current_path` is `PATH` before, `home` is `HOME`.
    #[verifier::loop_isolation(false)]
    pub fn env_assignments(&self, current_path: Option<&str>, home: Option<&str>) -> (r: Vec<(String, String)>)
        ensures
            pair_views(r@) == env_assignments_spec(self.env, opt_view(current_path), opt_view(home)),
    {
        let mut out: Vec<(String, String)> = Vec::new();
        assert(pair_views(out@) =~= Seq::<(Seq<char>, Seq<char>)>::empty());
        let ghost mut want: Seq<(Seq<char>, Seq<char>)> = Seq::empty();
        if let Some(v) = &self.env.editor {
            push_assign(&mut out, string_of(&['E', 'D', 'I', 'T', 'O', 'R']), v.clone());
        }
        proof { want = want + opt_assign(word_editor(), self.env.editor); }
        assert(pair_views(out@) =~= want);
        if let Some(v) = &self.env.visual {
            push_assign(&mut out, string_of(&['V', 'I', 'S', 'U', 'A', 'L']), v.clone());
        }
        proof { want = want + opt_assign(word_visual(), self.env.visual); }
        assert(pair_views(out@) =~= want);
        if let Some(v) = &self.env.lang {
            push_assign(&mut out, string_of(&['L', 'A', 'N', 'G']), v.clone());
        }
        proof { want = want + opt_assign(word_lang(), self.env.lang); }
        assert(pair_views(out@) =~= want);
        if self.env.path_extra.len() > 0 {
            let mut dirs: Vec<Vec<char>> = Vec::new();
            let mut i: usize = 0;
            let ghost ed = expanded_dirs(self.env.path_extra@, opt_view(home));
            assert(views(dirs@) =~= ed.take(0));
            while i < self.env.path_extra.len()
                invariant
                    i <= self.env.path_extra@.len(),
                    ed == expanded_dirs(self.env.path_extra@, opt_view(home)),
                    views(dirs@) == ed.take(i as int),
                decreases self.env.path_extra@.len() - i,
            {
                let d = chars_of(expand_tilde(self.env.path_extra[i].as_str(), home).as_str());
                proof {
                    crate::text::lemma_views_push(dirs@, d);
                    assert(ed.take(i + 1) =~= ed.take(i as int).push(d@));
                }
                dirs.push(d);
                i += 1;
            }
            assert(ed.take(self.env.path_extra@.len() as int) =~= ed);
            let mut colon: Vec<char> = Vec::new();
            colon.push(':');
            let mut p = crate::text::join_chars(&dirs, &colon);
            p.push(':');
            match current_path {
                Some(c) => {
                    let cc = chars_of(c);
                    p.extend_from_slice(&cc);
                },
                None => {},
            }
            assert(p@ == join(expanded_dirs(self.env.path_extra@, opt_view(home)), seq![':']) + seq![':'] + match opt_view(current_path) {
                Some(c) => c,
                None => Seq::empty(),
            });
            let pk = string_of(&['P', 'A', 'T', 'H']);
            assert(pk@ == word_path());
            push_assign(&mut out, pk, string_of(&p));
        }
        proof {
            want = want + (if self.env.path_extra@.len() > 0 {
                seq![
                    (
                        word_path(),
                        join(expanded_dirs(self.env.path_extra@, opt_view(home)), seq![':']) + seq![':'] + match opt_view(
                            current_path,
                        ) {
                            Some(p) => p,
                            None => Seq::empty(),
                        },
                    ),
                ]
            } else {
                Seq::empty()
            });
        }
        assert(pair_views(out@) =~= want);
        let mut j: usize = 0;
        let ghost base = want;
        assert(extra_assignments(self.env.extra@.take(0)) =~= Seq::<(Seq<char>, Seq<char>)>::empty());
        while j < self.env.extra.len()
            invariant
                j <= self.env.extra@.len(),
                pair_views(out@) == base + extra_assignments(self.env.extra@.take(j as int)),
            decreases self.env.extra@.len() - j,
        {
            let ghost t = self.env.extra@.take(j + 1);
            assert(t.drop_last() == self.env.extra@.take(j as int));
            assert(t.last() == self.env.extra@[j as int]);
            let (k, v) = &self.env.extra[j];
            match &v.0 {
                Some(s) => {
                    let kc = chars_of(k.as_str());
                    let reserved = chars_eq(&kc, &['E', 'D', 'I', 'T', 'O', 'R']) || chars_eq(&kc, &['V', 'I', 'S', 'U', 'A', 'L'])
                        || chars_eq(&kc, &['L', 'A', 'N', 'G']) || chars_eq(&kc, &['P', 'A', 'T', 'H']);
                    if !reserved {
                        let ghost o = pair_views(out@);
                        push_assign(&mut out, k.clone(), s.clone());
                        assert(pair_views(out@) =~= base + extra_assignments(t));
                    }
                },
                None => {},
            }
            j += 1;
        }
        assert(self.env.extra@.take(self.env.extra@.len() as int) == self.env.extra@);
        out
    }
}

} // verus!

verus! {

impl HistorySection {
    /// The most history entries the line editor keeps: `max_entries`, at most
    /// 65535.
    pub fn history_size(&self) -> (r: usize)
        ensures
            r == (if self.max_entries <= 65535 { self.max_entries } else { 65535 }),
    {
        if self.max_entries <= 65535 {
            self.max_entries
        } else {
            65535
        }
    }
}

} // verus!
