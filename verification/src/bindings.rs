//! Key bindings from `[bindings]`, and the alias of a typed line.
use vstd::prelude::*;
use crate::config::shell::ShellConfig;
use crate::text::{ascii_lower, byte_len, chars_eq, chars_of, has_prefix, lowercase_of, split_char, starts_with, string_of, to_lowercase, trim, utf8_width, views};

verus! {

broadcast use vstd::string::group_string_axioms;

/// A key, as a binding names it.
#[derive(Debug, PartialEq, Eq, Structural, Clone, Copy)]
pub enum KeyName {
    Enter,
    Tab,
    BackTab,
    Esc,
    Backspace,
    Delete,
    Home,
    End,
    PageUp,
    PageDown,
    Up,
    Down,
    Left,
    Right,
    /// A character key, lower-cased.
    Char(char),
}

/// A key with its modifiers.
#[derive(Debug, PartialEq, Eq, Structural, Clone, Copy)]
pub struct KeySpec {
    pub key: KeyName,
    pub ctrl: bool,
    pub alt: bool,
    pub shift: bool,
}

/// The key a name stands for: a named key, or a one-byte character
/// (lower-cased).
pub open spec fn key_name_of(k: Seq<char>) -> Option<KeyName> {
    if k == seq!['E', 'n', 't', 'e', 'r'] || k == seq!['R', 'e', 't', 'u', 'r', 'n'] {
        Some(KeyName::Enter)
    } else if k == seq!['T', 'a', 'b'] {
        Some(KeyName::Tab)
    } else if k == seq!['B', 'a', 'c', 'k', 'T', 'a', 'b'] {
        Some(KeyName::BackTab)
    } else if k == seq!['E', 's', 'c'] {
        Some(KeyName::Esc)
    } else if k == seq!['B', 'a', 'c', 'k', 's', 'p', 'a', 'c', 'e'] {
        Some(KeyName::Backspace)
    } else if k == seq!['D', 'e', 'l', 'e', 't', 'e'] {
        Some(KeyName::Delete)
    } else if k == seq!['H', 'o', 'm', 'e'] {
        Some(KeyName::Home)
    } else if k == seq!['E', 'n', 'd'] {
        Some(KeyName::End)
    } else if k == seq!['P', 'a', 'g', 'e', 'U', 'p'] {
        Some(KeyName::PageUp)
    } else if k == seq!['P', 'a', 'g', 'e', 'D', 'o', 'w', 'n'] {
        Some(KeyName::PageDown)
    } else if k == seq!['U', 'p'] {
        Some(KeyName::Up)
    } else if k == seq!['D', 'o', 'w', 'n'] {
        Some(KeyName::Down)
    } else if k == seq!['L', 'e', 'f', 't'] {
        Some(KeyName::Left)
    } else if k == seq!['R', 'i', 'g', 'h', 't'] {
        Some(KeyName::Right)
    } else if byte_len(k) == 1 {
        Some(KeyName::Char(ascii_lower(k[0])))
    } else {
        None
    }
}

/// The modifiers named among `parts` (any case; unknown names ignored).
pub open spec fn mods_of(parts: Seq<Seq<char>>) -> (bool, bool, bool)
    decreases parts.len(),
{
    if parts.len() == 0 {
        (false, false, false)
    } else {
        let (c, a, s) = mods_of(parts.drop_last());
        let l = lowercase_of(parts.last());
        (c || l == seq!['c', 't', 'r', 'l'], a || l == seq!['a', 'l', 't'], s || l == seq!['s', 'h', 'i', 'f', 't'])
    }
}

/// `Ctrl+L`, `Alt+X`, `Ctrl+Shift+A`: modifiers joined by `+`, the key last.
pub open spec fn key_spec_of(s: Seq<char>) -> Option<KeySpec> {
    let parts = split_char(s, '+');
    if parts.len() == 0 {
        None
    } else {
        let (c, a, sh) = mods_of(parts.drop_last());
        match key_name_of(parts.last()) {
            Some(k) => Some(KeySpec { key: k, ctrl: c, alt: a, shift: sh }),
            None => None,
        }
    }
}

fn key_name(k: &Vec<char>) -> (r: Option<KeyName>)
    ensures
        r == key_name_of(k@),
{
    if chars_eq(k, &['E', 'n', 't', 'e', 'r']) || chars_eq(k, &['R', 'e', 't', 'u', 'r', 'n']) {
        return Some(KeyName::Enter);
    }
    if chars_eq(k, &['T', 'a', 'b']) {
        return Some(KeyName::Tab);
    }
    if chars_eq(k, &['B', 'a', 'c', 'k', 'T', 'a', 'b']) {
        return Some(KeyName::BackTab);
    }
    if chars_eq(k, &['E', 's', 'c']) {
        return Some(KeyName::Esc);
    }
    if chars_eq(k, &['B', 'a', 'c', 'k', 's', 'p', 'a', 'c', 'e']) {
        return Some(KeyName::Backspace);
    }
    if chars_eq(k, &['D', 'e', 'l', 'e', 't', 'e']) {
        return Some(KeyName::Delete);
    }
    if chars_eq(k, &['H', 'o', 'm', 'e']) {
        return Some(KeyName::Home);
    }
    if chars_eq(k, &['E', 'n', 'd']) {
        return Some(KeyName::End);
    }
    if chars_eq(k, &['P', 'a', 'g', 'e', 'U', 'p']) {
        return Some(KeyName::PageUp);
    }
    if chars_eq(k, &['P', 'a', 'g', 'e', 'D', 'o', 'w', 'n']) {
        return Some(KeyName::PageDown);
    }
    if chars_eq(k, &['U', 'p']) {
        return Some(KeyName::Up);
    }
    if chars_eq(k, &['D', 'o', 'w', 'n']) {
        return Some(KeyName::Down);
    }
    if chars_eq(k, &['L', 'e', 'f', 't']) {
        return Some(KeyName::Left);
    }
    if chars_eq(k, &['R', 'i', 'g', 'h', 't']) {
        return Some(KeyName::Right);
    }
    if k.len() == 1 && crate::text::char_width(k[0]) == 1 {
        assert(k@.drop_last() =~= Seq::<char>::empty());
        assert(byte_len(Seq::<char>::empty()) == 0);
        return Some(KeyName::Char(crate::text::to_ascii_lower(k[0])));
    }
    proof {
        if k@.len() == 1 {
            assert(k@.drop_last() =~= Seq::<char>::empty());
            assert(byte_len(Seq::<char>::empty()) == 0);
        } else if k@.len() >= 2 {
            lemma_byte_len_two(k@);
        }
    }
    None
}

proof fn lemma_byte_len_two(s: Seq<char>)
    requires
        s.len() >= 2,
    ensures
        byte_len(s) >= 2,
    decreases s.len(),
{
    if s.len() > 2 {
        lemma_byte_len_two(s.drop_last());
    } else {
        assert(s.drop_last().drop_last() =~= Seq::<char>::empty());
        assert(byte_len(Seq::<char>::empty()) == 0);
        assert(byte_len(s.drop_last()) == byte_len(s.drop_last().drop_last()) + utf8_width(s.drop_last().last()));
        assert(byte_len(s.drop_last()) >= 1);
    }
}

/// Reads a key binding such as `Ctrl+L`.
pub fn parse_key_str(s: &str) -> (r: Option<KeySpec>)
    ensures
        r == key_spec_of(s@),
{
    let parts = crate::text::split_on(&chars_of(s), '+');
    assert(views(parts@) =~= split_char(s@, '+'));
    if parts.len() == 0 {
        return None;
    }
    let mut ctrl = false;
    let mut alt = false;
    let mut shift = false;
    let n = parts.len() - 1;
    let mut i: usize = 0;
    let ghost ps = split_char(s@, '+');
    assert(ps.drop_last().take(0) =~= Seq::<Seq<char>>::empty());
    while i < n
        invariant
            i <= n,
            n == parts@.len() - 1,
            ps == split_char(s@, '+'),
            ps.len() == parts@.len(),
            forall|k: int| 0 <= k < parts@.len() ==> #[trigger] parts@[k]@ == ps[k],
            mods_of(ps.drop_last().take(i as int)) == (ctrl, alt, shift),
        decreases n - i,
    {
        let ghost t = ps.drop_last().take(i + 1);
        assert(t.drop_last() == ps.drop_last().take(i as int));
        assert(t.last() == parts@[i as int]@);
        let l = chars_of(to_lowercase(string_of(&parts[i]).as_str()).as_str());
        if chars_eq(&l, &['c', 't', 'r', 'l']) {
            ctrl = true;
        }
        if chars_eq(&l, &['a', 'l', 't']) {
            alt = true;
        }
        if chars_eq(&l, &['s', 'h', 'i', 'f', 't']) {
            shift = true;
        }
        i += 1;
    }
    assert(ps.drop_last().take(n as int) == ps.drop_last());
    match key_name(&parts[n]) {
        Some(k) => Some(KeySpec { key: k, ctrl, alt, shift }),
        None => None,
    }
}

} // verus!

verus! {

/// What a bound key does.
pub enum BindingAction {
    /// Clear the screen and its scrollback.
    ClearScreen,
    SearchHistory,
    /// End the shell on an empty line, else delete a character.
    ExitShell,
    AcceptLine,
    MoveHome,
    MoveEnd,
    CompleteHint,
    CompleteList,
    /// Run this command line at once, as if typed.
    Run(String),
}

/// An action as values.
pub enum ActionModel {
    ClearScreen,
    SearchHistory,
    ExitShell,
    AcceptLine,
    MoveHome,
    MoveEnd,
    CompleteHint,
    CompleteList,
    Run(Seq<char>),
}

impl BindingAction {
    pub open spec fn model(self) -> ActionModel {
        match self {
            BindingAction::ClearScreen => ActionModel::ClearScreen,
            BindingAction::SearchHistory => ActionModel::SearchHistory,
            BindingAction::ExitShell => ActionModel::ExitShell,
            BindingAction::AcceptLine => ActionModel::AcceptLine,
            BindingAction::MoveHome => ActionModel::MoveHome,
            BindingAction::MoveEnd => ActionModel::MoveEnd,
            BindingAction::CompleteHint => ActionModel::CompleteHint,
            BindingAction::CompleteList => ActionModel::CompleteList,
            BindingAction::Run(s) => ActionModel::Run(s@),
        }
    }
}

pub open spec fn execute_prefix() -> Seq<char> {
    seq!['e', 'x', 'e', 'c', 'u', 't', 'e', ':']
}

/// The action a binding names: `execute: <cmd>` runs the trimmed command,
/// `reload_config` and `rehash` run those builtins; `None` for an unknown
/// action.
pub open spec fn action_of(a: Seq<char>) -> Option<ActionModel> {
    if starts_with(a, execute_prefix()) {
        Some(ActionModel::Run(trim(a.skip(8))))
    } else if a == seq!['c', 'l', 'e', 'a', 'r', '_', 's', 'c', 'r', 'e', 'e', 'n'] {
        Some(ActionModel::ClearScreen)
    } else if a == seq!['s', 'e', 'a', 'r', 'c', 'h', '_', 'h', 'i', 's', 't', 'o', 'r', 'y'] {
        Some(ActionModel::SearchHistory)
    } else if a == seq!['e', 'x', 'i', 't', '_', 's', 'h', 'e', 'l', 'l'] {
        Some(ActionModel::ExitShell)
    } else if a == seq!['a', 'c', 'c', 'e', 'p', 't', '_', 'l', 'i', 'n', 'e'] {
        Some(ActionModel::AcceptLine)
    } else if a == seq!['m', 'o', 'v', 'e', '_', 'h', 'o', 'm', 'e'] {
        Some(ActionModel::MoveHome)
    } else if a == seq!['m', 'o', 'v', 'e', '_', 'e', 'n', 'd'] {
        Some(ActionModel::MoveEnd)
    } else if a == seq!['c', 'o', 'm', 'p', 'l', 'e', 't', 'e', '_', 'h', 'i', 'n', 't'] {
        Some(ActionModel::CompleteHint)
    } else if a == seq!['c', 'o', 'm', 'p', 'l', 'e', 't', 'e', '_', 'l', 'i', 's', 't'] {
        Some(ActionModel::CompleteList)
    } else if a == seq!['r', 'e', 'l', 'o', 'a', 'd', '_', 'c', 'o', 'n', 'f', 'i', 'g'] {
        Some(ActionModel::Run(seq!['r', 'e', 'l', 'o', 'a', 'd']))
    } else if a == seq!['r', 'e', 'h', 'a', 's', 'h'] {
        Some(ActionModel::Run(seq!['r', 'e', 'h', 'a', 's', 'h']))
    } else {
        None
    }
}

pub open spec fn opt_action_model(a: Option<BindingAction>) -> Option<ActionModel> {
    match a {
        Some(x) => Some(x.model()),
        None => None,
    }
}

/// Reads a binding's action.
pub fn binding_action(a: &str) -> (r: Option<BindingAction>)
    ensures
        opt_action_model(r) == action_of(a@),
{
    let v = chars_of(a);
    let pre: Vec<char> = vec!['e', 'x', 'e', 'c', 'u', 't', 'e', ':'];
    assert(pre@ == execute_prefix());
    if has_prefix(&v, &pre) {
        let rest = crate::text::slice_of(&v, 8, v.len());
        assert(rest@ =~= v@.skip(8));
        return Some(BindingAction::Run(string_of(&crate::text::trim_chars(&rest))));
    }
    if chars_eq(&v, &['c', 'l', 'e', 'a', 'r', '_', 's', 'c', 'r', 'e', 'e', 'n']) {
        return Some(BindingAction::ClearScreen);
    }
    if chars_eq(&v, &['s', 'e', 'a', 'r', 'c', 'h', '_', 'h', 'i', 's', 't', 'o', 'r', 'y']) {
        return Some(BindingAction::SearchHistory);
    }
    if chars_eq(&v, &['e', 'x', 'i', 't', '_', 's', 'h', 'e', 'l', 'l']) {
        return Some(BindingAction::ExitShell);
    }
    if chars_eq(&v, &['a', 'c', 'c', 'e', 'p', 't', '_', 'l', 'i', 'n', 'e']) {
        return Some(BindingAction::AcceptLine);
    }
    if chars_eq(&v, &['m', 'o', 'v', 'e', '_', 'h', 'o', 'm', 'e']) {
        return Some(BindingAction::MoveHome);
    }
    if chars_eq(&v, &['m', 'o', 'v', 'e', '_', 'e', 'n', 'd']) {
        return Some(BindingAction::MoveEnd);
    }
    if chars_eq(&v, &['c', 'o', 'm', 'p', 'l', 'e', 't', 'e', '_', 'h', 'i', 'n', 't']) {
        return Some(BindingAction::CompleteHint);
    }
    if chars_eq(&v, &['c', 'o', 'm', 'p', 'l', 'e', 't', 'e', '_', 'l', 'i', 's', 't']) {
        return Some(BindingAction::CompleteList);
    }
    if chars_eq(&v, &['r', 'e', 'l', 'o', 'a', 'd', '_', 'c', 'o', 'n', 'f', 'i', 'g']) {
        return Some(BindingAction::Run(string_of(&['r', 'e', 'l', 'o', 'a', 'd'])));
    }
    if chars_eq(&v, &['r', 'e', 'h', 'a', 's', 'h']) {
        return Some(BindingAction::Run(string_of(&['r', 'e', 'h', 'a', 's', 'h'])));
    }
    None
}

/// One entry of `[bindings]` whose key could be read: the key, the action
/// (`None` when unknown, which is reported), and the action as written.
pub struct BindingPlan {
    pub key: KeySpec,
    pub action: Option<BindingAction>,
    pub text: String,
}

pub open spec fn plan_matches(p: BindingPlan, key: Seq<char>, action: Seq<char>) -> bool {
    &&& key_spec_of(key) == Some(p.key)
    &&& opt_action_model(p.action) == action_of(action)
    &&& p.text@ == action
}

/// The bindings with a readable key, in table order.
pub open spec fn plannable(bs: Seq<(String, String)>) -> Seq<(String, String)>
    decreases bs.len(),
{
    if bs.len() == 0 {
        Seq::empty()
    } else if key_spec_of(bs.last().0@) is Some {
        plannable(bs.drop_last()).push(bs.last())
    } else {
        plannable(bs.drop_last())
    }
}

/// What each entry of `[bindings]` binds: entries whose key cannot be read
/// are left out.
pub fn binding_plan(cfg: &ShellConfig) -> (r: Vec<BindingPlan>)
    ensures
        r@.len() == plannable(cfg.bindings.pairs()).len(),
        forall|i: int| 0 <= i < r@.len() ==> plan_matches(#[trigger] r@[i], plannable(cfg.bindings.pairs())[i].0@,
            plannable(cfg.bindings.pairs())[i].1@),
{
    let ghost ps = cfg.bindings.pairs();
    let mut out: Vec<BindingPlan> = Vec::new();
    let mut i: usize = 0;
    assert(ps.take(0) =~= Seq::<(String, String)>::empty());
    while i < cfg.bindings.len()
        invariant
            i <= ps.len(),
            ps == cfg.bindings.pairs(),
            out@.len() == plannable(ps.take(i as int)).len(),
            forall|k: int| 0 <= k < out@.len() ==> plan_matches(#[trigger] out@[k], plannable(ps.take(i as int))[k].0@,
                plannable(ps.take(i as int))[k].1@),
        decreases ps.len() - i,
    {
        let ghost t = ps.take(i + 1);
        assert(t.drop_last() == ps.take(i as int));
        assert(t.last() == ps[i as int]);
        let (k, a) = cfg.bindings.entry(i);
        match parse_key_str(k.as_str()) {
            Some(key) => {
                let p = BindingPlan { key, action: binding_action(a.as_str()), text: a.clone() };
                out.push(p);
            },
            None => {},
        }
        i += 1;
    }
    assert(ps.take(ps.len() as int) == ps);
    out
}

/// The line with an alias in command position replaced by its expansion.
pub open spec fn alias_input_spec(input: Seq<char>, aliases: Map<Seq<char>, Seq<char>>) -> Seq<char> {
    let k = crate::text::word_len(input);
    let cmd = input.take(k);
    if aliases.contains_key(cmd) {
        aliases[cmd] + input.skip(k)
    } else {
        input
    }
}

/// Expands an alias in command position: the first word (up to white
/// space) is looked up, the rest of the line kept.
pub fn resolve_alias_input(input: &str, cfg: &ShellConfig) -> (r: String)
    ensures
        r@ == alias_input_spec(input@, cfg.aliases.view()),
{
    let cmd = crate::ui::completion::command_word(input);
    let cv = chars_of(cmd.as_str());
    let v = chars_of(input);
    proof { crate::text::lemma_word_len(input@); }
    match cfg.resolve_alias(cmd.as_str()) {
        Some(e) => {
            let mut out = chars_of(e);
            let rest = crate::text::slice_of(&v, cv.len(), v.len());
            out.extend_from_slice(&rest);
            assert(rest@ =~= input@.skip(crate::text::word_len(input@)));
            string_of(&out)
        },
        None => string_of(&v),
    }
}

/// Whether the key bound to `exit_shell` ends the shell (on an empty line)
/// rather than deleting the character under the cursor.
pub fn exit_key_ends_shell(line: &str) -> (r: bool)
    ensures
        r == (line@.len() == 0),
{
    line.is_empty()
}

} // verus!
