//! Prompt rendering: the `[prompt]` format with its `$module` references,
//! `[text](style)` groups, and ANSI styles.
use vstd::prelude::*;
use crate::config::prompt::{
    CharacterSection, CmdDurationSection, DirectorySection, GitBranchSection, GitStatusSection,
    HostnameSection, PromptConfig, UsernameSection,
};
use crate::config::wrapper::{lemma_name_len, name_len};
use crate::text::{contains_seq, find_chars, split_char, split_on, find_chars_from, find_from, is_name_character, lemma_find_from_bounds, replace_all, replace_chars, substring, chars_eq, chars_of, decimal, decimal_chars, has_prefix, join, join_chars, lemma_views_push, parse_unsigned, parse_unsigned_chars, slice_of, split_words, starts_with, string_of, views, words};
use crate::text::{trim, trim_chars, trim_str, push_str, byte_len, is_boundary, lemma_byte_len_take_mono, chars_in_bytes, longer_than_bytes, push_char};
use crate::executor::opt_view;
use crate::vars::VarMap;

verus! {

broadcast use vstd::string::group_string_axioms;

/// What the last command left for the prompt.
pub struct PromptContext {
    pub last_exit_code: i32,
    pub cmd_duration_ms: u64,
    pub is_ssh: bool,
}

// ───────────────────────────── styles ─────────────────────────────

/// The ANSI code of one style word, if it is one: attributes, colour names,
/// `fg:N` and `bg:N` for a 256-colour number `N`.
pub open spec fn style_code(part: Seq<char>) -> Option<Seq<char>> {
    if part == seq!['b', 'o', 'l', 'd'] {
        Some(seq!['1'])
    } else if part == seq!['d', 'i', 'm'] {
        Some(seq!['2'])
    } else if part == seq!['i', 't', 'a', 'l', 'i', 'c'] {
        Some(seq!['3'])
    } else if part == seq!['u', 'n', 'd', 'e', 'r', 'l', 'i', 'n', 'e'] {
        Some(seq!['4'])
    } else if part == seq!['r', 'e', 'd'] {
        Some(seq!['3', '1'])
    } else if part == seq!['g', 'r', 'e', 'e', 'n'] {
        Some(seq!['3', '2'])
    } else if part == seq!['y', 'e', 'l', 'l', 'o', 'w'] {
        Some(seq!['3', '3'])
    } else if part == seq!['b', 'l', 'u', 'e'] {
        Some(seq!['3', '4'])
    } else if part == seq!['p', 'u', 'r', 'p', 'l', 'e'] {
        Some(seq!['3', '5'])
    } else if part == seq!['c', 'y', 'a', 'n'] {
        Some(seq!['3', '6'])
    } else if part == seq!['w', 'h', 'i', 't', 'e'] {
        Some(seq!['3', '7'])
    } else if starts_with(part, seq!['f', 'g', ':']) {
        match parse_unsigned(part.skip(3), 10, 255) {
            Some(n) => Some(seq!['3', '8', ';', '5', ';'] + decimal(n)),
            None => None,
        }
    } else if starts_with(part, seq!['b', 'g', ':']) {
        match parse_unsigned(part.skip(3), 10, 255) {
            Some(n) => Some(seq!['4', '8', ';', '5', ';'] + decimal(n)),
            None => None,
        }
    } else {
        None
    }
}

/// Colour numbers in style words: `fg:N` gives the foreground code
/// `38;5;N` and `bg:N` the background code `48;5;N` for every `N` up to 255
/// (written in decimal, with an optional `+`), so the two words never give
/// the same code.
pub proof fn lemma_colour_numbers(d: Seq<char>, n: nat)
    requires
        parse_unsigned(d, 10, 255) == Some(n),
    ensures
        style_code(seq!['f', 'g', ':'] + d) == Some(seq!['3', '8', ';', '5', ';'] + decimal(n)),
        style_code(seq!['b', 'g', ':'] + d) == Some(seq!['4', '8', ';', '5', ';'] + decimal(n)),
        style_code(seq!['f', 'g', ':'] + d) != style_code(seq!['b', 'g', ':'] + d),
{
    let fg = seq!['f', 'g', ':'] + d;
    let bg = seq!['b', 'g', ':'] + d;
    assert(fg[0] == 'f' && fg[1] == 'g' && fg[2] == ':');
    assert(bg[0] == 'b' && bg[1] == 'g' && bg[2] == ':');
    assert(fg.skip(3) =~= d);
    assert(bg.skip(3) =~= d);
    assert(starts_with(fg, seq!['f', 'g', ':'])) by {
        assert(fg.take(3) =~= seq!['f', 'g', ':']);
    }
    assert(starts_with(bg, seq!['b', 'g', ':'])) by {
        assert(bg.take(3) =~= seq!['b', 'g', ':']);
    }
    assert(!starts_with(bg, seq!['f', 'g', ':'])) by {
        assert(bg.take(3)[0] == 'b');
    }
    assert(fg != seq!['b', 'o', 'l', 'd'] && fg != seq!['d', 'i', 'm'] && fg != seq!['i', 't', 'a', 'l', 'i', 'c']);
    assert(fg != seq!['u', 'n', 'd', 'e', 'r', 'l', 'i', 'n', 'e'] && fg != seq!['r', 'e', 'd'] && fg != seq!['g', 'r', 'e', 'e', 'n']);
    assert(fg != seq!['y', 'e', 'l', 'l', 'o', 'w'] && fg != seq!['b', 'l', 'u', 'e'] && fg != seq!['p', 'u', 'r', 'p', 'l', 'e']);
    assert(fg != seq!['c', 'y', 'a', 'n'] && fg != seq!['w', 'h', 'i', 't', 'e']);
    assert(seq!['b', 'o', 'l', 'd'][1] == 'o' && seq!['b', 'l', 'u', 'e'][1] == 'l');
    assert(bg != seq!['b', 'o', 'l', 'd'] && bg != seq!['d', 'i', 'm'] && bg != seq!['i', 't', 'a', 'l', 'i', 'c']);
    assert(bg != seq!['u', 'n', 'd', 'e', 'r', 'l', 'i', 'n', 'e'] && bg != seq!['r', 'e', 'd'] && bg != seq!['g', 'r', 'e', 'e', 'n']);
    assert(bg != seq!['y', 'e', 'l', 'l', 'o', 'w'] && bg != seq!['b', 'l', 'u', 'e'] && bg != seq!['p', 'u', 'r', 'p', 'l', 'e']);
    assert(bg != seq!['c', 'y', 'a', 'n'] && bg != seq!['w', 'h', 'i', 't', 'e']);
    let c1 = seq!['3', '8', ';', '5', ';'] + decimal(n);
    let c2 = seq!['4', '8', ';', '5', ';'] + decimal(n);
    assert(c1[0] == '3' && c2[0] == '4');
}

proof fn lemma_word_len_solid(s: Seq<char>)
    requires
        forall|k: int| 0 <= k < s.len() ==> !crate::text::is_ws(#[trigger] s[k]),
    ensures
        crate::text::word_len(s) == s.len(),
    decreases s.len(),
{
    if s.len() > 0 {
        assert forall|k: int| 0 <= k < s.drop_first().len() implies !crate::text::is_ws(#[trigger] s.drop_first()[k]) by {
            assert(s.drop_first()[k] == s[k + 1]);
        }
        lemma_word_len_solid(s.drop_first());
    }
}

/// A text without white space is one word.
proof fn lemma_words_solid(s: Seq<char>)
    requires
        s.len() > 0,
        forall|k: int| 0 <= k < s.len() ==> !crate::text::is_ws(#[trigger] s[k]),
    ensures
        words(s) == seq![s],
{
    assert(!crate::text::is_ws(s[0]));
    assert(crate::text::trim_start(s) == s);
    lemma_word_len_solid(s);
    assert(s.take(s.len() as int) =~= s);
    assert(s.skip(s.len() as int) =~= Seq::<char>::empty());
    assert(crate::text::trim_start(Seq::<char>::empty()) =~= Seq::<char>::empty());
    assert(words(Seq::<char>::empty()) =~= Seq::<Seq<char>>::empty());
    assert(seq![s] + Seq::<Seq<char>>::empty() =~= seq![s]);
}

/// A style of one colour number: text in style `bg:N` is wrapped in the
/// background code `48;5;N`, in style `fg:N` in the foreground code
/// `38;5;N`, each followed by the reset code.
pub proof fn lemma_colour_styles(text: Seq<char>, d: Seq<char>, n: nat)
    requires
        text.len() > 0,
        parse_unsigned(d, 10, 255) == Some(n),
        forall|k: int| 0 <= k < d.len() ==> !crate::text::is_ws(#[trigger] d[k]),
    ensures
        apply_style_spec(text, seq!['b', 'g', ':'] + d)
            == seq!['\x1b', '[', '4', '8', ';', '5', ';'] + decimal(n) + seq!['m'] + text + seq!['\x1b', '[', '0', 'm'],
        apply_style_spec(text, seq!['f', 'g', ':'] + d)
            == seq!['\x1b', '[', '3', '8', ';', '5', ';'] + decimal(n) + seq!['m'] + text + seq!['\x1b', '[', '0', 'm'],
{
    lemma_colour_numbers(d, n);
    let bg = seq!['b', 'g', ':'] + d;
    let fg = seq!['f', 'g', ':'] + d;
    assert forall|k: int| 0 <= k < bg.len() implies !crate::text::is_ws(#[trigger] bg[k]) by {
        if k >= 3 {
            assert(bg[k] == d[k - 3]);
        }
    }
    assert forall|k: int| 0 <= k < fg.len() implies !crate::text::is_ws(#[trigger] fg[k]) by {
        if k >= 3 {
            assert(fg[k] == d[k - 3]);
        }
    }
    lemma_words_solid(bg);
    lemma_words_solid(fg);
    let cb = seq!['4', '8', ';', '5', ';'] + decimal(n);
    let cf = seq!['3', '8', ';', '5', ';'] + decimal(n);
    assert(seq![bg].drop_last() =~= Seq::<Seq<char>>::empty());
    assert(seq![fg].drop_last() =~= Seq::<Seq<char>>::empty());
    assert(seq![bg].last() == bg && seq![fg].last() == fg);
    assert(style_codes(Seq::<Seq<char>>::empty()) =~= Seq::<Seq<char>>::empty());
    assert(Seq::<Seq<char>>::empty() + seq![cb] =~= seq![cb]);
    assert(Seq::<Seq<char>>::empty() + seq![cf] =~= seq![cf]);
    assert(style_codes(seq![bg]) =~= seq![cb]);
    assert(style_codes(seq![fg]) =~= seq![cf]);
    assert(join(seq![cb], seq![';']) == cb);
    assert(join(seq![cf], seq![';']) == cf);
    assert(seq!['\x1b', '['] + cb =~= seq!['\x1b', '[', '4', '8', ';', '5', ';'] + decimal(n));
    assert(seq!['\x1b', '['] + cf =~= seq!['\x1b', '[', '3', '8', ';', '5', ';'] + decimal(n));
}

/// The codes of the style words, in order, unknown words left out.
pub open spec fn style_codes(parts: Seq<Seq<char>>) -> Seq<Seq<char>>
    decreases parts.len(),
{
    if parts.len() == 0 {
        Seq::empty()
    } else {
        style_codes(parts.drop_last()) + match style_code(parts.last()) {
            Some(c) => seq![c],
            None => Seq::empty(),
        }
    }
}

/// `text` in the ANSI style `style`; unchanged when either is empty or no
/// word of the style is known.
pub open spec fn apply_style_spec(text: Seq<char>, style: Seq<char>) -> Seq<char> {
    let codes = style_codes(words(style));
    if style.len() == 0 || text.len() == 0 || codes.len() == 0 {
        text
    } else {
        seq!['\x1b', '['] + join(codes, seq![';']) + seq!['m'] + text + seq!['\x1b', '[', '0', 'm']
    }
}

fn code_of(part: &Vec<char>) -> (r: Option<Vec<char>>)
    ensures
        match r {
            Some(c) => style_code(part@) == Some(c@),
            None => style_code(part@) is None,
        },
{
    if chars_eq(part, &['b', 'o', 'l', 'd']) {
        return Some(vec!['1']);
    }
    if chars_eq(part, &['d', 'i', 'm']) {
        return Some(vec!['2']);
    }
    if chars_eq(part, &['i', 't', 'a', 'l', 'i', 'c']) {
        return Some(vec!['3']);
    }
    if chars_eq(part, &['u', 'n', 'd', 'e', 'r', 'l', 'i', 'n', 'e']) {
        return Some(vec!['4']);
    }
    if chars_eq(part, &['r', 'e', 'd']) {
        return Some(vec!['3', '1']);
    }
    if chars_eq(part, &['g', 'r', 'e', 'e', 'n']) {
        return Some(vec!['3', '2']);
    }
    if chars_eq(part, &['y', 'e', 'l', 'l', 'o', 'w']) {
        return Some(vec!['3', '3']);
    }
    if chars_eq(part, &['b', 'l', 'u', 'e']) {
        return Some(vec!['3', '4']);
    }
    if chars_eq(part, &['p', 'u', 'r', 'p', 'l', 'e']) {
        return Some(vec!['3', '5']);
    }
    if chars_eq(part, &['c', 'y', 'a', 'n']) {
        return Some(vec!['3', '6']);
    }
    if chars_eq(part, &['w', 'h', 'i', 't', 'e']) {
        return Some(vec!['3', '7']);
    }
    let fg: Vec<char> = vec!['f', 'g', ':'];
    let bg: Vec<char> = vec!['b', 'g', ':'];
    let is_fg = has_prefix(part, &fg);
    let is_bg = has_prefix(part, &bg);
    if is_fg || is_bg {
        let num = slice_of(part, 3, part.len());
        assert(num@ == part@.skip(3));
        match parse_unsigned_chars(&num, 10, 255) {
            Some(n) => {
                let mut c: Vec<char> = if is_fg {
                    vec!['3', '8', ';', '5', ';']
                } else {
                    vec!['4', '8', ';', '5', ';']
                };
                let d = decimal_chars(n);
                c.extend_from_slice(&d);
                Some(c)
            },
            None => None,
        }
    } else {
        None
    }
}

/// `text` in the ANSI style `style` (words such as `bold`, `blue`, `fg:208`).
pub fn apply_style(text: &str, style: &str) -> (r: String)
    ensures
        r@ == apply_style_spec(text@, style@),
{
    let t = chars_of(text);
    let s = chars_of(style);
    if s.len() == 0 || t.len() == 0 {
        return string_of(&t);
    }
    let parts = split_words(&s);
    let mut codes: Vec<Vec<char>> = Vec::new();
    assert(views(codes@) =~= Seq::<Seq<char>>::empty());
    let mut i: usize = 0;
    while i < parts.len()
        invariant
            i <= parts@.len(),
            views(parts@) == words(s@),
            views(codes@) == style_codes(words(s@).take(i as int)),
        decreases parts@.len() - i,
    {
        let ghost w = words(s@).take(i + 1);
        assert(w.drop_last() == words(s@).take(i as int));
        assert(w.last() == parts@[i as int]@);
        match code_of(&parts[i]) {
            Some(c) => {
                proof { lemma_views_push(codes@, c); }
                codes.push(c);
            },
            None => {
                assert(views(codes@) + Seq::<Seq<char>>::empty() == views(codes@));
            },
        }
        i += 1;
    }
    assert(words(s@).take(parts@.len() as int) == words(s@));
    if codes.len() == 0 {
        return string_of(&t);
    }
    let mut out: Vec<char> = vec!['\x1b', '['];
    let semi: Vec<char> = vec![';'];
    assert(semi@ == seq![';']);
    let joined = join_chars(&codes, &semi);
    out.extend_from_slice(&joined);
    out.push('m');
    out.extend_from_slice(&t);
    let reset: Vec<char> = vec!['\x1b', '[', '0', 'm'];
    out.extend_from_slice(&reset);
    assert(out@ =~= seq!['\x1b', '['] + joined@ + seq!['m'] + t@ + seq!['\x1b', '[', '0', 'm']);
    string_of(&out)
}

} // verus!

verus! {

// ───────────────────────────── format engine ─────────────────────────────

pub open spec fn var_value(vars: Map<Seq<char>, Seq<char>>, name: Seq<char>) -> Seq<char> {
    if vars.contains_key(name) {
        vars[name]
    } else {
        Seq::empty()
    }
}

/// Text of a group from position `i` on: `$name` becomes the variable's value
/// (nothing when unknown), `\(` and `\)` become `(` and `)`, any other `\c`
/// stays, and a final `\` is dropped.
pub open spec fn group_text_from(s: Seq<char>, i: int, vars: Map<Seq<char>, Seq<char>>) -> Seq<char>
    decreases s.len() - i,
{
    if i < 0 || i >= s.len() {
        Seq::empty()
    } else if s[i] == '$' {
        let n = name_len(s, i + 1);
        if n < 0 || i + 1 + n > s.len() {
            Seq::empty()
        } else {
            var_value(vars, s.subrange(i + 1, i + 1 + n)) + group_text_from(s, i + 1 + n, vars)
        }
    } else if s[i] == '\\' {
        if i + 1 < s.len() {
            let nc = s[i + 1];
            (if nc == '(' || nc == ')' {
                seq![nc]
            } else {
                seq!['\\', nc]
            }) + group_text_from(s, i + 2, vars)
        } else {
            Seq::empty()
        }
    } else {
        seq![s[i]] + group_text_from(s, i + 1, vars)
    }
}

/// The text of a `[...]` group with variables expanded and every `(:)` removed.
pub open spec fn group_text(s: Seq<char>, vars: Map<Seq<char>, Seq<char>>) -> Seq<char> {
    replace_all(group_text_from(s, 0, vars), seq!['(', ':', ')'], Seq::empty())
}

/// Expands the variables of a group's text (see [`group_text`]).
pub fn expand_vars(text: &Vec<char>, vars: &VarMap) -> (r: Vec<char>)
    ensures
        r@ == group_text(text@, vars.view()),
{
    let s = text;
    let ghost m = vars.view();
    let mut out: Vec<char> = Vec::new();
    let mut i: usize = 0;
    while i < s.len()
        invariant
            i <= s@.len(),
            m == vars.view(),
            group_text_from(s@, 0, m) == out@ + group_text_from(s@, i as int, m),
        decreases s@.len() - i,
    {
        let c = s[i];
        if c == '$' {
            let mut j = i + 1;
            while j < s.len() && is_name_character(s[j])
                invariant
                    i < j <= s@.len(),
                    name_len(s@, i + 1) == (j - (i + 1)) + name_len(s@, j as int),
                decreases s@.len() - j,
            {
                j += 1;
            }
            assert(name_len(s@, j as int) == 0);
            let name = substring(s, i + 1, j);
            match vars.get(name.as_str()) {
                Some(v) => {
                    let vc = chars_of(v.as_str());
                    out.extend_from_slice(&vc);
                },
                None => {
                    assert(out@ + Seq::<char>::empty() == out@);
                },
            }
            i = j;
        } else if c == '\\' {
            if i + 1 < s.len() {
                let nc = s[i + 1];
                if nc == '(' || nc == ')' {
                    out.push(nc);
                } else {
                    out.push('\\');
                    out.push(nc);
                }
                i += 2;
            } else {
                assert(out@ + Seq::<char>::empty() == out@);
                i = s.len();
            }
        } else {
            out.push(c);
            i += 1;
        }
    }
    assert(out@ + Seq::<char>::empty() == out@);
    let pat: Vec<char> = vec!['(', ':', ')'];
    let empty: Vec<char> = Vec::new();
    assert(empty@ =~= Seq::<char>::empty());
    replace_chars(&out, &pat, &empty)
}

pub open spec fn lit_style() -> Seq<char> {
    seq!['$', 's', 't', 'y', 'l', 'e']
}

/// A module's format from position `i` on: `[text](style)` groups are styled
/// (style `$style` means the module's default) and dropped when their text is
/// empty, a `[text]` without style stays with its brackets, `\c` is `c`, and
/// `$name` is the variable's value.
pub open spec fn format_from(f: Seq<char>, i: int, vars: Map<Seq<char>, Seq<char>>, default_style: Seq<char>) -> Seq<char>
    decreases f.len() - i,
{
    if i < 0 || i >= f.len() {
        Seq::empty()
    } else {
        let c = f[i];
        if c == '[' {
            match find_from(f, seq![']'], i + 1) {
                Some(j) => if i + 1 <= j < f.len() {
                    let content = f.subrange(i + 1, j);
                    if j + 1 < f.len() && f[j + 1] == '(' {
                        let (style, next) = match find_from(f, seq![')'], j + 2) {
                            Some(k) => if j + 2 <= k < f.len() {
                                (f.subrange(j + 2, k), k + 1)
                            } else {
                                (Seq::empty(), f.len() as int)
                            },
                            None => (f.subrange(j + 2, f.len() as int), f.len() as int),
                        };
                        let actual = if style == lit_style() {
                            default_style
                        } else {
                            style
                        };
                        let rep = group_text(content, vars);
                        (if rep.len() > 0 {
                            apply_style_spec(rep, actual)
                        } else {
                            Seq::empty()
                        }) + format_from(f, next, vars, default_style)
                    } else {
                        seq!['['] + group_text(content, vars) + seq![']'] + format_from(f, j + 1, vars, default_style)
                    }
                } else {
                    Seq::empty()
                },
                None => seq!['['] + group_text(f.subrange(i + 1, f.len() as int), vars),
            }
        } else if c == '\\' {
            if i + 1 < f.len() {
                seq![f[i + 1]] + format_from(f, i + 2, vars, default_style)
            } else {
                Seq::empty()
            }
        } else if c == '$' {
            let n = name_len(f, i + 1);
            if n < 0 || i + 1 + n > f.len() {
                Seq::empty()
            } else {
                var_value(vars, f.subrange(i + 1, i + 1 + n)) + format_from(f, i + 1 + n, vars, default_style)
            }
        } else {
            seq![c] + format_from(f, i + 1, vars, default_style)
        }
    }
}

pub open spec fn module_format(f: Seq<char>, vars: Map<Seq<char>, Seq<char>>, default_style: Seq<char>) -> Seq<char> {
    format_from(f, 0, vars, default_style)
}

/// Renders a module's format with its variables and default style.
pub fn render_module_format(format: &str, vars: &VarMap, default_style: &str) -> (r: String)
    ensures
        r@ == module_format(format@, vars.view(), default_style@),
{
    let f = chars_of(format);
    let ghost m = vars.view();
    let ghost ds = default_style@;
    let mut out: Vec<char> = Vec::new();
    let mut i: usize = 0;
    let close_sq: Vec<char> = vec![']'];
    let close_par: Vec<char> = vec![')'];
    assert(close_sq@ == seq![']'] && close_par@ == seq![')']);
    while i < f.len()
        invariant
            i <= f@.len(),
            m == vars.view(),
            ds == default_style@,
            close_sq@ == seq![']'],
            close_par@ == seq![')'],
            module_format(f@, m, ds) == out@ + format_from(f@, i as int, m, ds),
        decreases f@.len() - i,
    {
        let c = f[i];
        if c == '[' {
            match find_chars_from(&f, &close_sq, i + 1) {
                Some(j) => {
                    proof { lemma_find_from_bounds(f@, close_sq@, i + 1); }
                    let content = slice_of(&f, i + 1, j);
                    if j + 1 < f.len() && f[j + 1] == '(' {
                        let (style, next): (Vec<char>, usize) = match find_chars_from(&f, &close_par, j + 2) {
                            Some(k) => {
                                proof { lemma_find_from_bounds(f@, close_par@, j + 2); }
                                (slice_of(&f, j + 2, k), k + 1)
                            },
                            None => (slice_of(&f, j + 2, f.len()), f.len()),
                        };
                        let style_word: Vec<char> = vec!['$', 's', 't', 'y', 'l', 'e'];
                        let rep = expand_vars(&content, vars);
                        if rep.len() > 0 {
                            let rep_s = string_of(&rep);
                            let styled = if chars_eq(&style, &style_word) {
                                apply_style(rep_s.as_str(), default_style)
                            } else {
                                let st = string_of(&style);
                                apply_style(rep_s.as_str(), st.as_str())
                            };
                            let sc = chars_of(styled.as_str());
                            out.extend_from_slice(&sc);
                        } else {
                            assert(out@ + Seq::<char>::empty() == out@);
                        }
                        i = next;
                    } else {
                        out.push('[');
                        let rep = expand_vars(&content, vars);
                        out.extend_from_slice(&rep);
                        out.push(']');
                        i = j + 1;
                    }
                },
                None => {
                    let content = slice_of(&f, i + 1, f.len());
                    out.push('[');
                    let rep = expand_vars(&content, vars);
                    out.extend_from_slice(&rep);
                    assert(format_from(f@, f@.len() as int, m, ds) == Seq::<char>::empty());
                    assert(out@ + Seq::<char>::empty() == out@);
                    i = f.len();
                },
            }
        } else if c == '\\' {
            if i + 1 < f.len() {
                out.push(f[i + 1]);
                i += 2;
            } else {
                assert(out@ + Seq::<char>::empty() == out@);
                i = f.len();
            }
        } else if c == '$' {
            let mut j = i + 1;
            while j < f.len() && is_name_character(f[j])
                invariant
                    i < j <= f@.len(),
                    name_len(f@, i + 1) == (j - (i + 1)) + name_len(f@, j as int),
                decreases f@.len() - j,
            {
                j += 1;
            }
            assert(name_len(f@, j as int) == 0);
            let name = substring(&f, i + 1, j);
            match vars.get(name.as_str()) {
                Some(v) => {
                    let vc = chars_of(v.as_str());
                    out.extend_from_slice(&vc);
                },
                None => {
                    assert(out@ + Seq::<char>::empty() == out@);
                },
            }
            i = j;
        } else {
            out.push(c);
            i += 1;
        }
    }
    assert(out@ + Seq::<char>::empty() == out@);
    string_of(&out)
}

} // verus!

verus! {

// ───────────────────────────── modules ─────────────────────────────

/// What the prompt shows that the shell has to find out from the system.
pub struct PromptFacts {
    /// The working directory (empty when unknown).
    pub cwd: String,
    /// `HOME` (empty when unset).
    pub home: String,
    /// Whether the working directory is read-only.
    pub read_only: bool,
    /// The current git branch, or the short commit hash when detached; `None`
    /// outside a repository.
    pub git_branch: Option<String>,
    /// `USER` (empty when unset).
    pub user: String,
    /// What `/etc/hostname` holds, `None` when it cannot be read.
    pub hostname_file: Option<String>,
    /// What `git status` reports, `None` outside a repository.
    pub git_status: Option<GitCounts>,
}

/// One `[prompt.directory.substitutions]` replacement, applied where its key occurs.
pub open spec fn substitute(path: Seq<char>, k: Seq<char>, v: Seq<char>) -> Seq<char> {
    if contains_seq(path, k) {
        replace_all(path, k, v)
    } else {
        path
    }
}

pub open spec fn substitute_all(path: Seq<char>, pairs: Seq<(String, String)>) -> Seq<char>
    decreases pairs.len(),
{
    if pairs.len() == 0 {
        path
    } else {
        substitute(substitute_all(path, pairs.drop_last()), pairs.last().0@, pairs.last().1@)
    }
}

/// The directory as shown: `home` replaced by the home symbol, the
/// substitutions applied in order, then only the last `truncation_length`
/// components kept behind the truncation symbol.
pub open spec fn shown_directory(cfg: DirectorySection, cwd: Seq<char>, home: Seq<char>) -> Seq<char> {
    let p1 = if home.len() > 0 && starts_with(cwd, home) {
        cfg.home_symbol@ + cwd.skip(home.len() as int)
    } else {
        cwd
    };
    let p2 = substitute_all(p1, cfg.substitutions.pairs());
    let parts = split_char(p2, '/');
    let n = cfg.truncation_length;
    if parts.len() > n && n > 0 {
        cfg.truncation_symbol@ + join(parts.skip(parts.len() - n), seq!['/'])
    } else {
        p2
    }
}

pub open spec fn key_path() -> Seq<char> { seq!['p', 'a', 't', 'h'] }
pub open spec fn key_read_only() -> Seq<char> { seq!['r', 'e', 'a', 'd', '_', 'o', 'n', 'l', 'y'] }
pub open spec fn key_branch() -> Seq<char> { seq!['b', 'r', 'a', 'n', 'c', 'h'] }
pub open spec fn key_symbol() -> Seq<char> { seq!['s', 'y', 'm', 'b', 'o', 'l'] }
pub open spec fn key_duration() -> Seq<char> { seq!['d', 'u', 'r', 'a', 't', 'i', 'o', 'n'] }
pub open spec fn key_user() -> Seq<char> { seq!['u', 's', 'e', 'r'] }
pub open spec fn key_hostname() -> Seq<char> { seq!['h', 'o', 's', 't', 'n', 'a', 'm', 'e'] }

pub open spec fn directory_spec(cfg: DirectorySection, facts: PromptFacts) -> Seq<char> {
    let vars = Map::<Seq<char>, Seq<char>>::empty().insert(key_path(), shown_directory(cfg, facts.cwd@, facts.home@)).insert(
        key_read_only(),
        if facts.read_only {
            cfg.read_only@
        } else {
            Seq::empty()
        },
    );
    module_format(cfg.format@, vars, cfg.style@)
}

fn key(v: &[char]) -> (r: String)
    ensures
        r@ == v@,
{
    string_of(v)
}

/// The `directory` module.
pub fn render_directory(cfg: &DirectorySection, facts: &PromptFacts) -> (r: String)
    ensures
        r@ == directory_spec(*cfg, *facts),
{
    let cwd = chars_of(facts.cwd.as_str());
    let home = chars_of(facts.home.as_str());
    let mut path: Vec<char> = if home.len() > 0 && has_prefix(&cwd, &home) {
        let mut p = chars_of(cfg.home_symbol.as_str());
        let rest = slice_of(&cwd, home.len(), cwd.len());
        p.extend_from_slice(&rest);
        assert(rest@ == cwd@.skip(home@.len() as int));
        p
    } else {
        cwd
    };
    let ghost p1 = path@;
    let mut k: usize = 0;
    assert(cfg.substitutions.pairs().take(0) =~= Seq::<(String, String)>::empty());
    while k < cfg.substitutions.len()
        invariant
            k <= cfg.substitutions.pairs().len(),
            path@ == substitute_all(p1, cfg.substitutions.pairs().take(k as int)),
        decreases cfg.substitutions.pairs().len() - k,
    {
        let (from, to) = cfg.substitutions.entry(k);
        let f = chars_of(from.as_str());
        let t = chars_of(to.as_str());
        if find_chars(&path, &f).is_some() {
            path = replace_chars(&path, &f, &t);
        }
        proof {
            let pr = cfg.substitutions.pairs().take(k + 1);
            assert(pr.drop_last() == cfg.substitutions.pairs().take(k as int));
            assert(pr.last() == cfg.substitutions.pairs()[k as int]);
        }
        k += 1;
    }
    assert(cfg.substitutions.pairs().take(cfg.substitutions.pairs().len() as int) == cfg.substitutions.pairs());
    let ghost p2 = path@;
    assert(p2 == substitute_all(p1, cfg.substitutions.pairs()));
    let parts = split_on(&path, '/');
    let n = cfg.truncation_length;
    let shown: Vec<char> = if parts.len() > n && n > 0 {
        let mut s = chars_of(cfg.truncation_symbol.as_str());
        let mut tail: Vec<Vec<char>> = Vec::new();
        let mut j = parts.len() - n;
        assert(views(tail@) =~= Seq::<Seq<char>>::empty());
        while j < parts.len()
            invariant
                parts.len() - n <= j <= parts@.len(),
                n <= parts@.len(),
                parts@.len() == split_char(path@, '/').len(),
                forall|i: int| 0 <= i < parts@.len() ==> #[trigger] parts@[i]@ == split_char(path@, '/')[i],
                views(tail@) == split_char(path@, '/').subrange(parts@.len() - n, j as int),
            decreases parts@.len() - j,
        {
            let piece = slice_of(&parts[j], 0, parts[j].len());
            proof {
                lemma_views_push(tail@, piece);
                assert(piece@ =~= split_char(path@, '/')[j as int]);
                assert(split_char(path@, '/').subrange(parts@.len() - n, j + 1) =~= split_char(path@, '/').subrange(parts@.len() - n, j as int).push(piece@));
            }
            tail.push(piece);
            j += 1;
        }
        assert(split_char(path@, '/').subrange(parts@.len() - n, parts@.len() as int) =~= split_char(path@, '/').skip(split_char(path@, '/').len() - n));
        let slash: Vec<char> = vec!['/'];
        assert(slash@ == seq!['/']);
        let joined = join_chars(&tail, &slash);
        s.extend_from_slice(&joined);
        assert(s@ == cfg.truncation_symbol@ + join(split_char(p2, '/').skip(split_char(p2, '/').len() - n), seq!['/']));
        s
    } else {
        path
    };
    assert(p1 == (if facts.home@.len() > 0 && starts_with(facts.cwd@, facts.home@) {
        cfg.home_symbol@ + facts.cwd@.skip(facts.home@.len() as int)
    } else {
        facts.cwd@
    }));
    assert(shown@ == shown_directory(*cfg, facts.cwd@, facts.home@));
    let mut vars = VarMap::new();
    vars.insert(key(&['p', 'a', 't', 'h']), string_of(&shown));
    let ro = if facts.read_only {
        cfg.read_only.clone()
    } else {
        String::new()
    };
    vars.insert(key(&['r', 'e', 'a', 'd', '_', 'o', 'n', 'l', 'y']), ro);
    assert(vars.view() == Map::<Seq<char>, Seq<char>>::empty().insert(key_path(), shown_directory(*cfg, facts.cwd@, facts.home@)).insert(
        key_read_only(),
        if facts.read_only {
            cfg.read_only@
        } else {
            Seq::empty()
        },
    ));
    render_module_format(cfg.format.as_str(), &vars, cfg.style.as_str())
}

} // verus!

verus! {

// ───────────────────────────── git branch ─────────────────────────────

pub open spec fn head_word() -> Seq<char> { seq!['H', 'E', 'A', 'D'] }

/// Whether the branch that `git rev-parse --abbrev-ref HEAD` printed says the
/// head is detached, so that the short commit hash is shown instead.
pub fn needs_short_hash(abbrev: &str) -> (r: bool)
    ensures
        r == (trim(abbrev@) == head_word()),
{
    let b = trim_chars(&chars_of(abbrev));
    chars_eq(&b, &['H', 'E', 'A', 'D'])
}

/// The branch name to show, from what `git rev-parse --abbrev-ref HEAD`
/// printed and, when that was `HEAD`, what `git rev-parse --short HEAD`
/// printed (`None` when that command could not be run).
pub open spec fn branch_name(abbrev: Seq<char>, short_hash: Option<Seq<char>>) -> Seq<char> {
    if trim(abbrev) == head_word() {
        match short_hash {
            Some(h) => trim(h),
            None => trim(abbrev),
        }
    } else {
        trim(abbrev)
    }
}

pub fn git_branch_name(abbrev: &str, short_hash: Option<&str>) -> (r: String)
    ensures
        r@ == branch_name(abbrev@, opt_view(short_hash)),
{
    let b = trim_chars(&chars_of(abbrev));
    if chars_eq(&b, &['H', 'E', 'A', 'D']) {
        match short_hash {
            Some(h) => trim_str(h),
            None => string_of(&b),
        }
    } else {
        string_of(&b)
    }
}

/// The characters that make up the first `n` bytes of `s` (`&s[..n]`).
pub open spec fn byte_prefix(s: Seq<char>, n: nat) -> Seq<char> {
    s.take(choose|k: int| 0 <= k <= s.len() && byte_len(s.take(k)) == n)
}

/// Whether the branch is cut to `truncation_length` bytes.
pub open spec fn branch_cut(cfg: GitBranchSection, b: Seq<char>) -> bool {
    cfg.truncation_length > 0 && byte_len(b) > cfg.truncation_length
}

/// The branch can be shown: where it is cut, the cut falls between two
/// characters.
pub open spec fn branch_fits(cfg: GitBranchSection, branch: Option<String>) -> bool {
    match branch {
        Some(b) => branch_cut(cfg, b@) ==> is_boundary(b@, cfg.truncation_length as nat),
        None => true,
    }
}

pub open spec fn git_branch_spec(cfg: GitBranchSection, branch: Option<String>) -> Seq<char> {
    match branch {
        None => Seq::empty(),
        Some(b) => if b@.len() == 0 {
            Seq::empty()
        } else {
            let shown = if branch_cut(cfg, b@) {
                byte_prefix(b@, cfg.truncation_length as nat) + cfg.truncation_symbol@
            } else {
                b@
            };
            module_format(
                cfg.format@,
                Map::<Seq<char>, Seq<char>>::empty().insert(key_branch(), shown).insert(key_symbol(), cfg.symbol@),
                cfg.style@,
            )
        },
    }
}

/// The `git_branch` module: nothing outside a repository or for an empty
/// branch name; the name cut to `truncation_length` bytes otherwise.
pub fn render_git_branch(cfg: &GitBranchSection, facts: &PromptFacts) -> (r: String)
    requires
        branch_fits(*cfg, facts.git_branch),
    ensures
        r@ == git_branch_spec(*cfg, facts.git_branch),
{
    match &facts.git_branch {
        None => String::new(),
        Some(b) => {
            let bc = chars_of(b.as_str());
            if bc.len() == 0 {
                return String::new();
            }
            let n = cfg.truncation_length;
            let shown: String = if n > 0 && longer_than_bytes(&bc, n) {
                match chars_in_bytes(&bc, n) {
                    Some(k) => {
                        proof {
                            let c = choose|k: int| 0 <= k <= bc@.len() && byte_len(bc@.take(k)) == n as nat;
                            if c < k {
                                lemma_byte_len_take_mono(bc@, c, k as int);
                            } else if k < c {
                                lemma_byte_len_take_mono(bc@, k as int, c);
                            }
                            assert(c == k);
                        }
                        let mut s = substring(&bc, 0, k);
                        push_str(&mut s, cfg.truncation_symbol.as_str());
                        assert(bc@.subrange(0, k as int) == bc@.take(k as int));
                        s
                    },
                    None => {
                        assert(false);
                        String::new()
                    },
                }
            } else {
                string_of(&bc)
            };
            let mut vars = VarMap::new();
            vars.insert(key(&['b', 'r', 'a', 'n', 'c', 'h']), shown);
            vars.insert(key(&['s', 'y', 'm', 'b', 'o', 'l']), cfg.symbol.clone());
            render_module_format(cfg.format.as_str(), &vars, cfg.style.as_str())
        },
    }
}

/// What `git status --porcelain=v2 --branch --show-stash` reports of a
/// repository: how many entries of each kind, the stash size, and how far
/// the branch is ahead of and behind its upstream.
#[derive(Debug, Clone, Copy, PartialEq, Eq, Structural)]
pub struct GitCounts {
    pub conflicted: u64,
    pub stashed: u64,
    pub deleted: u64,
    pub renamed: u64,
    pub modified: u64,
    pub staged: u64,
    pub untracked: u64,
    pub ahead: u64,
    pub behind: u64,
}

pub open spec fn no_counts() -> GitCounts {
    GitCounts { conflicted: 0, stashed: 0, deleted: 0, renamed: 0, modified: 0, staged: 0, untracked: 0, ahead: 0, behind: 0 }
}

/// One more, stopping at the largest `u64`.
pub open spec fn bump(n: u64) -> u64 {
    if n < u64::MAX { (n + 1) as u64 } else { n }
}

/// The decimal number `s`, or `d` when `s` is none.
pub open spec fn number_or(s: Seq<char>, d: u64) -> u64 {
    match parse_unsigned(s, 10, u64::MAX as nat) {
        Some(v) => v as u64,
        None => d,
    }
}

pub open spec fn word_hash() -> Seq<char> { seq!['#'] }
pub open spec fn word_branch_ab() -> Seq<char> { seq!['b', 'r', 'a', 'n', 'c', 'h', '.', 'a', 'b'] }
pub open spec fn word_stash() -> Seq<char> { seq!['s', 't', 'a', 's', 'h'] }

/// The counts after one line of the porcelain output: `u` a conflict, `?` an
/// untracked file, `1` and `2` a changed entry (`2` a rename or copy) whose
/// index column other than `.` means staged and whose work-tree column `M`
/// or `T` means modified and `D` deleted; `# branch.ab +A -B` the distance
/// to the upstream and `# stash N` the stash size. Other lines change nothing.
pub open spec fn status_line(c: GitCounts, line: Seq<char>) -> GitCounts {
    let w = words(line);
    if line.len() >= 2 && line[1] == ' ' && line[0] == 'u' {
        GitCounts { conflicted: bump(c.conflicted), ..c }
    } else if line.len() >= 2 && line[1] == ' ' && line[0] == '?' {
        GitCounts { untracked: bump(c.untracked), ..c }
    } else if line.len() >= 4 && line[1] == ' ' && (line[0] == '1' || line[0] == '2') {
        GitCounts {
            staged: if line[2] != '.' { bump(c.staged) } else { c.staged },
            modified: if line[3] == 'M' || line[3] == 'T' { bump(c.modified) } else { c.modified },
            deleted: if line[3] == 'D' { bump(c.deleted) } else { c.deleted },
            renamed: if line[0] == '2' { bump(c.renamed) } else { c.renamed },
            ..c
        }
    } else if w.len() == 4 && w[0] == word_hash() && w[1] == word_branch_ab() && w[2].len() > 0 && w[2][0] == '+'
        && w[3].len() > 0 && w[3][0] == '-' {
        GitCounts { ahead: number_or(w[2].drop_first(), c.ahead), behind: number_or(w[3].drop_first(), c.behind), ..c }
    } else if w.len() == 3 && w[0] == word_hash() && w[1] == word_stash() {
        GitCounts { stashed: number_or(w[2], c.stashed), ..c }
    } else {
        c
    }
}

/// The counts of the lines `lines`, read from the first.
pub open spec fn counts_of_lines(lines: Seq<Seq<char>>) -> GitCounts
    decreases lines.len(),
{
    if lines.len() == 0 {
        no_counts()
    } else {
        status_line(counts_of_lines(lines.drop_last()), lines.last())
    }
}

/// The counts that the porcelain output `out` reports.
pub open spec fn git_counts_spec(out: Seq<char>) -> GitCounts {
    counts_of_lines(split_char(out, '\n'))
}

fn bump_exec(n: u64) -> (r: u64)
    ensures
        r == bump(n),
{
    if n < u64::MAX { n + 1 } else { n }
}

fn number_or_exec(s: &[char], d: u64) -> (r: u64)
    ensures
        r == number_or(s@, d),
{
    match parse_unsigned_chars(s, 10, u64::MAX) {
        Some(v) => v,
        None => d,
    }
}

fn count_status_line(c: GitCounts, line: &Vec<char>) -> (r: GitCounts)
    ensures
        r == status_line(c, line@),
{
    let w = split_words(line);
    let ghost ws = words(line@);
    let n = line.len();
    let hash: Vec<char> = vec!['#'];
    let branch_ab: Vec<char> = vec!['b', 'r', 'a', 'n', 'c', 'h', '.', 'a', 'b'];
    let stash: Vec<char> = vec!['s', 't', 'a', 's', 'h'];
    assert(hash@ == word_hash() && branch_ab@ == word_branch_ab() && stash@ == word_stash());
    if n >= 2 && line[1] == ' ' && line[0] == 'u' {
        GitCounts { conflicted: bump_exec(c.conflicted), ..c }
    } else if n >= 2 && line[1] == ' ' && line[0] == '?' {
        GitCounts { untracked: bump_exec(c.untracked), ..c }
    } else if n >= 4 && line[1] == ' ' && (line[0] == '1' || line[0] == '2') {
        GitCounts {
            staged: if line[2] != '.' { bump_exec(c.staged) } else { c.staged },
            modified: if line[3] == 'M' || line[3] == 'T' { bump_exec(c.modified) } else { c.modified },
            deleted: if line[3] == 'D' { bump_exec(c.deleted) } else { c.deleted },
            renamed: if line[0] == '2' { bump_exec(c.renamed) } else { c.renamed },
            ..c
        }
    } else if w.len() == 4 && chars_eq(&w[0], &hash) && chars_eq(&w[1], &branch_ab)
        && w[2].len() > 0 && w[2][0] == '+' && w[3].len() > 0 && w[3][0] == '-' {
        assert(w@[0]@ == ws[0] && w@[1]@ == ws[1] && w@[2]@ == ws[2] && w@[3]@ == ws[3]);
        let a = slice_of(&w[2], 1, w[2].len());
        let b = slice_of(&w[3], 1, w[3].len());
        assert(a@ == ws[2].drop_first());
        assert(b@ == ws[3].drop_first());
        GitCounts { ahead: number_or_exec(&a, c.ahead), behind: number_or_exec(&b, c.behind), ..c }
    } else if w.len() == 3 && chars_eq(&w[0], &hash) && chars_eq(&w[1], &stash) {
        assert(w@[0]@ == ws[0] && w@[1]@ == ws[1] && w@[2]@ == ws[2]);
        GitCounts { stashed: number_or_exec(&w[2], c.stashed), ..c }
    } else {
        proof {
            if ws.len() == 4 {
                assert(w@[0]@ == ws[0] && w@[1]@ == ws[1] && w@[2]@ == ws[2] && w@[3]@ == ws[3]);
            }
            if ws.len() == 3 {
                assert(w@[0]@ == ws[0] && w@[1]@ == ws[1]);
            }
        }
        c
    }
}

/// The counts in the output of `git status --porcelain=v2 --branch --show-stash`.
pub fn git_status_counts(out: &str) -> (r: GitCounts)
    ensures
        r == git_counts_spec(out@),
{
    let chars = chars_of(out);
    let lines = split_on(&chars, '\n');
    let ghost ls = split_char(out@, '\n');
    let mut c = GitCounts { conflicted: 0, stashed: 0, deleted: 0, renamed: 0, modified: 0, staged: 0, untracked: 0, ahead: 0, behind: 0 };
    let mut i: usize = 0;
    while i < lines.len()
        invariant
            i <= lines@.len(),
            ls == split_char(out@, '\n'),
            lines@.len() == ls.len(),
            forall|k: int| 0 <= k < lines@.len() ==> #[trigger] lines@[k]@ == ls[k],
            c == counts_of_lines(ls.take(i as int)),
        decreases lines@.len() - i,
    {
        proof {
            assert(ls.take(i + 1).drop_last() =~= ls.take(i as int));
            assert(ls.take(i + 1).last() == lines@[i as int]@);
        }
        c = count_status_line(c, &lines[i]);
        i += 1;
    }
    proof {
        assert(ls.take(lines@.len() as int) =~= ls);
    }
    c
}

/// `s` when `b` holds, nothing otherwise.
pub open spec fn shown_if(b: bool, s: Seq<char>) -> Seq<char> {
    if b { s } else { Seq::empty() }
}

/// The symbols of the kinds present, in the order conflicted, stashed,
/// deleted, renamed, modified, staged, untracked, then `diverged`, `ahead`
/// or `behind` for the distance to the upstream.
pub open spec fn git_status_symbols(cfg: GitStatusSection, c: GitCounts) -> Seq<char> {
    shown_if(c.conflicted > 0, cfg.conflicted@) + shown_if(c.stashed > 0, cfg.stashed@)
        + shown_if(c.deleted > 0, cfg.deleted@) + shown_if(c.renamed > 0, cfg.renamed@)
        + shown_if(c.modified > 0, cfg.modified@) + shown_if(c.staged > 0, cfg.staged@)
        + shown_if(c.untracked > 0, cfg.untracked@)
        + (if c.ahead > 0 && c.behind > 0 {
            cfg.diverged@
        } else if c.ahead > 0 {
            cfg.ahead@
        } else if c.behind > 0 {
            cfg.behind@
        } else {
            Seq::empty()
        })
}

/// What the `git_status` module shows: nothing outside a repository or in a
/// clean one, else the symbols in brackets followed by a space.
pub open spec fn git_status_spec(cfg: GitStatusSection, counts: Option<GitCounts>) -> Seq<char> {
    match counts {
        None => Seq::empty(),
        Some(c) => {
            let s = git_status_symbols(cfg, c);
            if s.len() == 0 {
                Seq::empty()
            } else {
                seq!['['] + s + seq![']', ' ']
            }
        },
    }
}

fn push_if(out: &mut String, b: bool, s: &String)
    ensures
        final(out)@ == old(out)@ + shown_if(b, s@),
{
    if b {
        push_str(out, s.as_str());
    } else {
        assert(old(out)@ + Seq::<char>::empty() =~= old(out)@);
    }
}

fn git_status_symbols_exec(cfg: &GitStatusSection, c: &GitCounts) -> (r: String)
    ensures
        r@ == git_status_symbols(*cfg, *c),
{
    let mut s = String::new();
    push_if(&mut s, c.conflicted > 0, &cfg.conflicted);
    assert(s@ =~= shown_if(c.conflicted > 0, cfg.conflicted@));
    push_if(&mut s, c.stashed > 0, &cfg.stashed);
    push_if(&mut s, c.deleted > 0, &cfg.deleted);
    push_if(&mut s, c.renamed > 0, &cfg.renamed);
    push_if(&mut s, c.modified > 0, &cfg.modified);
    push_if(&mut s, c.staged > 0, &cfg.staged);
    push_if(&mut s, c.untracked > 0, &cfg.untracked);
    if c.ahead > 0 && c.behind > 0 {
        push_str(&mut s, cfg.diverged.as_str());
    } else if c.ahead > 0 {
        push_str(&mut s, cfg.ahead.as_str());
    } else if c.behind > 0 {
        push_str(&mut s, cfg.behind.as_str());
    } else {
        assert(s@ + Seq::<char>::empty() =~= s@);
    }
    s
}

/// The `git_status` module.
pub fn render_git_status(cfg: &GitStatusSection, counts: &Option<GitCounts>) -> (r: String)
    ensures
        r@ == git_status_spec(*cfg, *counts),
{
    match counts {
        None => String::new(),
        Some(c) => {
            let s = git_status_symbols_exec(cfg, c);
            let shown = chars_of(s.as_str());
            if shown.len() == 0 {
                String::new()
            } else {
                let mut out = String::new();
                push_char(&mut out, '[');
                push_str(&mut out, s.as_str());
                push_char(&mut out, ']');
                push_char(&mut out, ' ');
                assert(out@ =~= seq!['['] + s@ + seq![']', ' ']);
                out
            }
        },
    }
}

// ───────────────────────────── duration, character ─────────────────────────────

/// `Nms` under a second, `Ns` under a minute, `Nm Ns` from a minute on.
pub open spec fn duration_text(ms: nat) -> Seq<char> {
    if ms < 1000 {
        decimal(ms) + seq!['m', 's']
    } else if ms < 60000 {
        decimal(ms / 1000) + seq!['s']
    } else {
        decimal(ms / 60000) + seq!['m', ' '] + decimal((ms % 60000) / 1000) + seq!['s']
    }
}

pub open spec fn cmd_duration_spec(cfg: CmdDurationSection, ms: u64) -> Seq<char> {
    if ms < cfg.min_time {
        Seq::empty()
    } else {
        module_format(
            cfg.format@,
            Map::<Seq<char>, Seq<char>>::empty().insert(key_duration(), duration_text(ms as nat)),
            Seq::empty(),
        )
    }
}

/// The `cmd_duration` module: shown from `min_time` milliseconds on.
pub fn render_cmd_duration(cfg: &CmdDurationSection, ms: u64) -> (r: String)
    ensures
        r@ == cmd_duration_spec(*cfg, ms),
{
    if ms < cfg.min_time {
        return String::new();
    }
    let mut d: Vec<char> = Vec::new();
    if ms < 1000 {
        d = decimal_chars(ms);
        d.push('m');
        d.push('s');
    } else if ms < 60000 {
        d = decimal_chars(ms / 1000);
        d.push('s');
    } else {
        d = decimal_chars(ms / 60000);
        d.push('m');
        d.push(' ');
        let secs = decimal_chars((ms % 60000) / 1000);
        d.extend_from_slice(&secs);
        d.push('s');
    }
    assert(d@ == duration_text(ms as nat));
    let mut vars = VarMap::new();
    vars.insert(key(&['d', 'u', 'r', 'a', 't', 'i', 'o', 'n']), string_of(&d));
    let no_style = String::new();
    render_module_format(cfg.format.as_str(), &vars, no_style.as_str())
}

pub open spec fn character_spec(cfg: CharacterSection, success: bool) -> Seq<char> {
    module_format(
        if success {
            cfg.success_symbol@
        } else {
            cfg.error_symbol@
        },
        Map::empty(),
        Seq::empty(),
    )
}

/// The `character` module: the success or the error symbol, by the last
/// command's outcome.
pub fn render_character(cfg: &CharacterSection, success: bool) -> (r: String)
    ensures
        r@ == character_spec(*cfg, success),
{
    let vars = VarMap::new();
    let no_style = String::new();
    if success {
        render_module_format(cfg.success_symbol.as_str(), &vars, no_style.as_str())
    } else {
        render_module_format(cfg.error_symbol.as_str(), &vars, no_style.as_str())
    }
}

} // verus!

verus! {

// ───────────────────────────── user and host ─────────────────────────────

pub open spec fn root_word() -> Seq<char> { seq!['r', 'o', 'o', 't'] }

pub open spec fn username_spec(cfg: UsernameSection, user: Seq<char>) -> Seq<char> {
    if cfg.disabled {
        Seq::empty()
    } else if !cfg.show_always && user != root_word() {
        Seq::empty()
    } else {
        module_format(
            cfg.format@,
            Map::<Seq<char>, Seq<char>>::empty().insert(key_user(), user),
            if user == root_word() {
                cfg.style_root@
            } else {
                cfg.style_user@
            },
        )
    }
}

/// The `username` module: shown for `root`, or always with `show_always`,
/// in the root or the user style.
pub fn render_username(cfg: &UsernameSection, facts: &PromptFacts) -> (r: String)
    ensures
        r@ == username_spec(*cfg, facts.user@),
{
    if cfg.disabled {
        return String::new();
    }
    let user = chars_of(facts.user.as_str());
    let is_root = chars_eq(&user, &['r', 'o', 'o', 't']);
    if !cfg.show_always && !is_root {
        return String::new();
    }
    let style = if is_root {
        &cfg.style_root
    } else {
        &cfg.style_user
    };
    let mut vars = VarMap::new();
    vars.insert(key(&['u', 's', 'e', 'r']), facts.user.clone());
    render_module_format(cfg.format.as_str(), &vars, style.as_str())
}

pub open spec fn localhost_word() -> Seq<char> {
    seq!['l', 'o', 'c', 'a', 'l', 'h', 'o', 's', 't']
}

/// The host name: the trimmed `/etc/hostname`, else `localhost`.
pub open spec fn shown_hostname(file: Option<String>) -> Seq<char> {
    match file {
        Some(h) => trim(h@),
        None => localhost_word(),
    }
}

pub open spec fn hostname_spec(cfg: HostnameSection, is_ssh: bool, file: Option<String>) -> Seq<char> {
    if cfg.disabled {
        Seq::empty()
    } else if cfg.ssh_only && !is_ssh {
        Seq::empty()
    } else {
        module_format(
            cfg.format@,
            Map::<Seq<char>, Seq<char>>::empty().insert(key_hostname(), shown_hostname(file)),
            Seq::empty(),
        )
    }
}

/// The `hostname` module: hidden outside SSH sessions with `ssh_only`.
pub fn render_hostname(cfg: &HostnameSection, is_ssh: bool, facts: &PromptFacts) -> (r: String)
    ensures
        r@ == hostname_spec(*cfg, is_ssh, facts.hostname_file),
{
    if cfg.disabled {
        return String::new();
    }
    if cfg.ssh_only && !is_ssh {
        return String::new();
    }
    let host = match &facts.hostname_file {
        Some(h) => trim_str(h.as_str()),
        None => string_of(&['l', 'o', 'c', 'a', 'l', 'h', 'o', 's', 't']),
    };
    let mut vars = VarMap::new();
    vars.insert(key(&['h', 'o', 's', 't', 'n', 'a', 'm', 'e']), host);
    let no_style = String::new();
    render_module_format(cfg.format.as_str(), &vars, no_style.as_str())
}

// ───────────────────────────── the whole prompt ─────────────────────────────

pub open spec fn word_directory() -> Seq<char> { seq!['d', 'i', 'r', 'e', 'c', 't', 'o', 'r', 'y'] }
pub open spec fn word_git_branch() -> Seq<char> { seq!['g', 'i', 't', '_', 'b', 'r', 'a', 'n', 'c', 'h'] }
pub open spec fn word_git_status() -> Seq<char> { seq!['g', 'i', 't', '_', 's', 't', 'a', 't', 'u', 's'] }
pub open spec fn word_cmd_duration() -> Seq<char> { seq!['c', 'm', 'd', '_', 'd', 'u', 'r', 'a', 't', 'i', 'o', 'n'] }
pub open spec fn word_character() -> Seq<char> { seq!['c', 'h', 'a', 'r', 'a', 'c', 't', 'e', 'r'] }
pub open spec fn word_username() -> Seq<char> { seq!['u', 's', 'e', 'r', 'n', 'a', 'm', 'e'] }
pub open spec fn word_hostname() -> Seq<char> { seq!['h', 'o', 's', 't', 'n', 'a', 'm', 'e'] }

/// What `$name` in the prompt format stands for; nothing for an unknown name.
pub open spec fn module_text(cfg: PromptConfig, ctx: PromptContext, facts: PromptFacts, name: Seq<char>) -> Seq<char> {
    if name == word_directory() {
        directory_spec(cfg.directory, facts)
    } else if name == word_git_branch() {
        git_branch_spec(cfg.git_branch, facts.git_branch)
    } else if name == word_git_status() {
        git_status_spec(cfg.git_status, facts.git_status)
    } else if name == word_cmd_duration() {
        cmd_duration_spec(cfg.cmd_duration, ctx.cmd_duration_ms)
    } else if name == word_character() {
        character_spec(cfg.character, ctx.last_exit_code == 0)
    } else if name == word_username() {
        username_spec(cfg.username, facts.user@)
    } else if name == word_hostname() {
        hostname_spec(cfg.hostname, ctx.is_ssh, facts.hostname_file)
    } else {
        Seq::empty()
    }
}

/// The prompt from position `i` of the format on: each `$name` replaced by
/// its module, every other character kept.
pub open spec fn prompt_from(cfg: PromptConfig, ctx: PromptContext, facts: PromptFacts, f: Seq<char>, i: int) -> Seq<char>
    decreases f.len() - i,
{
    if i < 0 || i >= f.len() {
        Seq::empty()
    } else if f[i] == '$' {
        let n = name_len(f, i + 1);
        if n < 0 || i + 1 + n > f.len() {
            Seq::empty()
        } else {
            module_text(cfg, ctx, facts, f.subrange(i + 1, i + 1 + n)) + prompt_from(cfg, ctx, facts, f, i + 1 + n)
        }
    } else {
        seq![f[i]] + prompt_from(cfg, ctx, facts, f, i + 1)
    }
}

pub open spec fn prompt_spec(cfg: PromptConfig, ctx: PromptContext, facts: PromptFacts) -> Seq<char> {
    prompt_from(cfg, ctx, facts, cfg.format@, 0)
}

/// Whether a `$` at position `i` of `f` names `name`.
pub open spec fn names_module_at(f: Seq<char>, i: int, name: Seq<char>) -> bool {
    &&& 0 <= i < f.len()
    &&& f[i] == '$'
    &&& f.subrange(i + 1, i + 1 + name_len(f, i + 1)) == name
}

/// Whether the format refers to the module `name`.
pub open spec fn uses_module(f: Seq<char>, name: Seq<char>) -> bool {
    exists|i: int| #[trigger] names_module_at(f, i, name)
}

/// The name that starts at `start` of `f`, and where it ends.
fn name_at(f: &Vec<char>, start: usize) -> (r: (Vec<char>, usize))
    requires
        start <= f@.len(),
    ensures
        r.1 == start + name_len(f@, start as int),
        start <= r.1 <= f@.len(),
        r.0@ == f@.subrange(start as int, r.1 as int),
{
    proof { lemma_name_len(f@, start as int); }
    let mut j = start;
    while j < f.len() && is_name_character(f[j])
        invariant
            start <= j <= f@.len(),
            name_len(f@, start as int) == (j - start) + name_len(f@, j as int),
        decreases f@.len() - j,
    {
        j += 1;
    }
    (slice_of(f, start, j), j)
}

/// Whether `format` refers to the module `name`, so that what it shows has to
/// be found out.
pub fn format_uses(format: &str, name: &str) -> (r: bool)
    ensures
        r == uses_module(format@, name@),
{
    let f = chars_of(format);
    let want = chars_of(name);
    let mut i: usize = 0;
    while i < f.len()
        invariant
            i <= f@.len(),
            want@ == name@,
            f@ == format@,
            forall|k: int| 0 <= k < i ==> !names_module_at(f@, k, name@),
        decreases f@.len() - i,
    {
        if f[i] == '$' {
            let (n, _e) = name_at(&f, i + 1);
            if chars_eq(&n, &want) {
                assert(names_module_at(f@, i as int, name@));
                return true;
            }
        }
        i += 1;
    }
    false
}

/// The prompt: the `[prompt]` format with each `$module` replaced by what
/// the module shows.
pub fn render_prompt(cfg: &PromptConfig, ctx: &PromptContext, facts: &PromptFacts) -> (r: String)
    requires
        uses_module(cfg.format@, word_git_branch()) ==> branch_fits(cfg.git_branch, facts.git_branch),
    ensures
        r@ == prompt_spec(*cfg, *ctx, *facts),
{
    let f = chars_of(cfg.format.as_str());
    let mut out = String::new();
    let mut i: usize = 0;
    while i < f.len()
        invariant
            i <= f@.len(),
            f@ == cfg.format@,
            uses_module(cfg.format@, word_git_branch()) ==> branch_fits(cfg.git_branch, facts.git_branch),
            prompt_spec(*cfg, *ctx, *facts) == out@ + prompt_from(*cfg, *ctx, *facts, f@, i as int),
        decreases f@.len() - i,
    {
        let c = f[i];
        if c == '$' {
            let (name, next) = name_at(&f, i + 1);
            let text: String = if chars_eq(&name, &['d', 'i', 'r', 'e', 'c', 't', 'o', 'r', 'y']) {
                render_directory(&cfg.directory, facts)
            } else if chars_eq(&name, &['g', 'i', 't', '_', 'b', 'r', 'a', 'n', 'c', 'h']) {
                assert(names_module_at(f@, i as int, word_git_branch()));
                render_git_branch(&cfg.git_branch, facts)
            } else if chars_eq(&name, &['g', 'i', 't', '_', 's', 't', 'a', 't', 'u', 's']) {
                render_git_status(&cfg.git_status, &facts.git_status)
            } else if chars_eq(&name, &['c', 'm', 'd', '_', 'd', 'u', 'r', 'a', 't', 'i', 'o', 'n']) {
                render_cmd_duration(&cfg.cmd_duration, ctx.cmd_duration_ms)
            } else if chars_eq(&name, &['c', 'h', 'a', 'r', 'a', 'c', 't', 'e', 'r']) {
                render_character(&cfg.character, ctx.last_exit_code == 0)
            } else if chars_eq(&name, &['u', 's', 'e', 'r', 'n', 'a', 'm', 'e']) {
                render_username(&cfg.username, facts)
            } else if chars_eq(&name, &['h', 'o', 's', 't', 'n', 'a', 'm', 'e']) {
                render_hostname(&cfg.hostname, ctx.is_ssh, facts)
            } else {
                String::new()
            };
            assert(text@ == module_text(*cfg, *ctx, *facts, name@));
            push_str(&mut out, text.as_str());
            i = next;
        } else {
            push_char(&mut out, c);
            i += 1;
        }
    }
    assert(out@ + Seq::<char>::empty() == out@);
    out
}

} // verus!
