//! Tab completion, hints and line highlighting.
//!
//! What the completer shows is decided here from plain values: the line, the
//! configuration, and what the shell found on disk and in the environment
//! (directory listings, executables on `PATH`, environment variables).
use vstd::prelude::*;
use crate::config::shell::ShellConfig;
use crate::text::{
    byte_count, byte_len, ends_with, has_suffix, is_boundary, lemma_byte_len_take_mono, chars_eq, chars_of, has_prefix, is_ws, lowercase_of, starts_with, string_of,
    to_lowercase, views,
};

verus! {

broadcast use vstd::string::group_string_axioms;

/// A completion offered to the user: what the menu shows, and what replaces
/// the word being completed.
pub struct Candidate {
    pub display: String,
    pub replacement: String,
}

pub open spec fn pair_of(c: Candidate) -> (Seq<char>, Seq<char>) {
    (c.display@, c.replacement@)
}

/// The candidates as (display, replacement) pairs.
pub open spec fn cands(s: Seq<Candidate>) -> Seq<(Seq<char>, Seq<char>)> {
    s.map_values(|c: Candidate| pair_of(c))
}

pub proof fn lemma_cands_push(s: Seq<Candidate>, c: Candidate)
    ensures
        cands(s.push(c)) == cands(s).push(pair_of(c)),
{
    assert(cands(s.push(c)) =~= cands(s).push(pair_of(c)));
}

pub open spec fn seq_pairs_empty() -> Seq<(Seq<char>, Seq<char>)> {
    Seq::empty()
}

/// The builtins that completion offers, in the order it offers them.
pub open spec fn completion_builtins() -> Seq<Seq<char>> {
    seq![
        seq!['e', 'c', 'h', 'o'],
        seq!['c', 'd'],
        seq!['p', 'w', 'd'],
        seq!['t', 'y', 'p', 'e'],
        seq!['e', 'x', 'i', 't'],
        seq!['h', 'i', 's', 't', 'o', 'r', 'y'],
        seq!['c', 'l', 'e', 'a', 'r'],
        seq!['e', 'x', 'p', 'o', 'r', 't'],
        seq!['u', 'n', 's', 'e', 't'],
        seq!['s', 'o', 'u', 'r', 'c', 'e'],
        seq!['j', 'o', 'b', 's'],
        seq!['h', 'e', 'l', 'p'],
        seq!['l', 's'],
        seq!['r', 'e', 'l', 'o', 'a', 'd'],
        seq!['r', 'e', 'h', 'a', 's', 'h'],
    ]
}

pub fn builtin_words() -> (r: Vec<Vec<char>>)
    ensures
        views(r@) == completion_builtins(),
{
    let r: Vec<Vec<char>> = vec![
        vec!['e', 'c', 'h', 'o'],
        vec!['c', 'd'],
        vec!['p', 'w', 'd'],
        vec!['t', 'y', 'p', 'e'],
        vec!['e', 'x', 'i', 't'],
        vec!['h', 'i', 's', 't', 'o', 'r', 'y'],
        vec!['c', 'l', 'e', 'a', 'r'],
        vec!['e', 'x', 'p', 'o', 'r', 't'],
        vec!['u', 'n', 's', 'e', 't'],
        vec!['s', 'o', 'u', 'r', 'c', 'e'],
        vec!['j', 'o', 'b', 's'],
        vec!['h', 'e', 'l', 'p'],
        vec!['l', 's'],
        vec!['r', 'e', 'l', 'o', 'a', 'd'],
        vec!['r', 'e', 'h', 'a', 's', 'h'],
    ];
    assert(views(r@) =~= completion_builtins());
    r
}

// ───────────────────────────── matching ─────────────────────────────

/// Whether `name` completes `prefix`: a plain prefix test, or one on the
/// lower-cased forms when completion is not case-sensitive.
pub open spec fn name_matches(name: Seq<char>, prefix: Seq<char>, case_sensitive: bool) -> bool {
    if case_sensitive {
        starts_with(name, prefix)
    } else {
        starts_with(lowercase_of(name), lowercase_of(prefix))
    }
}

pub fn matches_prefix(name: &Vec<char>, prefix: &Vec<char>, case_sensitive: bool) -> (r: bool)
    ensures
        r == name_matches(name@, prefix@, case_sensitive),
{
    if case_sensitive {
        has_prefix(name, prefix)
    } else {
        let n = string_of(name);
        let p = string_of(prefix);
        let ln = chars_of(to_lowercase(n.as_str()).as_str());
        let lp = chars_of(to_lowercase(p.as_str()).as_str());
        has_prefix(&ln, &lp)
    }
}

/// Whether the word is completed as a path: it starts with `/`, `~`, `./`
/// or `../`, or holds a `/`.
pub open spec fn path_like(w: Seq<char>) -> bool {
    ||| starts_with(w, seq!['/'])
    ||| starts_with(w, seq!['~'])
    ||| starts_with(w, seq!['.', '/'])
    ||| starts_with(w, seq!['.', '.', '/'])
    ||| w.contains('/')
}

pub fn is_path_like(w: &Vec<char>) -> (r: bool)
    ensures
        r == path_like(w@),
{
    let mut i: usize = 0;
    let mut slash = false;
    while i < w.len()
        invariant
            i <= w@.len(),
            slash == (exists|j: int| 0 <= j < i && w@[j] == '/'),
        decreases w@.len() - i,
    {
        if w[i] == '/' {
            slash = true;
        }
        i += 1;
    }
    assert(slash == w@.contains('/'));
    let p1: Vec<char> = vec!['/'];
    let p2: Vec<char> = vec!['~'];
    let p3: Vec<char> = vec!['.', '/'];
    let p4: Vec<char> = vec!['.', '.', '/'];
    assert(p1@ == seq!['/'] && p2@ == seq!['~'] && p3@ == seq!['.', '/'] && p4@ == seq!['.', '.', '/']);
    has_prefix(w, &p1) || has_prefix(w, &p2) || has_prefix(w, &p3) || has_prefix(w, &p4) || slash
}

} // verus!

verus! {

// ───────────────────────────── typo suggestions ─────────────────────────────

pub open spec fn min3(a: nat, b: nat, c: nat) -> nat {
    let m = if a <= b { a } else { b };
    if m <= c { m } else { c }
}

/// The Levenshtein distance: the fewest insertions, deletions and
/// substitutions of one character that turn `a` into `b`.
pub open spec fn edit_distance(a: Seq<char>, b: Seq<char>) -> nat
    decreases a.len() + b.len(),
{
    if a.len() == 0 {
        b.len()
    } else if b.len() == 0 {
        a.len()
    } else if a.last() == b.last() {
        edit_distance(a.drop_last(), b.drop_last())
    } else {
        1 + min3(
            edit_distance(a.drop_last(), b),
            edit_distance(a, b.drop_last()),
            edit_distance(a.drop_last(), b.drop_last()),
        )
    }
}

proof fn lemma_edit_distance_bound(a: Seq<char>, b: Seq<char>)
    ensures
        edit_distance(a, b) <= (if a.len() >= b.len() { a.len() } else { b.len() }),
    decreases a.len() + b.len(),
{
    if a.len() > 0 && b.len() > 0 {
        lemma_edit_distance_bound(a.drop_last(), b.drop_last());
    }
}

/// The Levenshtein distance between `a` and `b`, by the usual table.
pub fn levenshtein(a: &Vec<char>, b: &Vec<char>) -> (r: usize)
    ensures
        r == edit_distance(a@, b@),
{
    let m = a.len();
    let n = b.len();
    let mut prev: Vec<usize> = Vec::new();
    assert(a@.take(0).len() == 0);
    prev.push(0);
    let mut j: usize = 0;
    while j < n
        invariant
            j <= n,
            n == b@.len(),
            prev@.len() == j + 1,
            forall|k: int| 0 <= k <= j ==> prev@[k] == edit_distance(a@.take(0), b@.take(k)),
        decreases n - j,
    {
        j += 1;
        prev.push(j);
    }
    let mut i: usize = 0;
    while i < m
        invariant
            i <= m,
            m == a@.len(),
            n == b@.len(),
            prev@.len() == n + 1,
            forall|k: int| 0 <= k <= n ==> prev@[k] == edit_distance(a@.take(i as int), b@.take(k)),
        decreases m - i,
    {
        let mut cur: Vec<usize> = Vec::new();
        assert(b@.take(0).len() == 0);
        cur.push(i + 1);
        let mut j: usize = 0;
        while j < n
            invariant
                i < m,
                j <= n,
                m == a@.len(),
                n == b@.len(),
                prev@.len() == n + 1,
                cur@.len() == j + 1,
                forall|k: int| 0 <= k <= n ==> prev@[k] == edit_distance(a@.take(i as int), b@.take(k)),
                forall|k: int| 0 <= k <= j ==> cur@[k] == edit_distance(a@.take(i + 1), b@.take(k)),
            decreases n - j,
        {
            let ghost x = a@.take(i + 1);
            let ghost y = b@.take(j + 1);
            assert(x.drop_last() == a@.take(i as int));
            assert(y.drop_last() == b@.take(j as int));
            assert(x.last() == a@[i as int]);
            assert(y.last() == b@[j as int]);
            proof {
                lemma_edit_distance_bound(a@.take(i as int), b@.take(j as int));
            }
            let v = if a[i] == b[j] {
                prev[j]
            } else {
                let d = prev[j + 1];
                let l = cur[j];
                let g = prev[j];
                let mut mn = if d <= l { d } else { l };
                if g < mn {
                    mn = g;
                }
                1 + mn
            };
            cur.push(v);
            j += 1;
        }
        prev = cur;
        i += 1;
    }
    assert(a@.take(m as int) == a@);
    assert(b@.take(n as int) == b@);
    prev[n]
}

/// The suggestion for a mistyped word: among `pool`, the first at the least
/// distance from `prefix`, if that distance is at most two.
pub open spec fn closest(prefix: Seq<char>, pool: Seq<Seq<char>>) -> Option<Seq<char>>
    decreases pool.len(),
{
    if pool.len() == 0 {
        None
    } else {
        let best = closest(prefix, pool.drop_last());
        let x = pool.last();
        let d = edit_distance(prefix, x);
        if d <= 2 && (best is None || d < edit_distance(prefix, best->0)) {
            Some(x)
        } else {
            best
        }
    }
}

pub open spec fn did_you_mean() -> Seq<char> {
    seq!['d', 'i', 'd', ' ', 'y', 'o', 'u', ' ', 'm', 'e', 'a', 'n', ':', ' ']
}

/// "did you mean" for a word that nothing completes: no suggestion for an
/// empty word, a path or a variable.
pub open spec fn typo_spec(prefix: Seq<char>, names: Seq<Seq<char>>) -> Seq<(Seq<char>, Seq<char>)> {
    if prefix.len() == 0 || starts_with(prefix, seq!['/']) || starts_with(prefix, seq!['$']) {
        Seq::empty()
    } else {
        match closest(prefix, completion_builtins() + names) {
            Some(best) => seq![(did_you_mean() + best, best)],
            None => Seq::empty(),
        }
    }
}

#[verifier::loop_isolation(false)]
pub fn fallback_typo(prefix: &Vec<char>, names: &Vec<Vec<char>>) -> (r: Vec<Candidate>)
    ensures
        cands(r@) == typo_spec(prefix@, views(names@)),
{
    let mut out: Vec<Candidate> = Vec::new();
    if prefix.len() == 0 || prefix[0] == '/' || prefix[0] == '$' {
        proof {
            if prefix@.len() > 0 {
                assert(prefix@.subrange(0, 1) =~= seq![prefix@[0]]);
            }
        }
        assert(cands(out@) =~= seq_pairs_empty());
        return out;
    }
    assert(!starts_with(prefix@, seq!['/'])) by {
        if starts_with(prefix@, seq!['/']) {
            assert(prefix@.subrange(0, 1)[0] == '/');
        }
    }
    assert(!starts_with(prefix@, seq!['$'])) by {
        if starts_with(prefix@, seq!['$']) {
            assert(prefix@.subrange(0, 1)[0] == '$');
        }
    }
    let mut pool = builtin_words();
    let ghost pool0 = views(pool@);
    let mut k: usize = 0;
    while k < names.len()
        invariant
            k <= names@.len(),
            views(pool@) == pool0 + views(names@).take(k as int),
        decreases names@.len() - k,
    {
        let w = names[k].clone();
        proof {
            crate::text::lemma_views_push(pool@, w);
            assert(views(names@).take(k + 1) == views(names@).take(k as int).push(names@[k as int]@));
        }
        pool.push(w);
        k += 1;
    }
    assert(views(names@).take(names@.len() as int) == views(names@));
    let ghost all = views(pool@);
    assert(all == completion_builtins() + views(names@));
    let mut best: Option<usize> = None;
    let mut best_d: usize = 0;
    let mut i: usize = 0;
    while i < pool.len()
        invariant
            i <= pool@.len(),
            all == views(pool@),
            match best {
                Some(b) => b < i && closest(prefix@, all.take(i as int)) == Some(all[b as int]) && best_d
                    == edit_distance(prefix@, all[b as int]),
                None => closest(prefix@, all.take(i as int)) is None,
            },
        decreases pool@.len() - i,
    {
        let d = levenshtein(prefix, &pool[i]);
        assert(all.take(i + 1).drop_last() == all.take(i as int));
        assert(all.take(i + 1).last() == all[i as int]);
        let better = match best {
            Some(_) => d < best_d,
            None => true,
        };
        if d <= 2 && better {
            best = Some(i);
            best_d = d;
        }
        i += 1;
    }
    assert(all.take(pool@.len() as int) == all);
    match best {
        Some(b) => {
            let mut dv: Vec<char> = vec!['d', 'i', 'd', ' ', 'y', 'o', 'u', ' ', 'm', 'e', 'a', 'n', ':', ' '];
            assert(dv@ == did_you_mean());
            dv.extend_from_slice(&pool[b]);
            assert(pool@[b as int]@ == all[b as int]);
            let c = Candidate { display: string_of(&dv), replacement: string_of(&pool[b]) };
            out = Vec::new();
            assert(cands(out@) =~= seq_pairs_empty());
            assert(c.display@ == did_you_mean() + all[b as int]);
            assert(c.replacement@ == all[b as int]);
            proof { lemma_cands_push(out@, c); }
            out.push(c);
            assert(cands(out@) =~= seq![(did_you_mean() + all[b as int], all[b as int])]);
        },
        None => {
            out = Vec::new();
            assert(cands(out@) =~= seq_pairs_empty());
        },
    }
    out
}

} // verus!

verus! {

// ───────────────────────────── common prefix ─────────────────────────────

/// How many leading characters `a` and `b` share.
pub open spec fn common_len(a: Seq<char>, b: Seq<char>) -> nat
    decreases a.len(),
{
    if a.len() == 0 || b.len() == 0 || a[0] != b[0] {
        0
    } else {
        1 + common_len(a.drop_first(), b.drop_first())
    }
}

/// The characters that make up the first `n` bytes of `s`.
pub open spec fn byte_prefix(s: Seq<char>, n: nat) -> Seq<char> {
    crate::ui::prompt::byte_prefix(s, n)
}

/// The longest common prefix of `p` and the words from position `j` on, in
/// whole characters.
pub open spec fn prefix_from(p: Seq<char>, ws: Seq<Seq<char>>, j: int) -> Seq<char>
    decreases ws.len() - j,
{
    if j < 0 || j >= ws.len() {
        p
    } else {
        prefix_from(p.take(common_len(p, ws[j]) as int), ws, j + 1)
    }
}

/// The longest common prefix of the words, in whole characters (empty for
/// no words).
pub open spec fn common_prefix_spec(ws: Seq<Seq<char>>) -> Seq<char> {
    if ws.len() == 0 {
        Seq::empty()
    } else {
        prefix_from(ws[0], ws, 1)
    }
}

proof fn lemma_byte_prefix(s: Seq<char>, k: int)
    requires
        0 <= k <= s.len(),
    ensures
        is_boundary(s, byte_len(s.take(k))),
        byte_prefix(s, byte_len(s.take(k))) == s.take(k),
{
    let n = byte_len(s.take(k));
    assert(0 <= k <= s.len() && byte_len(s.take(k)) == n);
    let c = choose|c: int| 0 <= c <= s.len() && byte_len(s.take(c)) == n;
    if c < k {
        lemma_byte_len_take_mono(s, c, k);
    } else if k < c {
        lemma_byte_len_take_mono(s, k, c);
    }
}

fn common_count(a: &Vec<char>, b: &Vec<char>, limit: usize) -> (r: usize)
    requires
        limit <= a@.len(),
    ensures
        r == common_len(a@.take(limit as int), b@),
{
    let mut i: usize = 0;
    assert(a@.take(limit as int).skip(0) =~= a@.take(limit as int));
    assert(b@.skip(0) =~= b@);
    while i < limit && i < b.len() && a[i] == b[i]
        invariant
            i <= limit,
            i <= b@.len(),
            limit <= a@.len(),
            common_len(a@.take(limit as int), b@) == i + common_len(a@.take(limit as int).skip(i as int), b@.skip(i as int)),
        decreases limit - i,
    {
        proof {
            let x = a@.take(limit as int).skip(i as int);
            let y = b@.skip(i as int);
            assert(x.drop_first() == a@.take(limit as int).skip(i + 1));
            assert(y.drop_first() == b@.skip(i + 1));
            assert(x[0] == a@[i as int]);
            assert(y[0] == b@[i as int]);
        }
        i += 1;
    }
    proof {
        let x = a@.take(limit as int).skip(i as int);
        let y = b@.skip(i as int);
        if i >= limit {
            assert(x.len() == 0);
        } else if i >= b.len() {
            assert(y.len() == 0);
        } else {
            assert(x[0] == a@[i as int]);
            assert(y[0] == b@[i as int]);
        }
    }
    i
}

/// The longest common prefix of `words`, in whole characters.
pub fn common_prefix(words: &Vec<Vec<char>>) -> (r: Vec<char>)
    ensures
        r@ == common_prefix_spec(views(words@)),
{
    let ghost ws = views(words@);
    if words.len() == 0 {
        return Vec::new();
    }
    assert(ws[0] == words@[0]@);
    let mut p = crate::text::slice_of(&words[0], 0, words[0].len());
    assert(p@ =~= ws[0]);
    let mut j: usize = 1;
    while j < words.len()
        invariant
            1 <= j <= words@.len(),
            ws == views(words@),
            prefix_from(p@, ws, j as int) == common_prefix_spec(ws),
        decreases words@.len() - j,
    {
        assert(words@[j as int]@ == ws[j as int]);
        assert(p@.take(p@.len() as int) == p@);
        let l = common_count(&p, &words[j], p.len());
        proof { lemma_common_len_bound(p@, ws[j as int]); }
        p = crate::text::slice_of(&p, 0, l);
        j += 1;
    }
    p
}

proof fn lemma_common_len_bound(a: Seq<char>, b: Seq<char>)
    ensures
        common_len(a, b) <= a.len(),
    decreases a.len(),
{
    if a.len() > 0 && b.len() > 0 && a[0] == b[0] {
        lemma_common_len_bound(a.drop_first(), b.drop_first());
    }
}

} // verus!

verus! {

pub open spec fn arrow() -> Seq<char> {
    seq!['\u{2192}', ' ']
}

pub open spec fn replacements(pairs: Seq<(Seq<char>, Seq<char>)>) -> Seq<Seq<char>> {
    pairs.map_values(|p: (Seq<char>, Seq<char>)| p.1)
}

/// With more than one candidate, their common prefix goes first, marked with
/// an arrow, where it is longer (in bytes) than the word being completed.
pub open spec fn inject_spec(pairs: Seq<(Seq<char>, Seq<char>)>, prefix: Seq<char>) -> Option<Seq<(Seq<char>, Seq<char>)>> {
    if pairs.len() > 1 {
        let cp = common_prefix_spec(replacements(pairs));
        Some(
            if byte_len(cp) > byte_len(prefix) {
                seq![(arrow() + cp, cp)] + pairs
            } else {
                pairs
            },
        )
    } else {
        Some(pairs)
    }
}

pub fn inject_common_prefix(pairs: Vec<Candidate>, prefix: &Vec<char>) -> (r: Option<Vec<Candidate>>)
    ensures
        match r {
            Some(v) => inject_spec(cands(pairs@), prefix@) == Some(cands(v@)),
            None => inject_spec(cands(pairs@), prefix@) is None,
        },
{
    if pairs.len() <= 1 {
        return Some(pairs);
    }
    let mut reps: Vec<Vec<char>> = Vec::new();
    let mut i: usize = 0;
    while i < pairs.len()
        invariant
            i <= pairs@.len(),
            views(reps@) == replacements(cands(pairs@)).take(i as int),
        decreases pairs@.len() - i,
    {
        let rv = chars_of(pairs[i].replacement.as_str());
        proof {
            crate::text::lemma_views_push(reps@, rv);
            assert(replacements(cands(pairs@)).take(i + 1) =~= replacements(cands(pairs@)).take(i as int).push(rv@));
        }
        reps.push(rv);
        i += 1;
    }
    assert(replacements(cands(pairs@)).take(pairs@.len() as int) == replacements(cands(pairs@)));
    match Some(common_prefix(&reps)) {
        None => None,
        Some(cp) => {
            if byte_count(&cp) > byte_count(prefix) {
                let mut dv: Vec<char> = vec!['\u{2192}', ' '];
                assert(dv@ == arrow());
                dv.extend_from_slice(&cp);
                let c = Candidate { display: string_of(&dv), replacement: string_of(&cp) };
                let mut out = pairs;
                let ghost old_out = out@;
                assert(c.display@ == arrow() + cp@);
                assert(c.replacement@ == cp@);
                out.insert(0, c);
                assert(out@ == old_out.insert(0, c));
                assert forall|k: int| 0 <= k < out@.len() implies #[trigger] cands(out@)[k] == (seq![(arrow() + cp@, cp@)] + cands(old_out))[k] by {
                    if k > 0 {
                        assert(out@[k] == old_out[k - 1]);
                    }
                }
                assert(cands(out@) =~= seq![(arrow() + cp@, cp@)] + cands(old_out));
                Some(out)
            } else {
                Some(pairs)
            }
        },
    }
}

} // verus!

verus! {

// ───────────────────────────── ordering ─────────────────────────────

/// `a` sorts before `b` as strings do: by the first differing character's
/// code point, a proper prefix first.
pub open spec fn seq_less(a: Seq<char>, b: Seq<char>) -> bool
    decreases a.len(),
{
    if b.len() == 0 {
        false
    } else if a.len() == 0 {
        true
    } else if a[0] != b[0] {
        (a[0] as u32) < (b[0] as u32)
    } else {
        seq_less(a.drop_first(), b.drop_first())
    }
}

pub fn str_less(a: &Vec<char>, b: &Vec<char>) -> (r: bool)
    ensures
        r == seq_less(a@, b@),
{
    let mut i: usize = 0;
    assert(a@.skip(0) =~= a@);
    assert(b@.skip(0) =~= b@);
    while i < a.len() && i < b.len() && a[i] == b[i]
        invariant
            i <= a@.len(),
            i <= b@.len(),
            seq_less(a@, b@) == seq_less(a@.skip(i as int), b@.skip(i as int)),
        decreases a@.len() - i,
    {
        assert(a@.skip(i as int).drop_first() == a@.skip(i + 1));
        assert(b@.skip(i as int).drop_first() == b@.skip(i + 1));
        i += 1;
    }
    if i >= b.len() {
        assert(b@.skip(i as int).len() == 0);
        false
    } else if i >= a.len() {
        assert(a@.skip(i as int).len() == 0);
        true
    } else {
        assert(a@.skip(i as int)[0] == a@[i as int]);
        assert(b@.skip(i as int)[0] == b@[i as int]);
        (a[i] as u32) < (b[i] as u32)
    }
}

/// The order of a candidate list: by replacement, or directories (displays
/// ending in `/`) first and then by display.
pub open spec fn pair_less(a: (Seq<char>, Seq<char>), b: (Seq<char>, Seq<char>), dirs_first: bool) -> bool {
    if dirs_first {
        let da = ends_with(a.0, seq!['/']);
        let db = ends_with(b.0, seq!['/']);
        (da && !db) || (da == db && seq_less(a.0, b.0))
    } else {
        seq_less(a.1, b.1)
    }
}

/// `x` put into `s` before the first element it sorts before.
pub open spec fn insert_stable(s: Seq<(Seq<char>, Seq<char>)>, x: (Seq<char>, Seq<char>), dirs_first: bool) -> Seq<(Seq<char>, Seq<char>)>
    decreases s.len(),
{
    if s.len() == 0 {
        seq![x]
    } else if pair_less(x, s[0], dirs_first) {
        seq![x] + s
    } else {
        seq![s[0]] + insert_stable(s.drop_first(), x, dirs_first)
    }
}

/// The stable sort of `s`: sorted, with elements that neither sorts before
/// the other kept in their order (`slice::sort_by`).
pub open spec fn sort_stable(s: Seq<(Seq<char>, Seq<char>)>, dirs_first: bool) -> Seq<(Seq<char>, Seq<char>)>
    decreases s.len(),
{
    if s.len() == 0 {
        Seq::empty()
    } else {
        insert_stable(sort_stable(s.drop_last(), dirs_first), s.last(), dirs_first)
    }
}

proof fn lemma_insert_at(s: Seq<(Seq<char>, Seq<char>)>, x: (Seq<char>, Seq<char>), dirs_first: bool, p: int)
    requires
        0 <= p <= s.len(),
        forall|k: int| 0 <= k < p ==> !pair_less(x, #[trigger] s[k], dirs_first),
        p < s.len() ==> pair_less(x, s[p], dirs_first),
    ensures
        insert_stable(s, x, dirs_first) == s.take(p) + seq![x] + s.skip(p),
    decreases s.len(),
{
    if s.len() == 0 {
        assert(s.take(p) + seq![x] + s.skip(p) =~= seq![x]);
    } else if p == 0 {
        assert(s.take(0) + seq![x] + s.skip(0) =~= seq![x] + s);
    } else {
        assert forall|k: int| 0 <= k < p - 1 implies !pair_less(x, #[trigger] s.drop_first()[k], dirs_first) by {
            assert(s.drop_first()[k] == s[k + 1]);
        }
        if p - 1 < s.drop_first().len() {
            assert(s.drop_first()[p - 1] == s[p]);
        }
        lemma_insert_at(s.drop_first(), x, dirs_first, p - 1);
        assert(seq![s[0]] + (s.drop_first().take(p - 1) + seq![x] + s.drop_first().skip(p - 1)) =~= s.take(p) + seq![x] + s.skip(p));
    }
}

fn candidate_less(a: &Candidate, b: &Candidate, dirs_first: bool) -> (r: bool)
    ensures
        r == pair_less(pair_of(*a), pair_of(*b), dirs_first),
{
    if dirs_first {
        let ad = chars_of(a.display.as_str());
        let bd = chars_of(b.display.as_str());
        let da = ad.len() > 0 && ad[ad.len() - 1] == '/';
        let db = bd.len() > 0 && bd[bd.len() - 1] == '/';
        proof {
            if ad@.len() > 0 {
                assert(ad@.subrange(ad@.len() - 1, ad@.len() as int) =~= seq![ad@[ad@.len() - 1]]);
            }
            if bd@.len() > 0 {
                assert(bd@.subrange(bd@.len() - 1, bd@.len() as int) =~= seq![bd@[bd@.len() - 1]]);
            }
            assert(da == ends_with(ad@, seq!['/'])) by {
                if ends_with(ad@, seq!['/']) {
                    assert(ad@.subrange(ad@.len() - 1, ad@.len() as int)[0] == '/');
                }
            }
            assert(db == ends_with(bd@, seq!['/'])) by {
                if ends_with(bd@, seq!['/']) {
                    assert(bd@.subrange(bd@.len() - 1, bd@.len() as int)[0] == '/');
                }
            }
        }
        (da && !db) || (da == db && str_less(&ad, &bd))
    } else {
        str_less(&chars_of(a.replacement.as_str()), &chars_of(b.replacement.as_str()))
    }
}

fn copy_candidate(c: &Candidate) -> (r: Candidate)
    ensures
        pair_of(r) == pair_of(*c),
{
    Candidate { display: c.display.clone(), replacement: c.replacement.clone() }
}

/// Sorts the candidates stably, by replacement or directories first.
pub fn sort_candidates(v: &Vec<Candidate>, dirs_first: bool) -> (r: Vec<Candidate>)
    ensures
        cands(r@) == sort_stable(cands(v@), dirs_first),
{
    let mut out: Vec<Candidate> = Vec::new();
    let mut i: usize = 0;
    assert(cands(v@).take(0) =~= Seq::<(Seq<char>, Seq<char>)>::empty());
    assert(cands(out@) =~= seq_pairs_empty());
    while i < v.len()
        invariant
            i <= v@.len(),
            cands(out@) == sort_stable(cands(v@).take(i as int), dirs_first),
        decreases v@.len() - i,
    {
        let x = copy_candidate(&v[i]);
        let mut p: usize = 0;
        while p < out.len() && !candidate_less(&x, &out[p], dirs_first)
            invariant
                p <= out@.len(),
                forall|k: int| 0 <= k < p ==> !pair_less(pair_of(x), #[trigger] cands(out@)[k], dirs_first),
            decreases out@.len() - p,
        {
            p += 1;
        }
        let ghost before = cands(out@);
        proof {
            lemma_insert_at(before, pair_of(x), dirs_first, p as int);
        }
        let ghost old_out = out@;
        out.insert(p, x);
        proof {
            assert(out@ == old_out.insert(p as int, x));
            assert(cands(out@) =~= before.take(p as int) + seq![pair_of(x)] + before.skip(p as int)) by {
                assert forall|k: int| 0 <= k < out@.len() implies #[trigger] cands(out@)[k] == (before.take(p as int) + seq![pair_of(x)] + before.skip(p as int))[k] by {
                    if k < p {
                        assert(out@[k] == old_out[k]);
                    } else if k > p {
                        assert(out@[k] == old_out[k - 1]);
                    }
                }
            }
            let t = cands(v@).take(i + 1);
            assert(t.drop_last() == cands(v@).take(i as int));
            assert(t.last() == pair_of(v@[i as int]));
        }
        i += 1;
    }
    assert(cands(v@).take(v@.len() as int) == cands(v@));
    out
}

} // verus!

verus! {

// ───────────────────────────── the word under the cursor ─────────────────────────────

/// Index of the last white-space character of `s`.
pub open spec fn last_ws(s: Seq<char>) -> Option<int>
    decreases s.len(),
{
    if s.len() == 0 {
        None
    } else if is_ws(s.last()) {
        Some(s.len() - 1)
    } else {
        last_ws(s.drop_last())
    }
}

/// The characters before the cursor (byte offset `pos`).
pub open spec fn before_cursor(line: Seq<char>, pos: nat) -> Seq<char> {
    byte_prefix(line, pos)
}

/// Where, in characters, the word under the cursor starts: after the last
/// white space before the cursor.
pub open spec fn word_start_chars(b: Seq<char>) -> int {
    match last_ws(b) {
        Some(j) => j + 1,
        None => 0,
    }
}

/// The cursor falls between two characters, and the white space that ends
/// the text before the word, if any, takes one byte: the word's start is then
/// the byte after it.
pub open spec fn cursor_ok(line: Seq<char>, pos: nat) -> bool {
    &&& is_boundary(line, pos)
    &&& match last_ws(before_cursor(line, pos)) {
        Some(j) => crate::text::utf8_width(before_cursor(line, pos)[j]) == 1,
        None => true,
    }
}

/// The word being completed and what stands before it.
pub struct LineWord {
    /// Byte offset where the word starts.
    pub word_start: usize,
    pub word: String,
    /// The first word of the line before this one (empty if none).
    pub command: String,
    /// How many words stand before this one.
    pub arg_position: usize,
}

pub open spec fn prior_words(line: Seq<char>, pos: nat) -> Seq<Seq<char>> {
    let b = before_cursor(line, pos);
    crate::text::words(b.take(word_start_chars(b)))
}

pub open spec fn word_spec(line: Seq<char>, pos: nat) -> Seq<char> {
    let b = before_cursor(line, pos);
    b.skip(word_start_chars(b))
}

pub open spec fn command_spec(line: Seq<char>, pos: nat) -> Seq<char> {
    let p = prior_words(line, pos);
    if p.len() > 0 {
        p[0]
    } else {
        Seq::empty()
    }
}

pub open spec fn line_word_spec(lw: LineWord, line: Seq<char>, pos: nat) -> bool {
    let b = before_cursor(line, pos);
    &&& lw.word_start == byte_len(b.take(word_start_chars(b)))
    &&& lw.word@ == word_spec(line, pos)
    &&& lw.command@ == command_spec(line, pos)
    &&& lw.arg_position == prior_words(line, pos).len()
}

proof fn lemma_last_ws(s: Seq<char>)
    ensures
        match last_ws(s) {
            Some(j) => 0 <= j < s.len() && is_ws(s[j]) && forall|k: int| j < k < s.len() ==> !is_ws(#[trigger] s[k]),
            None => forall|k: int| 0 <= k < s.len() ==> !is_ws(#[trigger] s[k]),
        },
    decreases s.len(),
{
    if s.len() > 0 && !is_ws(s.last()) {
        lemma_last_ws(s.drop_last());
        assert forall|k: int| 0 <= k < s.len() - 1 implies s.drop_last()[k] == s[k] by {}
    }
}

/// Splits the line at the cursor: the word being completed, the command, and
/// how many words come before.
pub fn parse_line(line: &str, pos: usize) -> (r: LineWord)
    requires
        cursor_ok(line@, pos as nat),
    ensures
        line_word_spec(r, line@, pos as nat),
{
    let lc = chars_of(line);
    let k = match crate::text::chars_in_bytes(&lc, pos) {
        Some(k) => k,
        None => {
            assert(false);
            0
        },
    };
    proof { lemma_byte_prefix(lc@, k as int); }
    let b = crate::text::slice_of(&lc, 0, k);
    assert(b@ == before_cursor(line@, pos as nat));
    let mut j: usize = b.len();
    assert(b@.take(b@.len() as int) == b@);
    while j > 0 && !crate::text::is_whitespace(b[j - 1])
        invariant
            j <= b@.len(),
            last_ws(b@) == last_ws(b@.take(j as int)),
        decreases j,
    {
        assert(b@.take(j as int).drop_last() == b@.take(j - 1));
        j -= 1;
    }
    proof {
        assert(b@.take(b@.len() as int) == b@);
        if j > 0 {
            assert(b@.take(j as int).last() == b@[j - 1]);
        }
        assert(word_start_chars(b@) == j);
        lemma_byte_len_take_mono(b@, j as int, b@.len() as int);
        assert(b@.take(b@.len() as int) == b@);
        assert(byte_len(b@) == pos);
    }
    let start_bytes = byte_count(&crate::text::slice_of(&b, 0, j)) as usize;
    assert(b@.subrange(0, j as int) == b@.take(j as int));
    let word = crate::text::substring(&b, j, b.len());
    assert(b@.subrange(j as int, b@.len() as int) == b@.skip(j as int));
    let before = crate::text::slice_of(&b, 0, j);
    let prior = crate::text::split_words(&before);
    let command = if prior.len() > 0 {
        string_of(&prior[0])
    } else {
        String::new()
    };
    LineWord { word_start: start_bytes, word, command, arg_position: prior.len() }
}

} // verus!

verus! {

// ───────────────────────────── commands ─────────────────────────────

/// One file found in a directory on `PATH`.
pub struct PathEntry {
    pub name: String,
    /// Whether its permissions let someone execute it.
    pub executable: bool,
}

pub open spec fn builtin_tag() -> Seq<char> {
    seq![' ', '[', 'b', 'u', 'i', 'l', 't', 'i', 'n', ']']
}

pub open spec fn alias_tag() -> Seq<char> {
    seq![' ', '[', 'a', 'l', 'i', 'a', 's', ']']
}

/// The words of `pool` that complete `prefix`, each shown with `tag`.
pub open spec fn tagged_matches(pool: Seq<Seq<char>>, prefix: Seq<char>, cs: bool, tag: Seq<char>) -> Seq<(Seq<char>, Seq<char>)>
    decreases pool.len(),
{
    if pool.len() == 0 {
        Seq::empty()
    } else {
        let rest = tagged_matches(pool.drop_last(), prefix, cs, tag);
        let n = pool.last();
        if name_matches(n, prefix, cs) {
            rest.push((n + tag, n))
        } else {
            rest
        }
    }
}

/// The user's names that complete `prefix`, each once, builtins left out.
pub open spec fn alias_matches(names: Seq<Seq<char>>, prefix: Seq<char>, cs: bool) -> Seq<(Seq<char>, Seq<char>)>
    decreases names.len(),
{
    if names.len() == 0 {
        Seq::empty()
    } else {
        let rest = alias_matches(names.drop_last(), prefix, cs);
        let n = names.last();
        if name_matches(n, prefix, cs) && !completion_builtins().contains(n) && !names.drop_last().contains(n) {
            rest.push((n + alias_tag(), n))
        } else {
            rest
        }
    }
}

/// The executables on `PATH` that complete `prefix`, in `PATH` order: each
/// name is offered once, by the first executable file of that name, and
/// names that are builtins or the user's are left out.
pub open spec fn exe_matches(es: Seq<PathEntry>, names: Seq<Seq<char>>, prefix: Seq<char>, cs: bool) -> Seq<(Seq<char>, Seq<char>)>
    decreases es.len(),
{
    if es.len() == 0 {
        Seq::empty()
    } else {
        let rest = exe_matches(es.drop_last(), names, prefix, cs);
        let e = es.last();
        let n = e.name@;
        if name_matches(n, prefix, cs) && e.executable && !completion_builtins().contains(n) && !names.contains(n)
            && !replacements(rest).contains(n) {
            rest.push((n, n))
        } else {
            rest
        }
    }
}

/// Completion of a command name: matching builtins, then the user's aliases
/// and functions, then executables on `PATH`, the last two sorted.
pub open spec fn executables_spec(prefix: Seq<char>, names: Seq<Seq<char>>, cs: bool, es: Seq<PathEntry>) -> Option<Seq<(Seq<char>, Seq<char>)>> {
    inject_spec(
        tagged_matches(completion_builtins(), prefix, cs, builtin_tag()) + sort_stable(alias_matches(names, prefix, cs), false)
            + sort_stable(exe_matches(es, names, prefix, cs), false),
        prefix,
    )
}

fn push_pair(out: &mut Vec<Candidate>, display: Vec<char>, replacement: Vec<char>)
    ensures
        cands(final(out)@) == cands(old(out)@).push((display@, replacement@)),
{
    let c = Candidate { display: string_of(&display), replacement: string_of(&replacement) };
    proof { lemma_cands_push(out@, c); }
    out.push(c);
}

fn append_candidates(out: &mut Vec<Candidate>, more: Vec<Candidate>)
    ensures
        cands(final(out)@) == cands(old(out)@) + cands(more@),
{
    let ghost o = out@;
    let mut m = more;
    out.append(&mut m);
    assert(cands(out@) =~= cands(o) + cands(more@));
}

/// The words of `pool` that complete `prefix`, each shown with `tag`.
pub fn tagged(pool: &Vec<Vec<char>>, prefix: &Vec<char>, cs: bool, tag: &Vec<char>) -> (r: Vec<Candidate>)
    ensures
        cands(r@) == tagged_matches(views(pool@), prefix@, cs, tag@),
{
    let mut out: Vec<Candidate> = Vec::new();
    let mut i: usize = 0;
    assert(cands(out@) =~= seq_pairs_empty());
    assert(views(pool@).take(0) =~= Seq::<Seq<char>>::empty());
    while i < pool.len()
        invariant
            i <= pool@.len(),
            cands(out@) == tagged_matches(views(pool@).take(i as int), prefix@, cs, tag@),
        decreases pool@.len() - i,
    {
        let ghost t = views(pool@).take(i + 1);
        assert(t.drop_last() == views(pool@).take(i as int));
        assert(t.last() == pool@[i as int]@);
        if matches_prefix(&pool[i], prefix, cs) {
            let mut d = pool[i].clone();
            d.extend_from_slice(tag);
            assert(d@ == pool@[i as int]@ + tag@);
            push_pair(&mut out, d, pool[i].clone());
        }
        assert(cands(out@) == tagged_matches(t, prefix@, cs, tag@));
        i += 1;
    }
    assert(views(pool@).take(pool@.len() as int) == views(pool@));
    out
}

/// Whether `x` is among the first `end` words of `v`.
fn among_first(v: &Vec<Vec<char>>, end: usize, x: &Vec<char>) -> (r: bool)
    requires
        end <= v@.len(),
    ensures
        r == views(v@).take(end as int).contains(x@),
{
    let mut i: usize = 0;
    while i < end
        invariant
            i <= end,
            end <= v@.len(),
            forall|k: int| 0 <= k < i ==> views(v@)[k] != x@,
        decreases end - i,
    {
        if chars_eq(&v[i], x) {
            assert(views(v@).take(end as int)[i as int] == x@);
            return true;
        }
        i += 1;
    }
    assert forall|k: int| 0 <= k < end implies views(v@).take(end as int)[k] != x@ by {}
    false
}

pub fn alias_candidates(names: &Vec<Vec<char>>, prefix: &Vec<char>, cs: bool) -> (r: Vec<Candidate>)
    ensures
        cands(r@) == alias_matches(views(names@), prefix@, cs),
{
    let builtins = builtin_words();
    let mut out: Vec<Candidate> = Vec::new();
    let mut i: usize = 0;
    assert(cands(out@) =~= seq_pairs_empty());
    assert(views(names@).take(0) =~= Seq::<Seq<char>>::empty());
    let mut tag: Vec<char> = vec![' ', '[', 'a', 'l', 'i', 'a', 's', ']'];
    assert(tag@ == alias_tag());
    while i < names.len()
        invariant
            i <= names@.len(),
            tag@ == alias_tag(),
            views(builtins@) == completion_builtins(),
            cands(out@) == alias_matches(views(names@).take(i as int), prefix@, cs),
        decreases names@.len() - i,
    {
        let ghost t = views(names@).take(i + 1);
        assert(t.drop_last() == views(names@).take(i as int));
        assert(t.last() == names@[i as int]@);
        let n = &names[i];
        if matches_prefix(n, prefix, cs) && !among_first(&builtins, builtins.len(), n) && !among_first(names, i, n) {
            assert(views(builtins@).take(builtins@.len() as int) == views(builtins@));
            let mut d = n.clone();
            d.extend_from_slice(&tag);
            assert(d@ == n@ + tag@);
            push_pair(&mut out, d, n.clone());
        } else {
            assert(views(builtins@).take(builtins@.len() as int) == views(builtins@));
        }
        assert(t.drop_last() == views(names@).take(i as int));
        assert(cands(out@) == alias_matches(t, prefix@, cs));
        i += 1;
    }
    assert(views(names@).take(names@.len() as int) == views(names@));
    out
}

pub fn exe_candidates(es: &Vec<PathEntry>, names: &Vec<Vec<char>>, prefix: &Vec<char>, cs: bool) -> (r: Vec<Candidate>)
    ensures
        cands(r@) == exe_matches(es@, views(names@), prefix@, cs),
{
    let builtins = builtin_words();
    let mut offered: Vec<Vec<char>> = Vec::new();
    let mut out: Vec<Candidate> = Vec::new();
    let mut i: usize = 0;
    assert(cands(out@) =~= seq_pairs_empty());
    assert(es@.take(0) =~= Seq::<PathEntry>::empty());
    assert(replacements(cands(out@)) =~= views(offered@));
    while i < es.len()
        invariant
            i <= es@.len(),
            views(builtins@) == completion_builtins(),
            views(offered@) == replacements(cands(out@)),
            cands(out@) == exe_matches(es@.take(i as int), views(names@), prefix@, cs),
        decreases es@.len() - i,
    {
        let ghost t = es@.take(i + 1);
        assert(t.drop_last() == es@.take(i as int));
        assert(t.last() == es@[i as int]);
        let n = chars_of(es[i].name.as_str());
        assert(views(builtins@).take(builtins@.len() as int) == views(builtins@));
        assert(views(names@).take(names@.len() as int) == views(names@));
        assert(views(offered@).take(offered@.len() as int) == views(offered@));
        if matches_prefix(&n, prefix, cs) && es[i].executable && !among_first(&builtins, builtins.len(), &n)
            && !among_first(names, names.len(), &n) && !among_first(&offered, offered.len(), &n) {
            let ghost before = cands(out@);
            push_pair(&mut out, n.clone(), n.clone());
            proof {
                crate::text::lemma_views_push(offered@, n);
                assert(replacements(cands(out@)) =~= replacements(before).push(n@));
            }
            offered.push(n);
        }
        i += 1;
    }
    assert(es@.take(es@.len() as int) == es@);
    out
}

/// Completion of a command name: builtins, the user's names, executables.
pub fn complete_executables(prefix: &Vec<char>, names: &Vec<Vec<char>>, cs: bool, es: &Vec<PathEntry>) -> (r: Option<Vec<Candidate>>)
    ensures
        match r {
            Some(v) => executables_spec(prefix@, views(names@), cs, es@) == Some(cands(v@)),
            None => executables_spec(prefix@, views(names@), cs, es@) is None,
        },
{
    let mut tag: Vec<char> = vec![' ', '[', 'b', 'u', 'i', 'l', 't', 'i', 'n', ']'];
    assert(tag@ == builtin_tag());
    let mut all = tagged(&builtin_words(), prefix, cs, &tag);
    let aliases = sort_candidates(&alias_candidates(names, prefix, cs), false);
    append_candidates(&mut all, aliases);
    let exes = sort_candidates(&exe_candidates(es, names, prefix, cs), false);
    append_candidates(&mut all, exes);
    inject_common_prefix(all, prefix)
}

} // verus!

verus! {

// ───────────────────────────── paths ─────────────────────────────

/// What `Path::parent` gives for the path `p`.
pub uninterp spec fn parent_of(p: Seq<char>) -> Option<Seq<char>>;

/// What `Path::file_name` gives for the path `p`.
pub uninterp spec fn file_name_of(p: Seq<char>) -> Option<Seq<char>>;

/// `std::path::Path::parent`: the path without its last component, `None`
/// for a root or an empty path. The contract names the answer and says
/// nothing more of it.
#[verifier::external_body]
pub(crate) fn path_parent(p: &str) -> (r: Option<String>)
    ensures
        match r {
            Some(s) => parent_of(p@) == Some(s@),
            None => parent_of(p@) is None,
        },
{
    match std::path::Path::new(p).parent() {
        Some(q) => Some(q.to_string_lossy().into_owned()),
        None => None,
    }
}

/// `std::path::Path::file_name`: the last component unless it is `..`. The
/// contract names the answer and says nothing more of it.
#[verifier::external_body]
fn path_file_name(p: &str) -> (r: Option<String>)
    ensures
        match r {
            Some(s) => file_name_of(p@) == Some(s@),
            None => file_name_of(p@) is None,
        },
{
    match std::path::Path::new(p).file_name() {
        Some(q) => Some(q.to_string_lossy().into_owned()),
        None => None,
    }
}

/// Where completion of a path looks: the directory to list, the start of the
/// names to offer, and what stands before those names in the replacement.
pub struct PathQuery {
    pub search_dir: String,
    pub name_prefix: String,
    pub dir_prefix: String,
}

/// The word with a leading `~` replaced by the home directory.
pub open spec fn expand_home(word: Seq<char>, home: Seq<char>) -> Seq<char> {
    if starts_with(word, seq!['~']) {
        home + word.drop_first()
    } else {
        word
    }
}

/// Just past the last `/` of `w`, or 0.
pub open spec fn after_last_slash(w: Seq<char>) -> int
    decreases w.len(),
{
    if w.len() == 0 {
        0
    } else if w.last() == '/' {
        w.len() as int
    } else {
        after_last_slash(w.drop_last())
    }
}

/// Where completion of `word` looks, given what `Path::parent` and
/// `Path::file_name` give for the word with `~` expanded.
pub open spec fn path_query_with(
    word: Seq<char>,
    home: Seq<char>,
    parent: Option<Seq<char>>,
    fname: Option<Seq<char>>,
) -> (Seq<char>, Seq<char>, Seq<char>) {
    let e = expand_home(word, home);
    if ends_with(e, seq!['/']) {
        (e, Seq::empty(), word)
    } else {
        match parent {
            Some(par) => if par.len() > 0 {
                (
                    par,
                    match fname {
                        Some(f) => f,
                        None => Seq::empty(),
                    },
                    word.take(after_last_slash(word)),
                )
            } else {
                (seq!['.'], e, Seq::empty())
            },
            None => (seq!['.'], e, Seq::empty()),
        }
    }
}

pub open spec fn path_query_spec(word: Seq<char>, home: Seq<char>) -> (Seq<char>, Seq<char>, Seq<char>) {
    path_query_with(word, home, parent_of(expand_home(word, home)), file_name_of(expand_home(word, home)))
}

proof fn lemma_after_last_slash(w: Seq<char>)
    ensures
        0 <= after_last_slash(w) <= w.len(),
    decreases w.len(),
{
    if w.len() > 0 && w.last() != '/' {
        lemma_after_last_slash(w.drop_last());
    }
}

/// The word with a leading `~` replaced by `home`.
fn expand_home_str(word: &str, home: &str) -> (r: String)
    ensures
        r@ == expand_home(word@, home@),
{
    let w = chars_of(word);
    let e: Vec<char> = if w.len() > 0 && w[0] == '~' {
        let mut h = chars_of(home);
        let rest = crate::text::slice_of(&w, 1, w.len());
        h.extend_from_slice(&rest);
        assert(w@.subrange(0, 1) =~= seq!['~']);
        assert(rest@ == w@.drop_first());
        h
    } else {
        proof {
            if w@.len() > 0 && starts_with(w@, seq!['~']) {
                assert(w@.subrange(0, 1)[0] == '~');
            }
        }
        crate::text::slice_of(&w, 0, w.len())
    };
    assert(w@.subrange(0, w@.len() as int) == w@);
    assert(e@ == expand_home(word@, home@));
    string_of(&e)
}

/// Where to look for completions of the path `word`, with `home` the home
/// directory (`~` stands for it).
pub fn path_query(word: &str, home: &str) -> (r: PathQuery)
    ensures
        (r.search_dir@, r.name_prefix@, r.dir_prefix@) == path_query_spec(word@, home@),
{
    let es = expand_home_str(word, home);
    let parent = path_parent(es.as_str());
    let fname = path_file_name(es.as_str());
    path_query_from(word, home, parent, fname)
}

/// [`path_query`] with the parent and the file name of the word (with `~`
/// expanded) already known.
pub fn path_query_from(word: &str, home: &str, parent: Option<String>, file_name: Option<String>) -> (r: PathQuery)
    ensures
        (r.search_dir@, r.name_prefix@, r.dir_prefix@) == path_query_with(
            word@,
            home@,
            crate::text::opt_string_view(parent),
            crate::text::opt_string_view(file_name),
        ),
{
    let w = chars_of(word);
    let es = expand_home_str(word, home);
    let e = chars_of(es.as_str());
    if e.len() > 0 && e[e.len() - 1] == '/' {
        assert(e@.subrange(e@.len() - 1, e@.len() as int) =~= seq!['/']);
        return PathQuery { search_dir: es, name_prefix: String::new(), dir_prefix: crate::text::owned(word) };
    }
    proof {
        if ends_with(e@, seq!['/']) {
            assert(e@.subrange(e@.len() - 1, e@.len() as int)[0] == '/');
        }
    }
    match parent {
        Some(par) => {
            if chars_of(par.as_str()).len() > 0 {
                let fname = match file_name {
                    Some(f) => f,
                    None => String::new(),
                };
                let mut j = w.len();
                assert(w@.take(w@.len() as int) == w@);
                while j > 0 && w[j - 1] != '/'
                    invariant
                        j <= w@.len(),
                        after_last_slash(w@) == after_last_slash(w@.take(j as int)),
                    decreases j,
                {
                    assert(w@.take(j as int).drop_last() == w@.take(j - 1));
                    j -= 1;
                }
                proof {
                    if j > 0 {
                        assert(w@.take(j as int).last() == w@[j - 1]);
                    }
                }
                assert(w@.subrange(0, j as int) == w@.take(j as int));
                PathQuery { search_dir: par, name_prefix: fname, dir_prefix: crate::text::substring(&w, 0, j) }
            } else {
                PathQuery { search_dir: string_of(&['.']), name_prefix: es, dir_prefix: String::new() }
            }
        },
        None => PathQuery { search_dir: string_of(&['.']), name_prefix: es, dir_prefix: String::new() },
    }
}


} // verus!

verus! {

/// One entry of a directory listing.
pub struct DirEntry {
    pub name: String,
    pub is_dir: bool,
}

/// A directory is shown and completed with a `/` after its name.
pub open spec fn entry_pair(e: DirEntry, dir_prefix: Seq<char>) -> (Seq<char>, Seq<char>) {
    if e.is_dir {
        (e.name@ + seq!['/'], dir_prefix + e.name@ + seq!['/'])
    } else {
        (e.name@, dir_prefix + e.name@)
    }
}

pub open spec fn entry_matches(es: Seq<DirEntry>, name_prefix: Seq<char>, dir_prefix: Seq<char>, cs: bool) -> Seq<(Seq<char>, Seq<char>)>
    decreases es.len(),
{
    if es.len() == 0 {
        Seq::empty()
    } else {
        let rest = entry_matches(es.drop_last(), name_prefix, dir_prefix, cs);
        if name_matches(es.last().name@, name_prefix, cs) {
            rest.push(entry_pair(es.last(), dir_prefix))
        } else {
            rest
        }
    }
}

/// Completion of a path: the entries of the searched directory (`listing`)
/// whose names complete the word's last component, directories first.
pub open spec fn paths_spec(word: Seq<char>, home: Seq<char>, cs: bool, listing: Seq<DirEntry>) -> Option<Seq<(Seq<char>, Seq<char>)>> {
    let q = path_query_spec(word, home);
    inject_spec(sort_stable(entry_matches(listing, q.1, q.2, cs), true), word)
}

pub fn complete_paths(word: &str, home: &str, cs: bool, listing: &Vec<DirEntry>) -> (r: Option<Vec<Candidate>>)
    ensures
        match r {
            Some(v) => paths_spec(word@, home@, cs, listing@) == Some(cands(v@)),
            None => paths_spec(word@, home@, cs, listing@) is None,
        },
{
    let q = path_query(word, home);
    let np = chars_of(q.name_prefix.as_str());
    let dp = chars_of(q.dir_prefix.as_str());
    let mut out: Vec<Candidate> = Vec::new();
    let mut i: usize = 0;
    assert(cands(out@) =~= seq_pairs_empty());
    assert(listing@.take(0) =~= Seq::<DirEntry>::empty());
    while i < listing.len()
        invariant
            i <= listing@.len(),
            np@ == q.name_prefix@,
            dp@ == q.dir_prefix@,
            cands(out@) == entry_matches(listing@.take(i as int), np@, dp@, cs),
        decreases listing@.len() - i,
    {
        let ghost t = listing@.take(i + 1);
        assert(t.drop_last() == listing@.take(i as int));
        assert(t.last() == listing@[i as int]);
        let n = chars_of(listing[i].name.as_str());
        if matches_prefix(&n, &np, cs) {
            let mut d = n.clone();
            let mut rep = dp.clone();
            rep.extend_from_slice(&n);
            if listing[i].is_dir {
                d.push('/');
                rep.push('/');
            }
            assert((d@, rep@) == entry_pair(listing@[i as int], dp@));
            push_pair(&mut out, d, rep);
        }
        assert(cands(out@) == entry_matches(t, np@, dp@, cs));
        i += 1;
    }
    assert(listing@.take(listing@.len() as int) == listing@);
    let sorted = sort_candidates(&out, true);
    inject_common_prefix(sorted, &chars_of(word))
}

} // verus!

verus! {

// ───────────────────────────── variables ─────────────────────────────

pub open spec fn dollar() -> Seq<char> {
    seq!['$']
}

pub open spec fn env_matches(env: Seq<(String, String)>, var_prefix: Seq<char>) -> Seq<(Seq<char>, Seq<char>)>
    decreases env.len(),
{
    if env.len() == 0 {
        Seq::empty()
    } else {
        let rest = env_matches(env.drop_last(), var_prefix);
        let k = env.last().0@;
        if starts_with(k, var_prefix) {
            rest.push((dollar() + k, dollar() + k))
        } else {
            rest
        }
    }
}

/// Completion of `$NAME`: the variables whose names start with what follows
/// the `$`s, sorted.
pub open spec fn env_vars_spec(word: Seq<char>, env: Seq<(String, String)>) -> Option<Seq<(Seq<char>, Seq<char>)>> {
    inject_spec(sort_stable(env_matches(env, crate::text::strip_prefixes(word, dollar())), false), word)
}

pub fn complete_env_vars(word: &str, env: &Vec<(String, String)>) -> (r: Option<Vec<Candidate>>)
    ensures
        match r {
            Some(v) => env_vars_spec(word@, env@) == Some(cands(v@)),
            None => env_vars_spec(word@, env@) is None,
        },
{
    let w = chars_of(word);
    let d: Vec<char> = vec!['$'];
    assert(d@ == dollar());
    let vp = crate::text::strip_prefixes_chars(&w, &d);
    let mut out: Vec<Candidate> = Vec::new();
    let mut i: usize = 0;
    assert(cands(out@) =~= seq_pairs_empty());
    assert(env@.take(0) =~= Seq::<(String, String)>::empty());
    while i < env.len()
        invariant
            i <= env@.len(),
            d@ == dollar(),
            cands(out@) == env_matches(env@.take(i as int), vp@),
        decreases env@.len() - i,
    {
        let ghost t = env@.take(i + 1);
        assert(t.drop_last() == env@.take(i as int));
        assert(t.last() == env@[i as int]);
        let k = chars_of(env[i].0.as_str());
        if has_prefix(&k, &vp) {
            let mut rep = d.clone();
            rep.extend_from_slice(&k);
            assert(rep@ == dollar() + env@[i as int].0@);
            push_pair(&mut out, rep.clone(), rep);
        }
        assert(cands(out@) == env_matches(t, vp@));
        i += 1;
    }
    assert(env@.take(env@.len() as int) == env@);
    inject_common_prefix(sort_candidates(&out, false), &w)
}

} // verus!

verus! {

// ───────────────────────────── arguments ─────────────────────────────

pub open spec fn word_cd() -> Seq<char> { seq!['c', 'd'] }
pub open spec fn word_type() -> Seq<char> { seq!['t', 'y', 'p', 'e'] }
pub open spec fn word_export() -> Seq<char> { seq!['e', 'x', 'p', 'o', 'r', 't'] }
pub open spec fn word_unset() -> Seq<char> { seq!['u', 'n', 's', 'e', 't'] }
pub open spec fn word_echo() -> Seq<char> { seq!['e', 'c', 'h', 'o'] }
pub open spec fn word_history() -> Seq<char> { seq!['h', 'i', 's', 't', 'o', 'r', 'y'] }
pub open spec fn word_source() -> Seq<char> { seq!['s', 'o', 'u', 'r', 'c', 'e'] }

pub open spec fn cd_targets() -> Seq<Seq<char>> {
    seq![seq!['~'], seq!['-'], seq!['.', '.']]
}

pub open spec fn echo_flags() -> Seq<Seq<char>> {
    seq![seq!['-', 'n'], seq!['-', 'e'], seq!['-', 'E']]
}

pub open spec fn history_flags() -> Seq<Seq<char>> {
    seq![seq!['-', 'c'], seq!['-', 'r'], seq!['-', 'w'], seq!['-', 'n']]
}

/// `~alias` for each directory alias that completes the word, shown with its
/// target.
pub open spec fn dir_alias_matches(aliases: Seq<(String, String)>, word: Seq<char>, cs: bool) -> Seq<(Seq<char>, Seq<char>)>
    decreases aliases.len(),
{
    if aliases.len() == 0 {
        Seq::empty()
    } else {
        let rest = dir_alias_matches(aliases.drop_last(), word, cs);
        let (a, t) = aliases.last();
        let key = seq!['~'] + a@;
        if name_matches(key, word, cs) {
            rest.push((key + seq![' ', ' ', '(', '\u{2192}', ' '] + t@ + seq![')'], key))
        } else {
            rest
        }
    }
}

/// Candidates whose display is a directory or the common-prefix entry.
pub open spec fn keep_dirs(s: Seq<(Seq<char>, Seq<char>)>) -> Seq<(Seq<char>, Seq<char>)>
    decreases s.len(),
{
    if s.len() == 0 {
        Seq::empty()
    } else {
        let d = s.last().0;
        if ends_with(d, seq!['/']) || starts_with(d, arrow()) {
            keep_dirs(s.drop_last()).push(s.last())
        } else {
            keep_dirs(s.drop_last())
        }
    }
}

/// Candidates that `source` can take: directories, the common-prefix entry,
/// and `.sh`, `.crush` and `.rc` files.
pub open spec fn keep_sources(s: Seq<(Seq<char>, Seq<char>)>) -> Seq<(Seq<char>, Seq<char>)>
    decreases s.len(),
{
    if s.len() == 0 {
        Seq::empty()
    } else {
        let d = s.last().0;
        if ends_with(d, seq!['/']) || starts_with(d, arrow()) || ends_with(d, seq!['.', 's', 'h'])
            || ends_with(d, seq!['.', 'c', 'r', 'u', 's', 'h']) || ends_with(d, seq!['.', 'r', 'c']) {
            keep_sources(s.drop_last()).push(s.last())
        } else {
            keep_sources(s.drop_last())
        }
    }
}

/// An environment value as `export` completion shows it: its first twenty
/// bytes; `None` where byte twenty falls inside a character.
pub open spec fn shown_value(v: Seq<char>) -> Option<Seq<char>> {
    if byte_len(v) > 20 {
        if is_boundary(v, 20) {
            Some(byte_prefix(v, 20))
        } else {
            None
        }
    } else {
        Some(v)
    }
}

/// The variables that `export` or `unset` completes, `None` where a shown
/// value cannot be cut.
pub open spec fn var_matches(env: Seq<(String, String)>, var_prefix: Seq<char>, cs: bool, show_values: bool) -> Option<Seq<(Seq<char>, Seq<char>)>>
    decreases env.len(),
{
    if env.len() == 0 {
        Some(Seq::empty())
    } else {
        match var_matches(env.drop_last(), var_prefix, cs, show_values) {
            None => None,
            Some(rest) => {
                let (k, v) = env.last();
                if name_matches(k@, var_prefix, cs) {
                    if show_values {
                        match shown_value(v@) {
                            Some(sv) => Some(rest.push((k@ + seq![' ', ' ', '(', '='] + sv + seq![')'], k@))),
                            None => None,
                        }
                    } else {
                        Some(rest.push((k@, k@)))
                    }
                } else {
                    Some(rest)
                }
            },
        }
    }
}

/// Completion of an argument of `cmd`: what each builtin takes, else paths.
pub open spec fn args_spec(
    cmd: Seq<char>,
    word: Seq<char>,
    dir_aliases: Seq<(String, String)>,
    cs: bool,
    env: Seq<(String, String)>,
    home: Seq<char>,
    listing: Seq<DirEntry>,
) -> Option<Seq<(Seq<char>, Seq<char>)>> {
    let paths = paths_spec(word, home, cs, listing);
    if cmd == word_cd() {
        match paths {
            Some(p) => Some(
                tagged_matches(cd_targets(), word, cs, Seq::empty()) + dir_alias_matches(dir_aliases, word, cs) + keep_dirs(p),
            ),
            None => None,
        }
    } else if cmd == word_type() {
        Some(tagged_matches(completion_builtins(), word, cs, builtin_tag()))
    } else if cmd == word_export() || cmd == word_unset() {
        match var_matches(env, crate::text::strip_prefixes(word, dollar()), cs, cmd == word_export()) {
            Some(s) => Some(sort_stable(s, false)),
            None => None,
        }
    } else if cmd == word_echo() {
        if starts_with(word, seq!['-']) {
            Some(tagged_matches(echo_flags(), word, cs, Seq::empty()))
        } else {
            paths
        }
    } else if cmd == word_history() {
        Some(tagged_matches(history_flags(), word, cs, Seq::empty()))
    } else if cmd == word_source() {
        match paths {
            Some(p) => Some(keep_sources(p)),
            None => None,
        }
    } else if starts_with(word, seq!['-']) {
        Some(Seq::empty())
    } else {
        paths
    }
}

} // verus!

verus! {

proof fn lemma_var_names(env: Seq<(String, String)>, p: Seq<char>, cs: bool)
    ensures
        var_matches(env, p, cs, false) is Some,
        forall|k: int| 0 <= k < var_matches(env, p, cs, false)->0.len() ==> {
            let c = #[trigger] var_matches(env, p, cs, false)->0[k];
            &&& c.0 == c.1
            &&& name_matches(c.0, p, cs)
            &&& exists|j: int| 0 <= j < env.len() && env[j].0@ == c.0
        },
        forall|j: int| 0 <= j < env.len() && name_matches(#[trigger] env[j].0@, p, cs)
            ==> var_matches(env, p, cs, false)->0.contains((env[j].0@, env[j].0@)),
    decreases env.len(),
{
    if env.len() > 0 {
        let t = env.drop_last();
        lemma_var_names(t, p, cs);
        let rest = var_matches(t, p, cs, false)->0;
        let s = var_matches(env, p, cs, false)->0;
        let (key, v) = env.last();
        if name_matches(key@, p, cs) {
            assert(s == rest.push((key@, key@)));
        } else {
            assert(s == rest);
        }
        assert forall|k: int| 0 <= k < s.len() implies {
            let c = #[trigger] s[k];
            &&& c.0 == c.1
            &&& name_matches(c.0, p, cs)
            &&& exists|j: int| 0 <= j < env.len() && env[j].0@ == c.0
        } by {
            if k < rest.len() {
                assert(s[k] == rest[k]);
                let c = rest[k];
                let j = choose|j: int| 0 <= j < t.len() && t[j].0@ == c.0;
                assert(env[j] == t[j]);
            } else {
                assert(env[env.len() - 1].0@ == s[k].0);
            }
        }
        assert forall|j: int| 0 <= j < env.len() && name_matches(#[trigger] env[j].0@, p, cs)
            implies s.contains((env[j].0@, env[j].0@)) by {
            if j < t.len() {
                assert(env[j] == t[j]);
                let x = (t[j].0@, t[j].0@);
                assert(rest.contains(x));
                let q = choose|q: int| 0 <= q < rest.len() && rest[q] == x;
                assert(s[q] == x);
            } else {
                assert(s[s.len() - 1] == (key@, key@));
            }
        }
    }
}

/// `unset` completes variable names: the candidates are exactly the names
/// of the environment's variables that complete the word (a leading `$`
/// taken off), each shown and inserted as the bare name, sorted by name; no
/// file or directory is offered.
pub proof fn lemma_unset_completes_variables(
    word: Seq<char>,
    dir_aliases: Seq<(String, String)>,
    cs: bool,
    env: Seq<(String, String)>,
    home: Seq<char>,
    listing: Seq<DirEntry>,
)
    ensures
        args_spec(word_unset(), word, dir_aliases, cs, env, home, listing) is Some,
        forall|k: int| 0 <= k < args_spec(word_unset(), word, dir_aliases, cs, env, home, listing)->0.len() ==> {
            let c = #[trigger] args_spec(word_unset(), word, dir_aliases, cs, env, home, listing)->0[k];
            &&& c.0 == c.1
            &&& name_matches(c.0, crate::text::strip_prefixes(word, dollar()), cs)
            &&& exists|j: int| 0 <= j < env.len() && env[j].0@ == c.0
        },
        forall|j: int| 0 <= j < env.len() && name_matches(#[trigger] env[j].0@, crate::text::strip_prefixes(word, dollar()), cs)
            ==> args_spec(word_unset(), word, dir_aliases, cs, env, home, listing)->0.contains((env[j].0@, env[j].0@)),
        forall|i: int, k: int| 0 <= i < k < args_spec(word_unset(), word, dir_aliases, cs, env, home, listing)->0.len()
            ==> !seq_less(
                #[trigger] args_spec(word_unset(), word, dir_aliases, cs, env, home, listing)->0[k].1,
                #[trigger] args_spec(word_unset(), word, dir_aliases, cs, env, home, listing)->0[i].1,
            ),
{
    let p = crate::text::strip_prefixes(word, dollar());
    assert(word_unset() != word_cd()) by {
        assert(word_unset().len() != word_cd().len());
    }
    assert(word_unset() != word_type()) by {
        assert(word_unset().len() != word_type().len());
    }
    assert(word_unset() != word_export()) by {
        assert(word_unset().len() != word_export().len());
    }
    lemma_var_names(env, p, cs);
    let s = var_matches(env, p, cs, false)->0;
    let r = sort_stable(s, false);
    assert(args_spec(word_unset(), word, dir_aliases, cs, env, home, listing) == Some(r));
    lemma_sort_stable_from(s, false);
    lemma_sort_stable_permutes(s, false);
    lemma_sort_stable_sorted(s, false);
    assert forall|k: int| 0 <= k < r.len() implies {
        let c = #[trigger] r[k];
        &&& c.0 == c.1
        &&& name_matches(c.0, p, cs)
        &&& exists|j: int| 0 <= j < env.len() && env[j].0@ == c.0
    } by {
        let q = choose|q: int| 0 <= q < s.len() && r[k] == s[q];
        assert(s[q] == r[k]);
    }
    assert forall|j: int| 0 <= j < env.len() && name_matches(#[trigger] env[j].0@, p, cs)
        implies r.contains((env[j].0@, env[j].0@)) by {
        let x = (env[j].0@, env[j].0@);
        vstd::seq_lib::to_multiset_contains(s, x);
        vstd::seq_lib::to_multiset_contains(r, x);
    }
    assert forall|i: int, k: int| 0 <= i < k < r.len() implies !seq_less(#[trigger] r[k].1, #[trigger] r[i].1) by {
        assert(!pair_less(r[k], r[i], false));
    }
}

pub fn dir_alias_candidates(aliases: &crate::vars::VarMap, word: &Vec<char>, cs: bool) -> (r: Vec<Candidate>)
    ensures
        cands(r@) == dir_alias_matches(aliases.pairs(), word@, cs),
{
    let mut out: Vec<Candidate> = Vec::new();
    let mut i: usize = 0;
    assert(cands(out@) =~= seq_pairs_empty());
    assert(aliases.pairs().take(0) =~= Seq::<(String, String)>::empty());
    while i < aliases.len()
        invariant
            i <= aliases.pairs().len(),
            cands(out@) == dir_alias_matches(aliases.pairs().take(i as int), word@, cs),
        decreases aliases.pairs().len() - i,
    {
        let ghost t = aliases.pairs().take(i + 1);
        assert(t.drop_last() == aliases.pairs().take(i as int));
        assert(t.last() == aliases.pairs()[i as int]);
        let (a, target) = aliases.entry(i);
        let mut key: Vec<char> = vec!['~'];
        assert(key@ == seq!['~']);
        key.extend_from_slice(&chars_of(a.as_str()));
        assert(key@ == seq!['~'] + t.last().0@);
        if matches_prefix(&key, word, cs) {
            let mut d = key.clone();
            let mid: Vec<char> = vec![' ', ' ', '(', '\u{2192}', ' '];
            d.extend_from_slice(&mid);
            d.extend_from_slice(&chars_of(target.as_str()));
            d.push(')');
            assert(d@ == key@ + seq![' ', ' ', '(', '\u{2192}', ' '] + target@ + seq![')']);
            push_pair(&mut out, d, key);
        }
        assert(cands(out@) == dir_alias_matches(t, word@, cs));
        i += 1;
    }
    assert(aliases.pairs().take(aliases.pairs().len() as int) == aliases.pairs());
    out
}

/// Keeps the directories and the common-prefix entry, and with `sources`
/// also the files that `source` reads.
pub fn keep_candidates(v: &Vec<Candidate>, sources: bool) -> (r: Vec<Candidate>)
    ensures
        cands(r@) == (if sources {
            keep_sources(cands(v@))
        } else {
            keep_dirs(cands(v@))
        }),
{
    let slash: Vec<char> = vec!['/'];
    let arr: Vec<char> = vec!['\u{2192}', ' '];
    let sh: Vec<char> = vec!['.', 's', 'h'];
    let crush: Vec<char> = vec!['.', 'c', 'r', 'u', 's', 'h'];
    let rc: Vec<char> = vec!['.', 'r', 'c'];
    assert(slash@ == seq!['/'] && arr@ == arrow() && sh@ == seq!['.', 's', 'h']);
    assert(crush@ == seq!['.', 'c', 'r', 'u', 's', 'h'] && rc@ == seq!['.', 'r', 'c']);
    let mut out: Vec<Candidate> = Vec::new();
    let mut i: usize = 0;
    assert(cands(out@) =~= seq_pairs_empty());
    assert(cands(v@).take(0) =~= seq_pairs_empty());
    while i < v.len()
        invariant
            i <= v@.len(),
            slash@ == seq!['/'] && arr@ == arrow() && sh@ == seq!['.', 's', 'h'],
            crush@ == seq!['.', 'c', 'r', 'u', 's', 'h'] && rc@ == seq!['.', 'r', 'c'],
            cands(out@) == (if sources {
                keep_sources(cands(v@).take(i as int))
            } else {
                keep_dirs(cands(v@).take(i as int))
            }),
        decreases v@.len() - i,
    {
        let ghost t = cands(v@).take(i + 1);
        assert(t.drop_last() == cands(v@).take(i as int));
        assert(t.last() == pair_of(v@[i as int]));
        let d = chars_of(v[i].display.as_str());
        let mut keep = has_suffix(&d, &slash) || has_prefix(&d, &arr);
        if sources {
            keep = keep || has_suffix(&d, &sh) || has_suffix(&d, &crush) || has_suffix(&d, &rc);
        }
        if keep {
            let c = copy_candidate(&v[i]);
            proof { lemma_cands_push(out@, c); }
            out.push(c);
        }
        i += 1;
    }
    assert(cands(v@).take(v@.len() as int) == cands(v@));
    out
}

/// What `export` shows of a value: its first twenty bytes (`None` where byte
/// twenty falls inside a character).
pub fn shown_value_of(v: &Vec<char>) -> (r: Option<Vec<char>>)
    ensures
        match r {
            Some(s) => shown_value(v@) == Some(s@),
            None => shown_value(v@) is None,
        },
{
    if crate::text::longer_than_bytes(v, 20) {
        match crate::text::chars_in_bytes(v, 20) {
            Some(k) => {
                proof { lemma_byte_prefix(v@, k as int); }
                assert(v@.subrange(0, k as int) == v@.take(k as int));
                Some(crate::text::slice_of(v, 0, k))
            },
            None => None,
        }
    } else {
        Some(v.clone())
    }
}

pub fn var_candidates(env: &Vec<(String, String)>, var_prefix: &Vec<char>, cs: bool, show_values: bool) -> (r: Option<Vec<Candidate>>)
    ensures
        match r {
            Some(v) => var_matches(env@, var_prefix@, cs, show_values) == Some(cands(v@)),
            None => var_matches(env@, var_prefix@, cs, show_values) is None,
        },
{
    let mut out: Vec<Candidate> = Vec::new();
    let mut i: usize = 0;
    assert(cands(out@) =~= seq_pairs_empty());
    assert(env@.take(0) =~= Seq::<(String, String)>::empty());
    while i < env.len()
        invariant
            i <= env@.len(),
            var_matches(env@.take(i as int), var_prefix@, cs, show_values) == Some(cands(out@)),
        decreases env@.len() - i,
    {
        let ghost t = env@.take(i + 1);
        assert(t.drop_last() == env@.take(i as int));
        assert(t.last() == env@[i as int]);
        let k = chars_of(env[i].0.as_str());
        if matches_prefix(&k, var_prefix, cs) {
            if show_values {
                match shown_value_of(&chars_of(env[i].1.as_str())) {
                    Some(sv) => {
                        let mut d = k.clone();
                        let mid: Vec<char> = vec![' ', ' ', '(', '='];
                        d.extend_from_slice(&mid);
                        d.extend_from_slice(&sv);
                        d.push(')');
                        assert(d@ == k@ + seq![' ', ' ', '(', '='] + sv@ + seq![')']);
                        push_pair(&mut out, d, k);
                    },
                    None => {
                        proof {
                            lemma_var_matches_none(env@, var_prefix@, cs, show_values, i as int + 1);
                        }
                        assert(env@.take(env@.len() as int) == env@);
                        return None;
                    },
                }
            } else {
                push_pair(&mut out, k.clone(), k);
            }
        }
        assert(var_matches(t, var_prefix@, cs, show_values) == Some(cands(out@)));
        i += 1;
    }
    assert(env@.take(env@.len() as int) == env@);
    Some(out)
}

proof fn lemma_var_matches_none(env: Seq<(String, String)>, var_prefix: Seq<char>, cs: bool, show: bool, k: int)
    requires
        0 <= k <= env.len(),
        var_matches(env.take(k), var_prefix, cs, show) is None,
    ensures
        var_matches(env, var_prefix, cs, show) is None,
    decreases env.len() - k,
{
    if k < env.len() {
        assert(env.take(k + 1).drop_last() == env.take(k));
        lemma_var_matches_none(env, var_prefix, cs, show, k + 1);
    } else {
        assert(env.take(k) == env);
    }
}

} // verus!

verus! {

fn word_is(w: &Vec<char>, lit: &[char]) -> (r: bool)
    ensures
        r == (w@ == lit@),
{
    chars_eq(w, lit)
}

/// Completion of an argument of the command `cmd`.
pub fn complete_args(
    cmd: &Vec<char>,
    word: &str,
    dir_aliases: &crate::vars::VarMap,
    cs: bool,
    env: &Vec<(String, String)>,
    home: &str,
    listing: &Vec<DirEntry>,
) -> (r: Option<Vec<Candidate>>)
    ensures
        match r {
            Some(v) => args_spec(cmd@, word@, dir_aliases.pairs(), cs, env@, home@, listing@) == Some(cands(v@)),
            None => args_spec(cmd@, word@, dir_aliases.pairs(), cs, env@, home@, listing@) is None,
        },
{
    let w = chars_of(word);
    let none: Vec<char> = Vec::new();
    let dash: Vec<char> = vec!['-'];
    assert(dash@ == seq!['-']);
    if word_is(cmd, &['c', 'd']) {
        let t0: Vec<char> = vec!['~'];
        let t1: Vec<char> = vec!['-'];
        let t2: Vec<char> = vec!['.', '.'];
        assert(t0@ == seq!['~'] && t1@ == seq!['-'] && t2@ == seq!['.', '.']);
        let targets: Vec<Vec<char>> = vec![t0, t1, t2];
        assert(views(targets@) =~= cd_targets());
        let mut out = tagged(&targets, &w, cs, &none);
        append_candidates(&mut out, dir_alias_candidates(dir_aliases, &w, cs));
        match complete_paths(word, home, cs, listing) {
            Some(p) => {
                append_candidates(&mut out, keep_candidates(&p, false));
                Some(out)
            },
            None => None,
        }
    } else if word_is(cmd, &['t', 'y', 'p', 'e']) {
        let tag: Vec<char> = vec![' ', '[', 'b', 'u', 'i', 'l', 't', 'i', 'n', ']'];
        assert(tag@ == builtin_tag());
        Some(tagged(&builtin_words(), &w, cs, &tag))
    } else if word_is(cmd, &['e', 'x', 'p', 'o', 'r', 't']) || word_is(cmd, &['u', 'n', 's', 'e', 't']) {
        let d: Vec<char> = vec!['$'];
        assert(d@ == dollar());
        let vp = crate::text::strip_prefixes_chars(&w, &d);
        let show = word_is(cmd, &['e', 'x', 'p', 'o', 'r', 't']);
        match var_candidates(env, &vp, cs, show) {
            Some(v) => Some(sort_candidates(&v, false)),
            None => None,
        }
    } else if word_is(cmd, &['e', 'c', 'h', 'o']) {
        if has_prefix(&w, &dash) {
            let flags: Vec<Vec<char>> = vec![vec!['-', 'n'], vec!['-', 'e'], vec!['-', 'E']];
            assert(views(flags@) =~= echo_flags());
            Some(tagged(&flags, &w, cs, &none))
        } else {
            complete_paths(word, home, cs, listing)
        }
    } else if word_is(cmd, &['h', 'i', 's', 't', 'o', 'r', 'y']) {
        let flags: Vec<Vec<char>> = vec![vec!['-', 'c'], vec!['-', 'r'], vec!['-', 'w'], vec!['-', 'n']];
        assert(views(flags@) =~= history_flags());
        Some(tagged(&flags, &w, cs, &none))
    } else if word_is(cmd, &['s', 'o', 'u', 'r', 'c', 'e']) {
        match complete_paths(word, home, cs, listing) {
            Some(p) => Some(keep_candidates(&p, true)),
            None => None,
        }
    } else if has_prefix(&w, &dash) {
        let out: Vec<Candidate> = Vec::new();
        assert(cands(out@) =~= seq_pairs_empty());
        Some(out)
    } else {
        complete_paths(word, home, cs, listing)
    }
}

} // verus!

verus! {

// ───────────────────────────── the completer ─────────────────────────────

/// What the shell found for a completion: the home directory, the listing of
/// the directory that [`path_query`] names for the word, the files on
/// `PATH` (in `PATH` order; only those whose names complete the word matter),
/// and the environment.
pub struct CompletionFacts {
    pub home: String,
    pub listing: Vec<DirEntry>,
    pub executables: Vec<PathEntry>,
    pub env: Vec<(String, String)>,
}

pub open spec fn alias_keys(pairs: Seq<(String, String)>) -> Seq<Seq<char>> {
    pairs.map_values(|p: (String, String)| p.0@)
}

/// The user's command names: aliases, then wrapper functions.
pub open spec fn user_names(cfg: ShellConfig) -> Seq<Seq<char>> {
    alias_keys(cfg.aliases.pairs()) + cfg.functions.order()
}

/// What completion offers at byte `pos` of `line`; `None` where the search
/// cannot go on (a byte bound inside a character).
pub open spec fn candidates_spec(cfg: ShellConfig, line: Seq<char>, pos: nat, f: CompletionFacts) -> Option<Seq<(Seq<char>, Seq<char>)>> {
    let word = word_spec(line, pos);
    let cs = cfg.completion.case_sensitive;
    let names = user_names(cfg);
    if starts_with(word, dollar()) {
        env_vars_spec(word, f.env@)
    } else if path_like(word) {
        paths_spec(word, f.home@, cs, f.listing@)
    } else if prior_words(line, pos).len() == 0 {
        match executables_spec(word, names, cs, f.executables@) {
            None => None,
            Some(p) => Some(
                if p.len() == 0 && word.len() > 0 {
                    typo_spec(word, names)
                } else {
                    p
                },
            ),
        }
    } else {
        match args_spec(command_spec(line, pos), word, cfg.dir_aliases.pairs(), cs, f.env@, f.home@, f.listing@) {
            None => None,
            Some(p) => if p.len() == 0 {
                match paths_spec(word, f.home@, cs, f.listing@) {
                    None => None,
                    Some(fp) => Some(
                        if fp.len() > 0 {
                            fp
                        } else if word.len() > 0 {
                            typo_spec(word, names)
                        } else {
                            Seq::empty()
                        },
                    ),
                }
            } else {
                Some(p)
            },
        }
    }
}

/// The user's command names, aliases first.
pub fn user_defined_names(cfg: &ShellConfig) -> (r: Vec<Vec<char>>)
    ensures
        views(r@) == user_names(*cfg),
{
    let aliases = cfg.alias_names();
    let funcs = cfg.functions.names();
    let mut r: Vec<Vec<char>> = Vec::new();
    let mut i: usize = 0;
    assert(views(r@) =~= Seq::<Seq<char>>::empty());
    while i < aliases.len()
        invariant
            i <= aliases@.len(),
            aliases@.len() == cfg.aliases.pairs().len(),
            forall|k: int| 0 <= k < aliases@.len() ==> #[trigger] aliases@[k]@ == cfg.aliases.pairs()[k].0@,
            views(r@) == alias_keys(cfg.aliases.pairs()).take(i as int),
        decreases aliases@.len() - i,
    {
        let c = chars_of(aliases[i].as_str());
        proof {
            crate::text::lemma_views_push(r@, c);
            assert(alias_keys(cfg.aliases.pairs()).take(i + 1) =~= alias_keys(cfg.aliases.pairs()).take(i as int).push(c@));
        }
        r.push(c);
        i += 1;
    }
    assert(alias_keys(cfg.aliases.pairs()).take(aliases@.len() as int) =~= alias_keys(cfg.aliases.pairs()));
    let mut j: usize = 0;
    while j < funcs.len()
        invariant
            j <= funcs@.len(),
            funcs@.map_values(|s: &str| s@) == cfg.functions.order(),
            views(r@) == alias_keys(cfg.aliases.pairs()) + cfg.functions.order().take(j as int),
        decreases funcs@.len() - j,
    {
        let c = chars_of(funcs[j]);
        proof {
            crate::text::lemma_views_push(r@, c);
            assert(cfg.functions.order()[j as int] == funcs@[j as int]@);
            assert(cfg.functions.order().take(j + 1) =~= cfg.functions.order().take(j as int).push(c@));
        }
        r.push(c);
        j += 1;
    }
    assert(cfg.functions.order().take(funcs@.len() as int) =~= cfg.functions.order());
    r
}

/// The completions at byte `pos` of `line` and where the word they replace
/// starts, or `None` where completing there is impossible (see
/// [`completion_fails`]).
pub fn candidates_opt(cfg: &ShellConfig, line: &str, pos: usize, facts: &CompletionFacts) -> (r: Option<(usize, Vec<Candidate>)>)
    ensures
        match r {
            Some((start, v)) => cursor_ok(line@, pos as nat) && candidates_spec(*cfg, line@, pos as nat, *facts) == Some(cands(v@))
                && start == byte_len(
                before_cursor(line@, pos as nat).take(word_start_chars(before_cursor(line@, pos as nat))),
            ),
            None => !cursor_ok(line@, pos as nat) || candidates_spec(*cfg, line@, pos as nat, *facts) is None,
        },
{
    if !check_cursor(line, pos) {
        return None;
    }
    let lw = parse_line(line, pos);
    let word = chars_of(lw.word.as_str());
    let cs = cfg.completion.case_sensitive;
    let dol: Vec<char> = vec!['$'];
    assert(dol@ == dollar());
    let found: Option<Vec<Candidate>> = if has_prefix(&word, &dol) {
        complete_env_vars(lw.word.as_str(), &facts.env)
    } else if is_path_like(&word) {
        complete_paths(lw.word.as_str(), facts.home.as_str(), cs, &facts.listing)
    } else if lw.arg_position == 0 {
        let names = user_defined_names(cfg);
        match complete_executables(&word, &names, cs, &facts.executables) {
            None => None,
            Some(p) => if p.len() == 0 && word.len() > 0 {
                Some(fallback_typo(&word, &names))
            } else {
                Some(p)
            },
        }
    } else {
        let cmd = chars_of(lw.command.as_str());
        match complete_args(&cmd, lw.word.as_str(), &cfg.dir_aliases, cs, &facts.env, facts.home.as_str(), &facts.listing) {
            None => None,
            Some(p) => if p.len() == 0 {
                match complete_paths(lw.word.as_str(), facts.home.as_str(), cs, &facts.listing) {
                    None => None,
                    Some(fp) => if fp.len() > 0 {
                        Some(fp)
                    } else if word.len() > 0 {
                        Some(fallback_typo(&word, &user_defined_names(cfg)))
                    } else {
                        let e: Vec<Candidate> = Vec::new();
                        assert(cands(e@) =~= seq_pairs_empty());
                        Some(e)
                    },
                }
            } else {
                Some(p)
            },
        }
    };
    match found {
        Some(v) => Some((lw.word_start, v)),
        None => None,
    }
}

/// Whether completing at byte `pos` of `line` is impossible: the cursor is
/// not between two characters, the word does not start at a character, or a
/// byte bound on the way falls inside a character.
pub fn completion_fails(cfg: &ShellConfig, line: &str, pos: usize, facts: &CompletionFacts) -> (r: bool)
    ensures
        r == !(cursor_ok(line@, pos as nat) && candidates_spec(*cfg, line@, pos as nat, *facts) is Some),
{
    if !check_cursor(line, pos) {
        return true;
    }
    candidates_opt(cfg, line, pos, facts).is_none()
}

/// Whether the cursor position is one that completion can work from.
pub fn check_cursor(line: &str, pos: usize) -> (r: bool)
    ensures
        r == cursor_ok(line@, pos as nat),
{
    let lc = chars_of(line);
    match crate::text::chars_in_bytes(&lc, pos) {
        None => false,
        Some(k) => {
            proof { lemma_byte_prefix(lc@, k as int); }
            let b = crate::text::slice_of(&lc, 0, k);
            assert(b@ == before_cursor(line@, pos as nat));
            let mut j: usize = b.len();
            assert(b@.take(b@.len() as int) == b@);
            while j > 0 && !crate::text::is_whitespace(b[j - 1])
                invariant
                    j <= b@.len(),
                    last_ws(b@) == last_ws(b@.take(j as int)),
                decreases j,
            {
                assert(b@.take(j as int).drop_last() == b@.take(j - 1));
                j -= 1;
            }
            if j == 0 {
                true
            } else {
                assert(b@.take(j as int).last() == b@[j - 1]);
                crate::text::char_width(b[j - 1]) == 1
            }
        },
    }
}

/// The completions at byte `pos` of `line`, and where the word they replace
/// starts.
pub fn get_candidates(cfg: &ShellConfig, line: &str, pos: usize, facts: &CompletionFacts) -> (r: (usize, Vec<Candidate>))
    requires
        cursor_ok(line@, pos as nat),
        candidates_spec(*cfg, line@, pos as nat, *facts) is Some,
    ensures
        candidates_spec(*cfg, line@, pos as nat, *facts) == Some(cands(r.1@)),
        r.0 == byte_len(before_cursor(line@, pos as nat).take(word_start_chars(before_cursor(line@, pos as nat)))),
{
    match candidates_opt(cfg, line, pos, facts) {
        Some(r) => r,
        None => {
            assert(false);
            (0, Vec::new())
        },
    }
}

} // verus!

verus! {

// ───────────────────────────── hints ─────────────────────────────

/// A candidate that extends the word: not the common-prefix entry, starting
/// with the word and longer than it.
pub open spec fn extends_word(p: (Seq<char>, Seq<char>), word: Seq<char>) -> bool {
    !starts_with(p.0, arrow()) && starts_with(p.1, word) && byte_len(p.1) > byte_len(word)
}

pub open spec fn first_extending(s: Seq<(Seq<char>, Seq<char>)>, word: Seq<char>) -> Option<(Seq<char>, Seq<char>)>
    decreases s.len(),
{
    if s.len() == 0 {
        None
    } else if extends_word(s[0], word) {
        Some(s[0])
    } else {
        first_extending(s.drop_first(), word)
    }
}

/// The first completion that extends the word under the cursor.
pub fn top_candidate(cfg: &ShellConfig, line: &str, pos: usize, facts: &CompletionFacts) -> (r: Option<Candidate>)
    requires
        cursor_ok(line@, pos as nat),
        candidates_spec(*cfg, line@, pos as nat, *facts) is Some,
    ensures
        match r {
            Some(c) => first_extending(candidates_spec(*cfg, line@, pos as nat, *facts)->0, word_spec(line@, pos as nat))
                == Some(pair_of(c)),
            None => first_extending(candidates_spec(*cfg, line@, pos as nat, *facts)->0, word_spec(line@, pos as nat)) is None,
        },
{
    let (_start, cs) = get_candidates(cfg, line, pos, facts);
    let lw = parse_line(line, pos);
    let word = chars_of(lw.word.as_str());
    let arr: Vec<char> = vec!['\u{2192}', ' '];
    assert(arr@ == arrow());
    let wb = byte_count(&word);
    let ghost all = cands(cs@);
    let mut i: usize = 0;
    assert(all.skip(0) =~= all);
    while i < cs.len()
        invariant
            i <= cs@.len(),
            all == cands(cs@),
            candidates_spec(*cfg, line@, pos as nat, *facts) == Some(all),
            word@ == word_spec(line@, pos as nat),
            arr@ == arrow(),
            wb == byte_len(word@),
            first_extending(all, word@) == first_extending(all.skip(i as int), word@),
        decreases cs@.len() - i,
    {
        let d = chars_of(cs[i].display.as_str());
        let rep = chars_of(cs[i].replacement.as_str());
        assert(all.skip(i as int)[0] == pair_of(cs@[i as int]));
        if !has_prefix(&d, &arr) && has_prefix(&rep, &word) && byte_count(&rep) > wb {
            assert(all.skip(i as int).len() > 0);
            assert(extends_word(all.skip(i as int)[0], word@));
            let c = copy_candidate(&cs[i]);
            assert(pair_of(c) == all.skip(i as int)[0]);
            return Some(c);
        }
        assert(all.skip(i as int).drop_first() == all.skip(i + 1));
        i += 1;
    }
    None
}

pub open spec fn hint_spec(cfg: ShellConfig, line: Seq<char>, pos: nat, history: Option<Seq<char>>, f: CompletionFacts) -> Option<Seq<char>> {
    if pos != byte_len(line) || line.len() == 0 {
        None
    } else if history is Some {
        history
    } else if crate::text::trim(line).len() == 0 {
        None
    } else {
        let word = word_spec(line, pos);
        match first_extending(candidates_spec(cfg, line, pos, f)->0, word) {
            None => None,
            Some(top) => if starts_with(top.1, word) && top.1.skip(word.len() as int).len() > 0 {
                Some(top.1.skip(word.len() as int))
            } else {
                None
            },
        }
    }
}

/// Whether the hint reaches the completer.
pub open spec fn hint_completes(line: Seq<char>, pos: nat, history: Option<Seq<char>>) -> bool {
    pos == byte_len(line) && line.len() > 0 && history is None && crate::text::trim(line).len() > 0
}

/// The hint shown after the cursor: the history's, else the rest of the top
/// completion. Only at the end of a non-empty line.
pub fn completion_hint(cfg: &ShellConfig, line: &str, pos: usize, history: Option<String>, facts: &CompletionFacts) -> (r: Option<String>)
    requires
        hint_completes(line@, pos as nat, crate::text::opt_string_view(history)) ==> cursor_ok(line@, pos as nat)
            && candidates_spec(*cfg, line@, pos as nat, *facts) is Some,
    ensures
        crate::text::opt_string_view(r) == hint_spec(*cfg, line@, pos as nat, crate::text::opt_string_view(history), *facts),
{
    let lc = chars_of(line);
    if byte_count(&lc) != pos as u128 || lc.len() == 0 {
        return None;
    }
    if history.is_some() {
        return history;
    }
    if crate::text::trim_chars(&lc).len() == 0 {
        return None;
    }
    match top_candidate(cfg, line, pos, facts) {
        None => None,
        Some(top) => {
            let lw = parse_line(line, pos);
            let word = chars_of(lw.word.as_str());
            let rep = chars_of(top.replacement.as_str());
            if has_prefix(&rep, &word) && word.len() < rep.len() {
                Some(crate::text::substring(&rep, word.len(), rep.len()))
            } else {
                None
            }
        },
    }
}

} // verus!

verus! {

// ───────────────────────────── colours ─────────────────────────────

pub open spec fn esc_open() -> Seq<char> {
    seq!['\x1b', '[']
}

pub open spec fn reset_code() -> Seq<char> {
    seq!['\x1b', '[', '0', 'm']
}

/// The SGR number of a colour name or its first letter.
pub open spec fn named_color(l: Seq<char>) -> Option<Seq<char>> {
    if l == seq!['r', 'e', 'd'] || l == seq!['r'] {
        Some(seq!['3', '1'])
    } else if l == seq!['g', 'r', 'e', 'e', 'n'] || l == seq!['g'] {
        Some(seq!['3', '2'])
    } else if l == seq!['y', 'e', 'l', 'l', 'o', 'w'] || l == seq!['y'] {
        Some(seq!['3', '3'])
    } else if l == seq!['b', 'l', 'u', 'e'] || l == seq!['b'] {
        Some(seq!['3', '4'])
    } else if l == seq!['m', 'a', 'g', 'e', 'n', 't', 'a'] || l == seq!['m'] {
        Some(seq!['3', '5'])
    } else if l == seq!['c', 'y', 'a', 'n'] || l == seq!['c'] {
        Some(seq!['3', '6'])
    } else if l == seq!['w', 'h', 'i', 't', 'e'] || l == seq!['w'] {
        Some(seq!['3', '7'])
    } else {
        None
    }
}

/// Bytes `a..b` of `s`, as characters.
pub open spec fn byte_slice(s: Seq<char>, a: nat, b: nat) -> Seq<char> {
    byte_prefix(s, b).skip(byte_prefix(s, a).len() as int)
}

/// The escape sequence for a theme colour: a name or its first letter (any
/// case), `gray`, a 256-colour number, or `#RRGGBB`; green for anything
/// else. `None` where the `#RRGGBB` pairs do not start at characters.
pub open spec fn ansi_color_spec(name: Seq<char>, bold: bool) -> Option<Seq<char>> {
    let b = if bold { seq!['1', ';'] } else { Seq::empty() };
    let l = lowercase_of(name);
    let green = esc_open() + b + seq!['3', '2', 'm'];
    match named_color(l) {
        Some(code) => Some(esc_open() + b + code + seq!['m']),
        None => if l == seq!['g', 'r', 'a', 'y'] || l == seq!['g', 'r', 'e', 'y'] {
            Some(seq!['\x1b', '[', '2', ';', '3', '7', 'm'])
        } else {
            match crate::text::parse_unsigned(name, 10, 255) {
                Some(n) => Some(esc_open() + b + seq!['3', '8', ';', '5', ';'] + crate::text::decimal(n) + seq!['m']),
                None => if starts_with(name, seq!['#']) && byte_len(name) == 7 {
                    if is_boundary(name, 3) && is_boundary(name, 5) {
                        match (
                            crate::text::parse_unsigned(byte_slice(name, 1, 3), 16, 255),
                            crate::text::parse_unsigned(byte_slice(name, 3, 5), 16, 255),
                            crate::text::parse_unsigned(byte_slice(name, 5, 7), 16, 255),
                        ) {
                            (Some(r), Some(g), Some(bl)) => Some(
                                esc_open() + b + seq!['3', '8', ';', '2', ';'] + crate::text::decimal(r) + seq![';']
                                    + crate::text::decimal(g) + seq![';'] + crate::text::decimal(bl) + seq!['m'],
                            ),
                            _ => Some(green),
                        }
                    } else {
                        None
                    }
                } else {
                    Some(green)
                },
            }
        },
    }
}

fn named_color_of(l: &Vec<char>) -> (r: Option<Vec<char>>)
    ensures
        match r {
            Some(c) => named_color(l@) == Some(c@),
            None => named_color(l@) is None,
        },
{
    let r1: Vec<char> = vec!['r'];
    let g1: Vec<char> = vec!['g'];
    let y1: Vec<char> = vec!['y'];
    let b1: Vec<char> = vec!['b'];
    let m1: Vec<char> = vec!['m'];
    let c1: Vec<char> = vec!['c'];
    let w1: Vec<char> = vec!['w'];
    assert(r1@ == seq!['r'] && g1@ == seq!['g'] && y1@ == seq!['y'] && b1@ == seq!['b']);
    assert(m1@ == seq!['m'] && c1@ == seq!['c'] && w1@ == seq!['w']);
    if chars_eq(l, &['r', 'e', 'd']) || chars_eq(l, &r1) {
        return Some(vec!['3', '1']);
    }
    if chars_eq(l, &['g', 'r', 'e', 'e', 'n']) || chars_eq(l, &g1) {
        return Some(vec!['3', '2']);
    }
    if chars_eq(l, &['y', 'e', 'l', 'l', 'o', 'w']) || chars_eq(l, &y1) {
        return Some(vec!['3', '3']);
    }
    if chars_eq(l, &['b', 'l', 'u', 'e']) || chars_eq(l, &b1) {
        return Some(vec!['3', '4']);
    }
    if chars_eq(l, &['m', 'a', 'g', 'e', 'n', 't', 'a']) || chars_eq(l, &m1) {
        return Some(vec!['3', '5']);
    }
    if chars_eq(l, &['c', 'y', 'a', 'n']) || chars_eq(l, &c1) {
        return Some(vec!['3', '6']);
    }
    if chars_eq(l, &['w', 'h', 'i', 't', 'e']) || chars_eq(l, &w1) {
        return Some(vec!['3', '7']);
    }
    None
}

/// The characters of bytes `a..b` of `v`, when both are character
/// boundaries.
fn bytes_between(v: &Vec<char>, a: usize, b: usize) -> (r: Option<Vec<char>>)
    requires
        a <= b,
    ensures
        match r {
            Some(s) => is_boundary(v@, a as nat) && is_boundary(v@, b as nat) && s@ == byte_slice(v@, a as nat, b as nat),
            None => !(is_boundary(v@, a as nat) && is_boundary(v@, b as nat)),
        },
{
    match (crate::text::chars_in_bytes(v, a), crate::text::chars_in_bytes(v, b)) {
        (Some(i), Some(j)) => {
            proof {
                lemma_byte_prefix(v@, i as int);
                lemma_byte_prefix(v@, j as int);
            }
            if i <= j {
                let s = crate::text::slice_of(v, i, j);
                assert(s@ =~= v@.take(j as int).skip(i as int));
                Some(s)
            } else {
                proof { lemma_byte_len_take_mono(v@, j as int, i as int); }
                None
            }
        },
        _ => None,
    }
}

/// The escape sequence for a theme colour (`None` where `#RRGGBB` pairs do
/// not start at characters).
pub fn ansi_color(name: &str, bold: bool) -> (r: Option<String>)
    ensures
        crate::text::opt_string_view(r) == ansi_color_spec(name@, bold),
{
    let nv = chars_of(name);
    let mut out: Vec<char> = vec!['\x1b', '['];
    assert(out@ == esc_open());
    if bold {
        out.push('1');
        out.push(';');
    }
    let ghost b = if bold { seq!['1', ';'] } else { Seq::<char>::empty() };
    assert(out@ == esc_open() + b);
    let l = chars_of(to_lowercase(name).as_str());
    match named_color_of(&l) {
        Some(code) => {
            out.extend_from_slice(&code);
            out.push('m');
            return Some(string_of(&out));
        },
        None => {},
    }
    if chars_eq(&l, &['g', 'r', 'a', 'y']) || chars_eq(&l, &['g', 'r', 'e', 'y']) {
        return Some(string_of(&['\x1b', '[', '2', ';', '3', '7', 'm']));
    }
    match crate::text::parse_unsigned_chars(&nv, 10, 255) {
        Some(n) => {
            let mid: Vec<char> = vec!['3', '8', ';', '5', ';'];
            out.extend_from_slice(&mid);
            out.extend_from_slice(&crate::text::decimal_chars(n));
            out.push('m');
            return Some(string_of(&out));
        },
        None => {},
    }
    let hash: Vec<char> = vec!['#'];
    assert(hash@ == seq!['#']);
    if has_prefix(&nv, &hash) && byte_count(&nv) == 7 {
        proof {
            assert(nv@.take(1).drop_last() =~= Seq::<char>::empty());
            assert(nv@.take(1).last() == '#');
            assert(byte_len(Seq::<char>::empty()) == 0);
            assert(crate::text::utf8_width('#') == 1);
            assert(byte_len(nv@.take(1)) == 1);
        }
        match (bytes_between(&nv, 1, 3), bytes_between(&nv, 3, 5)) {
            (Some(rs), Some(gs)) => {
                let bs = match bytes_between(&nv, 5, 7) {
                    Some(x) => x,
                    None => {
                        proof {
                            assert(nv@.take(nv@.len() as int) == nv@);
                            lemma_byte_prefix(nv@, nv@.len() as int);
                        }
                        return None;
                    },
                };
                match (
                    crate::text::parse_unsigned_chars(&rs, 16, 255),
                    crate::text::parse_unsigned_chars(&gs, 16, 255),
                    crate::text::parse_unsigned_chars(&bs, 16, 255),
                ) {
                    (Some(r), Some(g), Some(bl)) => {
                        let mid: Vec<char> = vec!['3', '8', ';', '2', ';'];
                        out.extend_from_slice(&mid);
                        out.extend_from_slice(&crate::text::decimal_chars(r));
                        out.push(';');
                        out.extend_from_slice(&crate::text::decimal_chars(g));
                        out.push(';');
                        out.extend_from_slice(&crate::text::decimal_chars(bl));
                        out.push('m');
                        return Some(string_of(&out));
                    },
                    _ => {},
                }
            },
            _ => {
                return None;
            },
        }
    }
    out.push('3');
    out.push('2');
    out.push('m');
    Some(string_of(&out))
}

} // verus!

verus! {

/// An argument that is coloured as a string: quoted, or a path.
pub open spec fn looks_like_string(w: Seq<char>) -> bool {
    ||| starts_with(w, seq!['"'])
    ||| starts_with(w, seq!['\''])
    ||| starts_with(w, seq!['/'])
    ||| starts_with(w, seq!['~'])
    ||| starts_with(w, seq!['.', '/'])
    ||| starts_with(w, seq!['.', '.', '/'])
}

/// The words of `s` (up to each white-space character), strings coloured,
/// the white space kept.
pub open spec fn color_words(s: Seq<char>, sc: Seq<char>, rst: Seq<char>) -> Seq<char>
    decreases s.len(),
{
    if s.len() == 0 {
        Seq::empty()
    } else {
        let k = crate::text::word_len(s);
        let w = s.take(k);
        let shown = if looks_like_string(w) && w.len() > 0 {
            sc + w + rst
        } else {
            w
        };
        if 0 <= k < s.len() {
            shown + seq![s[k]] + color_words(s.skip(k + 1), sc, rst)
        } else {
            shown
        }
    }
}

/// The arguments of a highlighted line.
pub open spec fn color_rest_spec(rest: Seq<char>, sc: Seq<char>, rst: Seq<char>) -> Seq<char> {
    if rest.len() == 0 {
        Seq::empty()
    } else {
        let o = color_words(rest, sc, rst);
        if o.len() == 0 {
            rest
        } else {
            o
        }
    }
}

fn looks_like_string_chars(w: &Vec<char>) -> (r: bool)
    ensures
        r == looks_like_string(w@),
{
    let q1: Vec<char> = vec!['"'];
    let q2: Vec<char> = vec!['\''];
    let s1: Vec<char> = vec!['/'];
    let t1: Vec<char> = vec!['~'];
    let d1: Vec<char> = vec!['.', '/'];
    let d2: Vec<char> = vec!['.', '.', '/'];
    assert(q1@ == seq!['"'] && q2@ == seq!['\''] && s1@ == seq!['/'] && t1@ == seq!['~']);
    assert(d1@ == seq!['.', '/'] && d2@ == seq!['.', '.', '/']);
    has_prefix(w, &q1) || has_prefix(w, &q2) || has_prefix(w, &s1) || has_prefix(w, &t1) || has_prefix(w, &d1)
        || has_prefix(w, &d2)
}

/// Colours the arguments of a line: quoted words and paths in the string
/// colour, followed by the reset sequence `rst`.
pub fn color_rest(rest: &Vec<char>, sc: &Vec<char>, rst: &Vec<char>) -> (r: Vec<char>)
    ensures
        r@ == color_rest_spec(rest@, sc@, rst@),
{
    if rest.len() == 0 {
        return Vec::new();
    }
    let mut out: Vec<char> = Vec::new();
    let mut i: usize = 0;
    assert(rest@.skip(0) =~= rest@);
    while i < rest.len()
        invariant
            i <= rest@.len(),
            color_words(rest@, sc@, rst@) == out@ + color_words(rest@.skip(i as int), sc@, rst@),
        decreases rest@.len() - i,
    {
        let ghost s = rest@.skip(i as int);
        let mut j = i;
        while j < rest.len() && !crate::text::is_whitespace(rest[j])
            invariant
                i <= j <= rest@.len(),
                s == rest@.skip(i as int),
                crate::text::word_len(s) == (j - i) + crate::text::word_len(rest@.skip(j as int)),
            decreases rest@.len() - j,
        {
            assert(rest@.skip(j as int).drop_first() == rest@.skip(j + 1));
            assert(rest@.skip(j as int)[0] == rest@[j as int]);
            j += 1;
        }
        proof {
            if j < rest@.len() {
                assert(rest@.skip(j as int)[0] == rest@[j as int]);
            }
            assert(crate::text::word_len(rest@.skip(j as int)) == 0);
        }
        let w = crate::text::slice_of(rest, i, j);
        assert(w@ =~= s.take(j - i));
        if looks_like_string_chars(&w) && w.len() > 0 {
            out.extend_from_slice(sc);
            out.extend_from_slice(&w);
            out.extend_from_slice(rst);
        } else {
            out.extend_from_slice(&w);
        }
        if j < rest.len() {
            assert(s[j - i] == rest@[j as int]);
            assert(s.skip(j - i + 1) =~= rest@.skip(j + 1));
            out.push(rest[j]);
            i = j + 1;
        } else {
            assert(rest@.skip(rest@.len() as int) =~= Seq::<char>::empty());
            i = j;
        }
    }
    assert(rest@.skip(rest@.len() as int) =~= Seq::<char>::empty());
    assert(out@ + Seq::<char>::empty() == out@);
    proof { lemma_color_words_nonempty(rest@, sc@, rst@); }
    out
}

proof fn lemma_color_words_nonempty(s: Seq<char>, sc: Seq<char>, rst: Seq<char>)
    requires
        s.len() > 0,
    ensures
        color_words(s, sc, rst).len() > 0,
{
    crate::text::lemma_word_len(s);
}

/// The command word of a line: up to its first white space.
pub open spec fn command_end(line: Seq<char>) -> int {
    crate::text::word_len(line)
}

pub fn command_word(line: &str) -> (r: String)
    ensures
        r@ == line@.take(command_end(line@)),
{
    let lc = chars_of(line);
    let mut j: usize = 0;
    assert(lc@.skip(0) =~= lc@);
    while j < lc.len() && !crate::text::is_whitespace(lc[j])
        invariant
            j <= lc@.len(),
            crate::text::word_len(lc@) == j + crate::text::word_len(lc@.skip(j as int)),
        decreases lc@.len() - j,
    {
        assert(lc@.skip(j as int).drop_first() == lc@.skip(j + 1));
        assert(lc@.skip(j as int)[0] == lc@[j as int]);
        j += 1;
    }
    proof {
        if j < lc@.len() {
            assert(lc@.skip(j as int)[0] == lc@[j as int]);
        }
        assert(crate::text::word_len(lc@.skip(j as int)) == 0);
    }
    assert(lc@.subrange(0, j as int) == lc@.take(j as int));
    crate::text::substring(&lc, 0, j)
}

/// The hint in dim white.
pub fn highlight_hint(hint: &str) -> (r: String)
    ensures
        r@ == seq!['\x1b', '[', '2', ';', '3', '7', 'm'] + hint@ + reset_code(),
{
    let mut out: Vec<char> = vec!['\x1b', '[', '2', ';', '3', '7', 'm'];
    out.extend_from_slice(&chars_of(hint));
    let rst: Vec<char> = vec!['\x1b', '[', '0', 'm'];
    out.extend_from_slice(&rst);
    string_of(&out)
}

/// The highlighted line: the command in the valid or the invalid colour,
/// strings among the arguments in the string colour. `None` where a theme
/// colour cannot be read.
pub open spec fn highlight_spec(cfg: ShellConfig, line: Seq<char>, on_path: bool) -> Option<Seq<char>> {
    let end = command_end(line);
    let cmd = line.take(end);
    let rest = line.skip(end);
    if line.len() == 0 || cmd.len() == 0 {
        Some(line)
    } else {
        let known = user_names(cfg).contains(cmd) || completion_builtins().contains(cmd) || on_path;
        match (
            ansi_color_spec(cfg.theme.command_valid@, true),
            ansi_color_spec(cfg.theme.command_invalid@, true),
            ansi_color_spec(cfg.theme.string@, false),
        ) {
            (Some(cv), Some(ci), Some(cs)) => Some(
                (if known {
                    cv
                } else {
                    ci
                }) + cmd + reset_code() + color_rest_spec(rest, cs, reset_code()),
            ),
            _ => None,
        }
    }
}

/// Highlights the line; `on_path` says whether its command word names an
/// executable on `PATH`.
pub fn highlight(cfg: &ShellConfig, line: &str, on_path: bool) -> (r: Option<String>)
    ensures
        crate::text::opt_string_view(r) == highlight_spec(*cfg, line@, on_path),
{
    let lc = chars_of(line);
    let cmd_s = command_word(line);
    let cmd = chars_of(cmd_s.as_str());
    proof { crate::text::lemma_word_len(lc@); }
    if lc.len() == 0 || cmd.len() == 0 {
        return Some(string_of(&lc));
    }
    let rest = crate::text::slice_of(&lc, cmd.len(), lc.len());
    assert(rest@ == lc@.skip(command_end(line@)));
    let names = user_defined_names(cfg);
    let builtins = builtin_words();
    assert(views(names@).take(names@.len() as int) == views(names@));
    assert(views(builtins@).take(builtins@.len() as int) == views(builtins@));
    let known = among_first(&names, names.len(), &cmd) || among_first(&builtins, builtins.len(), &cmd) || on_path;
    let cv = ansi_color(cfg.theme.command_valid.as_str(), true);
    let ci = ansi_color(cfg.theme.command_invalid.as_str(), true);
    let cs = ansi_color(cfg.theme.string.as_str(), false);
    match (cv, ci, cs) {
        (Some(cv), Some(ci), Some(cs)) => {
            let mut out = if known {
                chars_of(cv.as_str())
            } else {
                chars_of(ci.as_str())
            };
            out.extend_from_slice(&cmd);
            let rst: Vec<char> = vec!['\x1b', '[', '0', 'm'];
            assert(rst@ == reset_code());
            out.extend_from_slice(&rst);
            out.extend_from_slice(&color_rest(&rest, &chars_of(cs.as_str()), &rst));
            Some(string_of(&out))
        },
        _ => None,
    }
}

} // verus!

verus! {

proof fn lemma_insert_stable_from(s: Seq<(Seq<char>, Seq<char>)>, x: (Seq<char>, Seq<char>), dirs_first: bool)
    ensures
        insert_stable(s, x, dirs_first).len() == s.len() + 1,
        forall|k: int| 0 <= k < s.len() + 1 ==> (#[trigger] insert_stable(s, x, dirs_first)[k] == x || exists|j: int|
            0 <= j < s.len() && insert_stable(s, x, dirs_first)[k] == s[j]),
    decreases s.len(),
{
    if s.len() > 0 && !pair_less(x, s[0], dirs_first) {
        let t = s.drop_first();
        lemma_insert_stable_from(t, x, dirs_first);
        let r = insert_stable(s, x, dirs_first);
        assert(r == seq![s[0]] + insert_stable(t, x, dirs_first));
        assert forall|k: int| 0 <= k < s.len() + 1 implies (#[trigger] r[k] == x || exists|j: int| 0 <= j < s.len() && r[k] == s[j]) by {
            if k == 0 {
                assert(r[0] == s[0]);
            } else {
                assert(r[k] == insert_stable(t, x, dirs_first)[k - 1]);
                if insert_stable(t, x, dirs_first)[k - 1] != x {
                    let j = choose|j: int| 0 <= j < t.len() && insert_stable(t, x, dirs_first)[k - 1] == t[j];
                    assert(r[k] == s[j + 1]);
                }
            }
        }
    } else if s.len() > 0 {
        let r = insert_stable(s, x, dirs_first);
        assert forall|k: int| 0 <= k < s.len() + 1 implies (#[trigger] r[k] == x || exists|j: int| 0 <= j < s.len() && r[k] == s[j]) by {
            if k > 0 {
                assert(r[k] == s[k - 1]);
            }
        }
    }
}

/// What the stable sort gives back is drawn from its input.
pub proof fn lemma_sort_stable_from(s: Seq<(Seq<char>, Seq<char>)>, dirs_first: bool)
    ensures
        sort_stable(s, dirs_first).len() == s.len(),
        forall|k: int| 0 <= k < s.len() ==> exists|j: int| 0 <= j < s.len() && #[trigger] sort_stable(s, dirs_first)[k] == s[j],
    decreases s.len(),
{
    if s.len() > 0 {
        let t = s.drop_last();
        lemma_sort_stable_from(t, dirs_first);
        let st = sort_stable(t, dirs_first);
        lemma_insert_stable_from(st, s.last(), dirs_first);
        assert forall|k: int| 0 <= k < s.len() implies exists|j: int| 0 <= j < s.len() && #[trigger] sort_stable(s, dirs_first)[k] == s[j] by {
            let r = sort_stable(s, dirs_first);
            if r[k] == s.last() {
                assert(r[k] == s[s.len() - 1]);
            } else {
                let j1 = choose|j: int| 0 <= j < st.len() && r[k] == st[j];
                let j2 = choose|j: int| 0 <= j < t.len() && st[j1] == t[j];
                assert(r[k] == s[j2]);
            }
        }
    }
}


/// The character order on texts is a strict order: never both ways.
pub proof fn lemma_seq_less_asym(a: Seq<char>, b: Seq<char>)
    ensures
        !(seq_less(a, b) && seq_less(b, a)),
    decreases a.len(),
{
    if a.len() > 0 && b.len() > 0 && a[0] == b[0] {
        lemma_seq_less_asym(a.drop_first(), b.drop_first());
    }
}

/// The character order on texts is transitive.
pub proof fn lemma_seq_less_trans(a: Seq<char>, b: Seq<char>, c: Seq<char>)
    requires
        seq_less(a, b),
        seq_less(b, c),
    ensures
        seq_less(a, c),
    decreases a.len(),
{
    if a.len() > 0 && a[0] == b[0] && b[0] == c[0] {
        lemma_seq_less_trans(a.drop_first(), b.drop_first(), c.drop_first());
    }
}

proof fn lemma_pair_less_order(a: (Seq<char>, Seq<char>), b: (Seq<char>, Seq<char>), c: (Seq<char>, Seq<char>), dirs_first: bool)
    ensures
        !(pair_less(a, b, dirs_first) && pair_less(b, a, dirs_first)),
        pair_less(a, b, dirs_first) && pair_less(b, c, dirs_first) ==> pair_less(a, c, dirs_first),
{
    lemma_seq_less_asym(a.0, b.0);
    lemma_seq_less_asym(a.1, b.1);
    if pair_less(a, b, dirs_first) && pair_less(b, c, dirs_first) {
        if dirs_first {
            if seq_less(a.0, b.0) && seq_less(b.0, c.0) {
                lemma_seq_less_trans(a.0, b.0, c.0);
            }
        } else {
            lemma_seq_less_trans(a.1, b.1, c.1);
        }
    }
}

/// No element sorts before one that stands ahead of it.
pub open spec fn pairs_sorted(s: Seq<(Seq<char>, Seq<char>)>, dirs_first: bool) -> bool {
    forall|i: int, j: int| 0 <= i < j < s.len() ==> !pair_less(#[trigger] s[j], #[trigger] s[i], dirs_first)
}

proof fn lemma_insert_stable_sorted(s: Seq<(Seq<char>, Seq<char>)>, x: (Seq<char>, Seq<char>), dirs_first: bool)
    requires
        pairs_sorted(s, dirs_first),
    ensures
        pairs_sorted(insert_stable(s, x, dirs_first), dirs_first),
    decreases s.len(),
{
    let r = insert_stable(s, x, dirs_first);
    if s.len() == 0 {
    } else if pair_less(x, s[0], dirs_first) {
        assert(r == seq![x] + s);
        assert forall|i: int, j: int| 0 <= i < j < r.len() implies !pair_less(#[trigger] r[j], #[trigger] r[i], dirs_first) by {
            if i == 0 {
                lemma_pair_less_order(r[j], x, s[0], dirs_first);
                lemma_pair_less_order(x, s[0], x, dirs_first);
                if j > 1 {
                    assert(!pair_less(s[j - 1], s[0], dirs_first));
                }
            } else {
                assert(r[i] == s[i - 1] && r[j] == s[j - 1]);
            }
        }
    } else {
        let t = s.drop_first();
        assert(pairs_sorted(t, dirs_first)) by {
            assert forall|i: int, j: int| 0 <= i < j < t.len() implies !pair_less(#[trigger] t[j], #[trigger] t[i], dirs_first) by {
                assert(t[i] == s[i + 1] && t[j] == s[j + 1]);
            }
        }
        lemma_insert_stable_sorted(t, x, dirs_first);
        lemma_insert_stable_from(t, x, dirs_first);
        let q = insert_stable(t, x, dirs_first);
        assert(r == seq![s[0]] + q);
        assert forall|i: int, j: int| 0 <= i < j < r.len() implies !pair_less(#[trigger] r[j], #[trigger] r[i], dirs_first) by {
            if i == 0 {
                assert(r[j] == q[j - 1]);
                if q[j - 1] != x {
                    let m = choose|m: int| 0 <= m < t.len() && q[j - 1] == t[m];
                    assert(t[m] == s[m + 1]);
                }
            } else {
                assert(r[i] == q[i - 1] && r[j] == q[j - 1]);
            }
        }
    }
}

/// The stable sort of the candidates is sorted: no candidate sorts before
/// one shown ahead of it.
pub proof fn lemma_sort_stable_sorted(s: Seq<(Seq<char>, Seq<char>)>, dirs_first: bool)
    ensures
        pairs_sorted(sort_stable(s, dirs_first), dirs_first),
    decreases s.len(),
{
    if s.len() > 0 {
        lemma_sort_stable_sorted(s.drop_last(), dirs_first);
        lemma_insert_stable_sorted(sort_stable(s.drop_last(), dirs_first), s.last(), dirs_first);
    }
}


proof fn lemma_insert_stable_pos(s: Seq<(Seq<char>, Seq<char>)>, x: (Seq<char>, Seq<char>), dirs_first: bool) -> (p: int)
    ensures
        0 <= p <= s.len(),
        insert_stable(s, x, dirs_first) == s.insert(p, x),
    decreases s.len(),
{
    if s.len() == 0 || pair_less(x, s[0], dirs_first) {
        assert(insert_stable(s, x, dirs_first) =~= s.insert(0, x));
        0
    } else {
        let q = lemma_insert_stable_pos(s.drop_first(), x, dirs_first);
        assert(insert_stable(s, x, dirs_first) =~= s.insert(q + 1, x));
        q + 1
    }
}

/// The stable sort gives back exactly its input, reordered: every candidate
/// as many times as it was offered.
pub proof fn lemma_sort_stable_permutes(s: Seq<(Seq<char>, Seq<char>)>, dirs_first: bool)
    ensures
        sort_stable(s, dirs_first).to_multiset() == s.to_multiset(),
    decreases s.len(),
{
    if s.len() > 0 {
        let t = s.drop_last();
        lemma_sort_stable_permutes(t, dirs_first);
        let st = sort_stable(t, dirs_first);
        let p = lemma_insert_stable_pos(st, s.last(), dirs_first);
        vstd::seq_lib::to_multiset_insert(st, p, s.last());
        vstd::seq_lib::to_multiset_build(t, s.last());
        assert(t.push(s.last()) == s);
        assert(sort_stable(s, dirs_first) == insert_stable(st, s.last(), dirs_first));
        assert(sort_stable(s, dirs_first).to_multiset() =~= s.to_multiset());
    } else {
        assert(s =~= sort_stable(s, dirs_first));
    }
}


/// Accepting a completion hint turns the word under the cursor into the top
/// candidate: the word followed by the hint is that candidate's replacement.
pub proof fn lemma_hint_completes_word(cfg: ShellConfig, line: Seq<char>, pos: nat, f: CompletionFacts)
    requires
        hint_completes(line, pos, None),
        hint_spec(cfg, line, pos, None, f) is Some,
    ensures
        match first_extending(candidates_spec(cfg, line, pos, f)->0, word_spec(line, pos)) {
            Some(top) => word_spec(line, pos) + hint_spec(cfg, line, pos, None, f)->0 == top.1,
            None => false,
        },
{
    let word = word_spec(line, pos);
    let top = first_extending(candidates_spec(cfg, line, pos, f)->0, word).unwrap();
    assert(top.1.subrange(0, word.len() as int) == word);
    assert(top.1 =~= word + top.1.skip(word.len() as int));
}


/// `p` is a prefix of `s`.
pub open spec fn is_prefix_of(p: Seq<char>, s: Seq<char>) -> bool {
    p.len() <= s.len() && s.take(p.len() as int) == p
}

proof fn lemma_common_len_facts(a: Seq<char>, b: Seq<char>)
    ensures
        common_len(a, b) <= a.len(),
        common_len(a, b) <= b.len(),
        a.take(common_len(a, b) as int) == b.take(common_len(a, b) as int),
        common_len(a, b) < a.len() && common_len(a, b) < b.len() ==> a[common_len(a, b) as int] != b[common_len(
            a,
            b,
        ) as int],
    decreases a.len(),
{
    if a.len() > 0 && b.len() > 0 && a[0] == b[0] {
        let (x, y) = (a.drop_first(), b.drop_first());
        lemma_common_len_facts(x, y);
        let c: int = common_len(x, y) as int;
        assert(a.take(c + 1) =~= seq![a[0]] + x.take(c));
        assert(b.take(c + 1) =~= seq![b[0]] + y.take(c));
        if c + 1 < a.len() && c + 1 < b.len() {
            assert(a[c + 1] == x[c] && b[c + 1] == y[c]);
        }
    } else {
        assert(a.take(0) =~= b.take(0));
    }
}

proof fn lemma_prefix_from(p: Seq<char>, ws: Seq<Seq<char>>, j: int, q: Seq<char>)
    requires
        0 <= j <= ws.len(),
    ensures
        is_prefix_of(prefix_from(p, ws, j), p),
        forall|k: int| j <= k < ws.len() ==> is_prefix_of(prefix_from(p, ws, j), #[trigger] ws[k]),
        is_prefix_of(q, p) && (forall|k: int| j <= k < ws.len() ==> is_prefix_of(q, #[trigger] ws[k])) ==> is_prefix_of(
            q,
            prefix_from(p, ws, j),
        ),
    decreases ws.len() - j,
{
    if j < ws.len() {
        let w = ws[j];
        let c = common_len(p, w);
        lemma_common_len_facts(p, w);
        let p2 = p.take(c as int);
        lemma_prefix_from(p2, ws, j + 1, q);
        let r = prefix_from(p, ws, j);
        assert(r == prefix_from(p2, ws, j + 1));
        assert(p.take(r.len() as int) =~= p2.take(r.len() as int));
        assert forall|k: int| j <= k < ws.len() implies is_prefix_of(r, #[trigger] ws[k]) by {
            if k == j {
                assert(w.take(c as int) == p2);
                assert(w.take(r.len() as int) =~= p2.take(r.len() as int));
            }
        }
        if is_prefix_of(q, p) && (forall|k: int| j <= k < ws.len() ==> is_prefix_of(q, #[trigger] ws[k])) {
            assert(is_prefix_of(q, w));
            if q.len() > c {
                assert(p[c as int] == q[c as int]) by {
                    assert(p.take(q.len() as int)[c as int] == p[c as int]);
                }
                assert(w[c as int] == q[c as int]) by {
                    assert(w.take(q.len() as int)[c as int] == w[c as int]);
                }
            }
            assert(p2.take(q.len() as int) =~= p.take(q.len() as int));
            assert(is_prefix_of(q, p2));
        }
    } else {
        assert(p.take(p.len() as int) =~= p);
    }
}

/// The common prefix of the words is a prefix of every word, and every text
/// that is a prefix of all of them is a prefix of it: it is the longest
/// common prefix, in whole characters.
pub proof fn lemma_common_prefix_longest(ws: Seq<Seq<char>>, q: Seq<char>)
    requires
        ws.len() > 0,
    ensures
        forall|k: int| 0 <= k < ws.len() ==> is_prefix_of(common_prefix_spec(ws), #[trigger] ws[k]),
        (forall|k: int| 0 <= k < ws.len() ==> is_prefix_of(q, #[trigger] ws[k])) ==> is_prefix_of(q, common_prefix_spec(ws)),
{
    lemma_prefix_from(ws[0], ws, 1, q);
    let r = common_prefix_spec(ws);
    assert(is_prefix_of(r, ws[0]));
}

} // verus!
