//! Command-line structure: splitting operators out of words, grouping words
//! into segments and units, and the decisions that drive execution.
//!
//! Supported: redirection (`>`, `>>`, `1>`, `1>>`, `2>`, `2>>`), background
//! jobs (`cmd &`), pipelines (`a | b`), and the chains `a && b`, `a || b`.
use vstd::prelude::*;
use vstd::seq_lib::lemma_flatten_concat;
use crate::vars::VarMap;
use crate::config::shell::{resolve_dir_alias_spec, ShellConfig};
use crate::config::wrapper::{WrapperFunction, WrapperModel};
use crate::text::{str_eq, matches_at, parse_unsigned, parse_unsigned_chars, join, join_chars, replace_all, replace_chars, trim, trim_chars, trim_str, decimal, decimal_chars, owned, push_char, push_chars, substring, append_all, chars_of, chars_eq, find_chars, find_seq, lemma_find_from_bounds, lemma_views_push, slice_of, string_of, views};

verus! {

broadcast use vstd::string::group_string_axioms;

// ───────────────────────────── types ─────────────────────────────

/// Where a stream of a command goes.
#[derive(Debug)]
pub struct Redirect {
    pub path: String,
    pub append: bool,
}

/// One command with its arguments and redirections.
#[derive(Debug)]
pub struct Segment {
    pub args: Vec<String>,
    pub redirect_out: Option<Redirect>,
    pub redirect_err: Option<Redirect>,
    pub background: bool,
}

/// The operator that joins a segment to the next one.
#[derive(Debug, Clone, Copy, PartialEq, Eq, Structural)]
pub enum Op {
    Pipe,
    And,
    Or,
}

/// A segment with the operator after it (`None` for the last one).
#[derive(Debug)]
pub struct Unit {
    pub segment: Segment,
    pub op: Option<Op>,
}

/// The value of a redirection.
pub struct RedirectModel {
    pub path: Seq<char>,
    pub append: bool,
}

/// The value of a segment.
pub struct SegmentModel {
    pub args: Seq<Seq<char>>,
    pub out: Option<RedirectModel>,
    pub err: Option<RedirectModel>,
    pub background: bool,
}

/// The value of a unit.
pub struct UnitModel {
    pub segment: SegmentModel,
    pub op: Option<Op>,
}

pub open spec fn redirect_model(r: Option<Redirect>) -> Option<RedirectModel> {
    match r {
        Some(r) => Some(RedirectModel { path: r.path@, append: r.append }),
        None => None,
    }
}

impl Segment {
    pub open spec fn model(self) -> SegmentModel {
        SegmentModel {
            args: views_of_strings(self.args@),
            out: redirect_model(self.redirect_out),
            err: redirect_model(self.redirect_err),
            background: self.background,
        }
    }
}

impl Unit {
    pub open spec fn model(self) -> UnitModel {
        UnitModel { segment: self.segment.model(), op: self.op }
    }
}

pub open spec fn views_of_strings(s: Seq<String>) -> Seq<Seq<char>> {
    s.map_values(|x: String| x@)
}

pub proof fn lemma_strings_push(r: Seq<String>, x: String)
    ensures
        views_of_strings(r.push(x)) == views_of_strings(r).push(x@),
{
    assert(views_of_strings(r.push(x)) =~= views_of_strings(r).push(x@));
}

pub open spec fn views_of_strs(s: Seq<&str>) -> Seq<Seq<char>> {
    s.map_values(|x: &str| x@)
}

pub open spec fn unit_models(u: Seq<Unit>) -> Seq<UnitModel> {
    u.map_values(|x: Unit| x.model())
}

// ───────────────────────────── operator splitting ─────────────────────────────

pub open spec fn and_op() -> Seq<char> {
    seq!['&', '&']
}

pub open spec fn or_op() -> Seq<char> {
    seq!['|', '|']
}

pub open spec fn pipe_op() -> Seq<char> {
    seq!['|']
}

/// Whether a word is an operator on its own: `&&`, `||` or `|`.
pub open spec fn is_op_word(p: Seq<char>) -> bool {
    p == and_op() || p == or_op() || p == pipe_op()
}

/// One pass of operator splitting over a single part: a part that is an
/// operator on its own is kept (so `||` stays whole); otherwise the part is
/// cut at the leftmost `op`, the text before it is kept, `op` becomes a part
/// of its own, and the text after it is split again by all operators.
pub open spec fn split_part(op: Seq<char>, p: Seq<char>, lim: nat) -> Seq<Seq<char>>
    decreases lim, 0nat, 0nat,
{
    if is_op_word(p) {
        seq![p]
    } else {
        match find_seq(p, op) {
            None => seq![p],
            Some(i) => {
                let left = p.subrange(0, i);
                let right = p.subrange(i + op.len(), p.len() as int);
                let l = if left.len() > 0 {
                    seq![left]
                } else {
                    Seq::empty()
                };
                let r = if right.len() > 0 && right.len() < lim {
                    split_operators_seq(right)
                } else if right.len() > 0 {
                    seq![right]
                } else {
                    Seq::empty()
                };
                l + seq![op] + r
            },
        }
    }
}

/// One pass of operator splitting over every part, in order.
pub open spec fn split_parts(op: Seq<char>, parts: Seq<Seq<char>>, lim: nat) -> Seq<Seq<char>>
    decreases lim, 1nat, parts.len(),
{
    if parts.len() == 0 {
        Seq::empty()
    } else {
        split_parts(op, parts.drop_last(), lim) + split_part(op, parts.last(), lim)
    }
}

/// The pieces a word breaks into when `&&`, then `||`, then `|` are cut out of it.
pub open spec fn split_operators_seq(s: Seq<char>) -> Seq<Seq<char>>
    decreases s.len(), 2nat, 0nat,
{
    let a = split_parts(and_op(), seq![s], s.len());
    let b = split_parts(or_op(), a, s.len());
    split_parts(pipe_op(), b, s.len())
}

/// Whether a word holds any operator.
pub open spec fn has_operator(s: Seq<char>) -> bool {
    find_seq(s, and_op()) is Some || find_seq(s, or_op()) is Some || find_seq(s, pipe_op()) is Some
}

/// Words after operator splitting: words without an operator stay as they
/// are, the others are replaced by their pieces.
pub open spec fn tokenize_seq(raw: Seq<Seq<char>>) -> Seq<Seq<char>>
    decreases raw.len(),
{
    if raw.len() == 0 {
        Seq::empty()
    } else {
        let t = raw.last();
        tokenize_seq(raw.drop_last()) + if has_operator(t) {
            split_operators_seq(t)
        } else {
            seq![t]
        }
    }
}

pub open spec fn all_within(parts: Seq<Seq<char>>, n: nat) -> bool {
    forall|k: int| 0 <= k < parts.len() ==> #[trigger] parts[k].len() <= n
}

fn op_chars(which: u8) -> (r: Vec<char>)
    requires
        which < 3,
    ensures
        which == 0 ==> r@ == and_op(),
        which == 1 ==> r@ == or_op(),
        which == 2 ==> r@ == pipe_op(),
{
    if which == 0 {
        vec!['&', '&']
    } else if which == 1 {
        vec!['|', '|']
    } else {
        vec!['|']
    }
}

/// [`split_part`] on one part.
fn split_one(op: &Vec<char>, p: &Vec<char>, lim: usize) -> (r: Vec<Vec<char>>)
    requires
        p@.len() <= lim,
        op@.len() > 0,
    ensures
        views(r@) == split_part(op@, p@, lim as nat),
        all_within(views(r@), lim as nat),
    decreases lim, 0nat,
{
    let mut out: Vec<Vec<char>> = Vec::new();
    assert(views(out@) =~= Seq::<Seq<char>>::empty());
    if chars_eq(p, &op_chars(0)) || chars_eq(p, &op_chars(1)) || chars_eq(p, &op_chars(2)) {
        let q = slice_of(p, 0, p.len());
        assert(q@ =~= p@);
        proof { lemma_views_push(out@, q); }
        out.push(q);
        return out;
    }
    match find_chars(p, op) {
        None => {
            let q = slice_of(p, 0, p.len());
            assert(q@ =~= p@);
            proof { lemma_views_push(out@, q); }
            out.push(q);
            out
        },
        Some(i) => {
            proof {
                lemma_find_from_bounds(p@, op@, 0);
            }
            let left = slice_of(p, 0, i);
            let right = slice_of(p, i + op.len(), p.len());
            if left.len() > 0 {
                proof { lemma_views_push(out@, left); }
                out.push(left);
            }
            let ghost with_left = views(out@);
            let o = slice_of(op, 0, op.len());
            assert(o@ =~= op@);
            proof { lemma_views_push(out@, o); }
            out.push(o);
            let ghost with_op = views(out@);
            if right.len() > 0 {
                assert(right@.len() < lim);
                let pieces = split_operators_chars(&right);
                append_all(&mut out, &pieces);
                proof {
                    assert forall|m: int| 0 <= m < views(out@).len() implies #[trigger] views(out@)[m].len() <= lim by {
                        if m >= with_op.len() {
                            assert(views(out@)[m] == views(pieces@)[m - with_op.len()]);
                        } else {
                            assert(views(out@)[m] == with_op[m]);
                        }
                    }
                }
            } else {
                assert(views(out@) == with_op + Seq::<Seq<char>>::empty());
            }
            out
        },
    }
}

/// One pass of [`split_part`] over every part.
fn split_pass(op: &Vec<char>, parts: Vec<Vec<char>>, lim: usize) -> (r: Vec<Vec<char>>)
    requires
        all_within(views(parts@), lim as nat),
        op@.len() > 0,
    ensures
        views(r@) == split_parts(op@, views(parts@), lim as nat),
        all_within(views(r@), lim as nat),
    decreases lim, 1nat,
{
    let mut out: Vec<Vec<char>> = Vec::new();
    assert(views(out@) =~= Seq::<Seq<char>>::empty());
    let mut j: usize = 0;
    while j < parts.len()
        invariant
            j <= parts.len(),
            op@.len() > 0,
            all_within(views(parts@), lim as nat),
            views(out@) == split_parts(op@, views(parts@).take(j as int), lim as nat),
            all_within(views(out@), lim as nat),
        decreases parts.len() - j,
    {
        let p = &parts[j];
        assert(views(parts@)[j as int] == p@);
        assert(p@.len() <= lim);
        let ghost before = views(out@);
        let chunk = split_one(op, p, lim);
        append_all(&mut out, &chunk);
        proof {
            let t = views(parts@).take(j + 1);
            assert(t.drop_last() == views(parts@).take(j as int));
            assert(t.last() == p@);
            assert forall|m: int| 0 <= m < views(out@).len() implies #[trigger] views(out@)[m].len() <= lim by {
                if m < before.len() {
                    assert(views(out@)[m] == before[m]);
                } else {
                    assert(views(out@)[m] == views(chunk@)[m - before.len()]);
                }
            }
        }
        j += 1;
    }
    assert(views(parts@).take(parts@.len() as int) == views(parts@));
    out
}

/// The pieces of a word when `&&`, `||` and `|` are cut out of it, in that order.
fn split_operators_chars(s: &Vec<char>) -> (r: Vec<Vec<char>>)
    ensures
        views(r@) == split_operators_seq(s@),
        all_within(views(r@), s@.len()),
    decreases s@.len(), 2nat,
{
    let mut parts: Vec<Vec<char>> = Vec::new();
    assert(views(parts@) =~= Seq::<Seq<char>>::empty());
    let whole = slice_of(s, 0, s.len());
    assert(whole@ =~= s@);
    proof { lemma_views_push(parts@, whole); }
    parts.push(whole);
    assert(views(parts@) == seq![s@]);
    let mut which: u8 = 0;
    while which < 3
        invariant
            which <= 3,
            all_within(views(parts@), s@.len()),
            which == 0 ==> views(parts@) == seq![s@],
            which == 1 ==> views(parts@) == split_parts(and_op(), seq![s@], s@.len()),
            which == 2 ==> views(parts@) == split_parts(or_op(), split_parts(and_op(), seq![s@], s@.len()), s@.len()),
            which == 3 ==> views(parts@) == split_operators_seq(s@),
        decreases 3 - which,
    {
        let op = op_chars(which);
        parts = split_pass(&op, parts, s.len());
        which += 1;
    }
    parts
}

/// Cuts `&&`, `||` and `|` out of words so that each becomes a word of its own.
pub fn tokenize_operators(raw_tokens: Vec<String>) -> (r: Vec<String>)
    ensures
        views_of_strings(r@) == tokenize_seq(views_of_strings(raw_tokens@)),
{
    let ghost raw = views_of_strings(raw_tokens@);
    let mut result: Vec<String> = Vec::new();
    assert(views_of_strings(result@) =~= Seq::<Seq<char>>::empty());
    let mut i: usize = 0;
    while i < raw_tokens.len()
        invariant
            i <= raw_tokens.len(),
            raw == views_of_strings(raw_tokens@),
            views_of_strings(result@) == tokenize_seq(raw.take(i as int)),
        decreases raw_tokens.len() - i,
    {
        let tok = chars_of(raw_tokens[i].as_str());
        assert(raw[i as int] == tok@);
        let ghost before = views_of_strings(result@);
        let has_and = find_chars(&tok, &op_chars(0)).is_some();
        let has_or = find_chars(&tok, &op_chars(1)).is_some();
        let has_pipe = find_chars(&tok, &op_chars(2)).is_some();
        if !(has_and || has_or || has_pipe) {
            let w = string_of(&tok);
            proof { lemma_strings_push(result@, w); }
            result.push(w);
        } else {
            let pieces = split_operators_chars(&tok);
            let mut k: usize = 0;
            while k < pieces.len()
                invariant
                    k <= pieces.len(),
                    views_of_strings(result@) == before + views(pieces@).take(k as int),
                decreases pieces.len() - k,
            {
                let piece = string_of(&pieces[k]);
                assert(views(pieces@)[k as int] == pieces@[k as int]@);
                assert(views(pieces@).take(k + 1) == views(pieces@).take(k as int).push(piece@));
                proof { lemma_strings_push(result@, piece); }
                result.push(piece);
                k += 1;
            }
            assert(views(pieces@).take(pieces@.len() as int) == views(pieces@));
        }
        proof {
            let t = raw.take(i + 1);
            assert(t.drop_last() == raw.take(i as int));
            assert(t.last() == tok@);
        }
        i += 1;
    }
    assert(raw.take(raw_tokens@.len() as int) == raw);
    result
}

} // verus!

verus! {

// ───────────────────────────── laws of operator splitting ─────────────────────────────

proof fn lemma_flatten_single(x: Seq<char>)
    ensures
        seq![x].flatten() == x,
{
    seq![x].lemma_flatten_one_element();
}

proof fn lemma_split_part(op: Seq<char>, p: Seq<char>, lim: nat)
    requires
        op.len() > 0,
        p.len() <= lim,
    ensures
        split_part(op, p, lim).flatten() == p,
        all_within(split_part(op, p, lim), lim),
    decreases lim, 0nat, 0nat,
{
    if is_op_word(p) {
        lemma_flatten_single(p);
    } else {
        match find_seq(p, op) {
            None => {
                lemma_flatten_single(p);
            },
            Some(i) => {
                lemma_find_from_bounds(p, op, 0);
                let left = p.subrange(0, i);
                let right = p.subrange(i + op.len(), p.len() as int);
                let l = if left.len() > 0 {
                    seq![left]
                } else {
                    Seq::empty()
                };
                let r = if right.len() > 0 && right.len() < lim {
                    split_operators_seq(right)
                } else if right.len() > 0 {
                    seq![right]
                } else {
                    Seq::empty()
                };
                assert(right.len() < lim);
                if right.len() > 0 {
                    lemma_split_operators(right);
                }
                assert(r.flatten() == right);
                if left.len() > 0 {
                    lemma_flatten_single(left);
                }
                assert(l.flatten() == left);
                lemma_flatten_single(op);
                lemma_flatten_concat(l, seq![op]);
                lemma_flatten_concat(l + seq![op], r);
                assert(p =~= left + op + right);
                let all = l + seq![op] + r;
                assert forall|k: int| 0 <= k < all.len() implies #[trigger] all[k].len() <= lim by {
                    if k < l.len() {
                    } else if k == l.len() {
                    } else {
                        assert(all[k] == r[k - l.len() - 1]);
                    }
                }
            },
        }
    }
}

proof fn lemma_split_parts(op: Seq<char>, parts: Seq<Seq<char>>, lim: nat)
    requires
        op.len() > 0,
        all_within(parts, lim),
    ensures
        split_parts(op, parts, lim).flatten() == parts.flatten(),
        all_within(split_parts(op, parts, lim), lim),
    decreases lim, 1nat, parts.len(),
{
    if parts.len() > 0 {
        let d = parts.drop_last();
        assert forall|k: int| 0 <= k < d.len() implies #[trigger] d[k].len() <= lim by {
            assert(d[k] == parts[k]);
        }
        lemma_split_parts(op, d, lim);
        lemma_split_part(op, parts.last(), lim);
        let a = split_parts(op, d, lim);
        let b = split_part(op, parts.last(), lim);
        lemma_flatten_concat(a, b);
        assert(parts == d.push(parts.last()));
        d.lemma_flatten_push(parts.last());
        assert forall|k: int| 0 <= k < (a + b).len() implies #[trigger] (a + b)[k].len() <= lim by {
            if k < a.len() {
            } else {
                assert((a + b)[k] == b[k - a.len()]);
            }
        }
    } else {
        assert(split_parts(op, parts, lim) =~= Seq::<Seq<char>>::empty());
    }
}

/// Cutting the operators out of a word keeps its characters: the pieces,
/// put back together, are the word.
pub proof fn lemma_split_operators(s: Seq<char>)
    ensures
        split_operators_seq(s).flatten() == s,
        all_within(split_operators_seq(s), s.len()),
    decreases s.len(), 2nat, 0nat,
{
    lemma_flatten_single(s);
    let a = split_parts(and_op(), seq![s], s.len());
    let b = split_parts(or_op(), a, s.len());
    lemma_split_parts(and_op(), seq![s], s.len());
    lemma_split_parts(or_op(), a, s.len());
    lemma_split_parts(pipe_op(), b, s.len());
}

/// The operators in the order they are cut out: `&&`, `||`, `|`.
pub open spec fn op_at(m: int) -> Seq<char> {
    if m == 0 {
        and_op()
    } else if m == 1 {
        or_op()
    } else {
        pipe_op()
    }
}

/// `q` holds none of the first `n` operators.
pub open spec fn free_upto(q: Seq<char>, n: int) -> bool {
    forall|m: int| 0 <= m < n ==> #[trigger] find_seq(q, op_at(m)) is None
}

/// A piece is an operator on its own, or holds none of the first `n` operators.
pub open spec fn piece_ok(q: Seq<char>, n: int) -> bool {
    is_op_word(q) || free_upto(q, n)
}

proof fn lemma_prefix_free(p: Seq<char>, o: Seq<char>, i: int)
    requires
        0 <= i <= p.len(),
        o.len() > 0,
        forall|j: int| 0 <= j < i ==> !matches_at(p, o, j),
    ensures
        find_seq(p.subrange(0, i), o) is None,
{
    let left = p.subrange(0, i);
    lemma_find_from_bounds(left, o, 0);
    lemma_find_from_bounds(p, o, 0);
    if let Some(j) = find_seq(left, o) {
        assert(left.subrange(j, j + o.len()) =~= p.subrange(j, j + o.len()));
        assert(matches_at(p, o, j));
        assert(j < i);
    }
}

proof fn lemma_split_part_ok(k: int, p: Seq<char>, lim: nat)
    requires
        0 <= k < 3,
        p.len() <= lim,
        piece_ok(p, k),
    ensures
        forall|t: int| 0 <= t < split_part(op_at(k), p, lim).len() ==> piece_ok(#[trigger] split_part(op_at(k), p, lim)[t], k + 1),
    decreases lim, 0nat, 0nat,
{
    let op = op_at(k);
    if is_op_word(p) {
    } else {
        lemma_find_from_bounds(p, op, 0);
        match find_seq(p, op) {
            None => {
                assert(free_upto(p, k + 1));
            },
            Some(i) => {
                let left = p.subrange(0, i);
                let right = p.subrange(i + op.len(), p.len() as int);
                assert forall|m: int| 0 <= m < k + 1 implies #[trigger] find_seq(left, op_at(m)) is None by {
                    if m < k {
                        assert(free_upto(p, k));
                        assert(find_seq(p, op_at(m)) is None);
                        lemma_find_from_bounds(p, op_at(m), 0);
                        lemma_prefix_free(p, op_at(m), i);
                    } else {
                        lemma_prefix_free(p, op, i);
                    }
                }
                let l = if left.len() > 0 { seq![left] } else { Seq::empty() };
                assert(right.len() < lim);
                let r = if right.len() > 0 && right.len() < lim {
                    split_operators_seq(right)
                } else if right.len() > 0 {
                    seq![right]
                } else {
                    Seq::empty()
                };
                if right.len() > 0 {
                    lemma_pieces_ok(right);
                }
                let all = l + seq![op] + r;
                assert(split_part(op, p, lim) == all);
                assert forall|t: int| 0 <= t < all.len() implies piece_ok(#[trigger] all[t], k + 1) by {
                    if t < l.len() {
                        assert(all[t] == left);
                    } else if t == l.len() {
                        assert(all[t] == op);
                    } else {
                        assert(all[t] == r[t - l.len() - 1]);
                        assert(piece_ok(r[t - l.len() - 1], 3));
                    }
                }
            },
        }
    }
}

proof fn lemma_split_parts_ok(k: int, parts: Seq<Seq<char>>, lim: nat)
    requires
        0 <= k < 3,
        all_within(parts, lim),
        forall|t: int| 0 <= t < parts.len() ==> piece_ok(#[trigger] parts[t], k),
    ensures
        forall|t: int| 0 <= t < split_parts(op_at(k), parts, lim).len() ==> piece_ok(
            #[trigger] split_parts(op_at(k), parts, lim)[t],
            k + 1,
        ),
    decreases lim, 1nat, parts.len(),
{
    if parts.len() > 0 {
        let d = parts.drop_last();
        assert forall|t: int| 0 <= t < d.len() implies #[trigger] d[t].len() <= lim by {
            assert(d[t] == parts[t]);
        }
        assert forall|t: int| 0 <= t < d.len() implies piece_ok(#[trigger] d[t], k) by {
            assert(d[t] == parts[t]);
        }
        lemma_split_parts_ok(k, d, lim);
        assert(parts.last() == parts[parts.len() - 1]);
        lemma_split_part_ok(k, parts.last(), lim);
        let a = split_parts(op_at(k), d, lim);
        let b = split_part(op_at(k), parts.last(), lim);
        assert forall|t: int| 0 <= t < (a + b).len() implies piece_ok(#[trigger] (a + b)[t], k + 1) by {
            if t < a.len() {
                assert((a + b)[t] == a[t]);
            } else {
                assert((a + b)[t] == b[t - a.len()]);
            }
        }
    }
}

/// Every piece a word breaks into is an operator on its own or holds no
/// operator.
pub proof fn lemma_pieces_ok(s: Seq<char>)
    ensures
        forall|t: int| 0 <= t < split_operators_seq(s).len() ==> piece_ok(#[trigger] split_operators_seq(s)[t], 3),
    decreases s.len(), 2nat, 0nat,
{
    lemma_split_operators(s);
    let a = split_parts(and_op(), seq![s], s.len());
    let b = split_parts(or_op(), a, s.len());
    assert(piece_ok(seq![s][0], 0));
    lemma_split_parts(and_op(), seq![s], s.len());
    lemma_split_parts(or_op(), a, s.len());
    assert(op_at(0) == and_op() && op_at(1) == or_op() && op_at(2) == pipe_op());
    assert(all_within(seq![s], s.len()));
    assert(split_operators_seq(s) == split_parts(pipe_op(), b, s.len()));
    lemma_split_parts_ok(0, seq![s], s.len());
    lemma_split_parts_ok(1, a, s.len());
    lemma_split_parts_ok(2, b, s.len());
}

/// Operator splitting of a command line: every resulting word is an operator
/// (`&&`, `||`, `|`) on its own or holds no operator.
pub proof fn lemma_tokens_are_clean(raw: Seq<Seq<char>>)
    ensures
        forall|t: int| 0 <= t < tokenize_seq(raw).len() ==> piece_ok(#[trigger] tokenize_seq(raw)[t], 3),
    decreases raw.len(),
{
    if raw.len() > 0 {
        let w = raw.last();
        lemma_tokens_are_clean(raw.drop_last());
        let a = tokenize_seq(raw.drop_last());
        let b = if has_operator(w) { split_operators_seq(w) } else { seq![w] };
        if has_operator(w) {
            lemma_pieces_ok(w);
        } else {
            assert(op_at(0) == and_op() && op_at(1) == or_op() && op_at(2) == pipe_op());
            assert(free_upto(w, 3));
            assert(piece_ok(b[0], 3));
        }
        assert forall|t: int| 0 <= t < (a + b).len() implies piece_ok(#[trigger] (a + b)[t], 3) by {
            if t < a.len() {
                assert((a + b)[t] == a[t]);
            } else {
                assert((a + b)[t] == b[t - a.len()]);
            }
        }
    }
}

/// Operator splitting of a command line keeps its characters: the words after
/// splitting, put back together, are the words before.
pub proof fn lemma_tokenize_keeps_text(raw: Seq<Seq<char>>)
    ensures
        tokenize_seq(raw).flatten() == raw.flatten(),
    decreases raw.len(),
{
    if raw.len() > 0 {
        let t = raw.last();
        lemma_tokenize_keeps_text(raw.drop_last());
        let piece = if has_operator(t) {
            split_operators_seq(t)
        } else {
            seq![t]
        };
        if has_operator(t) {
            lemma_split_operators(t);
        } else {
            lemma_flatten_single(t);
        }
        lemma_flatten_concat(tokenize_seq(raw.drop_last()), piece);
        assert(raw == raw.drop_last().push(t));
        raw.drop_last().lemma_flatten_push(t);
    }
}

} // verus!

verus! {

// ───────────────────────────── segments and units ─────────────────────────────

pub open spec fn lit_amp() -> Seq<char> { seq!['&'] }
pub open spec fn lit_gt() -> Seq<char> { seq!['>'] }
pub open spec fn lit_1gt() -> Seq<char> { seq!['1', '>'] }
pub open spec fn lit_gtgt() -> Seq<char> { seq!['>', '>'] }
pub open spec fn lit_1gtgt() -> Seq<char> { seq!['1', '>', '>'] }
pub open spec fn lit_2gt() -> Seq<char> { seq!['2', '>'] }
pub open spec fn lit_2gtgt() -> Seq<char> { seq!['2', '>', '>'] }

pub open spec fn empty_segment() -> SegmentModel {
    SegmentModel { args: Seq::empty(), out: None, err: None, background: false }
}

/// The redirection that the word after position `i` names, or `keep` when there is none.
pub open spec fn redirect_after(tokens: Seq<Seq<char>>, i: int, append: bool, keep: Option<RedirectModel>) -> Option<RedirectModel> {
    if i + 1 < tokens.len() {
        Some(RedirectModel { path: tokens[i + 1], append })
    } else {
        keep
    }
}

/// Reads the words of a segment from position `i` on: `&` marks it as a
/// background job, a redirection operator takes the next word as its file
/// (the later one wins), and every other word is an argument.
pub open spec fn segment_scan(tokens: Seq<Seq<char>>, i: int, acc: SegmentModel) -> SegmentModel
    decreases tokens.len() + 1 - i,
{
    if i < 0 || i >= tokens.len() {
        acc
    } else {
        let t = tokens[i];
        if t == lit_amp() {
            segment_scan(tokens, i + 1, SegmentModel { background: true, ..acc })
        } else if t == lit_gt() || t == lit_1gt() {
            segment_scan(tokens, i + 2, SegmentModel { out: redirect_after(tokens, i, false, acc.out), ..acc })
        } else if t == lit_gtgt() || t == lit_1gtgt() {
            segment_scan(tokens, i + 2, SegmentModel { out: redirect_after(tokens, i, true, acc.out), ..acc })
        } else if t == lit_2gt() {
            segment_scan(tokens, i + 2, SegmentModel { err: redirect_after(tokens, i, false, acc.err), ..acc })
        } else if t == lit_2gtgt() {
            segment_scan(tokens, i + 2, SegmentModel { err: redirect_after(tokens, i, true, acc.err), ..acc })
        } else {
            segment_scan(tokens, i + 1, SegmentModel { args: acc.args.push(t), ..acc })
        }
    }
}

/// The segment that a run of words makes; none when it has no argument.
pub open spec fn segment_of(tokens: Seq<Seq<char>>) -> Option<SegmentModel> {
    let m = segment_scan(tokens, 0, empty_segment());
    if tokens.len() == 0 || m.args.len() == 0 {
        None
    } else {
        Some(m)
    }
}

pub open spec fn op_of_word(t: Seq<char>) -> Option<Op> {
    if t == pipe_op() {
        Some(Op::Pipe)
    } else if t == or_op() {
        Some(Op::Or)
    } else if t == and_op() {
        Some(Op::And)
    } else {
        None
    }
}

/// The unit closed by operator `op` over the words `cur`, if those words make a segment.
pub open spec fn close_unit(cur: Seq<Seq<char>>, op: Option<Op>) -> Seq<UnitModel> {
    match segment_of(cur) {
        Some(s) => seq![UnitModel { segment: s, op }],
        None => Seq::empty(),
    }
}

/// Units of a command line from position `i` on, `cur` holding the words
/// read since the last operator. A run of words without a segment is dropped
/// together with the operator after it.
pub open spec fn units_scan(tokens: Seq<Seq<char>>, i: int, cur: Seq<Seq<char>>) -> Seq<UnitModel>
    decreases tokens.len() - i,
{
    if i < 0 || i >= tokens.len() {
        if cur.len() > 0 {
            close_unit(cur, None)
        } else {
            Seq::empty()
        }
    } else {
        match op_of_word(tokens[i]) {
            Some(op) => close_unit(cur, Some(op)) + units_scan(tokens, i + 1, Seq::empty()),
            None => units_scan(tokens, i + 1, cur.push(tokens[i])),
        }
    }
}

/// The units of a command line (`|`, `||` and `&&` between segments).
pub open spec fn units_of(tokens: Seq<Seq<char>>) -> Seq<UnitModel> {
    units_scan(tokens, 0, Seq::empty())
}

/// Every unit names a command: it has at least one argument.
pub open spec fn all_have_command(us: Seq<UnitModel>) -> bool {
    forall|k: int| 0 <= k < us.len() ==> #[trigger] us[k].segment.args.len() > 0
}

proof fn lemma_close_unit_command(cur: Seq<Seq<char>>, op: Option<Op>)
    ensures
        all_have_command(close_unit(cur, op)),
        close_unit(cur, op).len() <= 1,
{
}

proof fn lemma_units_scan_commands(tokens: Seq<Seq<char>>, i: int, cur: Seq<Seq<char>>)
    ensures
        all_have_command(units_scan(tokens, i, cur)),
    decreases tokens.len() - i,
{
    if i < 0 || i >= tokens.len() {
        lemma_close_unit_command(cur, None);
    } else {
        match op_of_word(tokens[i]) {
            Some(op) => {
                lemma_close_unit_command(cur, Some(op));
                lemma_units_scan_commands(tokens, i + 1, Seq::empty());
                let a = close_unit(cur, Some(op));
                let b = units_scan(tokens, i + 1, Seq::empty());
                assert forall|k: int| 0 <= k < (a + b).len() implies #[trigger] (a + b)[k].segment.args.len() > 0 by {
                    if k < a.len() {
                        assert((a + b)[k] == a[k]);
                    } else {
                        assert((a + b)[k] == b[k - a.len()]);
                    }
                }
            },
            None => {
                lemma_units_scan_commands(tokens, i + 1, cur.push(tokens[i]));
            },
        }
    }
}

/// How many of the words from position `i` on are operators.
pub open spec fn operators_from(tokens: Seq<Seq<char>>, i: int) -> nat
    decreases tokens.len() - i,
{
    if i < 0 || i >= tokens.len() {
        0
    } else {
        (if op_of_word(tokens[i]) is Some { 1nat } else { 0nat }) + operators_from(tokens, i + 1)
    }
}

proof fn lemma_units_scan_count(tokens: Seq<Seq<char>>, i: int, cur: Seq<Seq<char>>)
    requires
        0 <= i,
    ensures
        units_scan(tokens, i, cur).len() <= operators_from(tokens, i) + 1,
    decreases tokens.len() - i,
{
    if i < tokens.len() {
        match op_of_word(tokens[i]) {
            Some(op) => {
                lemma_close_unit_command(cur, Some(op));
                lemma_units_scan_count(tokens, i + 1, Seq::empty());
            },
            None => {
                lemma_units_scan_count(tokens, i + 1, cur.push(tokens[i]));
            },
        }
    } else {
        lemma_close_unit_command(cur, None);
    }
}

/// A command line has at most one unit more than it has operators.
pub proof fn lemma_units_count(tokens: Seq<Seq<char>>)
    ensures
        units_of(tokens).len() <= operators_from(tokens, 0) + 1,
{
    lemma_units_scan_count(tokens, 0, Seq::empty());
}

/// Every unit of a command line names a command: a stretch of words that
/// holds no argument (nothing between two operators, or only redirections
/// and `&`) makes no unit.
pub proof fn lemma_units_have_commands(tokens: Seq<Seq<char>>)
    ensures
        all_have_command(units_of(tokens)),
{
    lemma_units_scan_commands(tokens, 0, Seq::empty());
}

/// A word that is an argument wherever it stands: no operator, no `&` and
/// no redirection.
pub open spec fn plain_word(t: Seq<char>) -> bool {
    &&& op_of_word(t) is None
    &&& t != lit_amp()
    &&& t != lit_gt() && t != lit_1gt() && t != lit_gtgt() && t != lit_1gtgt()
    &&& t != lit_2gt() && t != lit_2gtgt()
}

/// The words from position `i` on that are not operators, in order.
pub open spec fn command_words(tokens: Seq<Seq<char>>, i: int) -> Seq<Seq<char>>
    decreases tokens.len() - i,
{
    if i < 0 || i >= tokens.len() {
        Seq::empty()
    } else if op_of_word(tokens[i]) is Some {
        command_words(tokens, i + 1)
    } else {
        seq![tokens[i]] + command_words(tokens, i + 1)
    }
}

/// The arguments of the units, one unit after the other.
pub open spec fn unit_args(us: Seq<UnitModel>) -> Seq<Seq<char>>
    decreases us.len(),
{
    if us.len() == 0 {
        Seq::empty()
    } else {
        us[0].segment.args + unit_args(us.drop_first())
    }
}

proof fn lemma_unit_args_add(a: Seq<UnitModel>, b: Seq<UnitModel>)
    ensures
        unit_args(a + b) == unit_args(a) + unit_args(b),
    decreases a.len(),
{
    if a.len() == 0 {
        assert(a + b =~= b);
    } else {
        lemma_unit_args_add(a.drop_first(), b);
        assert((a + b).drop_first() =~= a.drop_first() + b);
        assert(unit_args(a) + unit_args(b) =~= a[0].segment.args + (unit_args(a.drop_first()) + unit_args(b)));
    }
}

proof fn lemma_plain_segment_scan(ts: Seq<Seq<char>>, i: int, acc: SegmentModel)
    requires
        0 <= i <= ts.len(),
        forall|k: int| 0 <= k < ts.len() ==> plain_word(#[trigger] ts[k]),
    ensures
        segment_scan(ts, i, acc) == (SegmentModel { args: acc.args + ts.skip(i), ..acc }),
    decreases ts.len() - i,
{
    if i == ts.len() {
        assert(acc.args + ts.skip(i) =~= acc.args);
    } else {
        assert(plain_word(ts[i]));
        let next = SegmentModel { args: acc.args.push(ts[i]), ..acc };
        lemma_plain_segment_scan(ts, i + 1, next);
        assert(acc.args.push(ts[i]) + ts.skip(i + 1) =~= acc.args + ts.skip(i));
    }
}

proof fn lemma_plain_close_unit(cur: Seq<Seq<char>>, op: Option<Op>)
    requires
        forall|k: int| 0 <= k < cur.len() ==> plain_word(#[trigger] cur[k]),
    ensures
        unit_args(close_unit(cur, op)) == cur,
{
    lemma_plain_segment_scan(cur, 0, empty_segment());
    assert(Seq::<Seq<char>>::empty() + cur.skip(0) =~= cur);
    if cur.len() == 0 {
        assert(close_unit(cur, op) =~= Seq::<UnitModel>::empty());
    } else {
        let u = close_unit(cur, op);
        assert(u.len() == 1);
        assert(u.drop_first() =~= Seq::<UnitModel>::empty());
        assert(u[0].segment.args == cur);
        assert(unit_args(u) == u[0].segment.args + unit_args(u.drop_first()));
        assert(cur + Seq::<Seq<char>>::empty() =~= cur);
    }
}

proof fn lemma_units_scan_args(tokens: Seq<Seq<char>>, i: int, cur: Seq<Seq<char>>)
    requires
        0 <= i,
        forall|k: int| 0 <= k < tokens.len() ==> op_of_word(#[trigger] tokens[k]) is Some || plain_word(tokens[k]),
        forall|k: int| 0 <= k < cur.len() ==> plain_word(#[trigger] cur[k]),
    ensures
        unit_args(units_scan(tokens, i, cur)) == cur + command_words(tokens, i),
    decreases tokens.len() - i,
{
    if i >= tokens.len() {
        if cur.len() > 0 {
            lemma_plain_close_unit(cur, None);
        }
        assert(cur + Seq::<Seq<char>>::empty() =~= cur);
    } else {
        let t = tokens[i];
        match op_of_word(t) {
            Some(op) => {
                lemma_plain_close_unit(cur, Some(op));
                lemma_units_scan_args(tokens, i + 1, Seq::empty());
                lemma_unit_args_add(close_unit(cur, Some(op)), units_scan(tokens, i + 1, Seq::empty()));
                assert(Seq::<Seq<char>>::empty() + command_words(tokens, i + 1) =~= command_words(tokens, i + 1));
            },
            None => {
                assert(plain_word(t));
                assert forall|k: int| 0 <= k < cur.push(t).len() implies plain_word(#[trigger] cur.push(t)[k]) by {
                    if k < cur.len() {
                        assert(cur.push(t)[k] == cur[k]);
                    }
                }
                lemma_units_scan_args(tokens, i + 1, cur.push(t));
                assert(cur.push(t) + command_words(tokens, i + 1) =~= cur + (seq![t] + command_words(tokens, i + 1)));
            },
        }
    }
}

/// On a command line of operators and plain words (no `&`, no
/// redirection), the arguments of the units, one unit after the other, are
/// the words that are not operators, in the order in which they were typed.
pub proof fn lemma_units_keep_word_order(tokens: Seq<Seq<char>>)
    requires
        forall|k: int| 0 <= k < tokens.len() ==> op_of_word(#[trigger] tokens[k]) is Some || plain_word(tokens[k]),
    ensures
        unit_args(units_of(tokens)) == command_words(tokens, 0),
{
    lemma_units_scan_args(tokens, 0, Seq::empty());
    assert(Seq::<Seq<char>>::empty() + command_words(tokens, 0) =~= command_words(tokens, 0));
}

proof fn lemma_scan_plain_run(ts: Seq<Seq<char>>, i: int, j: int, acc: SegmentModel)
    requires
        0 <= i <= j <= ts.len(),
        forall|k: int| i <= k < j ==> plain_word(#[trigger] ts[k]),
    ensures
        segment_scan(ts, i, acc) == segment_scan(ts, j, SegmentModel { args: acc.args + ts.subrange(i, j), ..acc }),
    decreases j - i,
{
    if i == j {
        assert(acc.args + ts.subrange(i, j) =~= acc.args);
    } else {
        assert(plain_word(ts[i]));
        let next = SegmentModel { args: acc.args.push(ts[i]), ..acc };
        lemma_scan_plain_run(ts, i + 1, j, next);
        assert(acc.args.push(ts[i]) + ts.subrange(i + 1, j) =~= acc.args + ts.subrange(i, j));
    }
}

/// The segment of a command `a` (plain words, at least one) with one
/// redirection operator `op` and its file `f` among its words, followed by
/// plain words `b`.
proof fn lemma_one_redirect(a: Seq<Seq<char>>, op: Seq<char>, f: Seq<char>, b: Seq<Seq<char>>)
    requires
        a.len() > 0,
        forall|k: int| 0 <= k < a.len() ==> plain_word(#[trigger] a[k]),
        forall|k: int| 0 <= k < b.len() ==> plain_word(#[trigger] b[k]),
        op == lit_gt() || op == lit_gtgt() || op == lit_2gt() || op == lit_2gtgt(),
    ensures
        ({
            let t = a + seq![op, f] + b;
            let m = segment_scan(t, 0, empty_segment());
            &&& m.args == a + b
            &&& !m.background
            &&& m.out == (if op == lit_gt() || op == lit_gtgt() { Some(RedirectModel { path: f, append: op == lit_gtgt() }) } else { None })
            &&& m.err == (if op == lit_2gt() || op == lit_2gtgt() { Some(RedirectModel { path: f, append: op == lit_2gtgt() }) } else { None })
            &&& segment_of(t) == Some(m)
        }),
{
    let t = a + seq![op, f] + b;
    let n = a.len() as int;
    assert forall|k: int| 0 <= k < n implies plain_word(#[trigger] t[k]) by {
        assert(t[k] == a[k]);
    }
    lemma_scan_plain_run(t, 0, n, empty_segment());
    assert(t.subrange(0, n) =~= a);
    assert(Seq::<Seq<char>>::empty() + a =~= a);
    let acc = SegmentModel { args: a, out: None, err: None, background: false };
    assert(t[n] == op);
    assert(t[n + 1] == f);
    assert(lit_gt().len() == 1 && lit_1gt().len() == 2 && lit_gtgt().len() == 2 && lit_1gtgt().len() == 3);
    assert(lit_2gt().len() == 2 && lit_2gtgt().len() == 3 && lit_amp().len() == 1);
    assert(lit_gt()[0] == '>' && lit_amp()[0] == '&' && lit_gtgt()[0] == '>' && lit_1gt()[0] == '1' && lit_2gt()[0] == '2');
    assert(lit_2gtgt()[0] == '2' && lit_1gtgt()[0] == '1');
    assert(op != lit_amp());
    if op == lit_gt() {
        assert(op != lit_1gt());
    }
    if op == lit_gtgt() {
        assert(op != lit_gt() && op != lit_1gt());
    }
    if op == lit_2gt() {
        assert(op != lit_gt() && op != lit_1gt() && op != lit_gtgt() && op != lit_1gtgt());
    }
    if op == lit_2gtgt() {
        assert(op != lit_gt() && op != lit_1gt() && op != lit_gtgt() && op != lit_1gtgt() && op != lit_2gt());
    }
    let r = Some(RedirectModel { path: f, append: op == lit_gtgt() || op == lit_2gtgt() });
    let acc2 = SegmentModel {
        out: if op == lit_gt() || op == lit_gtgt() { r } else { None },
        err: if op == lit_2gt() || op == lit_2gtgt() { r } else { None },
        ..acc
    };
    assert(segment_scan(t, n, acc) == segment_scan(t, n + 2, acc2));
    assert forall|k: int| n + 2 <= k < t.len() implies plain_word(#[trigger] t[k]) by {
        assert(t[k] == b[k - n - 2]);
    }
    lemma_scan_plain_run(t, n + 2, t.len() as int, acc2);
    assert(t.subrange(n + 2, t.len() as int) =~= b);
    lemma_plain_scan_end(t, acc2.args + b, acc2);
}

proof fn lemma_plain_scan_end(t: Seq<Seq<char>>, args: Seq<Seq<char>>, acc: SegmentModel)
    ensures
        segment_scan(t, t.len() as int, (SegmentModel { args, ..acc })) == (SegmentModel { args, ..acc }),
{
}

/// The redirection operators of a command: `>` and `>>` send its output to
/// the file named after them, `2>` and `2>>` its error output; the doubled
/// forms append to the file and the single ones truncate it; the operator
/// and its file are no arguments, and the rest of the words keep their order.
pub proof fn lemma_redirections(a: Seq<Seq<char>>, f: Seq<char>, b: Seq<Seq<char>>)
    requires
        a.len() > 0,
        forall|k: int| 0 <= k < a.len() ==> plain_word(#[trigger] a[k]),
        forall|k: int| 0 <= k < b.len() ==> plain_word(#[trigger] b[k]),
    ensures
        segment_of(a + seq![seq!['>'], f] + b)
            == Some(SegmentModel { args: a + b, out: Some(RedirectModel { path: f, append: false }), err: None, background: false }),
        segment_of(a + seq![seq!['>', '>'], f] + b)
            == Some(SegmentModel { args: a + b, out: Some(RedirectModel { path: f, append: true }), err: None, background: false }),
        segment_of(a + seq![seq!['2', '>'], f] + b)
            == Some(SegmentModel { args: a + b, out: None, err: Some(RedirectModel { path: f, append: false }), background: false }),
        segment_of(a + seq![seq!['2', '>', '>'], f] + b)
            == Some(SegmentModel { args: a + b, out: None, err: Some(RedirectModel { path: f, append: true }), background: false }),
{
    assert(lit_gt() != lit_gtgt() && lit_gt() != lit_2gt() && lit_gt() != lit_2gtgt()) by {
        assert(lit_gt().len() == 1 && lit_gtgt().len() == 2 && lit_2gt().len() == 2 && lit_2gtgt().len() == 3);
    }
    assert(lit_gtgt() != lit_2gt() && lit_gtgt() != lit_2gtgt() && lit_2gt() != lit_2gtgt()) by {
        assert(lit_gtgt()[0] == '>' && lit_2gt()[0] == '2' && lit_2gtgt().len() == 3 && lit_gtgt().len() == 2 && lit_2gt().len() == 2);
    }
    lemma_one_redirect(a, lit_gt(), f, b);
    lemma_one_redirect(a, lit_gtgt(), f, b);
    lemma_one_redirect(a, lit_2gt(), f, b);
    lemma_one_redirect(a, lit_2gtgt(), f, b);
}

fn word_amp() -> (r: Vec<char>)
    ensures
        r@ == lit_amp(),
{
    vec!['&']
}

fn word_gt() -> (r: Vec<char>)
    ensures
        r@ == lit_gt(),
{
    vec!['>']
}

fn word_1gt() -> (r: Vec<char>)
    ensures
        r@ == lit_1gt(),
{
    vec!['1', '>']
}

fn word_gtgt() -> (r: Vec<char>)
    ensures
        r@ == lit_gtgt(),
{
    vec!['>', '>']
}

fn word_1gtgt() -> (r: Vec<char>)
    ensures
        r@ == lit_1gtgt(),
{
    vec!['1', '>', '>']
}

fn word_2gt() -> (r: Vec<char>)
    ensures
        r@ == lit_2gt(),
{
    vec!['2', '>']
}

fn word_2gtgt() -> (r: Vec<char>)
    ensures
        r@ == lit_2gtgt(),
{
    vec!['2', '>', '>']
}

fn word_is(t: &[char], w: &[char]) -> (r: bool)
    ensures
        r == (t@ == w@),
{
    chars_eq(t, w)
}

/// Builds a segment from its words; `None` when no argument remains.
pub fn build_segment(tokens: &[&str]) -> (r: Option<Segment>)
    ensures
        match r {
            Some(s) => segment_of(views_of_strs(tokens@)) == Some(s.model()),
            None => segment_of(views_of_strs(tokens@)) is None,
        },
{
    let ghost toks = views_of_strs(tokens@);
    if tokens.len() == 0 {
        return None;
    }
    let mut args: Vec<String> = Vec::new();
    let mut redirect_out: Option<Redirect> = None;
    let mut redirect_err: Option<Redirect> = None;
    let mut background = false;
    let mut i: usize = 0;
    assert(views_of_strings(args@) =~= Seq::<Seq<char>>::empty());
    while i < tokens.len()
        invariant
            toks == views_of_strs(tokens@),
            segment_of(toks) == (if toks.len() == 0 || segment_scan(toks, 0, empty_segment()).args.len() == 0 { None } else { Some(segment_scan(toks, 0, empty_segment())) }),
            segment_scan(toks, 0, empty_segment()) == segment_scan(toks, i as int, SegmentModel {
                args: views_of_strings(args@),
                out: redirect_model(redirect_out),
                err: redirect_model(redirect_err),
                background,
            }),
            tokens@.len() > 0,
        decreases tokens.len() - i,
    {
        let t = chars_of(tokens[i]);
        assert(toks[i as int] == t@);
        let ghost acc = SegmentModel {
            args: views_of_strings(args@),
            out: redirect_model(redirect_out),
            err: redirect_model(redirect_err),
            background,
        };
        let ghost i0 = i as int;
        if word_is(&t, &word_amp()) {
            background = true;
            i += 1;
            assert(segment_scan(toks, i0, acc) == segment_scan(toks, i as int, SegmentModel { background: true, ..acc }));
        } else if word_is(&t, &word_gt()) || word_is(&t, &word_1gt()) || word_is(&t, &word_gtgt())
            || word_is(&t, &word_1gtgt()) {
            let append = word_is(&t, &word_gtgt()) || word_is(&t, &word_1gtgt());
            if i + 1 < tokens.len() {
                let p = chars_of(tokens[i + 1]);
                assert(toks[i + 1] == p@);
                redirect_out = Some(Redirect { path: string_of(&p), append });
            }
            if i + 1 >= tokens.len() {
                i = tokens.len();
            } else {
                i += 2;
            }
            assert(segment_scan(toks, i0, acc) == segment_scan(toks, i0 + 2, SegmentModel { out: redirect_after(toks, i0, append, acc.out), ..acc }));
            assert(segment_scan(toks, i0 + 2, SegmentModel { out: redirect_after(toks, i0, append, acc.out), ..acc }) == segment_scan(toks, i as int, SegmentModel { out: redirect_after(toks, i0, append, acc.out), ..acc }));
        } else if word_is(&t, &word_2gt()) || word_is(&t, &word_2gtgt()) {
            let append = word_is(&t, &word_2gtgt());
            if i + 1 < tokens.len() {
                let p = chars_of(tokens[i + 1]);
                assert(toks[i + 1] == p@);
                redirect_err = Some(Redirect { path: string_of(&p), append });
            }
            if i + 1 >= tokens.len() {
                i = tokens.len();
            } else {
                i += 2;
            }
        } else {
            let w = string_of(&t);
            proof { lemma_strings_push(args@, w); }
            args.push(w);
            i += 1;
            assert(segment_scan(toks, i0, acc) == segment_scan(toks, i as int, SegmentModel { args: acc.args.push(t@), ..acc }));
        }
    }
    if args.len() == 0 {
        return None;
    }
    let seg = Segment { args, redirect_out, redirect_err, background };
    Some(seg)
}

} // verus!

verus! {

pub proof fn lemma_units_push(r: Seq<Unit>, x: Unit)
    ensures
        unit_models(r.push(x)) == unit_models(r).push(x.model()),
{
    assert(unit_models(r.push(x)) =~= unit_models(r).push(x.model()));
}

proof fn lemma_strs_push(r: Seq<&str>, x: &str)
    ensures
        views_of_strs(r.push(x)) == views_of_strs(r).push(x@),
{
    assert(views_of_strs(r.push(x)) =~= views_of_strs(r).push(x@));
}

/// Closes the words read so far into a unit, if they make a segment.
fn close(units: &mut Vec<Unit>, cur: &Vec<&str>, op: Option<Op>)
    ensures
        unit_models(final(units)@) == unit_models(old(units)@) + close_unit(views_of_strs(cur@), op),
{
    match build_segment(cur.as_slice()) {
        Some(seg) => {
            let u = Unit { segment: seg, op };
            proof { lemma_units_push(units@, u); }
            units.push(u);
        },
        None => {
            assert(unit_models(units@) + Seq::<UnitModel>::empty() == unit_models(units@));
        },
    }
}

/// Splits a command line's words into units at `|`, `||` and `&&`.
pub fn parse_input(tokens: &[&str]) -> (r: Vec<Unit>)
    ensures
        unit_models(r@) == units_of(views_of_strs(tokens@)),
{
    let ghost toks = views_of_strs(tokens@);
    let mut units: Vec<Unit> = Vec::new();
    let mut current_tokens: Vec<&str> = Vec::new();
    assert(unit_models(units@) =~= Seq::<UnitModel>::empty());
    assert(views_of_strs(current_tokens@) =~= Seq::<Seq<char>>::empty());
    let mut i: usize = 0;
    while i < tokens.len()
        invariant
            i <= tokens.len(),
            toks == views_of_strs(tokens@),
            units_of(toks) == unit_models(units@) + units_scan(toks, i as int, views_of_strs(current_tokens@)),
        decreases tokens.len() - i,
    {
        let t = tokens[i];
        let tc = chars_of(t);
        assert(toks[i as int] == t@);
        let ghost before = unit_models(units@);
        let ghost cur = views_of_strs(current_tokens@);
        let op: Option<Op> = if word_is(&tc, &op_chars(2)) {
            Some(Op::Pipe)
        } else if word_is(&tc, &op_chars(1)) {
            Some(Op::Or)
        } else if word_is(&tc, &op_chars(0)) {
            Some(Op::And)
        } else {
            None
        };
        assert(op == op_of_word(t@));
        match op {
            Some(o) => {
                close(&mut units, &current_tokens, Some(o));
                current_tokens.clear();
                assert(views_of_strs(current_tokens@) =~= Seq::<Seq<char>>::empty());
                assert(units_scan(toks, i as int, cur) == close_unit(cur, Some(o)) + units_scan(toks, i + 1, Seq::empty()));
                assert(before + (close_unit(cur, Some(o)) + units_scan(toks, i + 1, Seq::empty())) == unit_models(units@) + units_scan(toks, i + 1, Seq::empty()));
            },
            None => {
                proof { lemma_strs_push(current_tokens@, t); }
                current_tokens.push(t);
            },
        }
        i += 1;
    }
    if current_tokens.len() > 0 {
        close(&mut units, &current_tokens, None);
    } else {
        assert(unit_models(units@) + Seq::<UnitModel>::empty() == unit_models(units@));
    }
    units
}

} // verus!

verus! {

// ───────────────────────────── pipeline groups ─────────────────────────────

/// Segments joined by `|`, with the operator after the last of them.
pub type PipelineGroup = (Vec<Segment>, Option<Op>);

pub open spec fn segment_models(s: Seq<Segment>) -> Seq<SegmentModel> {
    s.map_values(|x: Segment| x.model())
}

pub open spec fn group_model(g: PipelineGroup) -> (Seq<SegmentModel>, Option<Op>) {
    (segment_models(g.0@), g.1)
}

pub open spec fn group_models(g: Seq<PipelineGroup>) -> Seq<(Seq<SegmentModel>, Option<Op>)> {
    g.map_values(|x: PipelineGroup| group_model(x))
}

/// Groups of units from position `i` on, `cur` holding the segments of the
/// group being read: a unit whose operator is not `|` ends its group, and
/// that operator becomes the group's.
pub open spec fn groups_scan(units: Seq<UnitModel>, i: int, cur: Seq<SegmentModel>) -> Seq<(Seq<SegmentModel>, Option<Op>)>
    decreases units.len() - i,
{
    if i < 0 || i >= units.len() {
        if cur.len() > 0 {
            seq![(cur, None)]
        } else {
            Seq::empty()
        }
    } else {
        let u = units[i];
        if u.op == Some(Op::Pipe) {
            groups_scan(units, i + 1, cur.push(u.segment))
        } else {
            seq![(cur.push(u.segment), u.op)] + groups_scan(units, i + 1, Seq::empty())
        }
    }
}

pub open spec fn groups_of(units: Seq<UnitModel>) -> Seq<(Seq<SegmentModel>, Option<Op>)> {
    groups_scan(units, 0, Seq::empty())
}

/// The segments of the groups, one group after the other.
pub open spec fn group_segments(gs: Seq<(Seq<SegmentModel>, Option<Op>)>) -> Seq<SegmentModel>
    decreases gs.len(),
{
    if gs.len() == 0 {
        Seq::empty()
    } else {
        group_segments(gs.drop_last()) + gs.last().0
    }
}

/// Each group holds a segment, and no group ends in `|`.
pub open spec fn groups_well_formed(gs: Seq<(Seq<SegmentModel>, Option<Op>)>) -> bool {
    forall|k: int| 0 <= k < gs.len() ==> #[trigger] gs[k].0.len() > 0 && gs[k].1 != Some(Op::Pipe)
}

proof fn lemma_group_segments_concat(a: Seq<(Seq<SegmentModel>, Option<Op>)>, b: Seq<(Seq<SegmentModel>, Option<Op>)>)
    ensures
        group_segments(a + b) == group_segments(a) + group_segments(b),
    decreases b.len(),
{
    if b.len() == 0 {
        assert(a + b =~= a);
        assert(group_segments(a) + Seq::<SegmentModel>::empty() =~= group_segments(a));
    } else {
        lemma_group_segments_concat(a, b.drop_last());
        assert((a + b).drop_last() =~= a + b.drop_last());
        assert((a + b).last() == b.last());
        assert(group_segments(a) + group_segments(b.drop_last()) + b.last().0 =~= group_segments(a) + (group_segments(
            b.drop_last(),
        ) + b.last().0));
    }
}

proof fn lemma_groups_scan(units: Seq<UnitModel>, i: int, cur: Seq<SegmentModel>)
    requires
        0 <= i <= units.len(),
    ensures
        group_segments(groups_scan(units, i, cur)) == cur + units.subrange(i, units.len() as int).map_values(
            |u: UnitModel| u.segment,
        ),
        forall|k: int| 0 <= k < groups_scan(units, i, cur).len() ==> #[trigger] groups_scan(units, i, cur)[k].1 != Some(
            Op::Pipe,
        ),
        forall|k: int| 0 <= k < groups_scan(units, i, cur).len() ==> (#[trigger] groups_scan(units, i, cur)[k]).0.len() > 0,
    decreases units.len() - i,
{
    let rest = units.subrange(i, units.len() as int).map_values(|u: UnitModel| u.segment);
    if i >= units.len() {
        assert(rest =~= Seq::<SegmentModel>::empty());
        assert(cur + rest =~= cur);
        if cur.len() > 0 {
            let g = seq![(cur, None::<Op>)];
            assert(g.drop_last() =~= Seq::<(Seq<SegmentModel>, Option<Op>)>::empty());
            assert(group_segments(Seq::<(Seq<SegmentModel>, Option<Op>)>::empty()) == Seq::<SegmentModel>::empty());
            assert(g.last() == (cur, None::<Op>));
            assert(Seq::<SegmentModel>::empty() + cur =~= cur);
            assert(group_segments(g) =~= cur);
        }
    } else {
        let u = units[i];
        let rest1 = units.subrange(i + 1, units.len() as int).map_values(|u: UnitModel| u.segment);
        assert(rest =~= seq![u.segment] + rest1);
        if u.op == Some(Op::Pipe) {
            lemma_groups_scan(units, i + 1, cur.push(u.segment));
            assert(cur.push(u.segment) + rest1 =~= cur + rest);
        } else {
            lemma_groups_scan(units, i + 1, Seq::empty());
            let a = seq![(cur.push(u.segment), u.op)];
            let b = groups_scan(units, i + 1, Seq::empty());
            lemma_group_segments_concat(a, b);
            assert(a.drop_last() =~= Seq::<(Seq<SegmentModel>, Option<Op>)>::empty());
            assert(group_segments(Seq::<(Seq<SegmentModel>, Option<Op>)>::empty()) == Seq::<SegmentModel>::empty());
            assert(a.last() == (cur.push(u.segment), u.op));
            assert(Seq::<SegmentModel>::empty() + cur.push(u.segment) =~= cur.push(u.segment));
            assert(group_segments(a) =~= cur.push(u.segment));
            assert(Seq::<SegmentModel>::empty() + rest1 =~= rest1);
            assert(cur.push(u.segment) + rest1 =~= cur + rest);
            assert forall|k: int| 0 <= k < (a + b).len() implies #[trigger] (a + b)[k].1 != Some(Op::Pipe) && (a + b)[k].0.len() > 0 by {
                if k > 0 {
                    assert((a + b)[k] == b[k - 1]);
                }
            }
        }
    }
}

/// The units a group stands for: its segments joined by `|`, the last one
/// followed by the group's operator.
pub open spec fn group_units(g: (Seq<SegmentModel>, Option<Op>)) -> Seq<UnitModel> {
    Seq::new(
        g.0.len(),
        |k: int| UnitModel { segment: g.0[k], op: if k + 1 < g.0.len() { Some(Op::Pipe) } else { g.1 } },
    )
}

/// The units that groups stand for, one group after the other.
pub open spec fn ungroup(gs: Seq<(Seq<SegmentModel>, Option<Op>)>) -> Seq<UnitModel>
    decreases gs.len(),
{
    if gs.len() == 0 {
        Seq::empty()
    } else {
        ungroup(gs.drop_last()) + group_units(gs.last())
    }
}

/// Segments joined by `|`.
pub open spec fn piped(cur: Seq<SegmentModel>) -> Seq<UnitModel> {
    Seq::new(cur.len(), |k: int| UnitModel { segment: cur[k], op: Some(Op::Pipe) })
}

proof fn lemma_ungroup_concat(a: Seq<(Seq<SegmentModel>, Option<Op>)>, b: Seq<(Seq<SegmentModel>, Option<Op>)>)
    ensures
        ungroup(a + b) == ungroup(a) + ungroup(b),
    decreases b.len(),
{
    if b.len() == 0 {
        assert(a + b =~= a);
        assert(ungroup(a) + Seq::<UnitModel>::empty() =~= ungroup(a));
    } else {
        lemma_ungroup_concat(a, b.drop_last());
        assert((a + b).drop_last() =~= a + b.drop_last());
        assert((a + b).last() == b.last());
        assert(ungroup(a) + ungroup(b.drop_last()) + group_units(b.last()) =~= ungroup(a) + (ungroup(b.drop_last())
            + group_units(b.last())));
    }
}

proof fn lemma_groups_scan_units(units: Seq<UnitModel>, i: int, cur: Seq<SegmentModel>)
    requires
        0 <= i <= units.len(),
        units.len() == 0 || units.last().op != Some(Op::Pipe),
        cur.len() > 0 ==> i > 0 && units[i - 1].op == Some(Op::Pipe),
    ensures
        ungroup(groups_scan(units, i, cur)) == piped(cur) + units.skip(i),
    decreases units.len() - i,
{
    if i >= units.len() {
        assert(cur.len() == 0);
        assert(piped(cur) + units.skip(i) =~= Seq::<UnitModel>::empty());
    } else {
        let u = units[i];
        assert(units.skip(i) =~= seq![u] + units.skip(i + 1));
        if u.op == Some(Op::Pipe) {
            lemma_groups_scan_units(units, i + 1, cur.push(u.segment));
            assert(piped(cur.push(u.segment)) =~= piped(cur) + seq![u]);
            assert(piped(cur.push(u.segment)) + units.skip(i + 1) =~= piped(cur) + units.skip(i));
        } else {
            lemma_groups_scan_units(units, i + 1, Seq::empty());
            let g = (cur.push(u.segment), u.op);
            let a = seq![g];
            let b = groups_scan(units, i + 1, Seq::empty());
            lemma_ungroup_concat(a, b);
            assert(a.drop_last() =~= Seq::<(Seq<SegmentModel>, Option<Op>)>::empty());
            assert(ungroup(Seq::<(Seq<SegmentModel>, Option<Op>)>::empty()) == Seq::<UnitModel>::empty());
            assert(a.last() == g);
            assert(group_units(g) =~= piped(cur) + seq![u]);
            assert(ungroup(a) =~= piped(cur) + seq![u]);
            assert(piped(Seq::<SegmentModel>::empty()) + units.skip(i + 1) =~= units.skip(i + 1));
            assert(ungroup(a) + ungroup(b) =~= piped(cur) + units.skip(i));
        }
    }
}

/// Grouping into pipelines gives back the units: within a group every unit
/// but the last ends in `|`, and the group's operator is that of its last
/// unit (only a `|` that ends the whole line is dropped).
pub proof fn lemma_groups_give_back_units(units: Seq<UnitModel>)
    requires
        units.len() == 0 || units.last().op != Some(Op::Pipe),
    ensures
        ungroup(groups_of(units)) == units,
{
    lemma_groups_scan_units(units, 0, Seq::empty());
    assert(piped(Seq::<SegmentModel>::empty()) + units.skip(0) =~= units);
}

/// Grouping units into pipelines keeps every segment, in order; each group
/// holds a segment, and no group ends in `|`.
pub proof fn lemma_groups_keep_segments(units: Seq<UnitModel>)
    ensures
        group_segments(groups_of(units)) == units.map_values(|u: UnitModel| u.segment),
        groups_well_formed(groups_of(units)),
{
    lemma_groups_scan(units, 0, Seq::empty());
    assert(units.subrange(0, units.len() as int) =~= units);
    assert(Seq::<SegmentModel>::empty() + units.map_values(|u: UnitModel| u.segment) =~= units.map_values(
        |u: UnitModel| u.segment,
    ));
}

/// Splits units into pipelines: each group is the segments joined by `|`,
/// with the `&&`/`||` (or nothing) that follows it.
pub fn split_into_pipeline_groups(units: Vec<Unit>) -> (r: Vec<PipelineGroup>)
    ensures
        group_models(r@) == groups_of(unit_models(units@)),
{
    let ghost all = unit_models(units@);
    let mut units = units;
    let mut groups: Vec<PipelineGroup> = Vec::new();
    let mut current_pipe: Vec<Segment> = Vec::new();
    let ghost mut i: int = 0;
    assert(group_models(groups@) =~= Seq::<(Seq<SegmentModel>, Option<Op>)>::empty());
    assert(segment_models(current_pipe@) =~= Seq::<SegmentModel>::empty());
    assert(unit_models(units@) =~= all.subrange(0, all.len() as int));
    while units.len() > 0
        invariant
            0 <= i <= all.len(),
            unit_models(units@) == all.subrange(i, all.len() as int),
            groups_of(all) == group_models(groups@) + groups_scan(all, i, segment_models(current_pipe@)),
        decreases units.len(),
    {
        let ghost old_units = units@;
        assert(unit_models(old_units).len() == old_units.len());
        assert(i < all.len());
        let unit = units.remove(0);
        assert(unit_models(old_units)[0] == all.subrange(i, all.len() as int)[0]);
        assert(old_units[0] == unit);
        assert(unit_models(old_units)[0] == old_units[0].model());
        assert(all.subrange(i, all.len() as int)[0] == all[i]);
        assert(old_units[0].model() == all[i]);
        assert(unit.model() == old_units[0].model());
        assert(unit.model() == all[i]);
        let ghost before = group_models(groups@);
        let ghost cur = segment_models(current_pipe@);
        let op = unit.op;
        proof {
            assert(segment_models(current_pipe@.push(unit.segment)) =~= cur.push(unit.segment.model()));
        }
        current_pipe.push(unit.segment);
        proof {
            assert(units@ == old_units.drop_first());
            assert(unit_models(units@).len() == units@.len());
            assert forall|k: int| 0 <= k < units@.len() implies unit_models(units@)[k] == all.subrange(i + 1, all.len() as int)[k] by {
                assert(unit_models(old_units)[k + 1] == all.subrange(i, all.len() as int)[k + 1]);
                assert(unit_models(old_units)[k + 1] == old_units[k + 1].model());
                assert(unit_models(units@)[k] == units@[k].model());
                assert(units@[k] == old_units[k + 1]);
            }
            assert(unit_models(units@) =~= all.subrange(i + 1, all.len() as int));
        }
        match op {
            Some(Op::Pipe) => {},
            other => {
                let mut finished: Vec<Segment> = Vec::new();
                std::mem::swap(&mut finished, &mut current_pipe);
                let g: PipelineGroup = (finished, other);
                proof {
                    assert(group_models(groups@.push(g)) =~= before.push(group_model(g)));
                    assert(segment_models(current_pipe@) =~= Seq::<SegmentModel>::empty());
                    assert(groups_scan(all, i, cur) == seq![(cur.push(all[i].segment), all[i].op)] + groups_scan(all, i + 1, Seq::empty()));
                    assert(before + (seq![group_model(g)] + groups_scan(all, i + 1, Seq::empty())) == before.push(group_model(g)) + groups_scan(all, i + 1, Seq::empty()));
                }
                groups.push(g);
            },
        }
        proof {
            i = i + 1;
        }
    }
    if current_pipe.len() > 0 {
        let ghost before = group_models(groups@);
        let g: PipelineGroup = (current_pipe, None);
        proof {
            assert(group_models(groups@.push(g)) =~= before.push(group_model(g)));
        }
        groups.push(g);
    } else {
        assert(group_models(groups@) + Seq::<(Seq<SegmentModel>, Option<Op>)>::empty() == group_models(groups@));
    }
    groups
}

// ───────────────────────────── && and || chains ─────────────────────────────

/// Progress through the `&&`/`||` chain of a command line.
#[derive(Debug, Clone, Copy, PartialEq, Eq, Structural)]
pub struct ChainState {
    /// The groups after a failed `&&` are being skipped.
    pub skip_and: bool,
    /// The groups after a successful `||` are being skipped.
    pub skip_or: bool,
    /// Exit code of the line so far.
    pub last_code: i32,
}

/// Chain state and whether the next group runs, before a group whose
/// trailing operator is `op`: a group skipped after `&&` keeps skipping while
/// its own operator is `&&` and sets the line's exit code to 1; a group
/// skipped after `||` keeps skipping while its operator is `||` and leaves
/// the exit code as it is.
pub open spec fn chain_before(s: ChainState, op: Option<Op>) -> (ChainState, bool) {
    if s.skip_and {
        (ChainState { skip_and: op == Some(Op::And), skip_or: s.skip_or, last_code: 1 }, false)
    } else if s.skip_or {
        (ChainState { skip_and: s.skip_and, skip_or: op == Some(Op::Or), last_code: s.last_code }, false)
    } else {
        (s, true)
    }
}

/// Chain state after a group with trailing operator `op` ran and exited with `code`.
pub open spec fn chain_after(s: ChainState, op: Option<Op>, code: i32) -> ChainState {
    ChainState {
        skip_and: s.skip_and || (op == Some(Op::And) && code != 0),
        skip_or: s.skip_or || (op == Some(Op::Or) && code == 0),
        last_code: code,
    }
}

impl ChainState {
    /// The state at the start of a line: nothing skipped, exit code 0.
    pub fn new() -> (s: ChainState)
        ensures
            s == (ChainState { skip_and: false, skip_or: false, last_code: 0 }),
    {
        ChainState { skip_and: false, skip_or: false, last_code: 0 }
    }

    /// Decides whether the next group, whose trailing operator is `op`, runs.
    pub fn before_group(&mut self, op: Option<Op>) -> (run: bool)
        ensures
            (*final(self), run) == chain_before(*old(self), op),
    {
        if self.skip_and {
            self.skip_and = op == Some(Op::And);
            self.last_code = 1;
            return false;
        }
        if self.skip_or {
            self.skip_or = op == Some(Op::Or);
            return false;
        }
        true
    }

    /// Records that a group with trailing operator `op` ran and exited with `code`.
    pub fn after_group(&mut self, op: Option<Op>, code: i32)
        ensures
            *final(self) == chain_after(*old(self), op, code),
    {
        self.last_code = code;
        match op {
            Some(Op::And) => {
                if code != 0 {
                    self.skip_and = true;
                }
            },
            Some(Op::Or) => {
                if code == 0 {
                    self.skip_or = true;
                }
            },
            _ => {},
        }
    }
}

/// `a && b`: after `a` ran with trailing `&&`, `b` runs exactly when `a` exited with 0.
pub proof fn lemma_and_runs_next_on_success(s: ChainState, code: i32, next_op: Option<Op>)
    requires
        chain_before(s, Some(Op::And)).1,
    ensures
        chain_before(chain_after(chain_before(s, Some(Op::And)).0, Some(Op::And), code), next_op).1
            <==> code == 0,
{
}

/// `a || b`: after `a` ran with trailing `||`, `b` runs exactly when `a` exited with a non-zero code.
pub proof fn lemma_or_runs_next_on_failure(s: ChainState, code: i32, next_op: Option<Op>)
    requires
        chain_before(s, Some(Op::Or)).1,
    ensures
        chain_before(chain_after(chain_before(s, Some(Op::Or)).0, Some(Op::Or), code), next_op).1
            <==> code != 0,
{
}

/// A group that runs sets the line's exit code to its own.
pub proof fn lemma_ran_group_sets_code(s: ChainState, op: Option<Op>, code: i32)
    ensures
        chain_after(s, op, code).last_code == code,
{
}

/// A group skipped after a failed `&&` does not run and sets the line's
/// exit code to 1.
pub proof fn lemma_skipped_and_sets_one(s: ChainState, op: Option<Op>)
    requires
        s.skip_and,
    ensures
        !chain_before(s, op).1,
        chain_before(s, op).0.last_code == 1,
{
}

/// What became of a group of a command line.
pub enum GroupFate {
    /// It ran.
    Ran,
    /// It was skipped after a failed `&&`.
    SkippedAnd,
    /// It was skipped after a successful `||`.
    SkippedOr,
}

/// The exit code a group leaves the line with when it ran (`code`) or was
/// skipped after `&&` (1); a group skipped after `||` leaves none.
pub open spec fn fate_code(f: GroupFate, code: i32) -> i32 {
    match f {
        GroupFate::Ran => code,
        _ => 1,
    }
}

/// A whole command line's chain: the state after its groups (each given by
/// its trailing operator and the code it exits with when it runs), and
/// what became of each group.
pub open spec fn chain_run(s: ChainState, groups: Seq<(Option<Op>, i32)>) -> (ChainState, Seq<GroupFate>)
    decreases groups.len(),
{
    if groups.len() == 0 {
        (s, Seq::empty())
    } else {
        let g = groups[0];
        let s1 = chain_before(s, g.0).0;
        let run = chain_before(s, g.0).1;
        let s2 = if run {
            chain_after(s1, g.0, g.1)
        } else {
            s1
        };
        let fate = if run {
            GroupFate::Ran
        } else if s.skip_and {
            GroupFate::SkippedAnd
        } else {
            GroupFate::SkippedOr
        };
        let r = chain_run(s2, groups.drop_first());
        (r.0, seq![fate] + r.1)
    }
}

/// The exit code of a command line is the one left by the last group that
/// ran or was skipped after a failed `&&` (its own code, or 1), groups
/// skipped after a successful `||` leaving it unchanged; when every group was
/// skipped after `||` it is what it was before (0 for a fresh line).
pub proof fn lemma_line_code_is_last_decided(s: ChainState, groups: Seq<(Option<Op>, i32)>)
    ensures
        chain_run(s, groups).1.len() == groups.len(),
        (forall|i: int| 0 <= i < groups.len() ==> #[trigger] chain_run(s, groups).1[i] == GroupFate::SkippedOr)
            && chain_run(s, groups).0.last_code == s.last_code || exists|i: int|
            0 <= i < groups.len() && #[trigger] chain_run(s, groups).1[i] != GroupFate::SkippedOr
                && chain_run(s, groups).0.last_code == fate_code(chain_run(s, groups).1[i], groups[i].1)
                && forall|j: int| i < j < groups.len() ==> chain_run(s, groups).1[j] == GroupFate::SkippedOr,
    decreases groups.len(),
{
    if groups.len() > 0 {
        let g = groups[0];
        let s1 = chain_before(s, g.0).0;
        let run = chain_before(s, g.0).1;
        let s2 = if run { chain_after(s1, g.0, g.1) } else { s1 };
        let rest = groups.drop_first();
        lemma_line_code_is_last_decided(s2, rest);
        let r = chain_run(s2, rest);
        let fates = chain_run(s, groups).1;
        let f0 = fates[0];
        assert(fates == seq![f0] + r.1);
        assert forall|k: int| 0 <= k < rest.len() implies fates[k + 1] == r.1[k] && groups[k + 1] == rest[k] by {}
        if exists|i: int| 0 <= i < rest.len() && #[trigger] r.1[i] != GroupFate::SkippedOr
            && r.0.last_code == fate_code(r.1[i], rest[i].1)
            && forall|j: int| i < j < rest.len() ==> r.1[j] == GroupFate::SkippedOr {
            let i = choose|i: int| 0 <= i < rest.len() && #[trigger] r.1[i] != GroupFate::SkippedOr
                && r.0.last_code == fate_code(r.1[i], rest[i].1)
                && forall|j: int| i < j < rest.len() ==> r.1[j] == GroupFate::SkippedOr;
            assert(fates[i + 1] != GroupFate::SkippedOr);
            assert forall|j: int| i + 1 < j < groups.len() implies fates[j] == GroupFate::SkippedOr by {
                assert(fates[j] == r.1[j - 1]);
            }
        } else if f0 != GroupFate::SkippedOr {
            assert(fates[0] != GroupFate::SkippedOr);
            assert forall|j: int| 0 < j < groups.len() implies fates[j] == GroupFate::SkippedOr by {
                assert(fates[j] == r.1[j - 1]);
            }
        } else {
            assert forall|i: int| 0 <= i < groups.len() implies #[trigger] fates[i] == GroupFate::SkippedOr by {
                if i > 0 {
                    assert(fates[i] == r.1[i - 1]);
                }
            }
        }
    }
}

/// In a line of groups joined by `&&`, the groups run up to and including
/// the first that fails.
pub proof fn lemma_and_chain_stops_at_failure(s: ChainState, groups: Seq<(Option<Op>, i32)>, k: int)
    requires
        !s.skip_and,
        !s.skip_or,
        0 <= k < groups.len(),
        forall|i: int| 0 <= i < groups.len() - 1 ==> #[trigger] groups[i].0 == Some(Op::And),
    ensures
        chain_run(s, groups).1[k] == GroupFate::Ran <==> forall|i: int| 0 <= i < k ==> #[trigger] groups[i].1 == 0,
    decreases groups.len(),
{
    let g = groups[0];
    let rest = groups.drop_first();
    let s2 = chain_after(s, g.0, g.1);
    let fates = chain_run(s, groups).1;
    lemma_line_code_is_last_decided(s2, rest);
    assert(chain_before(s, g.0) == (s, true));
    assert(fates == seq![GroupFate::Ran] + chain_run(s2, rest).1);
    if k > 0 {
        assert(g.0 == Some(Op::And));
        if g.1 == 0 {
            assert(!s2.skip_and && !s2.skip_or);
            assert forall|i: int| 0 <= i < rest.len() - 1 implies #[trigger] rest[i].0 == Some(Op::And) by {
                assert(rest[i] == groups[i + 1]);
            }
            lemma_and_chain_stops_at_failure(s2, rest, k - 1);
            assert(fates[k] == chain_run(s2, rest).1[k - 1]);
            assert((forall|i: int| 0 <= i < k - 1 ==> #[trigger] rest[i].1 == 0) <==> (forall|i: int| 0 <= i < k ==> #[trigger] groups[i].1 == 0)) by {
                assert forall|i: int| 0 <= i < k - 1 implies rest[i] == groups[i + 1] by {}
                if forall|i: int| 0 <= i < k - 1 ==> #[trigger] rest[i].1 == 0 {
                    assert forall|i: int| 0 <= i < k implies #[trigger] groups[i].1 == 0 by {
                        if i > 0 {
                            assert(rest[i - 1].1 == 0);
                        }
                    }
                }
            }
        } else {
            assert(s2.skip_and);
            lemma_skipping_and_stays(s2, rest);
            assert(fates[k] == chain_run(s2, rest).1[k - 1]);
            assert(groups[0].1 != 0);
        }
    }
}

proof fn lemma_skipping_and_stays(s: ChainState, groups: Seq<(Option<Op>, i32)>)
    requires
        s.skip_and,
        forall|i: int| 0 <= i < groups.len() - 1 ==> #[trigger] groups[i].0 == Some(Op::And),
    ensures
        forall|i: int| 0 <= i < groups.len() ==> #[trigger] chain_run(s, groups).1[i] != GroupFate::Ran,
    decreases groups.len(),
{
    if groups.len() > 0 {
        let g = groups[0];
        let rest = groups.drop_first();
        let s1 = chain_before(s, g.0).0;
        let fates = chain_run(s, groups).1;
        lemma_line_code_is_last_decided(s1, rest);
        assert(fates == seq![GroupFate::SkippedAnd] + chain_run(s1, rest).1);
        if rest.len() > 0 {
            assert(g.0 == Some(Op::And));
            assert(s1.skip_and);
            assert forall|i: int| 0 <= i < rest.len() - 1 implies #[trigger] rest[i].0 == Some(Op::And) by {
                assert(rest[i] == groups[i + 1]);
            }
            lemma_skipping_and_stays(s1, rest);
        }
        assert forall|i: int| 0 <= i < groups.len() implies #[trigger] fates[i] != GroupFate::Ran by {
            if i > 0 {
                assert(fates[i] == chain_run(s1, rest).1[i - 1]);
            }
        }
    }
}

} // verus!

verus! {

// ───────────────────────────── expansion ─────────────────────────────

/// `$$` is the shell's process id, `$NAME` the variable's value in `env`
/// (empty when unset); any other word stays as it is.
pub open spec fn expand_variables_spec(arg: Seq<char>, pid: u32, env: Map<Seq<char>, Seq<char>>) -> Seq<char> {
    if arg == seq!['$', '$'] {
        decimal(pid as nat)
    } else if arg.len() > 1 && arg[0] == '$' {
        let name = arg.drop_first();
        if env.contains_key(name) {
            env[name]
        } else {
            Seq::empty()
        }
    } else {
        arg
    }
}

/// Expands a whole-word variable reference (`$$` or `$NAME`).
pub fn expand_variables(arg: &str, pid: u32, env: &VarMap) -> (r: String)
    ensures
        r@ == expand_variables_spec(arg@, pid, env.view()),
{
    let a = chars_of(arg);
    if a.len() == 2 && a[0] == '$' && a[1] == '$' {
        assert(a@ =~= seq!['$', '$']);
        return string_of(&decimal_chars(pid as u64));
    }
    if a.len() > 1 && a[0] == '$' {
        assert(a@ != seq!['$', '$']);
        let name = substring(&a, 1, a.len());
        assert(name@ =~= a@.drop_first());
        return match env.get(name.as_str()) {
            Some(v) => v.clone(),
            None => String::new(),
        };
    }
    if a.len() == 2 {
        assert(a@ != seq!['$', '$']);
    }
    string_of(&a)
}

/// `~` alone is the home directory, `~/rest` is `rest` under it; without a
/// home directory, or for any other word, the word stays as it is.
pub open spec fn expand_tilde_spec(path: Seq<char>, home: Option<Seq<char>>) -> Seq<char> {
    match home {
        Some(h) => if path == seq!['~'] {
            h
        } else if path.len() >= 2 && path[0] == '~' && path[1] == '/' {
            h + seq!['/'] + path.skip(2)
        } else {
            path
        },
        None => path,
    }
}

pub open spec fn opt_view(o: Option<&str>) -> Option<Seq<char>> {
    match o {
        Some(s) => Some(s@),
        None => None,
    }
}

/// Expands a leading `~` to the home directory `home`.
pub fn expand_tilde(path: &str, home: Option<&str>) -> (r: String)
    ensures
        r@ == expand_tilde_spec(path@, opt_view(home)),
{
    let p = chars_of(path);
    match home {
        Some(h) => {
            if p.len() == 1 && p[0] == '~' {
                assert(p@ =~= seq!['~']);
                return owned(h);
            }
            if p.len() >= 2 && p[0] == '~' && p[1] == '/' {
                assert(p@ != seq!['~']);
                let mut r = owned(h);
                push_char(&mut r, '/');
                let rest = slice_of(&p, 2, p.len());
                push_chars(&mut r, &rest);
                assert(rest@ =~= p@.skip(2));
                return r;
            }
            if p.len() == 1 {
                assert(p@ != seq!['~']);
            }
            string_of(&p)
        },
        None => string_of(&p),
    }
}

/// The value of `HOME` in an environment snapshot.
pub open spec fn home_of(env: Map<Seq<char>, Seq<char>>) -> Option<Seq<char>> {
    if env.contains_key(seq!['H', 'O', 'M', 'E']) {
        Some(env[seq!['H', 'O', 'M', 'E']])
    } else {
        None
    }
}

/// The name `HOME`.
pub fn home_key() -> (r: String)
    ensures
        r@ == seq!['H', 'O', 'M', 'E'],
{
    string_of(&['H', 'O', 'M', 'E'])
}

// ───────────────────────────── shell environment ─────────────────────────────

/// The variables the shell itself has set, handed to every command it starts.
pub struct ShellEnv {
    overrides: VarMap,
}

impl ShellEnv {
    pub closed spec fn view(&self) -> Map<Seq<char>, Seq<char>> {
        self.overrides.view()
    }

    /// No variable set.
    pub fn new() -> (e: ShellEnv)
        ensures
            e.view() == Map::<Seq<char>, Seq<char>>::empty(),
    {
        ShellEnv { overrides: VarMap::new() }
    }

    /// Records `key = value`.
    pub fn set(&mut self, key: &str, value: &str)
        ensures
            final(self).view() == old(self).view().insert(key@, value@),
    {
        self.overrides.insert(owned(key), owned(value));
    }

    /// Forgets `key`.
    pub fn remove(&mut self, key: &str)
        ensures
            final(self).view() == old(self).view().remove(key@),
    {
        self.overrides.remove(key);
    }

    /// The variables set, in the order they were first set.
    pub fn iter(&self) -> (r: &VarMap)
        ensures
            r.view() == self.view(),
    {
        &self.overrides
    }
}

/// The variables after a sequence of changes: `(name, Some(value))` is a
/// `set` (as `export` does), `(name, None)` a `remove` (as `unset` does).
pub open spec fn apply_env_changes(m: Map<Seq<char>, Seq<char>>, ops: Seq<(Seq<char>, Option<Seq<char>>)>) -> Map<
    Seq<char>,
    Seq<char>,
>
    decreases ops.len(),
{
    if ops.len() == 0 {
        m
    } else {
        let before = apply_env_changes(m, ops.drop_last());
        match ops.last().1 {
            Some(v) => before.insert(ops.last().0, v),
            None => before.remove(ops.last().0),
        }
    }
}

/// The last change made to `k`, if any.
pub open spec fn last_change(ops: Seq<(Seq<char>, Option<Seq<char>>)>, k: Seq<char>) -> Option<Option<Seq<char>>>
    decreases ops.len(),
{
    if ops.len() == 0 {
        None
    } else if ops.last().0 == k {
        Some(ops.last().1)
    } else {
        last_change(ops.drop_last(), k)
    }
}

/// After any sequence of `set` and `remove` (what `ShellEnv::set` and
/// `ShellEnv::remove` do to its view, and so what `iter` shows), a variable
/// holds the last value set for it unless it was removed since; a variable
/// never changed keeps what it had.
pub proof fn lemma_env_after_changes(m: Map<Seq<char>, Seq<char>>, ops: Seq<(Seq<char>, Option<Seq<char>>)>, k: Seq<char>)
    ensures
        match last_change(ops, k) {
            Some(Some(v)) => apply_env_changes(m, ops).contains_key(k) && apply_env_changes(m, ops)[k] == v,
            Some(None) => !apply_env_changes(m, ops).contains_key(k),
            None => apply_env_changes(m, ops).contains_key(k) == m.contains_key(k) && (m.contains_key(k)
                ==> apply_env_changes(m, ops)[k] == m[k]),
        },
    decreases ops.len(),
{
    if ops.len() > 0 {
        lemma_env_after_changes(m, ops.drop_last(), k);
    }
}

/// `export NAME=value` then `unset NAME`: the variable is set, then gone.
pub proof fn lemma_export_then_unset(m: Map<Seq<char>, Seq<char>>, k: Seq<char>, v: Seq<char>)
    ensures
        apply_env_changes(m, seq![(k, Some(v))]).contains_key(k),
        apply_env_changes(m, seq![(k, Some(v))])[k] == v,
        !apply_env_changes(m, seq![(k, Some(v)), (k, None)]).contains_key(k),
{
    lemma_env_after_changes(m, seq![(k, Some(v))], k);
    lemma_env_after_changes(m, seq![(k, Some(v)), (k, None::<Seq<char>>)], k);
}

} // verus!

verus! {

// ───────────────────────────── whole command lines ─────────────────────────────

/// The words that `shlex::split` gives for a text, or `None` when the text is
/// malformed (an unclosed quote or a trailing backslash).
pub uninterp spec fn shlex_split(s: Seq<char>) -> Option<Seq<Seq<char>>>;

/// `shlex::split`: splits a text into words with POSIX shell quoting rules.
/// The contract ties the result to the input through the name `shlex_split`.
#[verifier::external_body]
pub(crate) fn shell_words(s: &str) -> (r: Option<Vec<String>>)
    ensures
        match r {
            Some(v) => shlex_split(s@) == Some(views_of_strings(v@)),
            None => shlex_split(s@) is None,
        },
{
    shlex::split(s)
}

/// The units of a text: its words (shell quoting), operators cut out, then
/// grouped into units. `None` when the quoting is malformed.
pub open spec fn line_units_spec(line: Seq<char>) -> Option<Seq<UnitModel>> {
    match shlex_split(line) {
        Some(w) => Some(units_of(tokenize_seq(w))),
        None => None,
    }
}

/// Borrowed views of owned words.
pub fn as_strs(v: &Vec<String>) -> (r: Vec<&str>)
    ensures
        views_of_strs(r@) == views_of_strings(v@),
{
    let mut r: Vec<&str> = Vec::new();
    let mut i: usize = 0;
    while i < v.len()
        invariant
            i <= v@.len(),
            r@.len() == i,
            forall|j: int| 0 <= j < i ==> #[trigger] r@[j]@ == v@[j]@,
        decreases v@.len() - i,
    {
        r.push(v[i].as_str());
        i += 1;
    }
    assert(views_of_strs(r@) =~= views_of_strings(v@));
    r
}

/// Splits a text into words, cuts out the operators and groups the words into units.
pub fn line_units(line: &str) -> (r: Option<Vec<Unit>>)
    ensures
        match r {
            Some(u) => line_units_spec(line@) == Some(unit_models(u@)),
            None => line_units_spec(line@) is None,
        },
{
    match shell_words(line) {
        None => None,
        Some(words) => {
            let owned_tokens = tokenize_operators(words);
            let tokens = as_strs(&owned_tokens);
            Some(parse_input(tokens.as_slice()))
        },
    }
}

/// The units of a hook command line; none for a blank line or malformed quoting
/// (the hook is then not run).
pub fn hook_units(hook: &str) -> (r: Vec<Unit>)
    ensures
        trim(hook@).len() == 0 ==> r@.len() == 0,
        trim(hook@).len() > 0 ==> match line_units_spec(trim(hook@)) {
            Some(u) => unit_models(r@) == u,
            None => r@.len() == 0,
        },
{
    let h = trim_str(hook);
    if h.as_str().is_empty() {
        return Vec::new();
    }
    match line_units(h.as_str()) {
        Some(u) => u,
        None => Vec::new(),
    }
}

/// The `pre_command` hook, as the units to run before the first pipeline of
/// every command line typed.
pub fn pre_command_units(cfg: &ShellConfig) -> (r: Vec<Unit>)
    ensures
        trim(cfg.hooks.pre_command@).len() == 0 ==> r@.len() == 0,
        trim(cfg.hooks.pre_command@).len() > 0 ==> match line_units_spec(trim(cfg.hooks.pre_command@)) {
            Some(u) => unit_models(r@) == u,
            None => r@.len() == 0,
        },
{
    hook_units(cfg.hooks.pre_command.as_str())
}

/// The command lines of a script, in order: each line without surrounding
/// white space, leaving out blank lines and `#` comments.
pub open spec fn script_commands(lines: Seq<Seq<char>>) -> Seq<Seq<char>>
    decreases lines.len(),
{
    if lines.len() == 0 {
        Seq::empty()
    } else {
        let t = trim(lines.last());
        script_commands(lines.drop_last()) + if t.len() > 0 && t[0] != '#' {
            seq![t]
        } else {
            Seq::<Seq<char>>::empty()
        }
    }
}

/// The command lines that `source` runs from a script's text.
pub fn script_lines(content: &str) -> (r: Vec<String>)
    ensures
        views_of_strings(r@) == script_commands(crate::text::lines_of(content@)),
{
    let lines = crate::text::split_lines(&chars_of(content));
    let ghost ls = views(lines@);
    let mut out: Vec<String> = Vec::new();
    let mut i: usize = 0;
    assert(ls.take(0) =~= Seq::<Seq<char>>::empty());
    while i < lines.len()
        invariant
            i <= lines@.len(),
            ls == views(lines@),
            views_of_strings(out@) == script_commands(ls.take(i as int)),
        decreases lines@.len() - i,
    {
        let t = trim_chars(&lines[i]);
        proof {
            assert(ls.take(i + 1).drop_last() == ls.take(i as int));
            assert(ls.take(i + 1).last() == lines@[i as int]@);
        }
        if t.len() > 0 && t[0] != '#' {
            let w = string_of(&t);
            proof { lemma_strings_push(out@, w); }
            out.push(w);
        } else {
            assert(script_commands(ls.take(i + 1)) == script_commands(ls.take(i as int)) + Seq::<Seq<char>>::empty());
            assert(script_commands(ls.take(i as int)) + Seq::<Seq<char>>::empty() == script_commands(ls.take(i as int)));
        }
        i += 1;
    }
    assert(ls.take(lines@.len() as int) == ls);
    out
}

} // verus!

verus! {

// ───────────────────────────── running one segment ─────────────────────────────

/// The built-in commands.
pub open spec fn builtin_names() -> Seq<Seq<char>> {
    seq![
        seq!['e', 'c', 'h', 'o'],
        seq!['c', 'd'],
        seq!['p', 'w', 'd'],
        seq!['t', 'y', 'p', 'e'],
        seq!['e', 'x', 'i', 't'],
        seq!['h', 'i', 's', 't', 'o', 'r', 'y'],
        seq!['c', 'l', 'e', 'a', 'r'],
        seq!['h', 'e', 'l', 'p'],
        seq!['e', 'x', 'p', 'o', 'r', 't'],
        seq!['u', 'n', 's', 'e', 't'],
        seq!['s', 'o', 'u', 'r', 'c', 'e'],
        seq!['j', 'o', 'b', 's'],
        seq!['l', 's'],
        seq!['r', 'e', 'h', 'a', 's', 'h'],
        seq!['r', 'e', 'l', 'o', 'a', 'd'],
    ]
}

fn builtin_list() -> (r: Vec<Vec<char>>)
    ensures
        views(r@) == builtin_names(),
{
    let r: Vec<Vec<char>> = vec![
        vec!['e', 'c', 'h', 'o'],
        vec!['c', 'd'],
        vec!['p', 'w', 'd'],
        vec!['t', 'y', 'p', 'e'],
        vec!['e', 'x', 'i', 't'],
        vec!['h', 'i', 's', 't', 'o', 'r', 'y'],
        vec!['c', 'l', 'e', 'a', 'r'],
        vec!['h', 'e', 'l', 'p'],
        vec!['e', 'x', 'p', 'o', 'r', 't'],
        vec!['u', 'n', 's', 'e', 't'],
        vec!['s', 'o', 'u', 'r', 'c', 'e'],
        vec!['j', 'o', 'b', 's'],
        vec!['l', 's'],
        vec!['r', 'e', 'h', 'a', 's', 'h'],
        vec!['r', 'e', 'l', 'o', 'a', 'd'],
    ];
    assert(views(r@) =~= builtin_names());
    r
}

/// Whether `name` is one of `names`.
pub fn is_among(names: &Vec<Vec<char>>, name: &Vec<char>) -> (r: bool)
    ensures
        r == views(names@).contains(name@),
{
    let mut i: usize = 0;
    while i < names.len()
        invariant
            i <= names@.len(),
            forall|j: int| 0 <= j < i ==> views(names@)[j] != name@,
        decreases names@.len() - i,
    {
        if chars_eq(&names[i], name) {
            assert(views(names@)[i as int] == name@);
            return true;
        }
        i += 1;
    }
    false
}

/// Whether `name` is a built-in command (what `type` reports).
pub fn is_builtin(name: &str) -> (r: bool)
    ensures
        r == builtin_names().contains(name@),
{
    is_among(&builtin_list(), &chars_of(name))
}

} // verus!

verus! {

/// An `export` argument: `NAME=value`, or a bare `NAME` that is set to the
/// empty string unless already set.
#[derive(Debug)]
pub enum ExportItem {
    Assign(String, String),
    IfUnset(String),
}

pub enum ExportModel {
    Assign(Seq<char>, Seq<char>),
    IfUnset(Seq<char>),
}

impl ExportItem {
    pub open spec fn model(self) -> ExportModel {
        match self {
            ExportItem::Assign(k, v) => ExportModel::Assign(k@, v@),
            ExportItem::IfUnset(k) => ExportModel::IfUnset(k@),
        }
    }
}

pub open spec fn export_item_spec(kv: Seq<char>) -> ExportModel {
    match find_seq(kv, seq!['=']) {
        Some(e) => ExportModel::Assign(kv.take(e), kv.skip(e + 1)),
        None => ExportModel::IfUnset(kv),
    }
}

/// What `history` does with the list of entered lines.
#[derive(Debug, Clone, Copy, PartialEq, Eq, Structural)]
pub enum HistoryOp {
    /// No flag: list the entries, numbered from 1.
    List,
    /// `-c`: clear the list.
    Clear,
    /// `-r`: read the history file and append its entries to the list.
    Read,
    /// `-w`: write the list to the history file.
    Write,
    /// `-n`: append the entries of the history file that the list lacks.
    ReadNew,
}

/// The operation `history` performs for its arguments: one of the flags
/// `-c`, `-r`, `-w`, `-n` as first argument selects it; anything else lists.
pub open spec fn history_op_spec(rest: Seq<Seq<char>>) -> HistoryOp {
    if rest.len() == 0 {
        HistoryOp::List
    } else if rest[0] == seq!['-', 'c'] {
        HistoryOp::Clear
    } else if rest[0] == seq!['-', 'r'] {
        HistoryOp::Read
    } else if rest[0] == seq!['-', 'w'] {
        HistoryOp::Write
    } else if rest[0] == seq!['-', 'n'] {
        HistoryOp::ReadNew
    } else {
        HistoryOp::List
    }
}

/// The operation of `history` whose words, command name first, are `args`.
pub fn history_op(args: &Vec<Vec<char>>) -> (r: HistoryOp)
    requires
        args.len() >= 1,
    ensures
        r == history_op_spec(views(args@).skip(1)),
{
    let ghost rest = views(args@).skip(1);
    if args.len() == 1 {
        return HistoryOp::List;
    }
    let first = &args[1];
    assert(first@ == rest[0]);
    if chars_eq(first, &['-', 'c']) {
        HistoryOp::Clear
    } else if chars_eq(first, &['-', 'r']) {
        HistoryOp::Read
    } else if chars_eq(first, &['-', 'w']) {
        HistoryOp::Write
    } else if chars_eq(first, &['-', 'n']) {
        HistoryOp::ReadNew
    } else {
        HistoryOp::List
    }
}

/// The entries of `loaded` that `current` lacks, in the order of `loaded`:
/// what `history -n` appends to the list.
pub open spec fn fresh_entries(loaded: Seq<Seq<char>>, current: Seq<Seq<char>>) -> Seq<Seq<char>>
    decreases loaded.len(),
{
    if loaded.len() == 0 {
        Seq::empty()
    } else {
        let before = fresh_entries(loaded.drop_last(), current);
        if current.contains(loaded.last()) {
            before
        } else {
            before.push(loaded.last())
        }
    }
}

/// The entries read from the history file (`loaded`) that the list
/// (`current`) does not hold yet, in file order.
pub fn history_new_entries(current: &Vec<String>, loaded: &Vec<String>) -> (r: Vec<String>)
    ensures
        views_of_strings(r@) == fresh_entries(views_of_strings(loaded@), views_of_strings(current@)),
{
    let ghost big_l = views_of_strings(loaded@);
    let ghost big_c = views_of_strings(current@);
    let mut r: Vec<String> = Vec::new();
    let mut i: usize = 0;
    while i < loaded.len()
        invariant
            i <= loaded.len(),
            big_l == views_of_strings(loaded@),
            big_c == views_of_strings(current@),
            views_of_strings(r@) == fresh_entries(big_l.take(i as int), big_c),
        decreases loaded.len() - i,
    {
        let x = &loaded[i];
        let mut found = false;
        let mut j: usize = 0;
        while j < current.len()
            invariant
                j <= current.len(),
                big_c == views_of_strings(current@),
                found == (exists|k: int| 0 <= k < j && #[trigger] big_c[k] == x@),
            decreases current.len() - j,
        {
            if str_eq(current[j].as_str(), x.as_str()) {
                found = true;
            }
            proof {
                if !found {
                    assert forall|k: int| 0 <= k < j + 1 implies #[trigger] big_c[k] != x@ by {
                        if k < j {
                            assert(!(0 <= k < j && big_c[k] == x@));
                        }
                    }
                } else {
                    if big_c[j as int] == x@ {
                        assert(0 <= j < j + 1 && big_c[j as int] == x@);
                    }
                }
            }
            j += 1;
        }
        proof {
            assert(big_l.take(i + 1).drop_last() =~= big_l.take(i as int));
            assert(big_l.take(i + 1).last() == x@);
            if found {
                let k = choose|k: int| 0 <= k < current.len() && #[trigger] big_c[k] == x@;
                assert(big_c.contains(x@));
            } else {
                if big_c.contains(x@) {
                    let k = choose|k: int| 0 <= k < big_c.len() && big_c[k] == x@;
                    assert(0 <= k < current.len() && big_c[k] == x@);
                }
                assert(!big_c.contains(x@));
            }
        }
        if !found {
            let y = owned(x.as_str());
            proof {
                lemma_strings_push(r@, y);
            }
            r.push(y);
        }
        i += 1;
    }
    proof {
        assert(big_l.take(loaded.len() as int) =~= big_l);
    }
    r
}

/// What a single command does.
#[derive(Debug)]
pub enum SegmentAction {
    /// A segment without words: nothing happens, code 0.
    Nothing,
    /// `exit [code]`: save history, say goodbye, end the process with the
    /// code (0 when none is given or it is not a number).
    Exit(i32),
    /// `help [topic]`.
    Help(Option<String>),
    /// `history [-c|-r|-w|-n]`.
    History(HistoryOp),
    /// `clear`: clear the screen, then run this hook line unless it is empty.
    Clear(String),
    /// `echo`: print this text, with or without a newline.
    Echo(String, bool),
    /// `pwd`.
    Pwd,
    /// `cd`: change to `target`; on failure report `shown`; on success set
    /// `OLDPWD` to the directory left and `PWD` to the new one, and run the
    /// hook line unless it is empty.
    Cd { shown: String, target: String, hook: String },
    /// `cd` with more than one argument: report it, code 1.
    CdTooMany,
    /// `cd -` while `OLDPWD` is unset: report it, code 1.
    CdNoOldPwd,
    /// `source FILE`: run the lines of the file in this shell (`None`: no
    /// file was named; report it, code 2).
    Source(Option<String>),
    /// `type`: each name with whether it is a built-in.
    Type(Vec<(String, bool)>),
    /// `export`.
    Export(Vec<ExportItem>),
    /// `unset`.
    Unset(Vec<String>),
    /// `jobs [spec...]`.
    Jobs(Vec<String>),
    /// `ls [args...]`.
    Ls(Vec<String>),
    /// `rehash`.
    Rehash,
    /// `reload`.
    Reload,
    /// A wrapper function with its arguments.
    Wrapper(WrapperFunction, Vec<String>),
    /// An outside program: its arguments (expanded), whether it runs in the
    /// background, and the label a background job is listed under.
    External { args: Vec<String>, background: bool, label: String },
}

pub enum SegmentActionModel {
    Nothing,
    Exit(i32),
    Help(Option<Seq<char>>),
    History(HistoryOp),
    Clear(Seq<char>),
    Echo(Seq<char>, bool),
    Pwd,
    Cd(Seq<char>, Seq<char>, Seq<char>),
    CdTooMany,
    CdNoOldPwd,
    Source(Option<Seq<char>>),
    Type(Seq<(Seq<char>, bool)>),
    Export(Seq<ExportModel>),
    Unset(Seq<Seq<char>>),
    Jobs(Seq<Seq<char>>),
    Ls(Seq<Seq<char>>),
    Rehash,
    Reload,
    Wrapper(WrapperModel, Seq<Seq<char>>),
    External(Seq<Seq<char>>, bool, Seq<char>),
}

impl SegmentAction {
    pub open spec fn model(self) -> SegmentActionModel {
        match self {
            SegmentAction::Nothing => SegmentActionModel::Nothing,
            SegmentAction::Exit(c) => SegmentActionModel::Exit(c),
            SegmentAction::Help(t) => SegmentActionModel::Help(match t { Some(s) => Some(s@), None => None }),
            SegmentAction::History(op) => SegmentActionModel::History(op),
            SegmentAction::Clear(h) => SegmentActionModel::Clear(h@),
            SegmentAction::Echo(t, n) => SegmentActionModel::Echo(t@, n),
            SegmentAction::Pwd => SegmentActionModel::Pwd,
            SegmentAction::Cd { shown, target, hook } => SegmentActionModel::Cd(shown@, target@, hook@),
            SegmentAction::CdTooMany => SegmentActionModel::CdTooMany,
            SegmentAction::CdNoOldPwd => SegmentActionModel::CdNoOldPwd,
            SegmentAction::Source(f) => SegmentActionModel::Source(match f { Some(x) => Some(x@), None => None }),
            SegmentAction::Type(v) => SegmentActionModel::Type(v@.map_values(|p: (String, bool)| (p.0@, p.1))),
            SegmentAction::Export(v) => SegmentActionModel::Export(v@.map_values(|x: ExportItem| x.model())),
            SegmentAction::Unset(v) => SegmentActionModel::Unset(views_of_strings(v@)),
            SegmentAction::Jobs(v) => SegmentActionModel::Jobs(views_of_strings(v@)),
            SegmentAction::Ls(v) => SegmentActionModel::Ls(views_of_strings(v@)),
            SegmentAction::Rehash => SegmentActionModel::Rehash,
            SegmentAction::Reload => SegmentActionModel::Reload,
            SegmentAction::Wrapper(f, a) => SegmentActionModel::Wrapper(f.model(), views_of_strings(a@)),
            SegmentAction::External { args, background, label } => SegmentActionModel::External(views_of_strings(args@), background, label@),
        }
    }
}

/// An argument after `$` and `~` expansion.
pub open spec fn expand_arg(a: Seq<char>, pid: u32, env: Map<Seq<char>, Seq<char>>) -> Seq<char> {
    expand_tilde_spec(expand_variables_spec(a, pid, env), home_of(env))
}

pub open spec fn expand_args(args: Seq<Seq<char>>, pid: u32, env: Map<Seq<char>, Seq<char>>) -> Seq<Seq<char>> {
    args.map_values(|a: Seq<char>| expand_arg(a, pid, env))
}

/// `echo -e` escapes: `\n`, then `\t`, then `\\`, each replaced everywhere in turn.
pub open spec fn unescape(s: Seq<char>) -> Seq<char> {
    replace_all(replace_all(replace_all(s, seq!['\\', 'n'], seq!['\n']), seq!['\\', 't'], seq!['\t']), seq!['\\', '\\'], seq!['\\'])
}

/// What `echo` prints, and whether a newline follows: `-n` drops the
/// newline, `-e` turns escapes into characters, `-E` prints the text as it is.
pub open spec fn echo_spec(rest: Seq<Seq<char>>) -> (Seq<char>, bool) {
    if rest.len() == 0 {
        (Seq::empty(), true)
    } else if rest[0] == seq!['-', 'n'] {
        (join(rest.skip(1), seq![' ']), false)
    } else if rest[0] == seq!['-', 'e'] {
        (unescape(join(rest.skip(1), seq![' '])), true)
    } else if rest[0] == seq!['-', 'E'] {
        (join(rest.skip(1), seq![' ']), true)
    } else {
        (join(rest, seq![' ']), true)
    }
}

/// `s` without any trailing `c`.
pub open spec fn trim_end_char(s: Seq<char>, c: char) -> Seq<char>
    decreases s.len(),
{
    if s.len() > 0 && s.last() == c {
        trim_end_char(s.drop_last(), c)
    } else {
        s
    }
}

/// The label of a background job: the raw line without trailing `&`, trimmed.
pub open spec fn job_label(raw: Seq<char>) -> Seq<char> {
    trim(trim_end_char(raw, '&'))
}

pub open spec fn word(c: Seq<char>) -> Seq<char> {
    c
}

/// `OLDPWD` in the environment, if set.
pub open spec fn oldpwd_of(env: Map<Seq<char>, Seq<char>>) -> Option<Seq<char>> {
    if env.contains_key(seq!['O', 'L', 'D', 'P', 'W', 'D']) {
        Some(env[seq!['O', 'L', 'D', 'P', 'W', 'D']])
    } else {
        None
    }
}

/// The code `exit` ends the shell with: 0 without an argument, the argument
/// when it is a number in `i32` range (an optional `-`, then decimal
/// digits), else 0.
pub open spec fn exit_plan(rest: Seq<Seq<char>>) -> i32 {
    if rest.len() == 0 {
        0
    } else {
        let a = rest[0];
        if a.len() > 1 && a[0] == '-' && a[1] != '+' && parse_unsigned(a.drop_first(), 10, 2147483648) is Some {
            (0 - parse_unsigned(a.drop_first(), 10, 2147483648)->0) as i32
        } else if parse_unsigned(a, 10, 2147483647) is Some {
            (parse_unsigned(a, 10, 2147483647)->0) as i32
        } else {
            0
        }
    }
}

/// What the segment `seg` does under configuration `cfg`, with `pid` the
/// shell's process id, `env` the environment, and `raw` the line as typed.
pub open spec fn segment_action_spec(seg: SegmentModel, cfg: ShellConfig, pid: u32, env: Map<Seq<char>, Seq<char>>, raw: Seq<char>) -> SegmentActionModel {
    let args = expand_args(seg.args, pid, env);
    let cmd = args[0];
    let rest = args.skip(1);
    let home = home_of(env);
    if seg.args.len() == 0 {
        SegmentActionModel::Nothing
    } else if cmd == seq!['e', 'x', 'i', 't'] {
        SegmentActionModel::Exit(exit_plan(rest))
    } else if cmd == seq!['h', 'e', 'l', 'p'] {
        SegmentActionModel::Help(if rest.len() > 0 { Some(rest[0]) } else { None })
    } else if cmd == seq!['h', 'i', 's', 't', 'o', 'r', 'y'] {
        SegmentActionModel::History(history_op_spec(rest))
    } else if cmd == seq!['c', 'l', 'e', 'a', 'r'] {
        SegmentActionModel::Clear(cfg.hooks.on_clear@)
    } else if cmd == seq!['e', 'c', 'h', 'o'] {
        SegmentActionModel::Echo(echo_spec(rest).0, echo_spec(rest).1)
    } else if cmd == seq!['p', 'w', 'd'] {
        SegmentActionModel::Pwd
    } else if cmd == seq!['c', 'd'] {
        if rest.len() > 1 {
            SegmentActionModel::CdTooMany
        } else if rest.len() == 1 && rest[0] == seq!['-'] {
            match oldpwd_of(env) {
                Some(o) => SegmentActionModel::Cd(o, o, cfg.hooks.on_cd@),
                None => SegmentActionModel::CdNoOldPwd,
            }
        } else {
            let shown = if rest.len() == 0 {
                match home {
                    Some(h) => h,
                    None => seq!['/'],
                }
            } else {
                rest[0]
            };
            let target = expand_tilde_spec(resolve_dir_alias_spec(shown, cfg.dir_aliases.pairs(), home), home);
            SegmentActionModel::Cd(shown, target, cfg.hooks.on_cd@)
        }
    } else if cmd == seq!['t', 'y', 'p', 'e'] {
        SegmentActionModel::Type(rest.map_values(|a: Seq<char>| (a, builtin_names().contains(a))))
    } else if cmd == seq!['e', 'x', 'p', 'o', 'r', 't'] {
        SegmentActionModel::Export(rest.map_values(|a: Seq<char>| export_item_spec(a)))
    } else if cmd == seq!['u', 'n', 's', 'e', 't'] {
        SegmentActionModel::Unset(rest)
    } else if cmd == seq!['j', 'o', 'b', 's'] {
        SegmentActionModel::Jobs(rest)
    } else if cmd == seq!['l', 's'] {
        SegmentActionModel::Ls(rest)
    } else if cmd == seq!['r', 'e', 'h', 'a', 's', 'h'] {
        SegmentActionModel::Rehash
    } else if cmd == seq!['r', 'e', 'l', 'o', 'a', 'd'] {
        SegmentActionModel::Reload
    } else if cmd == seq!['s', 'o', 'u', 'r', 'c', 'e'] {
        SegmentActionModel::Source(if rest.len() > 0 { Some(rest[0]) } else { None })
    } else if cfg.functions.view().contains_key(cmd) {
        SegmentActionModel::Wrapper(cfg.functions.view()[cmd], rest)
    } else {
        SegmentActionModel::External(args, seg.background, job_label(raw))
    }
}

} // verus!

verus! {

fn strings_of(v: &Vec<Vec<char>>, from: usize) -> (r: Vec<String>)
    requires
        from <= v@.len(),
    ensures
        views_of_strings(r@) == views(v@).skip(from as int),
{
    let mut r: Vec<String> = Vec::new();
    let mut i = from;
    assert(views_of_strings(r@) =~= Seq::<Seq<char>>::empty());
    while i < v.len()
        invariant
            from <= i <= v@.len(),
            views_of_strings(r@) == views(v@).subrange(from as int, i as int),
        decreases v@.len() - i,
    {
        let s = string_of(&v[i]);
        proof {
            lemma_strings_push(r@, s);
            assert(views(v@).subrange(from as int, i + 1) =~= views(v@).subrange(from as int, i as int).push(s@));
        }
        r.push(s);
        i += 1;
    }
    r
}

fn trim_end_char_chars(v: &Vec<char>, c: char) -> (r: Vec<char>)
    ensures
        r@ == trim_end_char(v@, c),
{
    let mut b = v.len();
    assert(v@.take(b as int) == v@);
    while b > 0 && v[b - 1] == c
        invariant
            b <= v@.len(),
            trim_end_char(v@, c) == trim_end_char(v@.take(b as int), c),
        decreases b,
    {
        assert(v@.take(b as int).drop_last() == v@.take(b - 1));
        b -= 1;
    }
    slice_of(v, 0, b)
}

fn home_value(env: &VarMap) -> (r: Option<&String>)
    ensures
        match r {
            Some(h) => home_of(env.view()) == Some(h@),
            None => home_of(env.view()) is None,
        },
{
    let k = home_key();
    env.get(k.as_str())
}

fn oldpwd_value(env: &VarMap) -> (r: Option<&String>)
    ensures
        match r {
            Some(h) => oldpwd_of(env.view()) == Some(h@),
            None => oldpwd_of(env.view()) is None,
        },
{
    let k = string_of(&['O', 'L', 'D', 'P', 'W', 'D']);
    env.get(k.as_str())
}

/// [`exit_plan`] of the words after `exit`.
fn plan_exit(args: &Vec<Vec<char>>) -> (r: i32)
    requires
        args@.len() > 0,
    ensures
        r == exit_plan(views(args@).skip(1)),
{
    let ghost rest = views(args@).skip(1);
    if args.len() == 1 {
        return 0;
    }
    let a = &args[1];
    assert(a@ == rest[0]);
    if a.len() > 1 && a[0] == '-' && a[1] != '+' {
        let tail = slice_of(a, 1, a.len());
        assert(tail@ == a@.drop_first());
        match parse_unsigned_chars(&tail, 10, 2147483648) {
            Some(n) => {
                let c: i64 = 0 - (n as i64);
                return c as i32;
            },
            None => {},
        }
    }
    match parse_unsigned_chars(a, 10, 2147483647) {
        Some(n) => n as i32,
        None => 0,
    }
}

fn opt_str(o: Option<&String>) -> (r: Option<&str>)
    ensures
        opt_view(r) == match o { Some(s) => Some(s@), None => None::<Seq<char>> },
{
    match o {
        Some(s) => Some(s.as_str()),
        None => None,
    }
}

/// Decides what a single command does (the shell runs a lone segment this way).
pub fn plan_segment(seg: &Segment, cfg: &ShellConfig, pid: u32, env: &VarMap, raw: &str) -> (r: SegmentAction)
    ensures
        r.model() == segment_action_spec(seg.model(), *cfg, pid, env.view(), raw@),
{
    if seg.args.len() == 0 {
        return SegmentAction::Nothing;
    }
    let home = opt_str(home_value(env));
    let ghost hv = home_of(env.view());
    assert(opt_view(home) == hv);
    let mut args: Vec<Vec<char>> = Vec::new();
    let ghost sa = seg.model().args;
    let mut i: usize = 0;
    assert(views(args@) =~= Seq::<Seq<char>>::empty());
    while i < seg.args.len()
        invariant
            i <= seg.args@.len(),
            sa == views_of_strings(seg.args@),
            opt_view(home) == hv,
            hv == home_of(env.view()),
            views(args@) == expand_args(sa, pid, env.view()).take(i as int),
        decreases seg.args@.len() - i,
    {
        let v = expand_variables(seg.args[i].as_str(), pid, env);
        let t = expand_tilde(v.as_str(), home);
        let c = chars_of(t.as_str());
        proof {
            lemma_views_push(args@, c);
            assert(expand_args(sa, pid, env.view()).take(i + 1) =~= expand_args(sa, pid, env.view()).take(i as int).push(c@));
        }
        args.push(c);
        i += 1;
    }
    let ghost all = expand_args(sa, pid, env.view());
    assert(all.take(seg.args@.len() as int) =~= all);
    assert(views(args@) == all);
    let cmd = &args[0];
    assert(cmd@ == all[0]);
    let ghost rest = all.skip(1);
    if chars_eq(cmd, &['e', 'x', 'i', 't']) {
        return SegmentAction::Exit(plan_exit(&args));
    }
    if chars_eq(cmd, &['h', 'e', 'l', 'p']) {
        if args.len() > 1 {
            return SegmentAction::Help(Some(string_of(&args[1])));
        }
        return SegmentAction::Help(None);
    }
    if chars_eq(cmd, &['h', 'i', 's', 't', 'o', 'r', 'y']) {
        return SegmentAction::History(history_op(&args));
    }
    if chars_eq(cmd, &['c', 'l', 'e', 'a', 'r']) {
        return SegmentAction::Clear(cfg.hooks.on_clear.clone());
    }
    if chars_eq(cmd, &['e', 'c', 'h', 'o']) {
        if args.len() == 1 {
            return SegmentAction::Echo(String::new(), true);
        }
        let first = &args[1];
        let space: Vec<char> = vec![' '];
        assert(space@ == seq![' ']);
        assert(first@ == rest[0]);
        let dash_n: Vec<char> = vec!['-', 'n'];
        let dash_e: Vec<char> = vec!['-', 'e'];
        if chars_eq(first, &dash_n) {
            let tail = slice_vecs(&args, 2);
            assert(views(tail@) == rest.skip(1));
            let text = join_chars(&tail, &space);
            return SegmentAction::Echo(string_of(&text), false);
        }
        if chars_eq(first, &dash_e) {
            let tail = slice_vecs(&args, 2);
            assert(views(tail@) == rest.skip(1));
            let text = join_chars(&tail, &space);
            let bs_n: Vec<char> = vec!['\\', 'n'];
            let nl: Vec<char> = vec!['\n'];
            let bs_t: Vec<char> = vec!['\\', 't'];
            let tab: Vec<char> = vec!['\t'];
            let bs_bs: Vec<char> = vec!['\\', '\\'];
            let bs: Vec<char> = vec!['\\'];
            let a = replace_chars(&text, &bs_n, &nl);
            let b = replace_chars(&a, &bs_t, &tab);
            let c = replace_chars(&b, &bs_bs, &bs);
            assert(bs_n@ == seq!['\\', 'n'] && nl@ == seq!['\n'] && bs_t@ == seq!['\\', 't'] && tab@ == seq!['\t']);
            assert(bs_bs@ == seq!['\\', '\\'] && bs@ == seq!['\\']);
            assert(text@ == join(rest.skip(1), seq![' ']));
            assert(c@ == unescape(join(rest.skip(1), seq![' '])));
            assert(rest[0] == seq!['-', 'e']);
            assert(rest[0] != seq!['-', 'n']);
            return SegmentAction::Echo(string_of(&c), true);
        }
        let dash_big_e: Vec<char> = vec!['-', 'E'];
        if chars_eq(first, &dash_big_e) {
            let tail = slice_vecs(&args, 2);
            assert(views(tail@) == rest.skip(1));
            let text = join_chars(&tail, &space);
            return SegmentAction::Echo(string_of(&text), true);
        }
        let tail = slice_vecs(&args, 1);
        let text = join_chars(&tail, &space);
        return SegmentAction::Echo(string_of(&text), true);
    }
    if chars_eq(cmd, &['p', 'w', 'd']) {
        return SegmentAction::Pwd;
    }
    if chars_eq(cmd, &['c', 'd']) {
        if args.len() > 2 {
            return SegmentAction::CdTooMany;
        }
        let dash: Vec<char> = vec!['-'];
        assert(dash@ == seq!['-']);
        assert(args@.len() == 2 ==> args@[1]@ == rest[0]);
        if args.len() == 2 && chars_eq(&args[1], &dash) {
            return match oldpwd_value(env) {
                Some(o) => SegmentAction::Cd { shown: o.clone(), target: o.clone(), hook: cfg.hooks.on_cd.clone() },
                None => SegmentAction::CdNoOldPwd,
            };
        }
        let shown: String = if args.len() == 1 {
            match home {
                Some(h) => owned(h),
                None => {
                    let slash: Vec<char> = vec!['/'];
                    string_of(&slash)
                },
            }
        } else {
            string_of(&args[1])
        };
        assert(shown@ == (if rest.len() == 0 {
            match hv {
                Some(h) => h,
                None => seq!['/'],
            }
        } else {
            rest[0]
        }));
        let after = cfg.resolve_dir_alias(shown.as_str(), home);
        let target = expand_tilde(after.as_str(), home);
        assert(target@ == expand_tilde_spec(resolve_dir_alias_spec(shown@, cfg.dir_aliases.pairs(), hv), hv));
        return SegmentAction::Cd { shown, target, hook: cfg.hooks.on_cd.clone() };
    }
    if chars_eq(cmd, &['t', 'y', 'p', 'e']) {
        let names = builtin_list();
        let mut out: Vec<(String, bool)> = Vec::new();
        let mut k: usize = 1;
        while k < args.len()
            invariant
                1 <= k <= args@.len(),
                views(names@) == builtin_names(),
                views(args@) == all,
                rest == all.skip(1),
                out@.len() == k - 1,
                forall|j: int| 0 <= j < out@.len() ==> #[trigger] out@[j].0@ == rest[j] && out@[j].1 == builtin_names().contains(rest[j]),
            decreases args@.len() - k,
        {
            let b = is_among(&names, &args[k]);
            let ghost prev = out@;
            out.push((string_of(&args[k]), b));
            proof {
                assert(args@[k as int]@ == rest[k - 1]);
                assert forall|j: int| 0 <= j < out@.len() implies #[trigger] out@[j].0@ == rest[j] && out@[j].1 == builtin_names().contains(rest[j]) by {
                    if j < prev.len() {
                        assert(out@[j] == prev[j]);
                    }
                }
            }
            k += 1;
        }
        proof {
            assert(out@.map_values(|p: (String, bool)| (p.0@, p.1)) =~= rest.map_values(|a: Seq<char>| (a, builtin_names().contains(a))));
        }
        return SegmentAction::Type(out);
    }
    if chars_eq(cmd, &['e', 'x', 'p', 'o', 'r', 't']) {
        let mut out: Vec<ExportItem> = Vec::new();
        let mut k: usize = 1;
        let eq: Vec<char> = vec!['='];
        while k < args.len()
            invariant
                1 <= k <= args@.len(),
                eq@ == seq!['='],
                views(args@) == all,
                rest == all.skip(1),
                out@.len() == k - 1,
                forall|j: int| 0 <= j < out@.len() ==> #[trigger] out@[j].model() == export_item_spec(rest[j]),
            decreases args@.len() - k,
        {
            let kv = &args[k];
            let item = export_item(kv, &eq);
            let ghost prev = out@;
            proof {
                assert(args@[k as int]@ == rest[k - 1]);
            }
            out.push(item);
            proof {
                assert forall|j: int| 0 <= j < out@.len() implies #[trigger] out@[j].model() == export_item_spec(rest[j]) by {
                    if j < prev.len() {
                        assert(out@[j] == prev[j]);
                    }
                }
            }
            k += 1;
        }
        proof {
            assert(out@.map_values(|x: ExportItem| x.model()) =~= rest.map_values(|a: Seq<char>| export_item_spec(a)));
        }
        return SegmentAction::Export(out);
    }
    if chars_eq(cmd, &['u', 'n', 's', 'e', 't']) {
        return SegmentAction::Unset(strings_of(&args, 1));
    }
    if chars_eq(cmd, &['j', 'o', 'b', 's']) {
        return SegmentAction::Jobs(strings_of(&args, 1));
    }
    if chars_eq(cmd, &['l', 's']) {
        return SegmentAction::Ls(strings_of(&args, 1));
    }
    if chars_eq(cmd, &['r', 'e', 'h', 'a', 's', 'h']) {
        return SegmentAction::Rehash;
    }
    if chars_eq(cmd, &['r', 'e', 'l', 'o', 'a', 'd']) {
        return SegmentAction::Reload;
    }
    if chars_eq(cmd, &['s', 'o', 'u', 'r', 'c', 'e']) {
        if args.len() > 1 {
            assert(args@[1]@ == rest[0]);
            return SegmentAction::Source(Some(string_of(&args[1])));
        }
        return SegmentAction::Source(None);
    }
    let name = string_of(cmd);
    match cfg.functions.get(name.as_str()) {
        Some(f) => {
            let func = WrapperFunction { description: f.description.clone(), body: f.body.clone() };
            SegmentAction::Wrapper(func, strings_of(&args, 1))
        },
        None => {
            let r = chars_of(raw);
            let t = trim_end_char_chars(&r, '&');
            let label = string_of(&trim_chars(&t));
            SegmentAction::External { args: strings_of(&args, 0), background: seg.background, label }
        },
    }
}

fn export_item(kv: &Vec<char>, eq: &Vec<char>) -> (r: ExportItem)
    requires
        eq@ == seq!['='],
    ensures
        r.model() == export_item_spec(kv@),
{
    match find_chars(kv, eq) {
        Some(e) => {
            proof { lemma_find_from_bounds(kv@, eq@, 0); }
            assert(matches_at(kv@, eq@, e as int));
            assert(e < kv.len());
            let key = substring(kv, 0, e);
            let val = substring(kv, e + 1, kv.len());
            assert(key@ == kv@.take(e as int));
            assert(val@ == kv@.skip(e + 1));
            ExportItem::Assign(key, val)
        },
        None => ExportItem::IfUnset(string_of(kv)),
    }
}

/// Copies of `v[from..]`.
fn slice_vecs(v: &Vec<Vec<char>>, from: usize) -> (r: Vec<Vec<char>>)
    requires
        from <= v@.len(),
    ensures
        views(r@) == views(v@).skip(from as int),
{
    let mut r: Vec<Vec<char>> = Vec::new();
    assert(views(r@) =~= Seq::<Seq<char>>::empty());
    let mut i = from;
    while i < v.len()
        invariant
            from <= i <= v@.len(),
            views(r@) == views(v@).subrange(from as int, i as int),
        decreases v@.len() - i,
    {
        let c = slice_of(&v[i], 0, v[i].len());
        proof {
            lemma_views_push(r@, c);
            assert(c@ =~= views(v@)[i as int]);
            assert(views(v@).subrange(from as int, i + 1) =~= views(v@).subrange(from as int, i as int).push(c@));
        }
        r.push(c);
        i += 1;
    }
    r
}

} // verus!

verus! {

/// The exit code of a pipeline from what waiting on each of its processes
/// gave, in order: `None` where waiting failed, else the exit code (`None`
/// when a signal ended the process, which counts as 1). The last process
/// that could be waited on decides; 0 when none could.
pub open spec fn pipeline_code_spec(waits: Seq<Option<Option<i32>>>) -> i32
    decreases waits.len(),
{
    if waits.len() == 0 {
        0
    } else {
        match waits.last() {
            Some(Some(c)) => c,
            Some(None) => 1,
            None => pipeline_code_spec(waits.drop_last()),
        }
    }
}

pub fn pipeline_exit_code(waits: &Vec<Option<Option<i32>>>) -> (r: i32)
    ensures
        r == pipeline_code_spec(waits@),
{
    let mut code: i32 = 0;
    let mut i: usize = 0;
    assert(waits@.take(0) =~= Seq::<Option<Option<i32>>>::empty());
    while i < waits.len()
        invariant
            i <= waits@.len(),
            code == pipeline_code_spec(waits@.take(i as int)),
        decreases waits@.len() - i,
    {
        let ghost t = waits@.take(i + 1);
        assert(t.drop_last() == waits@.take(i as int));
        assert(t.last() == waits@[i as int]);
        match waits[i] {
            Some(Some(c)) => {
                code = c;
            },
            Some(None) => {
                code = 1;
            },
            None => {},
        }
        i += 1;
    }
    assert(waits@.take(waits@.len() as int) == waits@);
    code
}

} // verus!
