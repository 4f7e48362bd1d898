//! The `help` builtin: its topics and the text each shows.
use vstd::prelude::*;
use crate::builtins::ls::strings_view;
use crate::text::{chars_of, pad_right, pad_right_chars, string_of};

verus! {

broadcast use vstd::string::group_string_axioms;

pub open spec fn rst() -> Seq<char> { seq!['\x1b', '[', '0', 'm'] }
pub open spec fn bold() -> Seq<char> { seq!['\x1b', '[', '1', 'm'] }
pub open spec fn dim() -> Seq<char> { seq!['\x1b', '[', '2', 'm'] }
pub open spec fn cyan() -> Seq<char> { seq!['\x1b', '[', '1', ';', '3', '6', 'm'] }
pub open spec fn green() -> Seq<char> { seq!['\x1b', '[', '1', ';', '3', '2', 'm'] }
pub open spec fn yellow() -> Seq<char> { seq!['\x1b', '[', '1', ';', '3', '3', 'm'] }
pub open spec fn blue() -> Seq<char> { seq!['\x1b', '[', '1', ';', '3', '4', 'm'] }
pub open spec fn white() -> Seq<char> { seq!['\x1b', '[', '1', ';', '3', '7', 'm'] }

pub open spec fn indent() -> Seq<char> { seq![' ', ' ', ' ', ' '] }

/// A help row: the key in cyan, padded to 22 columns, then the description
/// dimmed.
pub open spec fn row_spec(key: Seq<char>, desc: Seq<char>) -> Seq<char> {
    indent() + cyan() + pad_right(key, 22) + rst() + seq![' '] + dim() + desc + rst()
}

/// A help row for a command with its arguments in yellow, padded to 33
/// columns.
pub open spec fn row2_spec(key: Seq<char>, arg: Seq<char>, desc: Seq<char>) -> Seq<char> {
    indent() + cyan() + pad_right(key + seq![' '] + yellow() + arg + cyan(), 33) + rst() + seq![' '] + dim() + desc + rst()
}

pub open spec fn rule() -> Seq<char> {
    Seq::new(52, |i: int| '\u{2500}')
}

/// A section title: a blank line, the title, a rule.
pub open spec fn header_spec(title: Seq<char>) -> Seq<Seq<char>> {
    seq![
        Seq::<char>::empty(),
        bold() + blue() + seq![' ', ' '] + title + seq![' ', ' '] + rst() + dim(),
        dim() + seq![' ', ' '] + rule() + rst(),
    ]
}

fn push_line(out: &mut Vec<String>, line: Vec<char>)
    ensures
        strings_view(final(out)@) == strings_view(old(out)@).push(line@),
{
    let ghost o = out@;
    out.push(string_of(&line));
    assert(strings_view(out@) =~= strings_view(o).push(line@));
}

fn push_row(out: &mut Vec<String>, key: &Vec<char>, desc: &Vec<char>)
    ensures
        strings_view(final(out)@) == strings_view(old(out)@).push(row_spec(key@, desc@)),
{
    let mut l: Vec<char> = vec![' ', ' ', ' ', ' ', '\x1b', '[', '1', ';', '3', '6', 'm'];
    l.extend_from_slice(&pad_right_chars(key, 22));
    let r: Vec<char> = vec!['\x1b', '[', '0', 'm', ' ', '\x1b', '[', '2', 'm'];
    l.extend_from_slice(&r);
    l.extend_from_slice(desc);
    let e: Vec<char> = vec!['\x1b', '[', '0', 'm'];
    l.extend_from_slice(&e);
    assert(l@ =~= row_spec(key@, desc@));
    push_line(out, l);
}

fn push_row2(out: &mut Vec<String>, key: &Vec<char>, arg: &Vec<char>, desc: &Vec<char>)
    ensures
        strings_view(final(out)@) == strings_view(old(out)@).push(row2_spec(key@, arg@, desc@)),
{
    let mut cell = key.clone();
    let y: Vec<char> = vec![' ', '\x1b', '[', '1', ';', '3', '3', 'm'];
    cell.extend_from_slice(&y);
    cell.extend_from_slice(arg);
    let c: Vec<char> = vec!['\x1b', '[', '1', ';', '3', '6', 'm'];
    cell.extend_from_slice(&c);
    let mut l: Vec<char> = vec![' ', ' ', ' ', ' ', '\x1b', '[', '1', ';', '3', '6', 'm'];
    l.extend_from_slice(&pad_right_chars(&cell, 33));
    let r: Vec<char> = vec!['\x1b', '[', '0', 'm', ' ', '\x1b', '[', '2', 'm'];
    l.extend_from_slice(&r);
    l.extend_from_slice(desc);
    let e: Vec<char> = vec!['\x1b', '[', '0', 'm'];
    l.extend_from_slice(&e);
    assert(l@ =~= row2_spec(key@, arg@, desc@));
    push_line(out, l);
}

fn push_header(out: &mut Vec<String>, title: &Vec<char>)
    ensures
        strings_view(final(out)@) == strings_view(old(out)@) + header_spec(title@),
{
    let ghost o = strings_view(out@);
    push_line(out, Vec::new());
    let mut l: Vec<char> = vec!['\x1b', '[', '1', 'm', '\x1b', '[', '1', ';', '3', '4', 'm', ' ', ' '];
    l.extend_from_slice(title);
    let t: Vec<char> = vec![' ', ' ', '\x1b', '[', '0', 'm', '\x1b', '[', '2', 'm'];
    l.extend_from_slice(&t);
    assert(l@ =~= bold() + blue() + seq![' ', ' '] + title@ + seq![' ', ' '] + rst() + dim());
    push_line(out, l);
    let mut r: Vec<char> = vec!['\x1b', '[', '2', 'm', ' ', ' '];
    let mut k: usize = 0;
    while k < 52
        invariant
            k <= 52,
            r@ == seq!['\x1b', '[', '2', 'm', ' ', ' '] + Seq::new(k as nat, |i: int| '\u{2500}'),
        decreases 52 - k,
    {
        r.push('\u{2500}');
        k += 1;
        assert(r@ =~= seq!['\x1b', '[', '2', 'm', ' ', ' '] + Seq::new(k as nat, |i: int| '\u{2500}'));
    }
    let e: Vec<char> = vec!['\x1b', '[', '0', 'm'];
    r.extend_from_slice(&e);
    assert(r@ =~= dim() + seq![' ', ' '] + rule() + rst());
    push_line(out, r);
    assert(strings_view(out@) =~= o + header_spec(title@));
}

/// The lines of the `banner` part of `help`.
pub open spec fn banner_spec() -> Seq<Seq<char>> {
    banner_part_0() + banner_part_1()
}

pub open spec fn banner_part_0() -> Seq<Seq<char>> {
    seq![Seq::<char>::empty()]
        + seq![seq!['\x1b', '[', '1', 'm', '\x1b', '[', '1', ';', '3', '6', 'm', ' ', ' ', ' ', ' ', '\u{2588}', '\u{2588}', '\u{2588}', '\u{2588}', '\u{2588}', '\u{2588}', '\u{2557}', '\u{2588}', '\u{2588}', '\u{2588}', '\u{2588}', '\u{2588}', '\u{2588}', '\u{2557}', ' ', '\u{2588}', '\u{2588}', '\u{2557}', ' ', ' ', ' ', '\u{2588}', '\u{2588}', '\u{2557}', '\u{2588}', '\u{2588}', '\u{2588}', '\u{2588}', '\u{2588}', '\u{2588}', '\u{2588}', '\u{2557}', '\u{2588}', '\u{2588}', '\u{2557}', ' ', ' ', '\u{2588}', '\u{2588}', '\u{2557}', '\x1b', '[', '0', 'm']]
        + seq![seq!['\x1b', '[', '1', 'm', '\x1b', '[', '1', ';', '3', '6', 'm', ' ', ' ', ' ', '\u{2588}', '\u{2588}', '\u{2554}', '\u{2550}', '\u{2550}', '\u{2550}', '\u{2550}', '\u{255d}', '\u{2588}', '\u{2588}', '\u{2554}', '\u{2550}', '\u{2550}', '\u{2588}', '\u{2588}', '\u{2557}', '\u{2588}', '\u{2588}', '\u{2551}', ' ', ' ', ' ', '\u{2588}', '\u{2588}', '\u{2551}', '\u{2588}', '\u{2588}', '\u{2554}', '\u{2550}', '\u{2550}', '\u{2550}', '\u{2550}', '\u{255d}', '\u{2588}', '\u{2588}', '\u{2551}', ' ', ' ', '\u{2588}', '\u{2588}', '\u{2551}', '\x1b', '[', '0', 'm']]
        + seq![seq!['\x1b', '[', '1', 'm', '\x1b', '[', '1', ';', '3', '6', 'm', ' ', ' ', ' ', '\u{2588}', '\u{2588}', '\u{2551}', ' ', ' ', ' ', ' ', ' ', '\u{2588}', '\u{2588}', '\u{2588}', '\u{2588}', '\u{2588}', '\u{2588}', '\u{2554}', '\u{255d}', '\u{2588}', '\u{2588}', '\u{2551}', ' ', ' ', ' ', '\u{2588}', '\u{2588}', '\u{2551}', '\u{2588}', '\u{2588}', '\u{2588}', '\u{2588}', '\u{2588}', '\u{2588}', '\u{2588}', '\u{2557}', '\u{2588}', '\u{2588}', '\u{2588}', '\u{2588}', '\u{2588}', '\u{2588}', '\u{2588}', '\u{2551}', '\x1b', '[', '0', 'm']]
        + seq![seq!['\x1b', '[', '1', 'm', '\x1b', '[', '1', ';', '3', '6', 'm', ' ', ' ', ' ', '\u{2588}', '\u{2588}', '\u{2551}', ' ', ' ', ' ', ' ', ' ', '\u{2588}', '\u{2588}', '\u{2554}', '\u{2550}', '\u{2550}', '\u{2588}', '\u{2588}', '\u{2557}', '\u{2588}', '\u{2588}', '\u{2551}', ' ', ' ', ' ', '\u{2588}', '\u{2588}', '\u{2551}', '\u{255a}', '\u{2550}', '\u{2550}', '\u{2550}', '\u{2550}', '\u{2588}', '\u{2588}', '\u{2551}', '\u{2588}', '\u{2588}', '\u{2554}', '\u{2550}', '\u{2550}', '\u{2588}', '\u{2588}', '\u{2551}', '\x1b', '[', '0', 'm']]
        + seq![seq!['\x1b', '[', '1', 'm', '\x1b', '[', '1', ';', '3', '6', 'm', ' ', ' ', ' ', '\u{255a}', '\u{2588}', '\u{2588}', '\u{2588}', '\u{2588}', '\u{2588}', '\u{2588}', '\u{2557}', '\u{2588}', '\u{2588}', '\u{2551}', ' ', ' ', '\u{2588}', '\u{2588}', '\u{2551}', '\u{255a}', '\u{2588}', '\u{2588}', '\u{2588}', '\u{2588}', '\u{2588}', '\u{2588}', '\u{2554}', '\u{255d}', '\u{2588}', '\u{2588}', '\u{2588}', '\u{2588}', '\u{2588}', '\u{2588}', '\u{2588}', '\u{2551}', '\u{2588}', '\u{2588}', '\u{2551}', ' ', ' ', '\u{2588}', '\u{2588}', '\u{2551}', '\x1b', '[', '0', 'm']]
        + seq![seq!['\x1b', '[', '1', 'm', '\x1b', '[', '1', ';', '3', '6', 'm', ' ', ' ', ' ', ' ', '\u{255a}', '\u{2550}', '\u{2550}', '\u{2550}', '\u{2550}', '\u{2550}', '\u{255d}', '\u{255a}', '\u{2550}', '\u{255d}', ' ', ' ', '\u{255a}', '\u{2550}', '\u{255d}', ' ', '\u{255a}', '\u{2550}', '\u{2550}', '\u{2550}', '\u{2550}', '\u{2550}', '\u{255d}', ' ', '\u{255a}', '\u{2550}', '\u{2550}', '\u{2550}', '\u{2550}', '\u{2550}', '\u{2550}', '\u{255d}', '\u{255a}', '\u{2550}', '\u{255d}', ' ', ' ', '\u{255a}', '\u{2550}', '\u{255d}', '\x1b', '[', '0', 'm']]
        + seq![Seq::<char>::empty()]
        + seq![seq![' ', ' ', ' ', ' ', '\x1b', '[', '2', 'm', 'A', ' ', 'm', 'i', 'n', 'i', 'm', 'a', 'l', ' ', 's', 'h', 'e', 'l', 'l', ' ', 'w', 'r', 'i', 't', 't', 'e', 'n', ' ', 'i', 'n', ' ', 'R', 'u', 's', 't', '\x1b', '[', '0', 'm']]
}

fn push_banner_part_0(out: &mut Vec<String>)
    ensures
        strings_view(final(out)@) == strings_view(old(out)@) + banner_part_0(),
{
    let ghost o = strings_view(out@);
    let ghost mut acc: Seq<Seq<char>> = Seq::empty();
    push_line(out, Vec::<char>::new());
    proof { acc = acc + seq![Seq::<char>::empty()]; }
    assert(strings_view(out@) =~= o + acc);
    push_line(out, vec!['\x1b', '[', '1', 'm', '\x1b', '[', '1', ';', '3', '6', 'm', ' ', ' ', ' ', ' ', '\u{2588}', '\u{2588}', '\u{2588}', '\u{2588}', '\u{2588}', '\u{2588}', '\u{2557}', '\u{2588}', '\u{2588}', '\u{2588}', '\u{2588}', '\u{2588}', '\u{2588}', '\u{2557}', ' ', '\u{2588}', '\u{2588}', '\u{2557}', ' ', ' ', ' ', '\u{2588}', '\u{2588}', '\u{2557}', '\u{2588}', '\u{2588}', '\u{2588}', '\u{2588}', '\u{2588}', '\u{2588}', '\u{2588}', '\u{2557}', '\u{2588}', '\u{2588}', '\u{2557}', ' ', ' ', '\u{2588}', '\u{2588}', '\u{2557}', '\x1b', '[', '0', 'm']);
    proof { acc = acc + seq![seq!['\x1b', '[', '1', 'm', '\x1b', '[', '1', ';', '3', '6', 'm', ' ', ' ', ' ', ' ', '\u{2588}', '\u{2588}', '\u{2588}', '\u{2588}', '\u{2588}', '\u{2588}', '\u{2557}', '\u{2588}', '\u{2588}', '\u{2588}', '\u{2588}', '\u{2588}', '\u{2588}', '\u{2557}', ' ', '\u{2588}', '\u{2588}', '\u{2557}', ' ', ' ', ' ', '\u{2588}', '\u{2588}', '\u{2557}', '\u{2588}', '\u{2588}', '\u{2588}', '\u{2588}', '\u{2588}', '\u{2588}', '\u{2588}', '\u{2557}', '\u{2588}', '\u{2588}', '\u{2557}', ' ', ' ', '\u{2588}', '\u{2588}', '\u{2557}', '\x1b', '[', '0', 'm']]; }
    assert(strings_view(out@) =~= o + acc);
    push_line(out, vec!['\x1b', '[', '1', 'm', '\x1b', '[', '1', ';', '3', '6', 'm', ' ', ' ', ' ', '\u{2588}', '\u{2588}', '\u{2554}', '\u{2550}', '\u{2550}', '\u{2550}', '\u{2550}', '\u{255d}', '\u{2588}', '\u{2588}', '\u{2554}', '\u{2550}', '\u{2550}', '\u{2588}', '\u{2588}', '\u{2557}', '\u{2588}', '\u{2588}', '\u{2551}', ' ', ' ', ' ', '\u{2588}', '\u{2588}', '\u{2551}', '\u{2588}', '\u{2588}', '\u{2554}', '\u{2550}', '\u{2550}', '\u{2550}', '\u{2550}', '\u{255d}', '\u{2588}', '\u{2588}', '\u{2551}', ' ', ' ', '\u{2588}', '\u{2588}', '\u{2551}', '\x1b', '[', '0', 'm']);
    proof { acc = acc + seq![seq!['\x1b', '[', '1', 'm', '\x1b', '[', '1', ';', '3', '6', 'm', ' ', ' ', ' ', '\u{2588}', '\u{2588}', '\u{2554}', '\u{2550}', '\u{2550}', '\u{2550}', '\u{2550}', '\u{255d}', '\u{2588}', '\u{2588}', '\u{2554}', '\u{2550}', '\u{2550}', '\u{2588}', '\u{2588}', '\u{2557}', '\u{2588}', '\u{2588}', '\u{2551}', ' ', ' ', ' ', '\u{2588}', '\u{2588}', '\u{2551}', '\u{2588}', '\u{2588}', '\u{2554}', '\u{2550}', '\u{2550}', '\u{2550}', '\u{2550}', '\u{255d}', '\u{2588}', '\u{2588}', '\u{2551}', ' ', ' ', '\u{2588}', '\u{2588}', '\u{2551}', '\x1b', '[', '0', 'm']]; }
    assert(strings_view(out@) =~= o + acc);
    push_line(out, vec!['\x1b', '[', '1', 'm', '\x1b', '[', '1', ';', '3', '6', 'm', ' ', ' ', ' ', '\u{2588}', '\u{2588}', '\u{2551}', ' ', ' ', ' ', ' ', ' ', '\u{2588}', '\u{2588}', '\u{2588}', '\u{2588}', '\u{2588}', '\u{2588}', '\u{2554}', '\u{255d}', '\u{2588}', '\u{2588}', '\u{2551}', ' ', ' ', ' ', '\u{2588}', '\u{2588}', '\u{2551}', '\u{2588}', '\u{2588}', '\u{2588}', '\u{2588}', '\u{2588}', '\u{2588}', '\u{2588}', '\u{2557}', '\u{2588}', '\u{2588}', '\u{2588}', '\u{2588}', '\u{2588}', '\u{2588}', '\u{2588}', '\u{2551}', '\x1b', '[', '0', 'm']);
    proof { acc = acc + seq![seq!['\x1b', '[', '1', 'm', '\x1b', '[', '1', ';', '3', '6', 'm', ' ', ' ', ' ', '\u{2588}', '\u{2588}', '\u{2551}', ' ', ' ', ' ', ' ', ' ', '\u{2588}', '\u{2588}', '\u{2588}', '\u{2588}', '\u{2588}', '\u{2588}', '\u{2554}', '\u{255d}', '\u{2588}', '\u{2588}', '\u{2551}', ' ', ' ', ' ', '\u{2588}', '\u{2588}', '\u{2551}', '\u{2588}', '\u{2588}', '\u{2588}', '\u{2588}', '\u{2588}', '\u{2588}', '\u{2588}', '\u{2557}', '\u{2588}', '\u{2588}', '\u{2588}', '\u{2588}', '\u{2588}', '\u{2588}', '\u{2588}', '\u{2551}', '\x1b', '[', '0', 'm']]; }
    assert(strings_view(out@) =~= o + acc);
    push_line(out, vec!['\x1b', '[', '1', 'm', '\x1b', '[', '1', ';', '3', '6', 'm', ' ', ' ', ' ', '\u{2588}', '\u{2588}', '\u{2551}', ' ', ' ', ' ', ' ', ' ', '\u{2588}', '\u{2588}', '\u{2554}', '\u{2550}', '\u{2550}', '\u{2588}', '\u{2588}', '\u{2557}', '\u{2588}', '\u{2588}', '\u{2551}', ' ', ' ', ' ', '\u{2588}', '\u{2588}', '\u{2551}', '\u{255a}', '\u{2550}', '\u{2550}', '\u{2550}', '\u{2550}', '\u{2588}', '\u{2588}', '\u{2551}', '\u{2588}', '\u{2588}', '\u{2554}', '\u{2550}', '\u{2550}', '\u{2588}', '\u{2588}', '\u{2551}', '\x1b', '[', '0', 'm']);
    proof { acc = acc + seq![seq!['\x1b', '[', '1', 'm', '\x1b', '[', '1', ';', '3', '6', 'm', ' ', ' ', ' ', '\u{2588}', '\u{2588}', '\u{2551}', ' ', ' ', ' ', ' ', ' ', '\u{2588}', '\u{2588}', '\u{2554}', '\u{2550}', '\u{2550}', '\u{2588}', '\u{2588}', '\u{2557}', '\u{2588}', '\u{2588}', '\u{2551}', ' ', ' ', ' ', '\u{2588}', '\u{2588}', '\u{2551}', '\u{255a}', '\u{2550}', '\u{2550}', '\u{2550}', '\u{2550}', '\u{2588}', '\u{2588}', '\u{2551}', '\u{2588}', '\u{2588}', '\u{2554}', '\u{2550}', '\u{2550}', '\u{2588}', '\u{2588}', '\u{2551}', '\x1b', '[', '0', 'm']]; }
    assert(strings_view(out@) =~= o + acc);
    push_line(out, vec!['\x1b', '[', '1', 'm', '\x1b', '[', '1', ';', '3', '6', 'm', ' ', ' ', ' ', '\u{255a}', '\u{2588}', '\u{2588}', '\u{2588}', '\u{2588}', '\u{2588}', '\u{2588}', '\u{2557}', '\u{2588}', '\u{2588}', '\u{2551}', ' ', ' ', '\u{2588}', '\u{2588}', '\u{2551}', '\u{255a}', '\u{2588}', '\u{2588}', '\u{2588}', '\u{2588}', '\u{2588}', '\u{2588}', '\u{2554}', '\u{255d}', '\u{2588}', '\u{2588}', '\u{2588}', '\u{2588}', '\u{2588}', '\u{2588}', '\u{2588}', '\u{2551}', '\u{2588}', '\u{2588}', '\u{2551}', ' ', ' ', '\u{2588}', '\u{2588}', '\u{2551}', '\x1b', '[', '0', 'm']);
    proof { acc = acc + seq![seq!['\x1b', '[', '1', 'm', '\x1b', '[', '1', ';', '3', '6', 'm', ' ', ' ', ' ', '\u{255a}', '\u{2588}', '\u{2588}', '\u{2588}', '\u{2588}', '\u{2588}', '\u{2588}', '\u{2557}', '\u{2588}', '\u{2588}', '\u{2551}', ' ', ' ', '\u{2588}', '\u{2588}', '\u{2551}', '\u{255a}', '\u{2588}', '\u{2588}', '\u{2588}', '\u{2588}', '\u{2588}', '\u{2588}', '\u{2554}', '\u{255d}', '\u{2588}', '\u{2588}', '\u{2588}', '\u{2588}', '\u{2588}', '\u{2588}', '\u{2588}', '\u{2551}', '\u{2588}', '\u{2588}', '\u{2551}', ' ', ' ', '\u{2588}', '\u{2588}', '\u{2551}', '\x1b', '[', '0', 'm']]; }
    assert(strings_view(out@) =~= o + acc);
    push_line(out, vec!['\x1b', '[', '1', 'm', '\x1b', '[', '1', ';', '3', '6', 'm', ' ', ' ', ' ', ' ', '\u{255a}', '\u{2550}', '\u{2550}', '\u{2550}', '\u{2550}', '\u{2550}', '\u{255d}', '\u{255a}', '\u{2550}', '\u{255d}', ' ', ' ', '\u{255a}', '\u{2550}', '\u{255d}', ' ', '\u{255a}', '\u{2550}', '\u{2550}', '\u{2550}', '\u{2550}', '\u{2550}', '\u{255d}', ' ', '\u{255a}', '\u{2550}', '\u{2550}', '\u{2550}', '\u{2550}', '\u{2550}', '\u{2550}', '\u{255d}', '\u{255a}', '\u{2550}', '\u{255d}', ' ', ' ', '\u{255a}', '\u{2550}', '\u{255d}', '\x1b', '[', '0', 'm']);
    proof { acc = acc + seq![seq!['\x1b', '[', '1', 'm', '\x1b', '[', '1', ';', '3', '6', 'm', ' ', ' ', ' ', ' ', '\u{255a}', '\u{2550}', '\u{2550}', '\u{2550}', '\u{2550}', '\u{2550}', '\u{255d}', '\u{255a}', '\u{2550}', '\u{255d}', ' ', ' ', '\u{255a}', '\u{2550}', '\u{255d}', ' ', '\u{255a}', '\u{2550}', '\u{2550}', '\u{2550}', '\u{2550}', '\u{2550}', '\u{255d}', ' ', '\u{255a}', '\u{2550}', '\u{2550}', '\u{2550}', '\u{2550}', '\u{2550}', '\u{2550}', '\u{255d}', '\u{255a}', '\u{2550}', '\u{255d}', ' ', ' ', '\u{255a}', '\u{2550}', '\u{255d}', '\x1b', '[', '0', 'm']]; }
    assert(strings_view(out@) =~= o + acc);
    push_line(out, Vec::<char>::new());
    proof { acc = acc + seq![Seq::<char>::empty()]; }
    assert(strings_view(out@) =~= o + acc);
    push_line(out, vec![' ', ' ', ' ', ' ', '\x1b', '[', '2', 'm', 'A', ' ', 'm', 'i', 'n', 'i', 'm', 'a', 'l', ' ', 's', 'h', 'e', 'l', 'l', ' ', 'w', 'r', 'i', 't', 't', 'e', 'n', ' ', 'i', 'n', ' ', 'R', 'u', 's', 't', '\x1b', '[', '0', 'm']);
    proof { acc = acc + seq![seq![' ', ' ', ' ', ' ', '\x1b', '[', '2', 'm', 'A', ' ', 'm', 'i', 'n', 'i', 'm', 'a', 'l', ' ', 's', 'h', 'e', 'l', 'l', ' ', 'w', 'r', 'i', 't', 't', 'e', 'n', ' ', 'i', 'n', ' ', 'R', 'u', 's', 't', '\x1b', '[', '0', 'm']]; }
    assert(strings_view(out@) =~= o + acc);
    assert(acc =~= banner_part_0());
}

pub open spec fn banner_part_1() -> Seq<Seq<char>> {
    seq![Seq::<char>::empty()]
        + seq![seq![' ', ' ', ' ', ' ', '\x1b', '[', '1', ';', '3', '7', 'm', 'U', 's', 'a', 'g', 'e', ':', '\x1b', '[', '0', 'm', ' ', '\x1b', '[', '1', ';', '3', '2', 'm', 'h', 'e', 'l', 'p', ' ', '<', 't', 'o', 'p', 'i', 'c', '>', '\x1b', '[', '0', 'm']]
        + seq![seq![' ', ' ', ' ', ' ', '\x1b', '[', '1', ';', '3', '7', 'm', 'T', 'o', 'p', 'i', 'c', 's', ':', '\x1b', '[', '0', 'm', ' ', 'b', 'u', 'i', 'l', 't', 'i', 'n', 's', ' ', ' ', 'b', 'i', 'n', 'd', 'i', 'n', 'g', 's', ' ', ' ', 'c', 'o', 'n', 'f', 'i', 'g', '\x1b', '[', '2', 'm']]
}

fn push_banner_part_1(out: &mut Vec<String>)
    ensures
        strings_view(final(out)@) == strings_view(old(out)@) + banner_part_1(),
{
    let ghost o = strings_view(out@);
    let ghost mut acc: Seq<Seq<char>> = Seq::empty();
    push_line(out, Vec::<char>::new());
    proof { acc = acc + seq![Seq::<char>::empty()]; }
    assert(strings_view(out@) =~= o + acc);
    push_line(out, vec![' ', ' ', ' ', ' ', '\x1b', '[', '1', ';', '3', '7', 'm', 'U', 's', 'a', 'g', 'e', ':', '\x1b', '[', '0', 'm', ' ', '\x1b', '[', '1', ';', '3', '2', 'm', 'h', 'e', 'l', 'p', ' ', '<', 't', 'o', 'p', 'i', 'c', '>', '\x1b', '[', '0', 'm']);
    proof { acc = acc + seq![seq![' ', ' ', ' ', ' ', '\x1b', '[', '1', ';', '3', '7', 'm', 'U', 's', 'a', 'g', 'e', ':', '\x1b', '[', '0', 'm', ' ', '\x1b', '[', '1', ';', '3', '2', 'm', 'h', 'e', 'l', 'p', ' ', '<', 't', 'o', 'p', 'i', 'c', '>', '\x1b', '[', '0', 'm']]; }
    assert(strings_view(out@) =~= o + acc);
    push_line(out, vec![' ', ' ', ' ', ' ', '\x1b', '[', '1', ';', '3', '7', 'm', 'T', 'o', 'p', 'i', 'c', 's', ':', '\x1b', '[', '0', 'm', ' ', 'b', 'u', 'i', 'l', 't', 'i', 'n', 's', ' ', ' ', 'b', 'i', 'n', 'd', 'i', 'n', 'g', 's', ' ', ' ', 'c', 'o', 'n', 'f', 'i', 'g', '\x1b', '[', '2', 'm']);
    proof { acc = acc + seq![seq![' ', ' ', ' ', ' ', '\x1b', '[', '1', ';', '3', '7', 'm', 'T', 'o', 'p', 'i', 'c', 's', ':', '\x1b', '[', '0', 'm', ' ', 'b', 'u', 'i', 'l', 't', 'i', 'n', 's', ' ', ' ', 'b', 'i', 'n', 'd', 'i', 'n', 'g', 's', ' ', ' ', 'c', 'o', 'n', 'f', 'i', 'g', '\x1b', '[', '2', 'm']]; }
    assert(strings_view(out@) =~= o + acc);
    assert(acc =~= banner_part_1());
}

pub fn banner_lines() -> (r: Vec<String>)
    ensures
        strings_view(r@) == banner_spec(),
{
    let mut out: Vec<String> = Vec::new();
    assert(strings_view(out@) =~= Seq::<Seq<char>>::empty());
    push_banner_part_0(&mut out);
    push_banner_part_1(&mut out);
    assert(strings_view(out@) =~= banner_spec());
    out
}

/// The lines of the `builtins` part of `help`.
pub open spec fn builtins_spec() -> Seq<Seq<char>> {
    builtins_part_0() + builtins_part_1() + builtins_part_2() + builtins_part_3()
}

pub open spec fn builtins_part_0() -> Seq<Seq<char>> {
    header_spec(seq!['B', 'U', 'I', 'L', 'T', 'I', 'N', ' ', 'C', 'O', 'M', 'M', 'A', 'N', 'D', 'S'])
        + seq![row2_spec(seq!['e', 'c', 'h', 'o'], seq!['[', '-', 'n', '|', '-', 'e', '|', '-', 'E', ']', ' ', '<', 't', 'e', 'x', 't', '>'], seq!['P', 'r', 'i', 'n', 't', ' ', 't', 'e', 'x', 't', ' ', 't', 'o', ' ', 's', 't', 'd', 'o', 'u', 't'])]
        + seq![row2_spec(seq!['c', 'd'], seq!['[', 'd', 'i', 'r', '|', '~', '|', '-', '|', '.', '.', ']'], seq!['C', 'h', 'a', 'n', 'g', 'e', ' ', 'w', 'o', 'r', 'k', 'i', 'n', 'g', ' ', 'd', 'i', 'r', 'e', 'c', 't', 'o', 'r', 'y'])]
        + seq![row2_spec(seq!['p', 'w', 'd'], Seq::<char>::empty(), seq!['P', 'r', 'i', 'n', 't', ' ', 'c', 'u', 'r', 'r', 'e', 'n', 't', ' ', 'd', 'i', 'r', 'e', 'c', 't', 'o', 'r', 'y'])]
        + seq![row2_spec(seq!['t', 'y', 'p', 'e'], seq!['<', 'c', 'm', 'd', '>'], seq!['S', 'h', 'o', 'w', ' ', 'i', 'f', ' ', 'c', 'm', 'd', ' ', 'i', 's', ' ', 'b', 'u', 'i', 'l', 't', 'i', 'n', ' ', 'o', 'r', ' ', 'e', 'x', 't', 'e', 'r', 'n', 'a', 'l'])]
        + seq![row2_spec(seq!['e', 'x', 'i', 't'], seq!['[', 'c', 'o', 'd', 'e', ']'], seq!['E', 'x', 'i', 't', ' ', 't', 'h', 'e', ' ', 's', 'h', 'e', 'l', 'l'])]
        + seq![row2_spec(seq!['h', 'i', 's', 't', 'o', 'r', 'y'], seq!['[', '-', 'c', '|', '-', 'r', '|', '-', 'w', '|', '-', 'n', ']'], seq!['S', 'h', 'o', 'w', ' ', 'o', 'r', ' ', 'm', 'a', 'n', 'a', 'g', 'e', ' ', 'c', 'o', 'm', 'm', 'a', 'n', 'd', ' ', 'h', 'i', 's', 't', 'o', 'r', 'y'])]
        + seq![row2_spec(seq!['c', 'l', 'e', 'a', 'r'], Seq::<char>::empty(), seq!['C', 'l', 'e', 'a', 'r', ' ', 't', 'h', 'e', ' ', 't', 'e', 'r', 'm', 'i', 'n', 'a', 'l', ' ', 's', 'c', 'r', 'e', 'e', 'n'])]
        + seq![row2_spec(seq!['e', 'x', 'p', 'o', 'r', 't'], seq!['N', 'A', 'M', 'E', '[', '=', 'v', 'a', 'l', 'u', 'e', ']'], seq!['S', 'e', 't', ' ', 'e', 'n', 'v', 'i', 'r', 'o', 'n', 'm', 'e', 'n', 't', ' ', 'v', 'a', 'r', 'i', 'a', 'b', 'l', 'e'])]
}

fn push_builtins_part_0(out: &mut Vec<String>)
    ensures
        strings_view(final(out)@) == strings_view(old(out)@) + builtins_part_0(),
{
    let ghost o = strings_view(out@);
    let ghost mut acc: Seq<Seq<char>> = Seq::empty();
    push_header(out, &vec!['B', 'U', 'I', 'L', 'T', 'I', 'N', ' ', 'C', 'O', 'M', 'M', 'A', 'N', 'D', 'S']);
    proof { acc = acc + header_spec(seq!['B', 'U', 'I', 'L', 'T', 'I', 'N', ' ', 'C', 'O', 'M', 'M', 'A', 'N', 'D', 'S']); }
    assert(strings_view(out@) =~= o + acc);
    push_row2(out, &vec!['e', 'c', 'h', 'o'], &vec!['[', '-', 'n', '|', '-', 'e', '|', '-', 'E', ']', ' ', '<', 't', 'e', 'x', 't', '>'], &vec!['P', 'r', 'i', 'n', 't', ' ', 't', 'e', 'x', 't', ' ', 't', 'o', ' ', 's', 't', 'd', 'o', 'u', 't']);
    proof { acc = acc + seq![row2_spec(seq!['e', 'c', 'h', 'o'], seq!['[', '-', 'n', '|', '-', 'e', '|', '-', 'E', ']', ' ', '<', 't', 'e', 'x', 't', '>'], seq!['P', 'r', 'i', 'n', 't', ' ', 't', 'e', 'x', 't', ' ', 't', 'o', ' ', 's', 't', 'd', 'o', 'u', 't'])]; }
    assert(strings_view(out@) =~= o + acc);
    push_row2(out, &vec!['c', 'd'], &vec!['[', 'd', 'i', 'r', '|', '~', '|', '-', '|', '.', '.', ']'], &vec!['C', 'h', 'a', 'n', 'g', 'e', ' ', 'w', 'o', 'r', 'k', 'i', 'n', 'g', ' ', 'd', 'i', 'r', 'e', 'c', 't', 'o', 'r', 'y']);
    proof { acc = acc + seq![row2_spec(seq!['c', 'd'], seq!['[', 'd', 'i', 'r', '|', '~', '|', '-', '|', '.', '.', ']'], seq!['C', 'h', 'a', 'n', 'g', 'e', ' ', 'w', 'o', 'r', 'k', 'i', 'n', 'g', ' ', 'd', 'i', 'r', 'e', 'c', 't', 'o', 'r', 'y'])]; }
    assert(strings_view(out@) =~= o + acc);
    push_row2(out, &vec!['p', 'w', 'd'], &Vec::<char>::new(), &vec!['P', 'r', 'i', 'n', 't', ' ', 'c', 'u', 'r', 'r', 'e', 'n', 't', ' ', 'd', 'i', 'r', 'e', 'c', 't', 'o', 'r', 'y']);
    proof { acc = acc + seq![row2_spec(seq!['p', 'w', 'd'], Seq::<char>::empty(), seq!['P', 'r', 'i', 'n', 't', ' ', 'c', 'u', 'r', 'r', 'e', 'n', 't', ' ', 'd', 'i', 'r', 'e', 'c', 't', 'o', 'r', 'y'])]; }
    assert(strings_view(out@) =~= o + acc);
    push_row2(out, &vec!['t', 'y', 'p', 'e'], &vec!['<', 'c', 'm', 'd', '>'], &vec!['S', 'h', 'o', 'w', ' ', 'i', 'f', ' ', 'c', 'm', 'd', ' ', 'i', 's', ' ', 'b', 'u', 'i', 'l', 't', 'i', 'n', ' ', 'o', 'r', ' ', 'e', 'x', 't', 'e', 'r', 'n', 'a', 'l']);
    proof { acc = acc + seq![row2_spec(seq!['t', 'y', 'p', 'e'], seq!['<', 'c', 'm', 'd', '>'], seq!['S', 'h', 'o', 'w', ' ', 'i', 'f', ' ', 'c', 'm', 'd', ' ', 'i', 's', ' ', 'b', 'u', 'i', 'l', 't', 'i', 'n', ' ', 'o', 'r', ' ', 'e', 'x', 't', 'e', 'r', 'n', 'a', 'l'])]; }
    assert(strings_view(out@) =~= o + acc);
    push_row2(out, &vec!['e', 'x', 'i', 't'], &vec!['[', 'c', 'o', 'd', 'e', ']'], &vec!['E', 'x', 'i', 't', ' ', 't', 'h', 'e', ' ', 's', 'h', 'e', 'l', 'l']);
    proof { acc = acc + seq![row2_spec(seq!['e', 'x', 'i', 't'], seq!['[', 'c', 'o', 'd', 'e', ']'], seq!['E', 'x', 'i', 't', ' ', 't', 'h', 'e', ' ', 's', 'h', 'e', 'l', 'l'])]; }
    assert(strings_view(out@) =~= o + acc);
    push_row2(out, &vec!['h', 'i', 's', 't', 'o', 'r', 'y'], &vec!['[', '-', 'c', '|', '-', 'r', '|', '-', 'w', '|', '-', 'n', ']'], &vec!['S', 'h', 'o', 'w', ' ', 'o', 'r', ' ', 'm', 'a', 'n', 'a', 'g', 'e', ' ', 'c', 'o', 'm', 'm', 'a', 'n', 'd', ' ', 'h', 'i', 's', 't', 'o', 'r', 'y']);
    proof { acc = acc + seq![row2_spec(seq!['h', 'i', 's', 't', 'o', 'r', 'y'], seq!['[', '-', 'c', '|', '-', 'r', '|', '-', 'w', '|', '-', 'n', ']'], seq!['S', 'h', 'o', 'w', ' ', 'o', 'r', ' ', 'm', 'a', 'n', 'a', 'g', 'e', ' ', 'c', 'o', 'm', 'm', 'a', 'n', 'd', ' ', 'h', 'i', 's', 't', 'o', 'r', 'y'])]; }
    assert(strings_view(out@) =~= o + acc);
    push_row2(out, &vec!['c', 'l', 'e', 'a', 'r'], &Vec::<char>::new(), &vec!['C', 'l', 'e', 'a', 'r', ' ', 't', 'h', 'e', ' ', 't', 'e', 'r', 'm', 'i', 'n', 'a', 'l', ' ', 's', 'c', 'r', 'e', 'e', 'n']);
    proof { acc = acc + seq![row2_spec(seq!['c', 'l', 'e', 'a', 'r'], Seq::<char>::empty(), seq!['C', 'l', 'e', 'a', 'r', ' ', 't', 'h', 'e', ' ', 't', 'e', 'r', 'm', 'i', 'n', 'a', 'l', ' ', 's', 'c', 'r', 'e', 'e', 'n'])]; }
    assert(strings_view(out@) =~= o + acc);
    push_row2(out, &vec!['e', 'x', 'p', 'o', 'r', 't'], &vec!['N', 'A', 'M', 'E', '[', '=', 'v', 'a', 'l', 'u', 'e', ']'], &vec!['S', 'e', 't', ' ', 'e', 'n', 'v', 'i', 'r', 'o', 'n', 'm', 'e', 'n', 't', ' ', 'v', 'a', 'r', 'i', 'a', 'b', 'l', 'e']);
    proof { acc = acc + seq![row2_spec(seq!['e', 'x', 'p', 'o', 'r', 't'], seq!['N', 'A', 'M', 'E', '[', '=', 'v', 'a', 'l', 'u', 'e', ']'], seq!['S', 'e', 't', ' ', 'e', 'n', 'v', 'i', 'r', 'o', 'n', 'm', 'e', 'n', 't', ' ', 'v', 'a', 'r', 'i', 'a', 'b', 'l', 'e'])]; }
    assert(strings_view(out@) =~= o + acc);
    assert(acc =~= builtins_part_0());
}

pub open spec fn builtins_part_1() -> Seq<Seq<char>> {
    seq![row2_spec(seq!['u', 'n', 's', 'e', 't'], seq!['N', 'A', 'M', 'E'], seq!['U', 'n', 's', 'e', 't', ' ', 'e', 'n', 'v', 'i', 'r', 'o', 'n', 'm', 'e', 'n', 't', ' ', 'v', 'a', 'r', 'i', 'a', 'b', 'l', 'e'])]
        + seq![row2_spec(seq!['s', 'o', 'u', 'r', 'c', 'e'], seq!['<', 'f', 'i', 'l', 'e', '.', 's', 'h', '>'], seq!['E', 'x', 'e', 'c', 'u', 't', 'e', ' ', 's', 'c', 'r', 'i', 'p', 't', ' ', 'i', 'n', ' ', 'c', 'u', 'r', 'r', 'e', 'n', 't', ' ', 's', 'h', 'e', 'l', 'l'])]
        + seq![row2_spec(seq!['j', 'o', 'b', 's'], seq!['[', '%', 'N', ' ', '.', '.', '.', ']'], seq!['L', 'i', 's', 't', ' ', 'b', 'a', 'c', 'k', 'g', 'r', 'o', 'u', 'n', 'd', ' ', 'j', 'o', 'b', 's', ' ', '(', 'o', 'p', 't', 'i', 'o', 'n', 'a', 'l', ':', ' ', 's', 'p', 'e', 'c', 'i', 'f', 'i', 'c', ' ', 'j', 'o', 'b', ' ', 'I', 'D', 's', ')'])]
        + seq![row2_spec(seq!['l', 's'], seq!['[', '-', 'l', 'a', 'h', 'r', 't', 'd', '1', ']', ' ', '[', 'p', 'a', 't', 'h', ']'], seq!['L', 'i', 's', 't', ' ', 'd', 'i', 'r', 'e', 'c', 't', 'o', 'r', 'y', ' ', 'w', 'i', 't', 'h', ' ', 'i', 'c', 'o', 'n', 's', ' ', '(', 'N', 'e', 'r', 'd', ' ', 'F', 'o', 'n', 't', ',', ' ', 'e', 'z', 'a', '-', 's', 't', 'y', 'l', 'e', ')'])]
        + seq![row2_spec(seq!['h', 'e', 'l', 'p'], seq!['[', 't', 'o', 'p', 'i', 'c', ']'], seq!['S', 'h', 'o', 'w', ' ', 't', 'h', 'i', 's', ' ', 'h', 'e', 'l', 'p', ' ', '(', 't', 'o', 'p', 'i', 'c', 's', ':', ' ', 'b', 'u', 'i', 'l', 't', 'i', 'n', 's', ' ', 'b', 'i', 'n', 'd', 'i', 'n', 'g', 's', ' ', 'c', 'o', 'n', 'f', 'i', 'g', ')'])]
        + seq![Seq::<char>::empty()]
        + seq![seq![' ', ' ', ' ', ' ', '\x1b', '[', '1', ';', '3', '7', 'm', 'R', 'e', 'd', 'i', 'r', 'e', 'c', 't', 'i', 'o', 'n', ':', '\x1b', '[', '0', 'm']]
        + seq![row_spec(seq!['c', 'm', 'd', ' ', '>', ' ', 'f', 'i', 'l', 'e'], seq!['R', 'e', 'd', 'i', 'r', 'e', 'c', 't', ' ', 's', 't', 'd', 'o', 'u', 't', ' ', 't', 'o', ' ', 'f', 'i', 'l', 'e', ' ', '(', 'o', 'v', 'e', 'r', 'w', 'r', 'i', 't', 'e', ')'])]
        + seq![row_spec(seq!['c', 'm', 'd', ' ', '>', '>', ' ', 'f', 'i', 'l', 'e'], seq!['R', 'e', 'd', 'i', 'r', 'e', 'c', 't', ' ', 's', 't', 'd', 'o', 'u', 't', ' ', 't', 'o', ' ', 'f', 'i', 'l', 'e', ' ', '(', 'a', 'p', 'p', 'e', 'n', 'd', ')'])]
}

fn push_builtins_part_1(out: &mut Vec<String>)
    ensures
        strings_view(final(out)@) == strings_view(old(out)@) + builtins_part_1(),
{
    let ghost o = strings_view(out@);
    let ghost mut acc: Seq<Seq<char>> = Seq::empty();
    push_row2(out, &vec!['u', 'n', 's', 'e', 't'], &vec!['N', 'A', 'M', 'E'], &vec!['U', 'n', 's', 'e', 't', ' ', 'e', 'n', 'v', 'i', 'r', 'o', 'n', 'm', 'e', 'n', 't', ' ', 'v', 'a', 'r', 'i', 'a', 'b', 'l', 'e']);
    proof { acc = acc + seq![row2_spec(seq!['u', 'n', 's', 'e', 't'], seq!['N', 'A', 'M', 'E'], seq!['U', 'n', 's', 'e', 't', ' ', 'e', 'n', 'v', 'i', 'r', 'o', 'n', 'm', 'e', 'n', 't', ' ', 'v', 'a', 'r', 'i', 'a', 'b', 'l', 'e'])]; }
    assert(strings_view(out@) =~= o + acc);
    push_row2(out, &vec!['s', 'o', 'u', 'r', 'c', 'e'], &vec!['<', 'f', 'i', 'l', 'e', '.', 's', 'h', '>'], &vec!['E', 'x', 'e', 'c', 'u', 't', 'e', ' ', 's', 'c', 'r', 'i', 'p', 't', ' ', 'i', 'n', ' ', 'c', 'u', 'r', 'r', 'e', 'n', 't', ' ', 's', 'h', 'e', 'l', 'l']);
    proof { acc = acc + seq![row2_spec(seq!['s', 'o', 'u', 'r', 'c', 'e'], seq!['<', 'f', 'i', 'l', 'e', '.', 's', 'h', '>'], seq!['E', 'x', 'e', 'c', 'u', 't', 'e', ' ', 's', 'c', 'r', 'i', 'p', 't', ' ', 'i', 'n', ' ', 'c', 'u', 'r', 'r', 'e', 'n', 't', ' ', 's', 'h', 'e', 'l', 'l'])]; }
    assert(strings_view(out@) =~= o + acc);
    push_row2(out, &vec!['j', 'o', 'b', 's'], &vec!['[', '%', 'N', ' ', '.', '.', '.', ']'], &vec!['L', 'i', 's', 't', ' ', 'b', 'a', 'c', 'k', 'g', 'r', 'o', 'u', 'n', 'd', ' ', 'j', 'o', 'b', 's', ' ', '(', 'o', 'p', 't', 'i', 'o', 'n', 'a', 'l', ':', ' ', 's', 'p', 'e', 'c', 'i', 'f', 'i', 'c', ' ', 'j', 'o', 'b', ' ', 'I', 'D', 's', ')']);
    proof { acc = acc + seq![row2_spec(seq!['j', 'o', 'b', 's'], seq!['[', '%', 'N', ' ', '.', '.', '.', ']'], seq!['L', 'i', 's', 't', ' ', 'b', 'a', 'c', 'k', 'g', 'r', 'o', 'u', 'n', 'd', ' ', 'j', 'o', 'b', 's', ' ', '(', 'o', 'p', 't', 'i', 'o', 'n', 'a', 'l', ':', ' ', 's', 'p', 'e', 'c', 'i', 'f', 'i', 'c', ' ', 'j', 'o', 'b', ' ', 'I', 'D', 's', ')'])]; }
    assert(strings_view(out@) =~= o + acc);
    push_row2(out, &vec!['l', 's'], &vec!['[', '-', 'l', 'a', 'h', 'r', 't', 'd', '1', ']', ' ', '[', 'p', 'a', 't', 'h', ']'], &vec!['L', 'i', 's', 't', ' ', 'd', 'i', 'r', 'e', 'c', 't', 'o', 'r', 'y', ' ', 'w', 'i', 't', 'h', ' ', 'i', 'c', 'o', 'n', 's', ' ', '(', 'N', 'e', 'r', 'd', ' ', 'F', 'o', 'n', 't', ',', ' ', 'e', 'z', 'a', '-', 's', 't', 'y', 'l', 'e', ')']);
    proof { acc = acc + seq![row2_spec(seq!['l', 's'], seq!['[', '-', 'l', 'a', 'h', 'r', 't', 'd', '1', ']', ' ', '[', 'p', 'a', 't', 'h', ']'], seq!['L', 'i', 's', 't', ' ', 'd', 'i', 'r', 'e', 'c', 't', 'o', 'r', 'y', ' ', 'w', 'i', 't', 'h', ' ', 'i', 'c', 'o', 'n', 's', ' ', '(', 'N', 'e', 'r', 'd', ' ', 'F', 'o', 'n', 't', ',', ' ', 'e', 'z', 'a', '-', 's', 't', 'y', 'l', 'e', ')'])]; }
    assert(strings_view(out@) =~= o + acc);
    push_row2(out, &vec!['h', 'e', 'l', 'p'], &vec!['[', 't', 'o', 'p', 'i', 'c', ']'], &vec!['S', 'h', 'o', 'w', ' ', 't', 'h', 'i', 's', ' ', 'h', 'e', 'l', 'p', ' ', '(', 't', 'o', 'p', 'i', 'c', 's', ':', ' ', 'b', 'u', 'i', 'l', 't', 'i', 'n', 's', ' ', 'b', 'i', 'n', 'd', 'i', 'n', 'g', 's', ' ', 'c', 'o', 'n', 'f', 'i', 'g', ')']);
    proof { acc = acc + seq![row2_spec(seq!['h', 'e', 'l', 'p'], seq!['[', 't', 'o', 'p', 'i', 'c', ']'], seq!['S', 'h', 'o', 'w', ' ', 't', 'h', 'i', 's', ' ', 'h', 'e', 'l', 'p', ' ', '(', 't', 'o', 'p', 'i', 'c', 's', ':', ' ', 'b', 'u', 'i', 'l', 't', 'i', 'n', 's', ' ', 'b', 'i', 'n', 'd', 'i', 'n', 'g', 's', ' ', 'c', 'o', 'n', 'f', 'i', 'g', ')'])]; }
    assert(strings_view(out@) =~= o + acc);
    push_line(out, Vec::<char>::new());
    proof { acc = acc + seq![Seq::<char>::empty()]; }
    assert(strings_view(out@) =~= o + acc);
    push_line(out, vec![' ', ' ', ' ', ' ', '\x1b', '[', '1', ';', '3', '7', 'm', 'R', 'e', 'd', 'i', 'r', 'e', 'c', 't', 'i', 'o', 'n', ':', '\x1b', '[', '0', 'm']);
    proof { acc = acc + seq![seq![' ', ' ', ' ', ' ', '\x1b', '[', '1', ';', '3', '7', 'm', 'R', 'e', 'd', 'i', 'r', 'e', 'c', 't', 'i', 'o', 'n', ':', '\x1b', '[', '0', 'm']]; }
    assert(strings_view(out@) =~= o + acc);
    push_row(out, &vec!['c', 'm', 'd', ' ', '>', ' ', 'f', 'i', 'l', 'e'], &vec!['R', 'e', 'd', 'i', 'r', 'e', 'c', 't', ' ', 's', 't', 'd', 'o', 'u', 't', ' ', 't', 'o', ' ', 'f', 'i', 'l', 'e', ' ', '(', 'o', 'v', 'e', 'r', 'w', 'r', 'i', 't', 'e', ')']);
    proof { acc = acc + seq![row_spec(seq!['c', 'm', 'd', ' ', '>', ' ', 'f', 'i', 'l', 'e'], seq!['R', 'e', 'd', 'i', 'r', 'e', 'c', 't', ' ', 's', 't', 'd', 'o', 'u', 't', ' ', 't', 'o', ' ', 'f', 'i', 'l', 'e', ' ', '(', 'o', 'v', 'e', 'r', 'w', 'r', 'i', 't', 'e', ')'])]; }
    assert(strings_view(out@) =~= o + acc);
    push_row(out, &vec!['c', 'm', 'd', ' ', '>', '>', ' ', 'f', 'i', 'l', 'e'], &vec!['R', 'e', 'd', 'i', 'r', 'e', 'c', 't', ' ', 's', 't', 'd', 'o', 'u', 't', ' ', 't', 'o', ' ', 'f', 'i', 'l', 'e', ' ', '(', 'a', 'p', 'p', 'e', 'n', 'd', ')']);
    proof { acc = acc + seq![row_spec(seq!['c', 'm', 'd', ' ', '>', '>', ' ', 'f', 'i', 'l', 'e'], seq!['R', 'e', 'd', 'i', 'r', 'e', 'c', 't', ' ', 's', 't', 'd', 'o', 'u', 't', ' ', 't', 'o', ' ', 'f', 'i', 'l', 'e', ' ', '(', 'a', 'p', 'p', 'e', 'n', 'd', ')'])]; }
    assert(strings_view(out@) =~= o + acc);
    assert(acc =~= builtins_part_1());
}

pub open spec fn builtins_part_2() -> Seq<Seq<char>> {
    seq![row_spec(seq!['c', 'm', 'd', ' ', '2', '>', ' ', 'f', 'i', 'l', 'e'], seq!['R', 'e', 'd', 'i', 'r', 'e', 'c', 't', ' ', 's', 't', 'd', 'e', 'r', 'r', ' ', 't', 'o', ' ', 'f', 'i', 'l', 'e'])]
        + seq![row_spec(seq!['c', 'm', 'd', ' ', '2', '>', '>', ' ', 'f', 'i', 'l', 'e'], seq!['R', 'e', 'd', 'i', 'r', 'e', 'c', 't', ' ', 's', 't', 'd', 'e', 'r', 'r', ' ', 't', 'o', ' ', 'f', 'i', 'l', 'e', ' ', '(', 'a', 'p', 'p', 'e', 'n', 'd', ')'])]
        + seq![row_spec(seq!['c', 'm', 'd', ' ', '1', '>', ' ', 'f', 'i', 'l', 'e'], seq!['E', 'x', 'p', 'l', 'i', 'c', 'i', 't', ' ', 's', 't', 'd', 'o', 'u', 't', ' ', 'r', 'e', 'd', 'i', 'r', 'e', 'c', 't'])]
        + seq![Seq::<char>::empty()]
        + seq![seq![' ', ' ', ' ', ' ', '\x1b', '[', '1', ';', '3', '7', 'm', 'B', 'a', 'c', 'k', 'g', 'r', 'o', 'u', 'n', 'd', ' ', 'j', 'o', 'b', 's', ':', '\x1b', '[', '0', 'm']]
        + seq![row_spec(seq!['c', 'm', 'd', ' ', '&'], seq!['R', 'u', 'n', ' ', 'c', 'o', 'm', 'm', 'a', 'n', 'd', ' ', 'i', 'n', ' ', 'b', 'a', 'c', 'k', 'g', 'r', 'o', 'u', 'n', 'd'])]
        + seq![row_spec(seq!['j', 'o', 'b', 's'], seq!['L', 'i', 's', 't', ' ', 'a', 'l', 'l', ' ', 'b', 'a', 'c', 'k', 'g', 'r', 'o', 'u', 'n', 'd', ' ', 'j', 'o', 'b', 's'])]
        + seq![row_spec(seq!['j', 'o', 'b', 's', ' ', '%', '1', ' ', '%', '2'], seq!['S', 'h', 'o', 'w', ' ', 's', 'p', 'e', 'c', 'i', 'f', 'i', 'c', ' ', 'b', 'a', 'c', 'k', 'g', 'r', 'o', 'u', 'n', 'd', ' ', 'j', 'o', 'b', 's'])]
        + seq![seq![' ', ' ', ' ', ' ', '\x1b', '[', '2', 'm', ' ', ' ', 'J', 'o', 'b', 's', ' ', 'a', 'r', 'e', ' ', 'r', 'e', 'a', 'p', 'e', 'd', ' ', 'a', 'u', 't', 'o', 'm', 'a', 't', 'i', 'c', 'a', 'l', 'l', 'y', ' ', 'b', 'e', 'f', 'o', 'r', 'e', ' ', 'e', 'a', 'c', 'h', ' ', 'p', 'r', 'o', 'm', 'p', 't', '.', '\x1b', '[', '0', 'm']]
}

fn push_builtins_part_2(out: &mut Vec<String>)
    ensures
        strings_view(final(out)@) == strings_view(old(out)@) + builtins_part_2(),
{
    let ghost o = strings_view(out@);
    let ghost mut acc: Seq<Seq<char>> = Seq::empty();
    push_row(out, &vec!['c', 'm', 'd', ' ', '2', '>', ' ', 'f', 'i', 'l', 'e'], &vec!['R', 'e', 'd', 'i', 'r', 'e', 'c', 't', ' ', 's', 't', 'd', 'e', 'r', 'r', ' ', 't', 'o', ' ', 'f', 'i', 'l', 'e']);
    proof { acc = acc + seq![row_spec(seq!['c', 'm', 'd', ' ', '2', '>', ' ', 'f', 'i', 'l', 'e'], seq!['R', 'e', 'd', 'i', 'r', 'e', 'c', 't', ' ', 's', 't', 'd', 'e', 'r', 'r', ' ', 't', 'o', ' ', 'f', 'i', 'l', 'e'])]; }
    assert(strings_view(out@) =~= o + acc);
    push_row(out, &vec!['c', 'm', 'd', ' ', '2', '>', '>', ' ', 'f', 'i', 'l', 'e'], &vec!['R', 'e', 'd', 'i', 'r', 'e', 'c', 't', ' ', 's', 't', 'd', 'e', 'r', 'r', ' ', 't', 'o', ' ', 'f', 'i', 'l', 'e', ' ', '(', 'a', 'p', 'p', 'e', 'n', 'd', ')']);
    proof { acc = acc + seq![row_spec(seq!['c', 'm', 'd', ' ', '2', '>', '>', ' ', 'f', 'i', 'l', 'e'], seq!['R', 'e', 'd', 'i', 'r', 'e', 'c', 't', ' ', 's', 't', 'd', 'e', 'r', 'r', ' ', 't', 'o', ' ', 'f', 'i', 'l', 'e', ' ', '(', 'a', 'p', 'p', 'e', 'n', 'd', ')'])]; }
    assert(strings_view(out@) =~= o + acc);
    push_row(out, &vec!['c', 'm', 'd', ' ', '1', '>', ' ', 'f', 'i', 'l', 'e'], &vec!['E', 'x', 'p', 'l', 'i', 'c', 'i', 't', ' ', 's', 't', 'd', 'o', 'u', 't', ' ', 'r', 'e', 'd', 'i', 'r', 'e', 'c', 't']);
    proof { acc = acc + seq![row_spec(seq!['c', 'm', 'd', ' ', '1', '>', ' ', 'f', 'i', 'l', 'e'], seq!['E', 'x', 'p', 'l', 'i', 'c', 'i', 't', ' ', 's', 't', 'd', 'o', 'u', 't', ' ', 'r', 'e', 'd', 'i', 'r', 'e', 'c', 't'])]; }
    assert(strings_view(out@) =~= o + acc);
    push_line(out, Vec::<char>::new());
    proof { acc = acc + seq![Seq::<char>::empty()]; }
    assert(strings_view(out@) =~= o + acc);
    push_line(out, vec![' ', ' ', ' ', ' ', '\x1b', '[', '1', ';', '3', '7', 'm', 'B', 'a', 'c', 'k', 'g', 'r', 'o', 'u', 'n', 'd', ' ', 'j', 'o', 'b', 's', ':', '\x1b', '[', '0', 'm']);
    proof { acc = acc + seq![seq![' ', ' ', ' ', ' ', '\x1b', '[', '1', ';', '3', '7', 'm', 'B', 'a', 'c', 'k', 'g', 'r', 'o', 'u', 'n', 'd', ' ', 'j', 'o', 'b', 's', ':', '\x1b', '[', '0', 'm']]; }
    assert(strings_view(out@) =~= o + acc);
    push_row(out, &vec!['c', 'm', 'd', ' ', '&'], &vec!['R', 'u', 'n', ' ', 'c', 'o', 'm', 'm', 'a', 'n', 'd', ' ', 'i', 'n', ' ', 'b', 'a', 'c', 'k', 'g', 'r', 'o', 'u', 'n', 'd']);
    proof { acc = acc + seq![row_spec(seq!['c', 'm', 'd', ' ', '&'], seq!['R', 'u', 'n', ' ', 'c', 'o', 'm', 'm', 'a', 'n', 'd', ' ', 'i', 'n', ' ', 'b', 'a', 'c', 'k', 'g', 'r', 'o', 'u', 'n', 'd'])]; }
    assert(strings_view(out@) =~= o + acc);
    push_row(out, &vec!['j', 'o', 'b', 's'], &vec!['L', 'i', 's', 't', ' ', 'a', 'l', 'l', ' ', 'b', 'a', 'c', 'k', 'g', 'r', 'o', 'u', 'n', 'd', ' ', 'j', 'o', 'b', 's']);
    proof { acc = acc + seq![row_spec(seq!['j', 'o', 'b', 's'], seq!['L', 'i', 's', 't', ' ', 'a', 'l', 'l', ' ', 'b', 'a', 'c', 'k', 'g', 'r', 'o', 'u', 'n', 'd', ' ', 'j', 'o', 'b', 's'])]; }
    assert(strings_view(out@) =~= o + acc);
    push_row(out, &vec!['j', 'o', 'b', 's', ' ', '%', '1', ' ', '%', '2'], &vec!['S', 'h', 'o', 'w', ' ', 's', 'p', 'e', 'c', 'i', 'f', 'i', 'c', ' ', 'b', 'a', 'c', 'k', 'g', 'r', 'o', 'u', 'n', 'd', ' ', 'j', 'o', 'b', 's']);
    proof { acc = acc + seq![row_spec(seq!['j', 'o', 'b', 's', ' ', '%', '1', ' ', '%', '2'], seq!['S', 'h', 'o', 'w', ' ', 's', 'p', 'e', 'c', 'i', 'f', 'i', 'c', ' ', 'b', 'a', 'c', 'k', 'g', 'r', 'o', 'u', 'n', 'd', ' ', 'j', 'o', 'b', 's'])]; }
    assert(strings_view(out@) =~= o + acc);
    push_line(out, vec![' ', ' ', ' ', ' ', '\x1b', '[', '2', 'm', ' ', ' ', 'J', 'o', 'b', 's', ' ', 'a', 'r', 'e', ' ', 'r', 'e', 'a', 'p', 'e', 'd', ' ', 'a', 'u', 't', 'o', 'm', 'a', 't', 'i', 'c', 'a', 'l', 'l', 'y', ' ', 'b', 'e', 'f', 'o', 'r', 'e', ' ', 'e', 'a', 'c', 'h', ' ', 'p', 'r', 'o', 'm', 'p', 't', '.', '\x1b', '[', '0', 'm']);
    proof { acc = acc + seq![seq![' ', ' ', ' ', ' ', '\x1b', '[', '2', 'm', ' ', ' ', 'J', 'o', 'b', 's', ' ', 'a', 'r', 'e', ' ', 'r', 'e', 'a', 'p', 'e', 'd', ' ', 'a', 'u', 't', 'o', 'm', 'a', 't', 'i', 'c', 'a', 'l', 'l', 'y', ' ', 'b', 'e', 'f', 'o', 'r', 'e', ' ', 'e', 'a', 'c', 'h', ' ', 'p', 'r', 'o', 'm', 'p', 't', '.', '\x1b', '[', '0', 'm']]; }
    assert(strings_view(out@) =~= o + acc);
    assert(acc =~= builtins_part_2());
}

pub open spec fn builtins_part_3() -> Seq<Seq<char>> {
    seq![Seq::<char>::empty()]
        + seq![seq![' ', ' ', ' ', ' ', '\x1b', '[', '1', ';', '3', '7', 'm', 'P', 'i', 'p', 'e', 'l', 'i', 'n', 'e', 's', ':', '\x1b', '[', '0', 'm']]
        + seq![row_spec(seq!['c', 'm', 'd', '1', ' ', '|', ' ', 'c', 'm', 'd', '2'], seq!['P', 'i', 'p', 'e', ' ', 's', 't', 'd', 'o', 'u', 't', ' ', 'o', 'f', ' ', 'c', 'm', 'd', '1', ' ', 't', 'o', ' ', 's', 't', 'd', 'i', 'n', ' ', 'o', 'f', ' ', 'c', 'm', 'd', '2'])]
        + seq![row_spec(seq!['e', 'c', 'h', 'o', ' ', 'h', 'i', ' ', '|', ' ', 'w', 'c', ' ', '-', 'c'], seq!['P', 'i', 'p', 'e', 'l', 'i', 'n', 'e', ' ', 'w', 'i', 't', 'h', ' ', 'b', 'u', 'i', 'l', 't', 'i', 'n'])]
        + seq![row_spec(seq!['c', 'm', 'd', '1', ' ', '|', ' ', 'c', 'm', 'd', '2', ' ', '|', ' ', 'c', 'm', 'd', '3'], seq!['M', 'u', 'l', 't', 'i', '-', 'c', 'o', 'm', 'm', 'a', 'n', 'd', ' ', 'p', 'i', 'p', 'e', 'l', 'i', 'n', 'e'])]
        + seq![Seq::<char>::empty()]
        + seq![seq![' ', ' ', ' ', ' ', '\x1b', '[', '1', ';', '3', '7', 'm', 'C', 'o', 'n', 'd', 'i', 't', 'i', 'o', 'n', 'a', 'l', ' ', 'e', 'x', 'e', 'c', 'u', 't', 'i', 'o', 'n', ':', '\x1b', '[', '0', 'm']]
        + seq![row_spec(seq!['c', 'm', 'd', '1', ' ', '&', '&', ' ', 'c', 'm', 'd', '2'], seq!['R', 'u', 'n', ' ', 'c', 'm', 'd', '2', ' ', 'o', 'n', 'l', 'y', ' ', 'i', 'f', ' ', 'c', 'm', 'd', '1', ' ', 's', 'u', 'c', 'c', 'e', 'e', 'd', 's', ' ', '(', 'e', 'x', 'i', 't', ' ', '0', ')'])]
        + seq![row_spec(seq!['c', 'm', 'd', '1', ' ', '|', '|', ' ', 'c', 'm', 'd', '2'], seq!['R', 'u', 'n', ' ', 'c', 'm', 'd', '2', ' ', 'o', 'n', 'l', 'y', ' ', 'i', 'f', ' ', 'c', 'm', 'd', '1', ' ', 'f', 'a', 'i', 'l', 's', ' ', '(', 'e', 'x', 'i', 't', ' ', '\u{2260}', ' ', '0', ')'])]
}

fn push_builtins_part_3(out: &mut Vec<String>)
    ensures
        strings_view(final(out)@) == strings_view(old(out)@) + builtins_part_3(),
{
    let ghost o = strings_view(out@);
    let ghost mut acc: Seq<Seq<char>> = Seq::empty();
    push_line(out, Vec::<char>::new());
    proof { acc = acc + seq![Seq::<char>::empty()]; }
    assert(strings_view(out@) =~= o + acc);
    push_line(out, vec![' ', ' ', ' ', ' ', '\x1b', '[', '1', ';', '3', '7', 'm', 'P', 'i', 'p', 'e', 'l', 'i', 'n', 'e', 's', ':', '\x1b', '[', '0', 'm']);
    proof { acc = acc + seq![seq![' ', ' ', ' ', ' ', '\x1b', '[', '1', ';', '3', '7', 'm', 'P', 'i', 'p', 'e', 'l', 'i', 'n', 'e', 's', ':', '\x1b', '[', '0', 'm']]; }
    assert(strings_view(out@) =~= o + acc);
    push_row(out, &vec!['c', 'm', 'd', '1', ' ', '|', ' ', 'c', 'm', 'd', '2'], &vec!['P', 'i', 'p', 'e', ' ', 's', 't', 'd', 'o', 'u', 't', ' ', 'o', 'f', ' ', 'c', 'm', 'd', '1', ' ', 't', 'o', ' ', 's', 't', 'd', 'i', 'n', ' ', 'o', 'f', ' ', 'c', 'm', 'd', '2']);
    proof { acc = acc + seq![row_spec(seq!['c', 'm', 'd', '1', ' ', '|', ' ', 'c', 'm', 'd', '2'], seq!['P', 'i', 'p', 'e', ' ', 's', 't', 'd', 'o', 'u', 't', ' ', 'o', 'f', ' ', 'c', 'm', 'd', '1', ' ', 't', 'o', ' ', 's', 't', 'd', 'i', 'n', ' ', 'o', 'f', ' ', 'c', 'm', 'd', '2'])]; }
    assert(strings_view(out@) =~= o + acc);
    push_row(out, &vec!['e', 'c', 'h', 'o', ' ', 'h', 'i', ' ', '|', ' ', 'w', 'c', ' ', '-', 'c'], &vec!['P', 'i', 'p', 'e', 'l', 'i', 'n', 'e', ' ', 'w', 'i', 't', 'h', ' ', 'b', 'u', 'i', 'l', 't', 'i', 'n']);
    proof { acc = acc + seq![row_spec(seq!['e', 'c', 'h', 'o', ' ', 'h', 'i', ' ', '|', ' ', 'w', 'c', ' ', '-', 'c'], seq!['P', 'i', 'p', 'e', 'l', 'i', 'n', 'e', ' ', 'w', 'i', 't', 'h', ' ', 'b', 'u', 'i', 'l', 't', 'i', 'n'])]; }
    assert(strings_view(out@) =~= o + acc);
    push_row(out, &vec!['c', 'm', 'd', '1', ' ', '|', ' ', 'c', 'm', 'd', '2', ' ', '|', ' ', 'c', 'm', 'd', '3'], &vec!['M', 'u', 'l', 't', 'i', '-', 'c', 'o', 'm', 'm', 'a', 'n', 'd', ' ', 'p', 'i', 'p', 'e', 'l', 'i', 'n', 'e']);
    proof { acc = acc + seq![row_spec(seq!['c', 'm', 'd', '1', ' ', '|', ' ', 'c', 'm', 'd', '2', ' ', '|', ' ', 'c', 'm', 'd', '3'], seq!['M', 'u', 'l', 't', 'i', '-', 'c', 'o', 'm', 'm', 'a', 'n', 'd', ' ', 'p', 'i', 'p', 'e', 'l', 'i', 'n', 'e'])]; }
    assert(strings_view(out@) =~= o + acc);
    push_line(out, Vec::<char>::new());
    proof { acc = acc + seq![Seq::<char>::empty()]; }
    assert(strings_view(out@) =~= o + acc);
    push_line(out, vec![' ', ' ', ' ', ' ', '\x1b', '[', '1', ';', '3', '7', 'm', 'C', 'o', 'n', 'd', 'i', 't', 'i', 'o', 'n', 'a', 'l', ' ', 'e', 'x', 'e', 'c', 'u', 't', 'i', 'o', 'n', ':', '\x1b', '[', '0', 'm']);
    proof { acc = acc + seq![seq![' ', ' ', ' ', ' ', '\x1b', '[', '1', ';', '3', '7', 'm', 'C', 'o', 'n', 'd', 'i', 't', 'i', 'o', 'n', 'a', 'l', ' ', 'e', 'x', 'e', 'c', 'u', 't', 'i', 'o', 'n', ':', '\x1b', '[', '0', 'm']]; }
    assert(strings_view(out@) =~= o + acc);
    push_row(out, &vec!['c', 'm', 'd', '1', ' ', '&', '&', ' ', 'c', 'm', 'd', '2'], &vec!['R', 'u', 'n', ' ', 'c', 'm', 'd', '2', ' ', 'o', 'n', 'l', 'y', ' ', 'i', 'f', ' ', 'c', 'm', 'd', '1', ' ', 's', 'u', 'c', 'c', 'e', 'e', 'd', 's', ' ', '(', 'e', 'x', 'i', 't', ' ', '0', ')']);
    proof { acc = acc + seq![row_spec(seq!['c', 'm', 'd', '1', ' ', '&', '&', ' ', 'c', 'm', 'd', '2'], seq!['R', 'u', 'n', ' ', 'c', 'm', 'd', '2', ' ', 'o', 'n', 'l', 'y', ' ', 'i', 'f', ' ', 'c', 'm', 'd', '1', ' ', 's', 'u', 'c', 'c', 'e', 'e', 'd', 's', ' ', '(', 'e', 'x', 'i', 't', ' ', '0', ')'])]; }
    assert(strings_view(out@) =~= o + acc);
    push_row(out, &vec!['c', 'm', 'd', '1', ' ', '|', '|', ' ', 'c', 'm', 'd', '2'], &vec!['R', 'u', 'n', ' ', 'c', 'm', 'd', '2', ' ', 'o', 'n', 'l', 'y', ' ', 'i', 'f', ' ', 'c', 'm', 'd', '1', ' ', 'f', 'a', 'i', 'l', 's', ' ', '(', 'e', 'x', 'i', 't', ' ', '\u{2260}', ' ', '0', ')']);
    proof { acc = acc + seq![row_spec(seq!['c', 'm', 'd', '1', ' ', '|', '|', ' ', 'c', 'm', 'd', '2'], seq!['R', 'u', 'n', ' ', 'c', 'm', 'd', '2', ' ', 'o', 'n', 'l', 'y', ' ', 'i', 'f', ' ', 'c', 'm', 'd', '1', ' ', 'f', 'a', 'i', 'l', 's', ' ', '(', 'e', 'x', 'i', 't', ' ', '\u{2260}', ' ', '0', ')'])]; }
    assert(strings_view(out@) =~= o + acc);
    assert(acc =~= builtins_part_3());
}

pub fn builtins_lines() -> (r: Vec<String>)
    ensures
        strings_view(r@) == builtins_spec(),
{
    let mut out: Vec<String> = Vec::new();
    assert(strings_view(out@) =~= Seq::<Seq<char>>::empty());
    push_builtins_part_0(&mut out);
    push_builtins_part_1(&mut out);
    push_builtins_part_2(&mut out);
    push_builtins_part_3(&mut out);
    assert(strings_view(out@) =~= builtins_spec());
    out
}

/// The lines of the `bindings` part of `help`.
pub open spec fn bindings_spec() -> Seq<Seq<char>> {
    bindings_part_0() + bindings_part_1() + bindings_part_2() + bindings_part_3()
}

pub open spec fn bindings_part_0() -> Seq<Seq<char>> {
    header_spec(seq!['K', 'E', 'Y', 'B', 'O', 'A', 'R', 'D', ' ', 'B', 'I', 'N', 'D', 'I', 'N', 'G', 'S'])
        + seq![seq![' ', ' ', ' ', ' ', '\x1b', '[', '1', ';', '3', '7', 'm', 'C', 'o', 'm', 'p', 'l', 'e', 't', 'i', 'o', 'n', ':', '\x1b', '[', '0', 'm']]
        + seq![row_spec(seq!['T', 'a', 'b'], seq!['C', 'o', 'm', 'p', 'l', 'e', 't', 'e', ' ', '/', ' ', 'c', 'y', 'c', 'l', 'e', ' ', '(', 'C', 'i', 'r', 'c', 'u', 'l', 'a', 'r', ' ', 'm', 'o', 'd', 'e', ')'])]
        + seq![row_spec(seq!['T', 'a', 'b', ' ', ' ', '(', '\u{d7}', '2', ')'], seq!['S', 'h', 'o', 'w', ' ', 'f', 'u', 'l', 'l', ' ', 'c', 'a', 'n', 'd', 'i', 'd', 'a', 't', 'e', ' ', 'l', 'i', 's', 't', ' ', '+', ' ', 'c', 'y', 'c', 'l', 'e'])]
        + seq![row_spec(seq!['C', 't', 'r', 'l', '+', 'S', 'p', 'a', 'c', 'e'], seq!['F', 'o', 'r', 'c', 'e', ' ', 's', 'h', 'o', 'w', ' ', 'a', 'l', 'l', ' ', 'c', 'a', 'n', 'd', 'i', 'd', 'a', 't', 'e', 's', ' ', 'a', 's', ' ', 'l', 'i', 's', 't'])]
        + seq![row_spec(seq!['A', 'l', 't', '+', 'l'], seq!['F', 'o', 'r', 'c', 'e', ' ', 's', 'h', 'o', 'w', ' ', 'a', 'l', 'l', ' ', 'c', 'a', 'n', 'd', 'i', 'd', 'a', 't', 'e', 's', ' ', 'a', 's', ' ', 'l', 'i', 's', 't'])]
        + seq![row_spec(seq!['S', 'h', 'i', 'f', 't', '+', 'T', 'a', 'b'], seq!['A', 'c', 'c', 'e', 'p', 't', ' ', 'g', 'h', 'o', 's', 't', ' ', 't', 'e', 'x', 't', ' ', 's', 'u', 'g', 'g', 'e', 's', 't', 'i', 'o', 'n'])]
        + seq![row_spec(seq!['\u{2192}', ' ', ' ', '/', ' ', ' ', 'E', 'n', 'd'], seq!['A', 'c', 'c', 'e', 'p', 't', ' ', 'g', 'h', 'o', 's', 't', ' ', 't', 'e', 'x', 't', ' ', '(', 'h', 'i', 's', 't', 'o', 'r', 'y', ' ', 'o', 'r', ' ', 't', 'o', 'p', ' ', 'c', 'o', 'm', 'p', 'l', 'e', 't', 'i', 'o', 'n', ')'])]
        + seq![Seq::<char>::empty()]
}

fn push_bindings_part_0(out: &mut Vec<String>)
    ensures
        strings_view(final(out)@) == strings_view(old(out)@) + bindings_part_0(),
{
    let ghost o = strings_view(out@);
    let ghost mut acc: Seq<Seq<char>> = Seq::empty();
    push_header(out, &vec!['K', 'E', 'Y', 'B', 'O', 'A', 'R', 'D', ' ', 'B', 'I', 'N', 'D', 'I', 'N', 'G', 'S']);
    proof { acc = acc + header_spec(seq!['K', 'E', 'Y', 'B', 'O', 'A', 'R', 'D', ' ', 'B', 'I', 'N', 'D', 'I', 'N', 'G', 'S']); }
    assert(strings_view(out@) =~= o + acc);
    push_line(out, vec![' ', ' ', ' ', ' ', '\x1b', '[', '1', ';', '3', '7', 'm', 'C', 'o', 'm', 'p', 'l', 'e', 't', 'i', 'o', 'n', ':', '\x1b', '[', '0', 'm']);
    proof { acc = acc + seq![seq![' ', ' ', ' ', ' ', '\x1b', '[', '1', ';', '3', '7', 'm', 'C', 'o', 'm', 'p', 'l', 'e', 't', 'i', 'o', 'n', ':', '\x1b', '[', '0', 'm']]; }
    assert(strings_view(out@) =~= o + acc);
    push_row(out, &vec!['T', 'a', 'b'], &vec!['C', 'o', 'm', 'p', 'l', 'e', 't', 'e', ' ', '/', ' ', 'c', 'y', 'c', 'l', 'e', ' ', '(', 'C', 'i', 'r', 'c', 'u', 'l', 'a', 'r', ' ', 'm', 'o', 'd', 'e', ')']);
    proof { acc = acc + seq![row_spec(seq!['T', 'a', 'b'], seq!['C', 'o', 'm', 'p', 'l', 'e', 't', 'e', ' ', '/', ' ', 'c', 'y', 'c', 'l', 'e', ' ', '(', 'C', 'i', 'r', 'c', 'u', 'l', 'a', 'r', ' ', 'm', 'o', 'd', 'e', ')'])]; }
    assert(strings_view(out@) =~= o + acc);
    push_row(out, &vec!['T', 'a', 'b', ' ', ' ', '(', '\u{d7}', '2', ')'], &vec!['S', 'h', 'o', 'w', ' ', 'f', 'u', 'l', 'l', ' ', 'c', 'a', 'n', 'd', 'i', 'd', 'a', 't', 'e', ' ', 'l', 'i', 's', 't', ' ', '+', ' ', 'c', 'y', 'c', 'l', 'e']);
    proof { acc = acc + seq![row_spec(seq!['T', 'a', 'b', ' ', ' ', '(', '\u{d7}', '2', ')'], seq!['S', 'h', 'o', 'w', ' ', 'f', 'u', 'l', 'l', ' ', 'c', 'a', 'n', 'd', 'i', 'd', 'a', 't', 'e', ' ', 'l', 'i', 's', 't', ' ', '+', ' ', 'c', 'y', 'c', 'l', 'e'])]; }
    assert(strings_view(out@) =~= o + acc);
    push_row(out, &vec!['C', 't', 'r', 'l', '+', 'S', 'p', 'a', 'c', 'e'], &vec!['F', 'o', 'r', 'c', 'e', ' ', 's', 'h', 'o', 'w', ' ', 'a', 'l', 'l', ' ', 'c', 'a', 'n', 'd', 'i', 'd', 'a', 't', 'e', 's', ' ', 'a', 's', ' ', 'l', 'i', 's', 't']);
    proof { acc = acc + seq![row_spec(seq!['C', 't', 'r', 'l', '+', 'S', 'p', 'a', 'c', 'e'], seq!['F', 'o', 'r', 'c', 'e', ' ', 's', 'h', 'o', 'w', ' ', 'a', 'l', 'l', ' ', 'c', 'a', 'n', 'd', 'i', 'd', 'a', 't', 'e', 's', ' ', 'a', 's', ' ', 'l', 'i', 's', 't'])]; }
    assert(strings_view(out@) =~= o + acc);
    push_row(out, &vec!['A', 'l', 't', '+', 'l'], &vec!['F', 'o', 'r', 'c', 'e', ' ', 's', 'h', 'o', 'w', ' ', 'a', 'l', 'l', ' ', 'c', 'a', 'n', 'd', 'i', 'd', 'a', 't', 'e', 's', ' ', 'a', 's', ' ', 'l', 'i', 's', 't']);
    proof { acc = acc + seq![row_spec(seq!['A', 'l', 't', '+', 'l'], seq!['F', 'o', 'r', 'c', 'e', ' ', 's', 'h', 'o', 'w', ' ', 'a', 'l', 'l', ' ', 'c', 'a', 'n', 'd', 'i', 'd', 'a', 't', 'e', 's', ' ', 'a', 's', ' ', 'l', 'i', 's', 't'])]; }
    assert(strings_view(out@) =~= o + acc);
    push_row(out, &vec!['S', 'h', 'i', 'f', 't', '+', 'T', 'a', 'b'], &vec!['A', 'c', 'c', 'e', 'p', 't', ' ', 'g', 'h', 'o', 's', 't', ' ', 't', 'e', 'x', 't', ' ', 's', 'u', 'g', 'g', 'e', 's', 't', 'i', 'o', 'n']);
    proof { acc = acc + seq![row_spec(seq!['S', 'h', 'i', 'f', 't', '+', 'T', 'a', 'b'], seq!['A', 'c', 'c', 'e', 'p', 't', ' ', 'g', 'h', 'o', 's', 't', ' ', 't', 'e', 'x', 't', ' ', 's', 'u', 'g', 'g', 'e', 's', 't', 'i', 'o', 'n'])]; }
    assert(strings_view(out@) =~= o + acc);
    push_row(out, &vec!['\u{2192}', ' ', ' ', '/', ' ', ' ', 'E', 'n', 'd'], &vec!['A', 'c', 'c', 'e', 'p', 't', ' ', 'g', 'h', 'o', 's', 't', ' ', 't', 'e', 'x', 't', ' ', '(', 'h', 'i', 's', 't', 'o', 'r', 'y', ' ', 'o', 'r', ' ', 't', 'o', 'p', ' ', 'c', 'o', 'm', 'p', 'l', 'e', 't', 'i', 'o', 'n', ')']);
    proof { acc = acc + seq![row_spec(seq!['\u{2192}', ' ', ' ', '/', ' ', ' ', 'E', 'n', 'd'], seq!['A', 'c', 'c', 'e', 'p', 't', ' ', 'g', 'h', 'o', 's', 't', ' ', 't', 'e', 'x', 't', ' ', '(', 'h', 'i', 's', 't', 'o', 'r', 'y', ' ', 'o', 'r', ' ', 't', 'o', 'p', ' ', 'c', 'o', 'm', 'p', 'l', 'e', 't', 'i', 'o', 'n', ')'])]; }
    assert(strings_view(out@) =~= o + acc);
    push_line(out, Vec::<char>::new());
    proof { acc = acc + seq![Seq::<char>::empty()]; }
    assert(strings_view(out@) =~= o + acc);
    assert(acc =~= bindings_part_0());
}

pub open spec fn bindings_part_1() -> Seq<Seq<char>> {
    seq![seq![' ', ' ', ' ', ' ', '\x1b', '[', '1', ';', '3', '7', 'm', 'N', 'a', 'v', 'i', 'g', 'a', 't', 'i', 'o', 'n', ':', '\x1b', '[', '0', 'm']]
        + seq![row_spec(seq!['\u{2191}', ' ', '/', ' ', 'C', 't', 'r', 'l', '+', 'P'], seq!['P', 'r', 'e', 'v', 'i', 'o', 'u', 's', ' ', 'c', 'o', 'm', 'm', 'a', 'n', 'd', ' ', 'i', 'n', ' ', 'h', 'i', 's', 't', 'o', 'r', 'y'])]
        + seq![row_spec(seq!['\u{2193}', ' ', '/', ' ', 'C', 't', 'r', 'l', '+', 'N'], seq!['N', 'e', 'x', 't', ' ', 'c', 'o', 'm', 'm', 'a', 'n', 'd', ' ', 'i', 'n', ' ', 'h', 'i', 's', 't', 'o', 'r', 'y'])]
        + seq![row_spec(seq!['\u{2190}', ' ', '/', ' ', '\u{2192}'], seq!['M', 'o', 'v', 'e', ' ', 'c', 'u', 'r', 's', 'o', 'r', ' ', 'l', 'e', 'f', 't', ' ', '/', ' ', 'r', 'i', 'g', 'h', 't'])]
        + seq![row_spec(seq!['C', 't', 'r', 'l', '+', 'A'], seq!['M', 'o', 'v', 'e', ' ', 'c', 'u', 'r', 's', 'o', 'r', ' ', 't', 'o', ' ', 'b', 'e', 'g', 'i', 'n', 'n', 'i', 'n', 'g', ' ', 'o', 'f', ' ', 'l', 'i', 'n', 'e'])]
        + seq![row_spec(seq!['C', 't', 'r', 'l', '+', 'E'], seq!['M', 'o', 'v', 'e', ' ', 'c', 'u', 'r', 's', 'o', 'r', ' ', 't', 'o', ' ', 'e', 'n', 'd', ' ', 'o', 'f', ' ', 'l', 'i', 'n', 'e'])]
        + seq![row_spec(seq!['A', 'l', 't', '+', 'B'], seq!['M', 'o', 'v', 'e', ' ', 'c', 'u', 'r', 's', 'o', 'r', ' ', 'o', 'n', 'e', ' ', 'w', 'o', 'r', 'd', ' ', 'b', 'a', 'c', 'k'])]
        + seq![row_spec(seq!['A', 'l', 't', '+', 'F'], seq!['M', 'o', 'v', 'e', ' ', 'c', 'u', 'r', 's', 'o', 'r', ' ', 'o', 'n', 'e', ' ', 'w', 'o', 'r', 'd', ' ', 'f', 'o', 'r', 'w', 'a', 'r', 'd'])]
        + seq![Seq::<char>::empty()]
}

fn push_bindings_part_1(out: &mut Vec<String>)
    ensures
        strings_view(final(out)@) == strings_view(old(out)@) + bindings_part_1(),
{
    let ghost o = strings_view(out@);
    let ghost mut acc: Seq<Seq<char>> = Seq::empty();
    push_line(out, vec![' ', ' ', ' ', ' ', '\x1b', '[', '1', ';', '3', '7', 'm', 'N', 'a', 'v', 'i', 'g', 'a', 't', 'i', 'o', 'n', ':', '\x1b', '[', '0', 'm']);
    proof { acc = acc + seq![seq![' ', ' ', ' ', ' ', '\x1b', '[', '1', ';', '3', '7', 'm', 'N', 'a', 'v', 'i', 'g', 'a', 't', 'i', 'o', 'n', ':', '\x1b', '[', '0', 'm']]; }
    assert(strings_view(out@) =~= o + acc);
    push_row(out, &vec!['\u{2191}', ' ', '/', ' ', 'C', 't', 'r', 'l', '+', 'P'], &vec!['P', 'r', 'e', 'v', 'i', 'o', 'u', 's', ' ', 'c', 'o', 'm', 'm', 'a', 'n', 'd', ' ', 'i', 'n', ' ', 'h', 'i', 's', 't', 'o', 'r', 'y']);
    proof { acc = acc + seq![row_spec(seq!['\u{2191}', ' ', '/', ' ', 'C', 't', 'r', 'l', '+', 'P'], seq!['P', 'r', 'e', 'v', 'i', 'o', 'u', 's', ' ', 'c', 'o', 'm', 'm', 'a', 'n', 'd', ' ', 'i', 'n', ' ', 'h', 'i', 's', 't', 'o', 'r', 'y'])]; }
    assert(strings_view(out@) =~= o + acc);
    push_row(out, &vec!['\u{2193}', ' ', '/', ' ', 'C', 't', 'r', 'l', '+', 'N'], &vec!['N', 'e', 'x', 't', ' ', 'c', 'o', 'm', 'm', 'a', 'n', 'd', ' ', 'i', 'n', ' ', 'h', 'i', 's', 't', 'o', 'r', 'y']);
    proof { acc = acc + seq![row_spec(seq!['\u{2193}', ' ', '/', ' ', 'C', 't', 'r', 'l', '+', 'N'], seq!['N', 'e', 'x', 't', ' ', 'c', 'o', 'm', 'm', 'a', 'n', 'd', ' ', 'i', 'n', ' ', 'h', 'i', 's', 't', 'o', 'r', 'y'])]; }
    assert(strings_view(out@) =~= o + acc);
    push_row(out, &vec!['\u{2190}', ' ', '/', ' ', '\u{2192}'], &vec!['M', 'o', 'v', 'e', ' ', 'c', 'u', 'r', 's', 'o', 'r', ' ', 'l', 'e', 'f', 't', ' ', '/', ' ', 'r', 'i', 'g', 'h', 't']);
    proof { acc = acc + seq![row_spec(seq!['\u{2190}', ' ', '/', ' ', '\u{2192}'], seq!['M', 'o', 'v', 'e', ' ', 'c', 'u', 'r', 's', 'o', 'r', ' ', 'l', 'e', 'f', 't', ' ', '/', ' ', 'r', 'i', 'g', 'h', 't'])]; }
    assert(strings_view(out@) =~= o + acc);
    push_row(out, &vec!['C', 't', 'r', 'l', '+', 'A'], &vec!['M', 'o', 'v', 'e', ' ', 'c', 'u', 'r', 's', 'o', 'r', ' ', 't', 'o', ' ', 'b', 'e', 'g', 'i', 'n', 'n', 'i', 'n', 'g', ' ', 'o', 'f', ' ', 'l', 'i', 'n', 'e']);
    proof { acc = acc + seq![row_spec(seq!['C', 't', 'r', 'l', '+', 'A'], seq!['M', 'o', 'v', 'e', ' ', 'c', 'u', 'r', 's', 'o', 'r', ' ', 't', 'o', ' ', 'b', 'e', 'g', 'i', 'n', 'n', 'i', 'n', 'g', ' ', 'o', 'f', ' ', 'l', 'i', 'n', 'e'])]; }
    assert(strings_view(out@) =~= o + acc);
    push_row(out, &vec!['C', 't', 'r', 'l', '+', 'E'], &vec!['M', 'o', 'v', 'e', ' ', 'c', 'u', 'r', 's', 'o', 'r', ' ', 't', 'o', ' ', 'e', 'n', 'd', ' ', 'o', 'f', ' ', 'l', 'i', 'n', 'e']);
    proof { acc = acc + seq![row_spec(seq!['C', 't', 'r', 'l', '+', 'E'], seq!['M', 'o', 'v', 'e', ' ', 'c', 'u', 'r', 's', 'o', 'r', ' ', 't', 'o', ' ', 'e', 'n', 'd', ' ', 'o', 'f', ' ', 'l', 'i', 'n', 'e'])]; }
    assert(strings_view(out@) =~= o + acc);
    push_row(out, &vec!['A', 'l', 't', '+', 'B'], &vec!['M', 'o', 'v', 'e', ' ', 'c', 'u', 'r', 's', 'o', 'r', ' ', 'o', 'n', 'e', ' ', 'w', 'o', 'r', 'd', ' ', 'b', 'a', 'c', 'k']);
    proof { acc = acc + seq![row_spec(seq!['A', 'l', 't', '+', 'B'], seq!['M', 'o', 'v', 'e', ' ', 'c', 'u', 'r', 's', 'o', 'r', ' ', 'o', 'n', 'e', ' ', 'w', 'o', 'r', 'd', ' ', 'b', 'a', 'c', 'k'])]; }
    assert(strings_view(out@) =~= o + acc);
    push_row(out, &vec!['A', 'l', 't', '+', 'F'], &vec!['M', 'o', 'v', 'e', ' ', 'c', 'u', 'r', 's', 'o', 'r', ' ', 'o', 'n', 'e', ' ', 'w', 'o', 'r', 'd', ' ', 'f', 'o', 'r', 'w', 'a', 'r', 'd']);
    proof { acc = acc + seq![row_spec(seq!['A', 'l', 't', '+', 'F'], seq!['M', 'o', 'v', 'e', ' ', 'c', 'u', 'r', 's', 'o', 'r', ' ', 'o', 'n', 'e', ' ', 'w', 'o', 'r', 'd', ' ', 'f', 'o', 'r', 'w', 'a', 'r', 'd'])]; }
    assert(strings_view(out@) =~= o + acc);
    push_line(out, Vec::<char>::new());
    proof { acc = acc + seq![Seq::<char>::empty()]; }
    assert(strings_view(out@) =~= o + acc);
    assert(acc =~= bindings_part_1());
}

pub open spec fn bindings_part_2() -> Seq<Seq<char>> {
    seq![seq![' ', ' ', ' ', ' ', '\x1b', '[', '1', ';', '3', '7', 'm', 'E', 'd', 'i', 't', 'i', 'n', 'g', ':', '\x1b', '[', '0', 'm']]
        + seq![row_spec(seq!['C', 't', 'r', 'l', '+', 'W'], seq!['D', 'e', 'l', 'e', 't', 'e', ' ', 'w', 'o', 'r', 'd', ' ', 'b', 'e', 'f', 'o', 'r', 'e', ' ', 'c', 'u', 'r', 's', 'o', 'r'])]
        + seq![row_spec(seq!['C', 't', 'r', 'l', '+', 'U'], seq!['D', 'e', 'l', 'e', 't', 'e', ' ', 'f', 'r', 'o', 'm', ' ', 'c', 'u', 'r', 's', 'o', 'r', ' ', 't', 'o', ' ', 'l', 'i', 'n', 'e', ' ', 's', 't', 'a', 'r', 't'])]
        + seq![row_spec(seq!['C', 't', 'r', 'l', '+', 'K'], seq!['D', 'e', 'l', 'e', 't', 'e', ' ', 'f', 'r', 'o', 'm', ' ', 'c', 'u', 'r', 's', 'o', 'r', ' ', 't', 'o', ' ', 'l', 'i', 'n', 'e', ' ', 'e', 'n', 'd'])]
        + seq![row_spec(seq!['C', 't', 'r', 'l', '+', 'Y'], seq!['P', 'a', 's', 't', 'e', ' ', 'l', 'a', 's', 't', ' ', 'd', 'e', 'l', 'e', 't', 'e', 'd', ' ', 't', 'e', 'x', 't', ' ', '(', 'y', 'a', 'n', 'k', ')'])]
        + seq![row_spec(seq!['C', 't', 'r', 'l', '+', 'L'], seq!['C', 'l', 'e', 'a', 'r', ' ', 's', 'c', 'r', 'e', 'e', 'n', ' ', '(', 's', 'a', 'm', 'e', ' ', 'a', 's', ' ', '\'', 'c', 'l', 'e', 'a', 'r', '\'', ')'])]
        + seq![row_spec(seq!['A', 'l', 't', '+', 'D'], seq!['D', 'e', 'l', 'e', 't', 'e', ' ', 'w', 'o', 'r', 'd', ' ', 'a', 'f', 't', 'e', 'r', ' ', 'c', 'u', 'r', 's', 'o', 'r'])]
        + seq![Seq::<char>::empty()]
        + seq![seq![' ', ' ', ' ', ' ', '\x1b', '[', '1', ';', '3', '7', 'm', 'S', 'h', 'e', 'l', 'l', ' ', 'c', 'o', 'n', 't', 'r', 'o', 'l', ':', '\x1b', '[', '0', 'm']]
}

fn push_bindings_part_2(out: &mut Vec<String>)
    ensures
        strings_view(final(out)@) == strings_view(old(out)@) + bindings_part_2(),
{
    let ghost o = strings_view(out@);
    let ghost mut acc: Seq<Seq<char>> = Seq::empty();
    push_line(out, vec![' ', ' ', ' ', ' ', '\x1b', '[', '1', ';', '3', '7', 'm', 'E', 'd', 'i', 't', 'i', 'n', 'g', ':', '\x1b', '[', '0', 'm']);
    proof { acc = acc + seq![seq![' ', ' ', ' ', ' ', '\x1b', '[', '1', ';', '3', '7', 'm', 'E', 'd', 'i', 't', 'i', 'n', 'g', ':', '\x1b', '[', '0', 'm']]; }
    assert(strings_view(out@) =~= o + acc);
    push_row(out, &vec!['C', 't', 'r', 'l', '+', 'W'], &vec!['D', 'e', 'l', 'e', 't', 'e', ' ', 'w', 'o', 'r', 'd', ' ', 'b', 'e', 'f', 'o', 'r', 'e', ' ', 'c', 'u', 'r', 's', 'o', 'r']);
    proof { acc = acc + seq![row_spec(seq!['C', 't', 'r', 'l', '+', 'W'], seq!['D', 'e', 'l', 'e', 't', 'e', ' ', 'w', 'o', 'r', 'd', ' ', 'b', 'e', 'f', 'o', 'r', 'e', ' ', 'c', 'u', 'r', 's', 'o', 'r'])]; }
    assert(strings_view(out@) =~= o + acc);
    push_row(out, &vec!['C', 't', 'r', 'l', '+', 'U'], &vec!['D', 'e', 'l', 'e', 't', 'e', ' ', 'f', 'r', 'o', 'm', ' ', 'c', 'u', 'r', 's', 'o', 'r', ' ', 't', 'o', ' ', 'l', 'i', 'n', 'e', ' ', 's', 't', 'a', 'r', 't']);
    proof { acc = acc + seq![row_spec(seq!['C', 't', 'r', 'l', '+', 'U'], seq!['D', 'e', 'l', 'e', 't', 'e', ' ', 'f', 'r', 'o', 'm', ' ', 'c', 'u', 'r', 's', 'o', 'r', ' ', 't', 'o', ' ', 'l', 'i', 'n', 'e', ' ', 's', 't', 'a', 'r', 't'])]; }
    assert(strings_view(out@) =~= o + acc);
    push_row(out, &vec!['C', 't', 'r', 'l', '+', 'K'], &vec!['D', 'e', 'l', 'e', 't', 'e', ' ', 'f', 'r', 'o', 'm', ' ', 'c', 'u', 'r', 's', 'o', 'r', ' ', 't', 'o', ' ', 'l', 'i', 'n', 'e', ' ', 'e', 'n', 'd']);
    proof { acc = acc + seq![row_spec(seq!['C', 't', 'r', 'l', '+', 'K'], seq!['D', 'e', 'l', 'e', 't', 'e', ' ', 'f', 'r', 'o', 'm', ' ', 'c', 'u', 'r', 's', 'o', 'r', ' ', 't', 'o', ' ', 'l', 'i', 'n', 'e', ' ', 'e', 'n', 'd'])]; }
    assert(strings_view(out@) =~= o + acc);
    push_row(out, &vec!['C', 't', 'r', 'l', '+', 'Y'], &vec!['P', 'a', 's', 't', 'e', ' ', 'l', 'a', 's', 't', ' ', 'd', 'e', 'l', 'e', 't', 'e', 'd', ' ', 't', 'e', 'x', 't', ' ', '(', 'y', 'a', 'n', 'k', ')']);
    proof { acc = acc + seq![row_spec(seq!['C', 't', 'r', 'l', '+', 'Y'], seq!['P', 'a', 's', 't', 'e', ' ', 'l', 'a', 's', 't', ' ', 'd', 'e', 'l', 'e', 't', 'e', 'd', ' ', 't', 'e', 'x', 't', ' ', '(', 'y', 'a', 'n', 'k', ')'])]; }
    assert(strings_view(out@) =~= o + acc);
    push_row(out, &vec!['C', 't', 'r', 'l', '+', 'L'], &vec!['C', 'l', 'e', 'a', 'r', ' ', 's', 'c', 'r', 'e', 'e', 'n', ' ', '(', 's', 'a', 'm', 'e', ' ', 'a', 's', ' ', '\'', 'c', 'l', 'e', 'a', 'r', '\'', ')']);
    proof { acc = acc + seq![row_spec(seq!['C', 't', 'r', 'l', '+', 'L'], seq!['C', 'l', 'e', 'a', 'r', ' ', 's', 'c', 'r', 'e', 'e', 'n', ' ', '(', 's', 'a', 'm', 'e', ' ', 'a', 's', ' ', '\'', 'c', 'l', 'e', 'a', 'r', '\'', ')'])]; }
    assert(strings_view(out@) =~= o + acc);
    push_row(out, &vec!['A', 'l', 't', '+', 'D'], &vec!['D', 'e', 'l', 'e', 't', 'e', ' ', 'w', 'o', 'r', 'd', ' ', 'a', 'f', 't', 'e', 'r', ' ', 'c', 'u', 'r', 's', 'o', 'r']);
    proof { acc = acc + seq![row_spec(seq!['A', 'l', 't', '+', 'D'], seq!['D', 'e', 'l', 'e', 't', 'e', ' ', 'w', 'o', 'r', 'd', ' ', 'a', 'f', 't', 'e', 'r', ' ', 'c', 'u', 'r', 's', 'o', 'r'])]; }
    assert(strings_view(out@) =~= o + acc);
    push_line(out, Vec::<char>::new());
    proof { acc = acc + seq![Seq::<char>::empty()]; }
    assert(strings_view(out@) =~= o + acc);
    push_line(out, vec![' ', ' ', ' ', ' ', '\x1b', '[', '1', ';', '3', '7', 'm', 'S', 'h', 'e', 'l', 'l', ' ', 'c', 'o', 'n', 't', 'r', 'o', 'l', ':', '\x1b', '[', '0', 'm']);
    proof { acc = acc + seq![seq![' ', ' ', ' ', ' ', '\x1b', '[', '1', ';', '3', '7', 'm', 'S', 'h', 'e', 'l', 'l', ' ', 'c', 'o', 'n', 't', 'r', 'o', 'l', ':', '\x1b', '[', '0', 'm']]; }
    assert(strings_view(out@) =~= o + acc);
    assert(acc =~= bindings_part_2());
}

pub open spec fn bindings_part_3() -> Seq<Seq<char>> {
    seq![row_spec(seq!['C', 't', 'r', 'l', '+', 'C'], seq!['C', 'a', 'n', 'c', 'e', 'l', ' ', 'c', 'u', 'r', 'r', 'e', 'n', 't', ' ', 'l', 'i', 'n', 'e', ' ', '/', ' ', 'i', 'n', 't', 'e', 'r', 'r', 'u', 'p', 't'])]
        + seq![row_spec(seq!['C', 't', 'r', 'l', '+', 'D'], seq!['E', 'x', 'i', 't', ' ', 's', 'h', 'e', 'l', 'l', ' ', '(', 'E', 'O', 'F', ')'])]
        + seq![Seq::<char>::empty()]
        + seq![seq![' ', ' ', ' ', ' ', '\x1b', '[', '1', ';', '3', '7', 'm', 'G', 'h', 'o', 's', 't', ' ', 't', 'e', 'x', 't', ' ', 's', 'u', 'g', 'g', 'e', 's', 't', 'i', 'o', 'n', ':', '\x1b', '[', '0', 'm']]
        + seq![seq![' ', ' ', ' ', ' ', '\x1b', '[', '2', 'm', ' ', ' ', 'A', 'p', 'p', 'e', 'a', 'r', 's', ' ', 'a', 'u', 't', 'o', 'm', 'a', 't', 'i', 'c', 'a', 'l', 'l', 'y', ' ', 'w', 'h', 'i', 'l', 'e', ' ', 't', 'y', 'p', 'i', 'n', 'g', ' ', '\u{2014}', ' ', 'd', 'i', 'm', ' ', 'g', 'r', 'a', 'y', ' ', 't', 'o', ' ', 't', 'h', 'e', ' ', 'r', 'i', 'g', 'h', 't', ' ', 'o', 'f', ' ', 'c', 'u', 'r', 's', 'o', 'r', '.', '\x1b', '[', '0', 'm']]
        + seq![seq![' ', ' ', ' ', ' ', '\x1b', '[', '2', 'm', ' ', ' ', 'S', 'o', 'u', 'r', 'c', 'e', ':', ' ', 'h', 'i', 's', 't', 'o', 'r', 'y', ' ', '(', 'p', 'r', 'i', 'o', 'r', 'i', 't', 'y', ')', ' ', '\u{2192}', ' ', 't', 'o', 'p', ' ', 'c', 'o', 'm', 'p', 'l', 'e', 't', 'i', 'o', 'n', ' ', 'c', 'a', 'n', 'd', 'i', 'd', 'a', 't', 'e', '.', '\x1b', '[', '0', 'm']]
        + seq![seq![' ', ' ', ' ', ' ', '\x1b', '[', '2', 'm', ' ', ' ', 'U', 's', 'e', ' ', '\u{2192}', ' ', 'o', 'r', ' ', 'S', 'h', 'i', 'f', 't', '+', 'T', 'a', 'b', ' ', 't', 'o', ' ', 'a', 'c', 'c', 'e', 'p', 't', ' ', 'i', 't', '.', '\x1b', '[', '0', 'm']]
}

fn push_bindings_part_3(out: &mut Vec<String>)
    ensures
        strings_view(final(out)@) == strings_view(old(out)@) + bindings_part_3(),
{
    let ghost o = strings_view(out@);
    let ghost mut acc: Seq<Seq<char>> = Seq::empty();
    push_row(out, &vec!['C', 't', 'r', 'l', '+', 'C'], &vec!['C', 'a', 'n', 'c', 'e', 'l', ' ', 'c', 'u', 'r', 'r', 'e', 'n', 't', ' ', 'l', 'i', 'n', 'e', ' ', '/', ' ', 'i', 'n', 't', 'e', 'r', 'r', 'u', 'p', 't']);
    proof { acc = acc + seq![row_spec(seq!['C', 't', 'r', 'l', '+', 'C'], seq!['C', 'a', 'n', 'c', 'e', 'l', ' ', 'c', 'u', 'r', 'r', 'e', 'n', 't', ' ', 'l', 'i', 'n', 'e', ' ', '/', ' ', 'i', 'n', 't', 'e', 'r', 'r', 'u', 'p', 't'])]; }
    assert(strings_view(out@) =~= o + acc);
    push_row(out, &vec!['C', 't', 'r', 'l', '+', 'D'], &vec!['E', 'x', 'i', 't', ' ', 's', 'h', 'e', 'l', 'l', ' ', '(', 'E', 'O', 'F', ')']);
    proof { acc = acc + seq![row_spec(seq!['C', 't', 'r', 'l', '+', 'D'], seq!['E', 'x', 'i', 't', ' ', 's', 'h', 'e', 'l', 'l', ' ', '(', 'E', 'O', 'F', ')'])]; }
    assert(strings_view(out@) =~= o + acc);
    push_line(out, Vec::<char>::new());
    proof { acc = acc + seq![Seq::<char>::empty()]; }
    assert(strings_view(out@) =~= o + acc);
    push_line(out, vec![' ', ' ', ' ', ' ', '\x1b', '[', '1', ';', '3', '7', 'm', 'G', 'h', 'o', 's', 't', ' ', 't', 'e', 'x', 't', ' ', 's', 'u', 'g', 'g', 'e', 's', 't', 'i', 'o', 'n', ':', '\x1b', '[', '0', 'm']);
    proof { acc = acc + seq![seq![' ', ' ', ' ', ' ', '\x1b', '[', '1', ';', '3', '7', 'm', 'G', 'h', 'o', 's', 't', ' ', 't', 'e', 'x', 't', ' ', 's', 'u', 'g', 'g', 'e', 's', 't', 'i', 'o', 'n', ':', '\x1b', '[', '0', 'm']]; }
    assert(strings_view(out@) =~= o + acc);
    push_line(out, vec![' ', ' ', ' ', ' ', '\x1b', '[', '2', 'm', ' ', ' ', 'A', 'p', 'p', 'e', 'a', 'r', 's', ' ', 'a', 'u', 't', 'o', 'm', 'a', 't', 'i', 'c', 'a', 'l', 'l', 'y', ' ', 'w', 'h', 'i', 'l', 'e', ' ', 't', 'y', 'p', 'i', 'n', 'g', ' ', '\u{2014}', ' ', 'd', 'i', 'm', ' ', 'g', 'r', 'a', 'y', ' ', 't', 'o', ' ', 't', 'h', 'e', ' ', 'r', 'i', 'g', 'h', 't', ' ', 'o', 'f', ' ', 'c', 'u', 'r', 's', 'o', 'r', '.', '\x1b', '[', '0', 'm']);
    proof { acc = acc + seq![seq![' ', ' ', ' ', ' ', '\x1b', '[', '2', 'm', ' ', ' ', 'A', 'p', 'p', 'e', 'a', 'r', 's', ' ', 'a', 'u', 't', 'o', 'm', 'a', 't', 'i', 'c', 'a', 'l', 'l', 'y', ' ', 'w', 'h', 'i', 'l', 'e', ' ', 't', 'y', 'p', 'i', 'n', 'g', ' ', '\u{2014}', ' ', 'd', 'i', 'm', ' ', 'g', 'r', 'a', 'y', ' ', 't', 'o', ' ', 't', 'h', 'e', ' ', 'r', 'i', 'g', 'h', 't', ' ', 'o', 'f', ' ', 'c', 'u', 'r', 's', 'o', 'r', '.', '\x1b', '[', '0', 'm']]; }
    assert(strings_view(out@) =~= o + acc);
    push_line(out, vec![' ', ' ', ' ', ' ', '\x1b', '[', '2', 'm', ' ', ' ', 'S', 'o', 'u', 'r', 'c', 'e', ':', ' ', 'h', 'i', 's', 't', 'o', 'r', 'y', ' ', '(', 'p', 'r', 'i', 'o', 'r', 'i', 't', 'y', ')', ' ', '\u{2192}', ' ', 't', 'o', 'p', ' ', 'c', 'o', 'm', 'p', 'l', 'e', 't', 'i', 'o', 'n', ' ', 'c', 'a', 'n', 'd', 'i', 'd', 'a', 't', 'e', '.', '\x1b', '[', '0', 'm']);
    proof { acc = acc + seq![seq![' ', ' ', ' ', ' ', '\x1b', '[', '2', 'm', ' ', ' ', 'S', 'o', 'u', 'r', 'c', 'e', ':', ' ', 'h', 'i', 's', 't', 'o', 'r', 'y', ' ', '(', 'p', 'r', 'i', 'o', 'r', 'i', 't', 'y', ')', ' ', '\u{2192}', ' ', 't', 'o', 'p', ' ', 'c', 'o', 'm', 'p', 'l', 'e', 't', 'i', 'o', 'n', ' ', 'c', 'a', 'n', 'd', 'i', 'd', 'a', 't', 'e', '.', '\x1b', '[', '0', 'm']]; }
    assert(strings_view(out@) =~= o + acc);
    push_line(out, vec![' ', ' ', ' ', ' ', '\x1b', '[', '2', 'm', ' ', ' ', 'U', 's', 'e', ' ', '\u{2192}', ' ', 'o', 'r', ' ', 'S', 'h', 'i', 'f', 't', '+', 'T', 'a', 'b', ' ', 't', 'o', ' ', 'a', 'c', 'c', 'e', 'p', 't', ' ', 'i', 't', '.', '\x1b', '[', '0', 'm']);
    proof { acc = acc + seq![seq![' ', ' ', ' ', ' ', '\x1b', '[', '2', 'm', ' ', ' ', 'U', 's', 'e', ' ', '\u{2192}', ' ', 'o', 'r', ' ', 'S', 'h', 'i', 'f', 't', '+', 'T', 'a', 'b', ' ', 't', 'o', ' ', 'a', 'c', 'c', 'e', 'p', 't', ' ', 'i', 't', '.', '\x1b', '[', '0', 'm']]; }
    assert(strings_view(out@) =~= o + acc);
    assert(acc =~= bindings_part_3());
}

pub fn bindings_lines() -> (r: Vec<String>)
    ensures
        strings_view(r@) == bindings_spec(),
{
    let mut out: Vec<String> = Vec::new();
    assert(strings_view(out@) =~= Seq::<Seq<char>>::empty());
    push_bindings_part_0(&mut out);
    push_bindings_part_1(&mut out);
    push_bindings_part_2(&mut out);
    push_bindings_part_3(&mut out);
    assert(strings_view(out@) =~= bindings_spec());
    out
}

} // verus!

verus! {

// ───────────────────────────── config ─────────────────────────────

pub open spec fn default_config_dir() -> Seq<char> {
    seq!['~', '/', '.', 'c', 'o', 'n', 'f', 'i', 'g', '/', 'c', 'r', 'u', 's', 'h']
}

/// The directory of the history file, which is the configuration directory.
pub open spec fn config_dir_of(history_file: Seq<char>) -> Seq<char> {
    match crate::ui::completion::parent_of(history_file) {
        Some(p) => p,
        None => default_config_dir(),
    }
}

/// The `config` part of `help`: where the configuration and history live.
pub open spec fn config_spec(history_file: Seq<char>) -> Seq<Seq<char>> {
    let dir = config_dir_of(history_file);
    header_spec(seq!['C', 'O', 'N', 'F', 'I', 'G', ' ', '&', ' ', 'P', 'A', 'T', 'H', 'S']) + seq![
        row_spec(seq!['C', 'o', 'n', 'f', 'i', 'g', ' ', 'd', 'i', 'r', 'e', 'c', 't', 'o', 'r', 'y'], dir),
        row_spec(seq!['H', 'i', 's', 't', 'o', 'r', 'y', ' ', 'f', 'i', 'l', 'e'], history_file),
        row_spec(
            seq!['C', 'o', 'n', 'f', 'i', 'g', ' ', 'f', 'i', 'l', 'e'],
            dir + seq!['/', 'c', 'o', 'n', 'f', 'i', 'g', '.', 't', 'o', 'm', 'l'],
        ),
        row_spec(
            seq!['H', 'i', 's', 't', 'o', 'r', 'y', ' ', 's', 'i', 'z', 'e'],
            seq!['1', '0', '0', '0', '0', ' ', 'e', 'n', 't', 'r', 'i', 'e', 's', ' ', '(', 'c', 'o', 'n', 'f', 'i', 'g', 'u', 'r', 'a', 'b', 'l', 'e', ')'],
        ),
        row_spec(
            seq!['H', 'i', 's', 't', 'o', 'r', 'y', ' ', 'd', 'e', 'd', 'u', 'p'],
            seq![
                'e', 'n', 'a', 'b', 'l', 'e', 'd', ' ', '\u{2014}', ' ', 'd', 'u', 'p', 'l', 'i', 'c', 'a', 't', 'e', 's', ' ', '&', ' ',
                's', 'p', 'a', 'c', 'e', '-', 'p', 'r', 'e', 'f', 'i', 'x', 'e', 'd', ' ', 's', 'k', 'i', 'p', 'p', 'e', 'd',
            ],
        ),
    ]
}

pub fn config_lines(history_file: &str) -> (r: Vec<String>)
    ensures
        strings_view(r@) == config_spec(history_file@),
{
    let dir: Vec<char> = match crate::ui::completion::path_parent(history_file) {
        Some(p) => chars_of(p.as_str()),
        None => vec!['~', '/', '.', 'c', 'o', 'n', 'f', 'i', 'g', '/', 'c', 'r', 'u', 's', 'h'],
    };
    assert(dir@ == config_dir_of(history_file@));
    let mut out: Vec<String> = Vec::new();
    assert(strings_view(out@) =~= Seq::<Seq<char>>::empty());
    let k1: Vec<char> = vec!['C', 'O', 'N', 'F', 'I', 'G', ' ', '&', ' ', 'P', 'A', 'T', 'H', 'S'];
    assert(k1@ == seq!['C', 'O', 'N', 'F', 'I', 'G', ' ', '&', ' ', 'P', 'A', 'T', 'H', 'S']);
    push_header(&mut out, &k1);
    let k2: Vec<char> = vec!['C', 'o', 'n', 'f', 'i', 'g', ' ', 'd', 'i', 'r', 'e', 'c', 't', 'o', 'r', 'y'];
    let k3: Vec<char> = vec!['H', 'i', 's', 't', 'o', 'r', 'y', ' ', 'f', 'i', 'l', 'e'];
    let k4: Vec<char> = vec!['C', 'o', 'n', 'f', 'i', 'g', ' ', 'f', 'i', 'l', 'e'];
    let k5: Vec<char> = vec!['H', 'i', 's', 't', 'o', 'r', 'y', ' ', 's', 'i', 'z', 'e'];
    let k6: Vec<char> = vec!['H', 'i', 's', 't', 'o', 'r', 'y', ' ', 'd', 'e', 'd', 'u', 'p'];
    let d5: Vec<char> = vec!['1', '0', '0', '0', '0', ' ', 'e', 'n', 't', 'r', 'i', 'e', 's', ' ', '(', 'c', 'o', 'n', 'f', 'i', 'g', 'u', 'r', 'a', 'b', 'l', 'e', ')'];
    let d6: Vec<char> = vec![
        'e', 'n', 'a', 'b', 'l', 'e', 'd', ' ', '\u{2014}', ' ', 'd', 'u', 'p', 'l', 'i', 'c', 'a', 't', 'e', 's', ' ', '&', ' ',
        's', 'p', 'a', 'c', 'e', '-', 'p', 'r', 'e', 'f', 'i', 'x', 'e', 'd', ' ', 's', 'k', 'i', 'p', 'p', 'e', 'd',
    ];
    let mut file = dir.clone();
    let cfg: Vec<char> = vec!['/', 'c', 'o', 'n', 'f', 'i', 'g', '.', 't', 'o', 'm', 'l'];
    file.extend_from_slice(&cfg);
    let hf = chars_of(history_file);
    let ghost h = strings_view(out@);
    assert(h =~= header_spec(k1@));
    push_row(&mut out, &k2, &dir);
    push_row(&mut out, &k3, &hf);
    push_row(&mut out, &k4, &file);
    push_row(&mut out, &k5, &d5);
    push_row(&mut out, &k6, &d6);
    assert(strings_view(out@) =~= h + seq![
        row_spec(k2@, dir@),
        row_spec(k3@, hf@),
        row_spec(k4@, file@),
        row_spec(k5@, d5@),
        row_spec(k6@, d6@),
    ]);
    assert(k2@ == seq!['C', 'o', 'n', 'f', 'i', 'g', ' ', 'd', 'i', 'r', 'e', 'c', 't', 'o', 'r', 'y']);
    assert(k3@ == seq!['H', 'i', 's', 't', 'o', 'r', 'y', ' ', 'f', 'i', 'l', 'e']);
    assert(k4@ == seq!['C', 'o', 'n', 'f', 'i', 'g', ' ', 'f', 'i', 'l', 'e']);
    assert(k5@ == seq!['H', 'i', 's', 't', 'o', 'r', 'y', ' ', 's', 'i', 'z', 'e']);
    assert(k6@ == seq!['H', 'i', 's', 't', 'o', 'r', 'y', ' ', 'd', 'e', 'd', 'u', 'p']);
    assert(cfg@ == seq!['/', 'c', 'o', 'n', 'f', 'i', 'g', '.', 't', 'o', 'm', 'l']);
    assert(d5@ == seq!['1', '0', '0', '0', '0', ' ', 'e', 'n', 't', 'r', 'i', 'e', 's', ' ', '(', 'c', 'o', 'n', 'f', 'i', 'g', 'u', 'r', 'a', 'b', 'l', 'e', ')']);
    assert(d6@ == seq![
        'e', 'n', 'a', 'b', 'l', 'e', 'd', ' ', '\u{2014}', ' ', 'd', 'u', 'p', 'l', 'i', 'c', 'a', 't', 'e', 's', ' ', '&', ' ',
        's', 'p', 'a', 'c', 'e', '-', 'p', 'r', 'e', 'f', 'i', 'x', 'e', 'd', ' ', 's', 'k', 'i', 'p', 'p', 'e', 'd',
    ]);
    assert(file@ == dir@ + cfg@);
    assert(hf@ == history_file@);
    assert(h == header_spec(seq!['C', 'O', 'N', 'F', 'I', 'G', ' ', '&', ' ', 'P', 'A', 'T', 'H', 'S']));
    assert(config_spec(history_file@) == h + seq![
        row_spec(k2@, dir@),
        row_spec(k3@, hf@),
        row_spec(k4@, file@),
        row_spec(k5@, d5@),
        row_spec(k6@, d6@),
    ]);
    out
}

} // verus!

verus! {

// ───────────────────────────── functions ─────────────────────────────

/// The code lines of a body: each line trimmed, blank lines and comments
/// (`#`) left out.
pub open spec fn code_lines(ls: Seq<Seq<char>>) -> Seq<Seq<char>>
    decreases ls.len(),
{
    if ls.len() == 0 {
        Seq::empty()
    } else {
        let rest = code_lines(ls.drop_last());
        let t = crate::text::trim(ls.last());
        if t.len() > 0 && !crate::text::starts_with(t, seq!['#']) {
            rest.push(t)
        } else {
            rest
        }
    }
}

/// How many lines are not blank.
pub open spec fn nonblank_count(ls: Seq<Seq<char>>) -> nat
    decreases ls.len(),
{
    if ls.len() == 0 {
        0
    } else {
        nonblank_count(ls.drop_last()) + if crate::text::trim(ls.last()).len() > 0 { 1nat } else { 0nat }
    }
}

pub open spec fn preview_line(l: Seq<char>) -> Seq<char> {
    seq![' ', ' ', ' ', ' ', ' ', ' '] + dim() + seq![' ', ' '] + l + rst()
}

pub open spec fn truncated_line() -> Seq<char> {
    seq![' ', ' ', ' ', ' ', ' ', ' '] + dim() + seq![' ', ' ', '.', '.', '.', '(', 't', 'r', 'u', 'n', 'c', 'a', 't', 'e', 'd', ')']
        + rst()
}

/// Each shown line, followed by an empty line.
pub open spec fn preview_of(ls: Seq<Seq<char>>) -> Seq<Seq<char>>
    decreases ls.len(),
{
    if ls.len() == 0 {
        Seq::empty()
    } else {
        preview_of(ls.drop_last()) + seq![preview_line(ls.last()), Seq::<char>::empty()]
    }
}

/// A function's lines in `help functions`: its name and description, the
/// first three code lines of its body, and a note when the body has more
/// than three lines that are not blank.
pub open spec fn function_lines_spec(name: Seq<char>, f: crate::config::wrapper::WrapperModel) -> Seq<Seq<char>> {
    let desc = if f.description.len() == 0 {
        seq!['(', 'n', 'o', ' ', 'd', 'e', 's', 'c', 'r', 'i', 'p', 't', 'i', 'o', 'n', ')']
    } else {
        f.description
    };
    let code = code_lines(crate::text::lines_of(f.body));
    let shown = if code.len() > 3 { code.take(3) } else { code };
    seq![row_spec(name, desc)] + preview_of(shown) + if nonblank_count(crate::text::lines_of(f.body)) > 3 {
        seq![truncated_line()]
    } else {
        Seq::empty()
    }
}

/// The names in increasing order.
pub open spec fn sorted_names(ns: Seq<Seq<char>>) -> Seq<Seq<char>> {
    crate::ui::completion::replacements(
        crate::ui::completion::sort_stable(ns.map_values(|n: Seq<char>| (n, n)), false),
    )
}

pub open spec fn entries_lines(names: Seq<Seq<char>>, fs: Map<Seq<char>, crate::config::wrapper::WrapperModel>) -> Seq<Seq<char>>
    decreases names.len(),
{
    if names.len() == 0 {
        Seq::empty()
    } else {
        entries_lines(names.drop_last(), fs) + function_lines_spec(names.last(), fs[names.last()])
    }
}

pub open spec fn no_functions_lines() -> Seq<Seq<char>> {
    seq![
        indent() + dim() + seq![
            'N', 'o', ' ', 'f', 'u', 'n', 'c', 't', 'i', 'o', 'n', 's', ' ', 'd', 'e', 'f', 'i', 'n', 'e', 'd', ' ', 'i', 'n', ' ',
            'c', 'o', 'n', 'f', 'i', 'g', '.', 't', 'o', 'm', 'l',
        ] + rst(),
        Seq::<char>::empty(),
        indent() + white() + seq![
            'A', 'd', 'd', ' ', 'f', 'u', 'n', 'c', 't', 'i', 'o', 'n', 's', ' ', 'i', 'n', ' ', 'y', 'o', 'u', 'r', ' ', 'c', 'o',
            'n', 'f', 'i', 'g', '.', 't', 'o', 'm', 'l', ':',
        ] + rst(),
        indent() + dim() + seq!['[', 'f', 'u', 'n', 'c', 't', 'i', 'o', 'n', 's', '.', 'y', ']'] + rst(),
        indent() + dim() + seq![
            'd', 'e', 's', 'c', 'r', 'i', 'p', 't', 'i', 'o', 'n', ' ', '=', ' ', '"', 'Y', 'a', 'z', 'i', ' ', 'w', 'i', 't', 'h',
            ' ', 'c', 'd', '-', 'o', 'n', '-', 'e', 'x', 'i', 't', '"',
        ] + rst(),
        indent() + dim() + seq![
            'b', 'o', 'd', 'y', ' ', '=', ' ', '"', '"', '"', '.', '.', '.', 'b', 'o', 'd', 'y', '.', '.', '.', '"', '"', '"',
        ] + rst(),
    ]
}

pub open spec fn functions_title() -> Seq<char> {
    seq![
        'W', 'R', 'A', 'P', 'P', 'E', 'R', ' ', 'F', 'U', 'N', 'C', 'T', 'I', 'O', 'N', 'S', ' ', ' ', '[', 'f', 'u', 'n', 'c',
        't', 'i', 'o', 'n', 's', '.', '*', ']',
    ]
}

/// The `functions` part of `help`: every wrapper function by name.
pub open spec fn functions_spec(cfg: crate::config::wrapper::WrapperConfig) -> Seq<Seq<char>> {
    header_spec(functions_title()) + if cfg.order().len() == 0 {
        no_functions_lines()
    } else {
        entries_lines(sorted_names(cfg.order()), cfg.view())
    }
}

} // verus!

verus! {

fn code_and_count(ls: &Vec<Vec<char>>) -> (r: (Vec<Vec<char>>, usize))
    ensures
        crate::text::views(r.0@) == code_lines(crate::text::views(ls@)),
        r.1 == nonblank_count(crate::text::views(ls@)),
{
    let ghost lv = crate::text::views(ls@);
    let mut code: Vec<Vec<char>> = Vec::new();
    let mut count: usize = 0;
    let mut i: usize = 0;
    let hash: Vec<char> = vec!['#'];
    assert(hash@ == seq!['#']);
    assert(lv.take(0) =~= Seq::<Seq<char>>::empty());
    assert(crate::text::views(code@) =~= Seq::<Seq<char>>::empty());
    while i < ls.len()
        invariant
            i <= ls@.len(),
            lv == crate::text::views(ls@),
            hash@ == seq!['#'],
            crate::text::views(code@) == code_lines(lv.take(i as int)),
            count == nonblank_count(lv.take(i as int)),
            count <= i,
        decreases ls@.len() - i,
    {
        let ghost t = lv.take(i + 1);
        assert(t.drop_last() == lv.take(i as int));
        assert(t.last() == ls@[i as int]@);
        let tl = crate::text::trim_chars(&ls[i]);
        if tl.len() > 0 {
            count += 1;
            if !crate::text::has_prefix(&tl, &hash) {
                proof { crate::text::lemma_views_push(code@, tl); }
                code.push(tl);
            }
        }
        i += 1;
    }
    assert(lv.take(ls@.len() as int) == lv);
    (code, count)
}

fn function_lines(name: &Vec<char>, f: &crate::config::wrapper::WrapperFunction) -> (r: Vec<String>)
    ensures
        strings_view(r@) == function_lines_spec(name@, f.model()),
{
    let desc: Vec<char> = if f.description.as_str().is_empty() {
        vec!['(', 'n', 'o', ' ', 'd', 'e', 's', 'c', 'r', 'i', 'p', 't', 'i', 'o', 'n', ')']
    } else {
        chars_of(f.description.as_str())
    };
    let mut out: Vec<String> = Vec::new();
    assert(strings_view(out@) =~= Seq::<Seq<char>>::empty());
    push_row(&mut out, name, &desc);
    let ls = crate::text::split_lines(&chars_of(f.body.as_str()));
    let (code, count) = code_and_count(&ls);
    let n = if code.len() > 3 { 3 } else { code.len() };
    let ghost shown = if code@.len() > 3 { crate::text::views(code@).take(3) } else { crate::text::views(code@) };
    let ghost head = strings_view(out@);
    let mut k: usize = 0;
    assert(shown.take(0) =~= Seq::<Seq<char>>::empty());
    while k < n
        invariant
            k <= n,
            n == shown.len(),
            n <= code@.len(),
            forall|j: int| 0 <= j < n ==> #[trigger] shown[j] == code@[j]@,
            strings_view(out@) == head + preview_of(shown.take(k as int)),
        decreases n - k,
    {
        let mut l: Vec<char> = vec![' ', ' ', ' ', ' ', ' ', ' ', '\x1b', '[', '2', 'm', ' ', ' '];
        l.extend_from_slice(&code[k]);
        let e: Vec<char> = vec!['\x1b', '[', '0', 'm'];
        l.extend_from_slice(&e);
        assert(l@ =~= preview_line(shown[k as int]));
        push_line(&mut out, l);
        push_line(&mut out, Vec::new());
        proof {
            let t = shown.take(k + 1);
            assert(t.drop_last() == shown.take(k as int));
            assert(t.last() == shown[k as int]);
        }
        assert(strings_view(out@) =~= head + preview_of(shown.take(k + 1)));
        k += 1;
    }
    assert(shown.take(n as int) == shown);
    if count > 3 {
        let t: Vec<char> = vec![
            ' ', ' ', ' ', ' ', ' ', ' ', '\x1b', '[', '2', 'm', ' ', ' ', '.', '.', '.', '(', 't', 'r', 'u', 'n', 'c', 'a', 't', 'e', 'd', ')',
            '\x1b', '[', '0', 'm',
        ];
        assert(t@ =~= truncated_line());
        push_line(&mut out, t);
    }
    assert(strings_view(out@) =~= function_lines_spec(name@, f.model()));
    out
}

} // verus!

verus! {

/// The `functions` part of `help`.
pub fn functions_lines(cfg: &crate::config::wrapper::WrapperConfig) -> (r: Vec<String>)
    ensures
        strings_view(r@) == functions_spec(*cfg),
{
    let mut out: Vec<String> = Vec::new();
    assert(strings_view(out@) =~= Seq::<Seq<char>>::empty());
    let title: Vec<char> = vec![
        'W', 'R', 'A', 'P', 'P', 'E', 'R', ' ', 'F', 'U', 'N', 'C', 'T', 'I', 'O', 'N', 'S', ' ', ' ', '[', 'f', 'u', 'n', 'c',
        't', 'i', 'o', 'n', 's', '.', '*', ']',
    ];
    assert(title@ == functions_title());
    push_header(&mut out, &title);
    let ghost head = strings_view(out@);
    if cfg.is_empty() {
        let l1: Vec<char> = vec![
            ' ', ' ', ' ', ' ', '\x1b', '[', '2', 'm', 'N', 'o', ' ', 'f', 'u', 'n', 'c', 't', 'i', 'o', 'n', 's', ' ', 'd', 'e', 'f',
            'i', 'n', 'e', 'd', ' ', 'i', 'n', ' ', 'c', 'o', 'n', 'f', 'i', 'g', '.', 't', 'o', 'm', 'l', '\x1b', '[', '0', 'm',
        ];
        let l3: Vec<char> = vec![
            ' ', ' ', ' ', ' ', '\x1b', '[', '1', ';', '3', '7', 'm', 'A', 'd', 'd', ' ', 'f', 'u', 'n', 'c', 't', 'i', 'o', 'n', 's',
            ' ', 'i', 'n', ' ', 'y', 'o', 'u', 'r', ' ', 'c', 'o', 'n', 'f', 'i', 'g', '.', 't', 'o', 'm', 'l', ':', '\x1b', '[', '0',
            'm',
        ];
        let l4: Vec<char> = vec![
            ' ', ' ', ' ', ' ', '\x1b', '[', '2', 'm', '[', 'f', 'u', 'n', 'c', 't', 'i', 'o', 'n', 's', '.', 'y', ']', '\x1b', '[',
            '0', 'm',
        ];
        let l5: Vec<char> = vec![
            ' ', ' ', ' ', ' ', '\x1b', '[', '2', 'm', 'd', 'e', 's', 'c', 'r', 'i', 'p', 't', 'i', 'o', 'n', ' ', '=', ' ', '"', 'Y',
            'a', 'z', 'i', ' ', 'w', 'i', 't', 'h', ' ', 'c', 'd', '-', 'o', 'n', '-', 'e', 'x', 'i', 't', '"', '\x1b', '[', '0', 'm',
        ];
        let l6: Vec<char> = vec![
            ' ', ' ', ' ', ' ', '\x1b', '[', '2', 'm', 'b', 'o', 'd', 'y', ' ', '=', ' ', '"', '"', '"', '.', '.', '.', 'b', 'o', 'd',
            'y', '.', '.', '.', '"', '"', '"', '\x1b', '[', '0', 'm',
        ];
        assert(l1@ =~= no_functions_lines()[0]);
        assert(l3@ =~= no_functions_lines()[2]);
        assert(l4@ =~= no_functions_lines()[3]);
        assert(l5@ =~= no_functions_lines()[4]);
        assert(l6@ =~= no_functions_lines()[5]);
        assert(seq![l1@, Seq::<char>::empty(), l3@, l4@, l5@, l6@] =~= no_functions_lines());
        push_line(&mut out, l1);
        push_line(&mut out, Vec::new());
        push_line(&mut out, l3);
        push_line(&mut out, l4);
        push_line(&mut out, l5);
        push_line(&mut out, l6);
        assert(strings_view(out@) =~= head + no_functions_lines());
        return out;
    }
    let names = cfg.names();
    let mut pairs: Vec<crate::ui::completion::Candidate> = Vec::new();
    let mut i: usize = 0;
    let ghost ord = cfg.order();
    let ghost pv = ord.map_values(|n: Seq<char>| (n, n));
    assert(crate::ui::completion::cands(pairs@) =~= pv.take(0));
    while i < names.len()
        invariant
            i <= names@.len(),
            names@.map_values(|s: &str| s@) == ord,
            pv == ord.map_values(|n: Seq<char>| (n, n)),
            crate::ui::completion::cands(pairs@) == pv.take(i as int),
        decreases names@.len() - i,
    {
        let c = crate::ui::completion::Candidate { display: crate::text::owned(names[i]), replacement: crate::text::owned(names[i]) };
        assert(ord[i as int] == names@[i as int]@);
        proof { crate::ui::completion::lemma_cands_push(pairs@, c); }
        pairs.push(c);
        assert(pv.take(i + 1) =~= pv.take(i as int).push((ord[i as int], ord[i as int])));
        i += 1;
    }
    assert(pv.take(names@.len() as int) =~= pv);
    let sorted = crate::ui::completion::sort_candidates(&pairs, false);
    let ghost sn = sorted_names(ord);
    assert(sn =~= crate::ui::completion::replacements(crate::ui::completion::cands(sorted@)));
    proof { lemma_sorted_names_in(ord, cfg.view()); }
    let mut j: usize = 0;
    assert(sn.take(0) =~= Seq::<Seq<char>>::empty());
    while j < sorted.len()
        invariant
            j <= sorted@.len(),
            sn == crate::ui::completion::replacements(crate::ui::completion::cands(sorted@)),
            forall|k: int| 0 <= k < sn.len() ==> #[trigger] cfg.view().contains_key(sn[k]),
            strings_view(out@) == head + entries_lines(sn.take(j as int), cfg.view()),
        decreases sorted@.len() - j,
    {
        let name = chars_of(sorted[j].replacement.as_str());
        assert(name@ == sn[j as int]);
        match cfg.get(sorted[j].replacement.as_str()) {
            Some(f) => {
                let lines = function_lines(&name, f);
                let ghost before = strings_view(out@);
                let mut m = lines;
                out.append(&mut m);
                assert(strings_view(out@) =~= before + function_lines_spec(name@, f.model()));
            },
            None => {
                assert(false);
            },
        }
        proof {
            let t = sn.take(j + 1);
            assert(t.drop_last() == sn.take(j as int));
            assert(t.last() == sn[j as int]);
        }
        j += 1;
    }
    assert(sn.take(sorted@.len() as int) == sn);
    out
}

} // verus!

verus! {

proof fn lemma_sorted_names_in(ord: Seq<Seq<char>>, m: Map<Seq<char>, crate::config::wrapper::WrapperModel>)
    requires
        forall|i: int| 0 <= i < ord.len() ==> #[trigger] m.contains_key(ord[i]),
    ensures
        forall|k: int| 0 <= k < sorted_names(ord).len() ==> #[trigger] m.contains_key(sorted_names(ord)[k]),
{
    let pv = ord.map_values(|n: Seq<char>| (n, n));
    crate::ui::completion::lemma_sort_stable_from(pv, false);
    let st = crate::ui::completion::sort_stable(pv, false);
    assert forall|k: int| 0 <= k < sorted_names(ord).len() implies #[trigger] m.contains_key(sorted_names(ord)[k]) by {
        let j = choose|j: int| 0 <= j < pv.len() && st[k] == pv[j];
        assert(sorted_names(ord)[k] == st[k].1);
        assert(pv[j].1 == ord[j]);
    }
}

} // verus!

verus! {

// ───────────────────────────── topics ─────────────────────────────

/// What `help` shows.
#[derive(Debug, PartialEq, Eq, Structural, Clone, Copy)]
pub enum HelpTopic {
    Everything,
    Builtins,
    Bindings,
    Config,
    Functions,
}

/// The topic a `help` argument names, `None` for an unknown one.
pub open spec fn topic_of(t: Option<Seq<char>>) -> Option<HelpTopic> {
    match t {
        None => Some(HelpTopic::Everything),
        Some(w) => if w == seq!['b', 'u', 'i', 'l', 't', 'i', 'n', 's'] || w == seq!['b', 'u', 'i', 'l', 't', 'i', 'n'] || w == seq![
            'c',
            'o',
            'm',
            'm',
            'a',
            'n',
            'd',
            's',
        ] {
            Some(HelpTopic::Builtins)
        } else if w == seq!['b', 'i', 'n', 'd', 'i', 'n', 'g', 's'] || w == seq!['b', 'i', 'n', 'd', 'i', 'n', 'g'] || w == seq![
            'k',
            'e',
            'y',
            's',
        ] || w == seq!['k', 'e', 'y', 'b', 'i', 'n', 'd', 'i', 'n', 'g', 's'] {
            Some(HelpTopic::Bindings)
        } else if w == seq!['c', 'o', 'n', 'f', 'i', 'g'] || w == seq!['p', 'a', 't', 'h', 's'] || w == seq!['p', 'a', 't', 'h'] {
            Some(HelpTopic::Config)
        } else if w == seq!['f', 'u', 'n', 'c', 't', 'i', 'o', 'n', 's'] || w == seq!['f', 'u', 'n', 'c', 't', 'i', 'o', 'n'] || w
            == seq!['f', 'n'] || w == seq!['w', 'r', 'a', 'p', 'p', 'e', 'r'] || w == seq!['w', 'r', 'a', 'p', 'p', 'e', 'r', 's'] {
            Some(HelpTopic::Functions)
        } else {
            None
        },
    }
}

pub fn help_topic(topic: Option<&str>) -> (r: Option<HelpTopic>)
    ensures
        r == topic_of(crate::executor::opt_view(topic)),
{
    match topic {
        None => Some(HelpTopic::Everything),
        Some(t) => {
            let w = chars_of(t);
            let fns: Vec<char> = vec!['f', 'n'];
            assert(fns@ == seq!['f', 'n']);
            if crate::text::chars_eq(&w, &['b', 'u', 'i', 'l', 't', 'i', 'n', 's']) || crate::text::chars_eq(
                &w,
                &['b', 'u', 'i', 'l', 't', 'i', 'n'],
            ) || crate::text::chars_eq(&w, &['c', 'o', 'm', 'm', 'a', 'n', 'd', 's']) {
                Some(HelpTopic::Builtins)
            } else if crate::text::chars_eq(&w, &['b', 'i', 'n', 'd', 'i', 'n', 'g', 's']) || crate::text::chars_eq(
                &w,
                &['b', 'i', 'n', 'd', 'i', 'n', 'g'],
            ) || crate::text::chars_eq(&w, &['k', 'e', 'y', 's']) || crate::text::chars_eq(
                &w,
                &['k', 'e', 'y', 'b', 'i', 'n', 'd', 'i', 'n', 'g', 's'],
            ) {
                Some(HelpTopic::Bindings)
            } else if crate::text::chars_eq(&w, &['c', 'o', 'n', 'f', 'i', 'g']) || crate::text::chars_eq(&w, &['p', 'a', 't', 'h', 's'])
                || crate::text::chars_eq(&w, &['p', 'a', 't', 'h']) {
                Some(HelpTopic::Config)
            } else if crate::text::chars_eq(&w, &['f', 'u', 'n', 'c', 't', 'i', 'o', 'n', 's']) || crate::text::chars_eq(
                &w,
                &['f', 'u', 'n', 'c', 't', 'i', 'o', 'n'],
            ) || crate::text::chars_eq(&w, &fns) || crate::text::chars_eq(&w, &['w', 'r', 'a', 'p', 'p', 'e', 'r']) || crate::text::chars_eq(
                &w,
                &['w', 'r', 'a', 'p', 'p', 'e', 'r', 's'],
            ) {
                Some(HelpTopic::Functions)
            } else {
                None
            }
        },
    }
}

/// The complaint about an unknown topic, naming the topics there are.
pub open spec fn unknown_topic_text(t: Seq<char>) -> Seq<char> {
    seq!['h', 'e', 'l', 'p', ':', ' ', 'u', 'n', 'k', 'n', 'o', 'w', 'n', ' ', 't', 'o', 'p', 'i', 'c', ' ', '\''] + t + seq![
        '\'',
        '.',
        ' ',
        'T',
        'r',
        'y',
        ':',
        ' ',
    ] + green() + seq!['h', 'e', 'l', 'p', ' ', 'b', 'u', 'i', 'l', 't', 'i', 'n', 's'] + rst() + seq![',', ' '] + green() + seq![
        'h',
        'e',
        'l',
        'p',
        ' ',
        'b',
        'i',
        'n',
        'd',
        'i',
        'n',
        'g',
        's',
    ] + rst() + seq![',', ' '] + green() + seq!['h', 'e', 'l', 'p', ' ', 'f', 'u', 'n', 'c', 't', 'i', 'o', 'n', 's'] + rst() + seq![
        ',',
        ' ',
    ] + green() + seq!['h', 'e', 'l', 'p', ' ', 'c', 'o', 'n', 'f', 'i', 'g'] + rst()
}

/// What `help` prints for a topic; with none, everything (the functions
/// only when there are any).
pub open spec fn help_spec(topic: HelpTopic, cfg: crate::config::shell::ShellConfig, history_file: Seq<char>) -> Seq<Seq<char>> {
    let blank = seq![Seq::<char>::empty()];
    match topic {
        HelpTopic::Everything => banner_spec() + config_spec(history_file) + builtins_spec() + (if cfg.functions.order().len() == 0 {
            Seq::empty()
        } else {
            functions_spec(cfg.functions)
        }) + bindings_spec() + blank,
        HelpTopic::Builtins => builtins_spec() + blank,
        HelpTopic::Bindings => bindings_spec() + blank,
        HelpTopic::Config => config_spec(history_file) + blank,
        HelpTopic::Functions => functions_spec(cfg.functions) + blank,
    }
}

fn append_lines(out: &mut Vec<String>, more: Vec<String>)
    ensures
        strings_view(final(out)@) == strings_view(old(out)@) + strings_view(more@),
{
    let ghost o = out@;
    let mut m = more;
    out.append(&mut m);
    assert(strings_view(out@) =~= strings_view(o) + strings_view(more@));
}

/// The lines `help` prints for `topic` (to standard output), or the
/// complaint about an unknown topic (to standard error). `history_file` is
/// where the history is kept.
pub fn help_lines(topic: Option<&str>, cfg: &crate::config::shell::ShellConfig, history_file: &str) -> (r: Result<
    Vec<String>,
    String,
>)
    ensures
        match topic_of(crate::executor::opt_view(topic)) {
            Some(t) => r matches Ok(v) && strings_view(v@) == help_spec(t, *cfg, history_file@),
            None => r matches Err(e) && e@ == unknown_topic_text(topic->0@),
        },
{
    let t = match help_topic(topic) {
        Some(t) => t,
        None => {
            let mut e: Vec<char> = vec!['h', 'e', 'l', 'p', ':', ' ', 'u', 'n', 'k', 'n', 'o', 'w', 'n', ' ', 't', 'o', 'p', 'i', 'c', ' ', '\''];
            let name = match topic {
                Some(s) => chars_of(s),
                None => Vec::new(),
            };
            e.extend_from_slice(&name);
            let tail: Vec<char> = vec![
                '\'', '.', ' ', 'T', 'r', 'y', ':', ' ', '\x1b', '[', '1', ';', '3', '2', 'm', 'h', 'e', 'l', 'p', ' ', 'b', 'u', 'i',
                'l', 't', 'i', 'n', 's', '\x1b', '[', '0', 'm', ',', ' ', '\x1b', '[', '1', ';', '3', '2', 'm', 'h', 'e', 'l', 'p', ' ',
                'b', 'i', 'n', 'd', 'i', 'n', 'g', 's', '\x1b', '[', '0', 'm', ',', ' ', '\x1b', '[', '1', ';', '3', '2', 'm', 'h', 'e',
                'l', 'p', ' ', 'f', 'u', 'n', 'c', 't', 'i', 'o', 'n', 's', '\x1b', '[', '0', 'm', ',', ' ', '\x1b', '[', '1', ';', '3',
                '2', 'm', 'h', 'e', 'l', 'p', ' ', 'c', 'o', 'n', 'f', 'i', 'g', '\x1b', '[', '0', 'm',
            ];
            e.extend_from_slice(&tail);
            assert(e@ =~= unknown_topic_text(topic->0@));
            return Err(string_of(&e));
        },
    };
    let mut out: Vec<String> = Vec::new();
    assert(strings_view(out@) =~= Seq::<Seq<char>>::empty());
    match t {
        HelpTopic::Everything => {
            append_lines(&mut out, banner_lines());
            append_lines(&mut out, config_lines(history_file));
            append_lines(&mut out, builtins_lines());
            if !cfg.functions.is_empty() {
                append_lines(&mut out, functions_lines(&cfg.functions));
            } else {
                assert(strings_view(out@) + Seq::<Seq<char>>::empty() == strings_view(out@));
            }
            append_lines(&mut out, bindings_lines());
        },
        HelpTopic::Builtins => {
            append_lines(&mut out, builtins_lines());
        },
        HelpTopic::Bindings => {
            append_lines(&mut out, bindings_lines());
        },
        HelpTopic::Config => {
            append_lines(&mut out, config_lines(history_file));
        },
        HelpTopic::Functions => {
            append_lines(&mut out, functions_lines(&cfg.functions));
        },
    }
    push_line(&mut out, Vec::new());
    Ok(out)
}

} // verus!
