//! The `ls` builtin: options, icons, colours, permissions, dates, ordering and
//! the grid and long layouts. What `ls` shows of each file comes in as a
//! [`FileInfo`], read from the file system by the shell.
use vstd::prelude::*;
use crate::text::{chars_eq, chars_of, has_prefix, lowercase_of, starts_with, string_of, to_lowercase};

verus! {

broadcast use vstd::string::group_string_axioms;

// ───────────────────────────── lookup tables ─────────────────────────────

pub open spec fn table_views(t: Seq<(Vec<char>, Vec<char>)>) -> Seq<(Seq<char>, Seq<char>)> {
    t.map_values(|p: (Vec<char>, Vec<char>)| (p.0@, p.1@))
}

/// The value of the first row whose key is `key`.
pub open spec fn table_get(t: Seq<(Seq<char>, Seq<char>)>, key: Seq<char>) -> Option<Seq<char>>
    decreases t.len(),
{
    if t.len() == 0 {
        None
    } else if t[0].0 == key {
        Some(t[0].1)
    } else {
        table_get(t.drop_first(), key)
    }
}

fn lookup(t: &Vec<(Vec<char>, Vec<char>)>, key: &Vec<char>) -> (r: Option<Vec<char>>)
    ensures
        match r {
            Some(v) => table_get(table_views(t@), key@) == Some(v@),
            None => table_get(table_views(t@), key@) is None,
        },
{
    let ghost tv = table_views(t@);
    let mut i: usize = 0;
    assert(tv.skip(0) =~= tv);
    while i < t.len()
        invariant
            i <= t@.len(),
            tv == table_views(t@),
            table_get(tv, key@) == table_get(tv.skip(i as int), key@),
        decreases t@.len() - i,
    {
        assert(tv.skip(i as int)[0] == (t@[i as int].0@, t@[i as int].1@));
        if chars_eq(&t[i].0, key) {
            return Some(t[i].1.clone());
        }
        assert(tv.skip(i as int).drop_first() == tv.skip(i + 1));
        i += 1;
    }
    None
}

fn single(c: char) -> (r: Vec<char>)
    ensures
        r@ == seq![c],
{
    let mut v: Vec<char> = Vec::new();
    v.push(c);
    v
}

pub open spec fn magenta() -> Seq<char> {
    seq!['\x1b', '[', '0', ';', '3', '5', 'm']
}

pub open spec fn light_blue() -> Seq<char> {
    seq!['\x1b', '[', '0', ';', '3', '4', 'm']
}

/// Icons by extension, first match first.
pub open spec fn ext_icon_table() -> Seq<(Seq<char>, Seq<char>)> {
    ext_icons_0() + ext_icons_1() + ext_icons_2() + ext_icons_3() + ext_icons_4() + ext_icons_5()
}

pub open spec fn ext_icons_0() -> Seq<(Seq<char>, Seq<char>)> {
    seq![
        (seq!['r', 's'], seq!['\u{e7a8}', ' ']),
        (seq!['h', 't', 'm', 'l'], seq!['\u{e736}', ' ']),
        (seq!['h', 't', 'm'], seq!['\u{e736}', ' ']),
        (seq!['c', 's', 's'], seq!['\u{e749}', ' ']),
        (seq!['s', 'c', 's', 's'], seq!['\u{e603}', ' ']),
        (seq!['s', 'a', 's', 's'], seq!['\u{e603}', ' ']),
        (seq!['j', 's'], seq!['\u{e74e}', ' ']),
        (seq!['m', 'j', 's'], seq!['\u{e74e}', ' ']),
        (seq!['c', 'j', 's'], seq!['\u{e74e}', ' ']),
        (seq!['t', 's'], seq!['\u{e628}', ' ']),
        (seq!['j', 's', 'x'], seq!['\u{e7ba}', ' ']),
        (seq!['t', 's', 'x'], seq!['\u{e7ba}', ' ']),
        (seq!['v', 'u', 'e'], seq!['\u{e6a0}', ' ']),
        (seq!['s', 'v', 'e', 'l', 't', 'e'], seq!['\u{e697}', ' ']),
        (seq!['j', 's', 'o', 'n'], seq!['\u{e60b}', ' ']),
        (seq!['j', 's', 'o', 'n', 'c'], seq!['\u{e60b}', ' ']),
        (seq!['y', 'a', 'm', 'l'], seq!['\u{e601}', ' ']),
        (seq!['y', 'm', 'l'], seq!['\u{e601}', ' ']),
        (seq!['t', 'o', 'm', 'l'], seq!['\u{e615}', ' ']),
        (seq!['x', 'm', 'l'], seq!['\u{e619}', ' ']),
    ]
}

fn ext_icon_entries_0() -> (r: Vec<(Vec<char>, Vec<char>)>)
    ensures
        table_views(r@) == ext_icons_0(),
{
    let r: Vec<(Vec<char>, Vec<char>)> = vec![
        (vec!['r', 's'], vec!['\u{e7a8}', ' ']),
        (vec!['h', 't', 'm', 'l'], vec!['\u{e736}', ' ']),
        (vec!['h', 't', 'm'], vec!['\u{e736}', ' ']),
        (vec!['c', 's', 's'], vec!['\u{e749}', ' ']),
        (vec!['s', 'c', 's', 's'], vec!['\u{e603}', ' ']),
        (vec!['s', 'a', 's', 's'], vec!['\u{e603}', ' ']),
        (vec!['j', 's'], vec!['\u{e74e}', ' ']),
        (vec!['m', 'j', 's'], vec!['\u{e74e}', ' ']),
        (vec!['c', 'j', 's'], vec!['\u{e74e}', ' ']),
        (vec!['t', 's'], vec!['\u{e628}', ' ']),
        (vec!['j', 's', 'x'], vec!['\u{e7ba}', ' ']),
        (vec!['t', 's', 'x'], vec!['\u{e7ba}', ' ']),
        (vec!['v', 'u', 'e'], vec!['\u{e6a0}', ' ']),
        (vec!['s', 'v', 'e', 'l', 't', 'e'], vec!['\u{e697}', ' ']),
        (vec!['j', 's', 'o', 'n'], vec!['\u{e60b}', ' ']),
        (vec!['j', 's', 'o', 'n', 'c'], vec!['\u{e60b}', ' ']),
        (vec!['y', 'a', 'm', 'l'], vec!['\u{e601}', ' ']),
        (vec!['y', 'm', 'l'], vec!['\u{e601}', ' ']),
        (vec!['t', 'o', 'm', 'l'], vec!['\u{e615}', ' ']),
        (vec!['x', 'm', 'l'], vec!['\u{e619}', ' ']),
    ];
    assert(table_views(r@) =~= ext_icons_0());
    r
}

pub open spec fn ext_icons_1() -> Seq<(Seq<char>, Seq<char>)> {
    seq![
        (seq!['c', 's', 'v'], seq!['\u{f1c3}', ' ']),
        (seq!['e', 'n', 'v'], seq!['\u{f462}', ' ']),
        (seq!['i', 'n', 'i'], seq!['\u{e615}', ' ']),
        (seq!['c', 'f', 'g'], seq!['\u{e615}', ' ']),
        (seq!['c', 'o', 'n', 'f'], seq!['\u{e615}', ' ']),
        (seq!['m', 'd'], seq!['\u{e609}', ' ']),
        (seq!['m', 'd', 'x'], seq!['\u{e609}', ' ']),
        (seq!['t', 'x', 't'], seq!['\u{f15c}', ' ']),
        (seq!['p', 'd', 'f'], seq!['\u{f1c1}', ' ']),
        (seq!['d', 'o', 'c'], seq!['\u{f1c2}', ' ']),
        (seq!['d', 'o', 'c', 'x'], seq!['\u{f1c2}', ' ']),
        (seq!['x', 'l', 's'], seq!['\u{f1c3}', ' ']),
        (seq!['x', 'l', 's', 'x'], seq!['\u{f1c3}', ' ']),
        (seq!['p', 'p', 't'], seq!['\u{f1c4}', ' ']),
        (seq!['p', 'p', 't', 'x'], seq!['\u{f1c4}', ' ']),
        (seq!['z', 'i', 'p'], seq!['\u{f1c6}', ' ']),
        (seq!['t', 'a', 'r'], seq!['\u{f1c6}', ' ']),
        (seq!['g', 'z'], seq!['\u{f1c6}', ' ']),
        (seq!['b', 'z', '2'], seq!['\u{f1c6}', ' ']),
        (seq!['x', 'z'], seq!['\u{f1c6}', ' ']),
    ]
}

fn ext_icon_entries_1() -> (r: Vec<(Vec<char>, Vec<char>)>)
    ensures
        table_views(r@) == ext_icons_1(),
{
    let r: Vec<(Vec<char>, Vec<char>)> = vec![
        (vec!['c', 's', 'v'], vec!['\u{f1c3}', ' ']),
        (vec!['e', 'n', 'v'], vec!['\u{f462}', ' ']),
        (vec!['i', 'n', 'i'], vec!['\u{e615}', ' ']),
        (vec!['c', 'f', 'g'], vec!['\u{e615}', ' ']),
        (vec!['c', 'o', 'n', 'f'], vec!['\u{e615}', ' ']),
        (vec!['m', 'd'], vec!['\u{e609}', ' ']),
        (vec!['m', 'd', 'x'], vec!['\u{e609}', ' ']),
        (vec!['t', 'x', 't'], vec!['\u{f15c}', ' ']),
        (vec!['p', 'd', 'f'], vec!['\u{f1c1}', ' ']),
        (vec!['d', 'o', 'c'], vec!['\u{f1c2}', ' ']),
        (vec!['d', 'o', 'c', 'x'], vec!['\u{f1c2}', ' ']),
        (vec!['x', 'l', 's'], vec!['\u{f1c3}', ' ']),
        (vec!['x', 'l', 's', 'x'], vec!['\u{f1c3}', ' ']),
        (vec!['p', 'p', 't'], vec!['\u{f1c4}', ' ']),
        (vec!['p', 'p', 't', 'x'], vec!['\u{f1c4}', ' ']),
        (vec!['z', 'i', 'p'], vec!['\u{f1c6}', ' ']),
        (vec!['t', 'a', 'r'], vec!['\u{f1c6}', ' ']),
        (vec!['g', 'z'], vec!['\u{f1c6}', ' ']),
        (vec!['b', 'z', '2'], vec!['\u{f1c6}', ' ']),
        (vec!['x', 'z'], vec!['\u{f1c6}', ' ']),
    ];
    assert(table_views(r@) =~= ext_icons_1());
    r
}

pub open spec fn ext_icons_2() -> Seq<(Seq<char>, Seq<char>)> {
    seq![
        (seq!['z', 's', 't'], seq!['\u{f1c6}', ' ']),
        (seq!['7', 'z'], seq!['\u{f1c6}', ' ']),
        (seq!['r', 'a', 'r'], seq!['\u{f1c6}', ' ']),
        (seq!['d', 'e', 'b'], seq!['\u{e77d}', ' ']),
        (seq!['r', 'p', 'm'], seq!['\u{e7bb}', ' ']),
        (seq!['p', 'k', 'g'], seq!['\u{f468}', ' ']),
        (seq!['p', 'n', 'g'], seq!['\u{f1c5}', ' ']),
        (seq!['j', 'p', 'g'], seq!['\u{f1c5}', ' ']),
        (seq!['j', 'p', 'e', 'g'], seq!['\u{f1c5}', ' ']),
        (seq!['g', 'i', 'f'], seq!['\u{f1c5}', ' ']),
        (seq!['w', 'e', 'b', 'p'], seq!['\u{f1c5}', ' ']),
        (seq!['b', 'm', 'p'], seq!['\u{f1c5}', ' ']),
        (seq!['i', 'c', 'o'], seq!['\u{f1c5}', ' ']),
        (seq!['s', 'v', 'g'], seq!['\u{e698}', ' ']),
        (seq!['m', 'p', '3'], seq!['\u{f001}', ' ']),
        (seq!['f', 'l', 'a', 'c'], seq!['\u{f001}', ' ']),
        (seq!['o', 'g', 'g'], seq!['\u{f001}', ' ']),
        (seq!['w', 'a', 'v'], seq!['\u{f001}', ' ']),
        (seq!['a', 'a', 'c'], seq!['\u{f001}', ' ']),
        (seq!['o', 'p', 'u', 's'], seq!['\u{f001}', ' ']),
    ]
}

fn ext_icon_entries_2() -> (r: Vec<(Vec<char>, Vec<char>)>)
    ensures
        table_views(r@) == ext_icons_2(),
{
    let r: Vec<(Vec<char>, Vec<char>)> = vec![
        (vec!['z', 's', 't'], vec!['\u{f1c6}', ' ']),
        (vec!['7', 'z'], vec!['\u{f1c6}', ' ']),
        (vec!['r', 'a', 'r'], vec!['\u{f1c6}', ' ']),
        (vec!['d', 'e', 'b'], vec!['\u{e77d}', ' ']),
        (vec!['r', 'p', 'm'], vec!['\u{e7bb}', ' ']),
        (vec!['p', 'k', 'g'], vec!['\u{f468}', ' ']),
        (vec!['p', 'n', 'g'], vec!['\u{f1c5}', ' ']),
        (vec!['j', 'p', 'g'], vec!['\u{f1c5}', ' ']),
        (vec!['j', 'p', 'e', 'g'], vec!['\u{f1c5}', ' ']),
        (vec!['g', 'i', 'f'], vec!['\u{f1c5}', ' ']),
        (vec!['w', 'e', 'b', 'p'], vec!['\u{f1c5}', ' ']),
        (vec!['b', 'm', 'p'], vec!['\u{f1c5}', ' ']),
        (vec!['i', 'c', 'o'], vec!['\u{f1c5}', ' ']),
        (vec!['s', 'v', 'g'], vec!['\u{e698}', ' ']),
        (vec!['m', 'p', '3'], vec!['\u{f001}', ' ']),
        (vec!['f', 'l', 'a', 'c'], vec!['\u{f001}', ' ']),
        (vec!['o', 'g', 'g'], vec!['\u{f001}', ' ']),
        (vec!['w', 'a', 'v'], vec!['\u{f001}', ' ']),
        (vec!['a', 'a', 'c'], vec!['\u{f001}', ' ']),
        (vec!['o', 'p', 'u', 's'], vec!['\u{f001}', ' ']),
    ];
    assert(table_views(r@) =~= ext_icons_2());
    r
}

pub open spec fn ext_icons_3() -> Seq<(Seq<char>, Seq<char>)> {
    seq![
        (seq!['m', 'p', '4'], seq!['\u{f03d}', ' ']),
        (seq!['m', 'k', 'v'], seq!['\u{f03d}', ' ']),
        (seq!['a', 'v', 'i'], seq!['\u{f03d}', ' ']),
        (seq!['m', 'o', 'v'], seq!['\u{f03d}', ' ']),
        (seq!['w', 'e', 'b', 'm'], seq!['\u{f03d}', ' ']),
        (seq!['f', 'l', 'v'], seq!['\u{f03d}', ' ']),
        (seq!['p', 'y'], seq!['\u{e606}', ' ']),
        (seq!['p', 'y', 'w'], seq!['\u{e606}', ' ']),
        (seq!['g', 'o'], seq!['\u{e626}', ' ']),
        (seq!['j', 'a', 'v', 'a'], seq!['\u{e738}', ' ']),
        (seq!['c'], seq!['\u{e61e}', ' ']),
        (seq!['h'], seq!['\u{e61e}', ' ']),
        (seq!['c', 'p', 'p'], seq!['\u{e61d}', ' ']),
        (seq!['c', 'c'], seq!['\u{e61d}', ' ']),
        (seq!['c', 'x', 'x'], seq!['\u{e61d}', ' ']),
        (seq!['h', 'p', 'p'], seq!['\u{e61d}', ' ']),
        (seq!['c', 's'], seq!['\u{e648}', ' ']),
        (seq!['r', 'b'], seq!['\u{e739}', ' ']),
        (seq!['p', 'h', 'p'], seq!['\u{e73d}', ' ']),
        (seq!['l', 'u', 'a'], seq!['\u{e620}', ' ']),
    ]
}

fn ext_icon_entries_3() -> (r: Vec<(Vec<char>, Vec<char>)>)
    ensures
        table_views(r@) == ext_icons_3(),
{
    let r: Vec<(Vec<char>, Vec<char>)> = vec![
        (vec!['m', 'p', '4'], vec!['\u{f03d}', ' ']),
        (vec!['m', 'k', 'v'], vec!['\u{f03d}', ' ']),
        (vec!['a', 'v', 'i'], vec!['\u{f03d}', ' ']),
        (vec!['m', 'o', 'v'], vec!['\u{f03d}', ' ']),
        (vec!['w', 'e', 'b', 'm'], vec!['\u{f03d}', ' ']),
        (vec!['f', 'l', 'v'], vec!['\u{f03d}', ' ']),
        (vec!['p', 'y'], vec!['\u{e606}', ' ']),
        (vec!['p', 'y', 'w'], vec!['\u{e606}', ' ']),
        (vec!['g', 'o'], vec!['\u{e626}', ' ']),
        (vec!['j', 'a', 'v', 'a'], vec!['\u{e738}', ' ']),
        (single('c'), vec!['\u{e61e}', ' ']),
        (single('h'), vec!['\u{e61e}', ' ']),
        (vec!['c', 'p', 'p'], vec!['\u{e61d}', ' ']),
        (vec!['c', 'c'], vec!['\u{e61d}', ' ']),
        (vec!['c', 'x', 'x'], vec!['\u{e61d}', ' ']),
        (vec!['h', 'p', 'p'], vec!['\u{e61d}', ' ']),
        (vec!['c', 's'], vec!['\u{e648}', ' ']),
        (vec!['r', 'b'], vec!['\u{e739}', ' ']),
        (vec!['p', 'h', 'p'], vec!['\u{e73d}', ' ']),
        (vec!['l', 'u', 'a'], vec!['\u{e620}', ' ']),
    ];
    assert(table_views(r@) =~= ext_icons_3());
    r
}

pub open spec fn ext_icons_4() -> Seq<(Seq<char>, Seq<char>)> {
    seq![
        (seq!['s', 'h'], seq!['\u{e691}', ' ']),
        (seq!['b', 'a', 's', 'h'], seq!['\u{e691}', ' ']),
        (seq!['z', 's', 'h'], seq!['\u{e615}', ' ']),
        (seq!['f', 'i', 's', 'h'], seq!['\u{e615}', ' ']),
        (seq!['p', 's', '1'], seq!['\u{e6a2}', ' ']),
        (seq!['v', 'i', 'm'], seq!['\u{e62b}', ' ']),
        (seq!['n', 'v', 'i', 'm'], seq!['\u{e62b}', ' ']),
        (seq!['e', 'l'], seq!['\u{e616}', ' ']),
        (seq!['e', 'l', 'c'], seq!['\u{e616}', ' ']),
        (seq!['h', 's'], seq!['\u{e777}', ' ']),
        (seq!['r'], seq!['\u{e68a}', ' ']),
        (seq!['s', 'w', 'i', 'f', 't'], seq!['\u{e755}', ' ']),
        (seq!['k', 't'], seq!['\u{e634}', ' ']),
        (seq!['k', 't', 's'], seq!['\u{e634}', ' ']),
        (seq!['d', 'a', 'r', 't'], seq!['\u{e798}', ' ']),
        (seq!['e', 'x'], seq!['\u{e62d}', ' ']),
        (seq!['e', 'x', 's'], seq!['\u{e62d}', ' ']),
        (seq!['n', 'i', 'x'], seq!['\u{e7a5}', ' ']),
        (seq!['s', 'q', 'l'], seq!['\u{e706}', ' ']),
        (seq!['d', 'b'], seq!['\u{e706}', ' ']),
    ]
}

fn ext_icon_entries_4() -> (r: Vec<(Vec<char>, Vec<char>)>)
    ensures
        table_views(r@) == ext_icons_4(),
{
    let r: Vec<(Vec<char>, Vec<char>)> = vec![
        (vec!['s', 'h'], vec!['\u{e691}', ' ']),
        (vec!['b', 'a', 's', 'h'], vec!['\u{e691}', ' ']),
        (vec!['z', 's', 'h'], vec!['\u{e615}', ' ']),
        (vec!['f', 'i', 's', 'h'], vec!['\u{e615}', ' ']),
        (vec!['p', 's', '1'], vec!['\u{e6a2}', ' ']),
        (vec!['v', 'i', 'm'], vec!['\u{e62b}', ' ']),
        (vec!['n', 'v', 'i', 'm'], vec!['\u{e62b}', ' ']),
        (vec!['e', 'l'], vec!['\u{e616}', ' ']),
        (vec!['e', 'l', 'c'], vec!['\u{e616}', ' ']),
        (vec!['h', 's'], vec!['\u{e777}', ' ']),
        (single('r'), vec!['\u{e68a}', ' ']),
        (vec!['s', 'w', 'i', 'f', 't'], vec!['\u{e755}', ' ']),
        (vec!['k', 't'], vec!['\u{e634}', ' ']),
        (vec!['k', 't', 's'], vec!['\u{e634}', ' ']),
        (vec!['d', 'a', 'r', 't'], vec!['\u{e798}', ' ']),
        (vec!['e', 'x'], vec!['\u{e62d}', ' ']),
        (vec!['e', 'x', 's'], vec!['\u{e62d}', ' ']),
        (vec!['n', 'i', 'x'], vec!['\u{e7a5}', ' ']),
        (vec!['s', 'q', 'l'], vec!['\u{e706}', ' ']),
        (vec!['d', 'b'], vec!['\u{e706}', ' ']),
    ];
    assert(table_views(r@) =~= ext_icons_4());
    r
}

pub open spec fn ext_icons_5() -> Seq<(Seq<char>, Seq<char>)> {
    seq![
        (seq!['s', 'q', 'l', 'i', 't', 'e'], seq!['\u{e706}', ' ']),
        (seq!['d', 'o', 'c', 'k', 'e', 'r', 'f', 'i', 'l', 'e'], seq!['\u{e650}', ' ']),
        (seq!['c', 'o', 'n', 't', 'a', 'i', 'n', 'e', 'r', 'f', 'i', 'l', 'e'], seq!['\u{e650}', ' ']),
        (seq!['t', 't', 'f'], seq!['\u{f031}', ' ']),
        (seq!['o', 't', 'f'], seq!['\u{f031}', ' ']),
        (seq!['w', 'o', 'f', 'f'], seq!['\u{f031}', ' ']),
        (seq!['w', 'o', 'f', 'f', '2'], seq!['\u{f031}', ' ']),
        (seq!['o'], seq!['\u{f17c}', ' ']),
        (seq!['s', 'o'], seq!['\u{f17c}', ' ']),
        (seq!['a'], seq!['\u{f17c}', ' ']),
        (seq!['d', 'y', 'l', 'i', 'b'], seq!['\u{f17c}', ' ']),
        (seq!['w', 'a', 's', 'm'], seq!['\u{e738}', ' ']),
        (seq!['l', 'o', 'c', 'k'], seq!['\u{f023}', ' ']),
    ]
}

fn ext_icon_entries_5() -> (r: Vec<(Vec<char>, Vec<char>)>)
    ensures
        table_views(r@) == ext_icons_5(),
{
    let r: Vec<(Vec<char>, Vec<char>)> = vec![
        (vec!['s', 'q', 'l', 'i', 't', 'e'], vec!['\u{e706}', ' ']),
        (vec!['d', 'o', 'c', 'k', 'e', 'r', 'f', 'i', 'l', 'e'], vec!['\u{e650}', ' ']),
        (vec!['c', 'o', 'n', 't', 'a', 'i', 'n', 'e', 'r', 'f', 'i', 'l', 'e'], vec!['\u{e650}', ' ']),
        (vec!['t', 't', 'f'], vec!['\u{f031}', ' ']),
        (vec!['o', 't', 'f'], vec!['\u{f031}', ' ']),
        (vec!['w', 'o', 'f', 'f'], vec!['\u{f031}', ' ']),
        (vec!['w', 'o', 'f', 'f', '2'], vec!['\u{f031}', ' ']),
        (single('o'), vec!['\u{f17c}', ' ']),
        (vec!['s', 'o'], vec!['\u{f17c}', ' ']),
        (single('a'), vec!['\u{f17c}', ' ']),
        (vec!['d', 'y', 'l', 'i', 'b'], vec!['\u{f17c}', ' ']),
        (vec!['w', 'a', 's', 'm'], vec!['\u{e738}', ' ']),
        (vec!['l', 'o', 'c', 'k'], vec!['\u{f023}', ' ']),
    ];
    assert(table_views(r@) =~= ext_icons_5());
    r
}

fn ext_icon_entries() -> (r: Vec<(Vec<char>, Vec<char>)>)
    ensures
        table_views(r@) == ext_icon_table(),
{
    let mut r = ext_icon_entries_0();
    let mut p1 = ext_icon_entries_1();
    let ghost before1 = r@;
    r.append(&mut p1);
    assert(table_views(r@) =~= table_views(before1) + ext_icons_1());
    let mut p2 = ext_icon_entries_2();
    let ghost before2 = r@;
    r.append(&mut p2);
    assert(table_views(r@) =~= table_views(before2) + ext_icons_2());
    let mut p3 = ext_icon_entries_3();
    let ghost before3 = r@;
    r.append(&mut p3);
    assert(table_views(r@) =~= table_views(before3) + ext_icons_3());
    let mut p4 = ext_icon_entries_4();
    let ghost before4 = r@;
    r.append(&mut p4);
    assert(table_views(r@) =~= table_views(before4) + ext_icons_4());
    let mut p5 = ext_icon_entries_5();
    let ghost before5 = r@;
    r.append(&mut p5);
    assert(table_views(r@) =~= table_views(before5) + ext_icons_5());
    r
}

/// Icons by directory name, first match first.
pub open spec fn dir_icon_table() -> Seq<(Seq<char>, Seq<char>)> {
    seq![
        (seq!['.', 'g', 'i', 't'], seq!['\u{e702}', ' ']),
        (seq!['.', 'g', 'i', 't', 'h', 'u', 'b'], seq!['\u{e65b}', ' ']),
        (seq!['s', 'r', 'c'], seq!['\u{e5fe}', ' ']),
        (seq!['s', 'o', 'u', 'r', 'c', 'e'], seq!['\u{e5fe}', ' ']),
        (seq!['t', 'a', 'r', 'g', 'e', 't'], seq!['\u{e5fe}', ' ']),
        (seq!['b', 'u', 'i', 'l', 'd'], seq!['\u{e5fe}', ' ']),
        (seq!['d', 'i', 's', 't'], seq!['\u{e5fe}', ' ']),
        (seq!['o', 'u', 't'], seq!['\u{e5fe}', ' ']),
        (seq!['n', 'o', 'd', 'e', '_', 'm', 'o', 'd', 'u', 'l', 'e', 's'], seq!['\u{e74e}', ' ']),
        (seq!['p', 'u', 'b', 'l', 'i', 'c'], seq!['\u{f0c2}', ' ']),
        (seq!['s', 't', 'a', 't', 'i', 'c'], seq!['\u{f0c2}', ' ']),
        (seq!['a', 's', 's', 'e', 't', 's'], seq!['\u{f03e}', ' ']),
        (seq!['i', 'm', 'a', 'g', 'e', 's'], seq!['\u{f03e}', ' ']),
        (seq!['i', 'm', 'g'], seq!['\u{f03e}', ' ']),
        (seq!['d', 'o', 'c', 's'], seq!['\u{f02d}', ' ']),
        (seq!['d', 'o', 'c'], seq!['\u{f02d}', ' ']),
        (seq!['t', 'e', 's', 't'], seq!['\u{f0ae}', ' ']),
        (seq!['t', 'e', 's', 't', 's'], seq!['\u{f0ae}', ' ']),
        (seq!['s', 'p', 'e', 'c'], seq!['\u{f0ae}', ' ']),
        (seq!['c', 'o', 'n', 'f', 'i', 'g'], seq!['\u{e615}', ' ']),
        (seq!['.', 'c', 'o', 'n', 'f', 'i', 'g'], seq!['\u{e615}', ' ']),
        (seq!['b', 'i', 'n'], seq!['\u{e5fc}', ' ']),
        (seq!['l', 'i', 'b'], seq!['\u{f121}', ' ']),
        (seq!['s', 'c', 'r', 'i', 'p', 't', 's'], seq!['\u{f489}', ' ']),
        (seq!['s', 'c', 'r', 'i', 'p', 't'], seq!['\u{f489}', ' ']),
        (seq!['t', 'm', 'p'], seq!['\u{f07b}', ' ']),
        (seq!['t', 'e', 'm', 'p'], seq!['\u{f07b}', ' ']),
        (seq!['c', 'a', 'c', 'h', 'e'], seq!['\u{f07b}', ' ']),
        (seq!['l', 'o', 'g', 's'], seq!['\u{f18d}', ' ']),
        (seq!['l', 'o', 'g'], seq!['\u{f18d}', ' ']),
        (seq!['b', 'a', 'c', 'k', 'u', 'p'], seq!['\u{f0c7}', ' ']),
        (seq!['d', 'o', 'w', 'n', 'l', 'o', 'a', 'd', 's'], seq!['\u{f019}', ' ']),
        (seq!['D', 'o', 'w', 'n', 'l', 'o', 'a', 'd'], seq!['\u{f019}', ' ']),
        (seq!['D', 'e', 's', 'k', 't', 'o', 'p'], seq!['\u{f108}', ' ']),
        (seq!['D', 'o', 'c', 'u', 'm', 'e', 'n', 't', 's'], seq!['\u{f02d}', ' ']),
        (seq!['d', 'o', 'c', 'u', 'm', 'e', 'n', 't'], seq!['\u{f02d}', ' ']),
        (seq!['M', 'u', 's', 'i', 'c'], seq!['\u{f001}', ' ']),
        (seq!['P', 'i', 'c', 't', 'u', 'r', 'e', 's'], seq!['\u{f03e}', ' ']),
        (seq!['V', 'i', 'd', 'e', 'o', 's'], seq!['\u{f03d}', ' ']),
        (seq!['h', 'o', 'm', 'e'], seq!['\u{f015}', ' ']),
        (seq!['e', 't', 'c'], seq!['\u{f013}', ' ']),
        (seq!['u', 's', 'r'], seq!['\u{f007}', ' ']),
        (seq!['v', 'a', 'r'], seq!['\u{f1b2}', ' ']),
        (seq!['p', 'r', 'o', 'c'], seq!['\u{f085}', ' ']),
        (seq!['d', 'e', 'v'], seq!['\u{e601}', ' ']),
        (seq!['m', 'n', 't'], seq!['\u{f0a0}', ' ']),
        (seq!['m', 'e', 'd', 'i', 'a'], seq!['\u{f0a0}', ' ']),
    ]
}

fn dir_icon_entries() -> (r: Vec<(Vec<char>, Vec<char>)>)
    ensures
        table_views(r@) == dir_icon_table(),
{
    let r: Vec<(Vec<char>, Vec<char>)> = vec![
        (vec!['.', 'g', 'i', 't'], vec!['\u{e702}', ' ']),
        (vec!['.', 'g', 'i', 't', 'h', 'u', 'b'], vec!['\u{e65b}', ' ']),
        (vec!['s', 'r', 'c'], vec!['\u{e5fe}', ' ']),
        (vec!['s', 'o', 'u', 'r', 'c', 'e'], vec!['\u{e5fe}', ' ']),
        (vec!['t', 'a', 'r', 'g', 'e', 't'], vec!['\u{e5fe}', ' ']),
        (vec!['b', 'u', 'i', 'l', 'd'], vec!['\u{e5fe}', ' ']),
        (vec!['d', 'i', 's', 't'], vec!['\u{e5fe}', ' ']),
        (vec!['o', 'u', 't'], vec!['\u{e5fe}', ' ']),
        (vec!['n', 'o', 'd', 'e', '_', 'm', 'o', 'd', 'u', 'l', 'e', 's'], vec!['\u{e74e}', ' ']),
        (vec!['p', 'u', 'b', 'l', 'i', 'c'], vec!['\u{f0c2}', ' ']),
        (vec!['s', 't', 'a', 't', 'i', 'c'], vec!['\u{f0c2}', ' ']),
        (vec!['a', 's', 's', 'e', 't', 's'], vec!['\u{f03e}', ' ']),
        (vec!['i', 'm', 'a', 'g', 'e', 's'], vec!['\u{f03e}', ' ']),
        (vec!['i', 'm', 'g'], vec!['\u{f03e}', ' ']),
        (vec!['d', 'o', 'c', 's'], vec!['\u{f02d}', ' ']),
        (vec!['d', 'o', 'c'], vec!['\u{f02d}', ' ']),
        (vec!['t', 'e', 's', 't'], vec!['\u{f0ae}', ' ']),
        (vec!['t', 'e', 's', 't', 's'], vec!['\u{f0ae}', ' ']),
        (vec!['s', 'p', 'e', 'c'], vec!['\u{f0ae}', ' ']),
        (vec!['c', 'o', 'n', 'f', 'i', 'g'], vec!['\u{e615}', ' ']),
        (vec!['.', 'c', 'o', 'n', 'f', 'i', 'g'], vec!['\u{e615}', ' ']),
        (vec!['b', 'i', 'n'], vec!['\u{e5fc}', ' ']),
        (vec!['l', 'i', 'b'], vec!['\u{f121}', ' ']),
        (vec!['s', 'c', 'r', 'i', 'p', 't', 's'], vec!['\u{f489}', ' ']),
        (vec!['s', 'c', 'r', 'i', 'p', 't'], vec!['\u{f489}', ' ']),
        (vec!['t', 'm', 'p'], vec!['\u{f07b}', ' ']),
        (vec!['t', 'e', 'm', 'p'], vec!['\u{f07b}', ' ']),
        (vec!['c', 'a', 'c', 'h', 'e'], vec!['\u{f07b}', ' ']),
        (vec!['l', 'o', 'g', 's'], vec!['\u{f18d}', ' ']),
        (vec!['l', 'o', 'g'], vec!['\u{f18d}', ' ']),
        (vec!['b', 'a', 'c', 'k', 'u', 'p'], vec!['\u{f0c7}', ' ']),
        (vec!['d', 'o', 'w', 'n', 'l', 'o', 'a', 'd', 's'], vec!['\u{f019}', ' ']),
        (vec!['D', 'o', 'w', 'n', 'l', 'o', 'a', 'd'], vec!['\u{f019}', ' ']),
        (vec!['D', 'e', 's', 'k', 't', 'o', 'p'], vec!['\u{f108}', ' ']),
        (vec!['D', 'o', 'c', 'u', 'm', 'e', 'n', 't', 's'], vec!['\u{f02d}', ' ']),
        (vec!['d', 'o', 'c', 'u', 'm', 'e', 'n', 't'], vec!['\u{f02d}', ' ']),
        (vec!['M', 'u', 's', 'i', 'c'], vec!['\u{f001}', ' ']),
        (vec!['P', 'i', 'c', 't', 'u', 'r', 'e', 's'], vec!['\u{f03e}', ' ']),
        (vec!['V', 'i', 'd', 'e', 'o', 's'], vec!['\u{f03d}', ' ']),
        (vec!['h', 'o', 'm', 'e'], vec!['\u{f015}', ' ']),
        (vec!['e', 't', 'c'], vec!['\u{f013}', ' ']),
        (vec!['u', 's', 'r'], vec!['\u{f007}', ' ']),
        (vec!['v', 'a', 'r'], vec!['\u{f1b2}', ' ']),
        (vec!['p', 'r', 'o', 'c'], vec!['\u{f085}', ' ']),
        (vec!['d', 'e', 'v'], vec!['\u{e601}', ' ']),
        (vec!['m', 'n', 't'], vec!['\u{f0a0}', ' ']),
        (vec!['m', 'e', 'd', 'i', 'a'], vec!['\u{f0a0}', ' ']),
    ];
    assert(table_views(r@) =~= dir_icon_table());
    r
}

/// Icons by file name, first match first.
pub open spec fn name_icon_table() -> Seq<(Seq<char>, Seq<char>)> {
    seq![
        (seq!['M', 'a', 'k', 'e', 'f', 'i', 'l', 'e'], seq!['\u{f013}', ' ']),
        (seq!['m', 'a', 'k', 'e', 'f', 'i', 'l', 'e'], seq!['\u{f013}', ' ']),
        (seq!['G', 'N', 'U', 'm', 'a', 'k', 'e', 'f', 'i', 'l', 'e'], seq!['\u{f013}', ' ']),
        (seq!['D', 'o', 'c', 'k', 'e', 'r', 'f', 'i', 'l', 'e'], seq!['\u{e650}', ' ']),
        (seq!['C', 'o', 'n', 't', 'a', 'i', 'n', 'e', 'r', 'f', 'i', 'l', 'e'], seq!['\u{e650}', ' ']),
        (seq!['d', 'o', 'c', 'k', 'e', 'r', '-', 'c', 'o', 'm', 'p', 'o', 's', 'e', '.', 'y', 'm', 'l'], seq!['\u{e650}', ' ']),
        (seq!['c', 'o', 'm', 'p', 'o', 's', 'e', '.', 'y', 'm', 'l'], seq!['\u{e650}', ' ']),
        (seq!['.', 'g', 'i', 't', 'i', 'g', 'n', 'o', 'r', 'e'], seq!['\u{e702}', ' ']),
        (seq!['.', 'g', 'i', 't', 'a', 't', 't', 'r', 'i', 'b', 'u', 't', 'e', 's'], seq!['\u{e702}', ' ']),
        (seq!['.', 'e', 'd', 'i', 't', 'o', 'r', 'c', 'o', 'n', 'f', 'i', 'g'], seq!['\u{e652}', ' ']),
        (seq!['L', 'I', 'C', 'E', 'N', 'S', 'E'], seq!['\u{f0e3}', ' ']),
        (seq!['L', 'I', 'C', 'E', 'N', 'C', 'E'], seq!['\u{f0e3}', ' ']),
        (seq!['R', 'E', 'A', 'D', 'M', 'E'], seq!['\u{f48a}', ' ']),
        (seq!['r', 'e', 'a', 'd', 'm', 'e'], seq!['\u{f48a}', ' ']),
        (seq!['C', 'a', 'r', 'g', 'o', '.', 't', 'o', 'm', 'l'], seq!['\u{e7a8}', ' ']),
        (seq!['C', 'a', 'r', 'g', 'o', '.', 'l', 'o', 'c', 'k'], seq!['\u{e7a8}', ' ']),
        (seq!['p', 'a', 'c', 'k', 'a', 'g', 'e', '.', 'j', 's', 'o', 'n'], seq!['\u{e74e}', ' ']),
        (seq!['p', 'a', 'c', 'k', 'a', 'g', 'e', '-', 'l', 'o', 'c', 'k', '.', 'j', 's', 'o', 'n'], seq!['\u{e74e}', ' ']),
        (seq!['g', 'o', '.', 'm', 'o', 'd'], seq!['\u{e626}', ' ']),
        (seq!['g', 'o', '.', 's', 'u', 'm'], seq!['\u{e626}', ' ']),
        (seq!['p', 'y', 'p', 'r', 'o', 'j', 'e', 'c', 't', '.', 't', 'o', 'm', 'l'], seq!['\u{e606}', ' ']),
        (seq!['s', 'e', 't', 'u', 'p', '.', 'p', 'y'], seq!['\u{e606}', ' ']),
        (seq!['.', 'b', 'a', 's', 'h', 'r', 'c'], seq!['\u{e691}', ' ']),
        (seq!['.', 'b', 'a', 's', 'h', '_', 'p', 'r', 'o', 'f', 'i', 'l', 'e'], seq!['\u{e691}', ' ']),
        (seq!['.', 'p', 'r', 'o', 'f', 'i', 'l', 'e'], seq!['\u{e691}', ' ']),
        (seq!['.', 'z', 's', 'h', 'r', 'c'], seq!['\u{e615}', ' ']),
        (seq!['.', 'z', 's', 'h', 'e', 'n', 'v'], seq!['\u{e615}', ' ']),
        (seq!['.', 'v', 'i', 'm', 'r', 'c'], seq!['\u{e62b}', ' ']),
        (seq!['i', 'n', 'i', 't', '.', 'v', 'i', 'm'], seq!['\u{e62b}', ' ']),
        (seq!['P', 'K', 'G', 'B', 'U', 'I', 'L', 'D'], seq!['\u{f303}', ' ']),
    ]
}

fn name_icon_entries() -> (r: Vec<(Vec<char>, Vec<char>)>)
    ensures
        table_views(r@) == name_icon_table(),
{
    let r: Vec<(Vec<char>, Vec<char>)> = vec![
        (vec!['M', 'a', 'k', 'e', 'f', 'i', 'l', 'e'], vec!['\u{f013}', ' ']),
        (vec!['m', 'a', 'k', 'e', 'f', 'i', 'l', 'e'], vec!['\u{f013}', ' ']),
        (vec!['G', 'N', 'U', 'm', 'a', 'k', 'e', 'f', 'i', 'l', 'e'], vec!['\u{f013}', ' ']),
        (vec!['D', 'o', 'c', 'k', 'e', 'r', 'f', 'i', 'l', 'e'], vec!['\u{e650}', ' ']),
        (vec!['C', 'o', 'n', 't', 'a', 'i', 'n', 'e', 'r', 'f', 'i', 'l', 'e'], vec!['\u{e650}', ' ']),
        (vec!['d', 'o', 'c', 'k', 'e', 'r', '-', 'c', 'o', 'm', 'p', 'o', 's', 'e', '.', 'y', 'm', 'l'], vec!['\u{e650}', ' ']),
        (vec!['c', 'o', 'm', 'p', 'o', 's', 'e', '.', 'y', 'm', 'l'], vec!['\u{e650}', ' ']),
        (vec!['.', 'g', 'i', 't', 'i', 'g', 'n', 'o', 'r', 'e'], vec!['\u{e702}', ' ']),
        (vec!['.', 'g', 'i', 't', 'a', 't', 't', 'r', 'i', 'b', 'u', 't', 'e', 's'], vec!['\u{e702}', ' ']),
        (vec!['.', 'e', 'd', 'i', 't', 'o', 'r', 'c', 'o', 'n', 'f', 'i', 'g'], vec!['\u{e652}', ' ']),
        (vec!['L', 'I', 'C', 'E', 'N', 'S', 'E'], vec!['\u{f0e3}', ' ']),
        (vec!['L', 'I', 'C', 'E', 'N', 'C', 'E'], vec!['\u{f0e3}', ' ']),
        (vec!['R', 'E', 'A', 'D', 'M', 'E'], vec!['\u{f48a}', ' ']),
        (vec!['r', 'e', 'a', 'd', 'm', 'e'], vec!['\u{f48a}', ' ']),
        (vec!['C', 'a', 'r', 'g', 'o', '.', 't', 'o', 'm', 'l'], vec!['\u{e7a8}', ' ']),
        (vec!['C', 'a', 'r', 'g', 'o', '.', 'l', 'o', 'c', 'k'], vec!['\u{e7a8}', ' ']),
        (vec!['p', 'a', 'c', 'k', 'a', 'g', 'e', '.', 'j', 's', 'o', 'n'], vec!['\u{e74e}', ' ']),
        (vec!['p', 'a', 'c', 'k', 'a', 'g', 'e', '-', 'l', 'o', 'c', 'k', '.', 'j', 's', 'o', 'n'], vec!['\u{e74e}', ' ']),
        (vec!['g', 'o', '.', 'm', 'o', 'd'], vec!['\u{e626}', ' ']),
        (vec!['g', 'o', '.', 's', 'u', 'm'], vec!['\u{e626}', ' ']),
        (vec!['p', 'y', 'p', 'r', 'o', 'j', 'e', 'c', 't', '.', 't', 'o', 'm', 'l'], vec!['\u{e606}', ' ']),
        (vec!['s', 'e', 't', 'u', 'p', '.', 'p', 'y'], vec!['\u{e606}', ' ']),
        (vec!['.', 'b', 'a', 's', 'h', 'r', 'c'], vec!['\u{e691}', ' ']),
        (vec!['.', 'b', 'a', 's', 'h', '_', 'p', 'r', 'o', 'f', 'i', 'l', 'e'], vec!['\u{e691}', ' ']),
        (vec!['.', 'p', 'r', 'o', 'f', 'i', 'l', 'e'], vec!['\u{e691}', ' ']),
        (vec!['.', 'z', 's', 'h', 'r', 'c'], vec!['\u{e615}', ' ']),
        (vec!['.', 'z', 's', 'h', 'e', 'n', 'v'], vec!['\u{e615}', ' ']),
        (vec!['.', 'v', 'i', 'm', 'r', 'c'], vec!['\u{e62b}', ' ']),
        (vec!['i', 'n', 'i', 't', '.', 'v', 'i', 'm'], vec!['\u{e62b}', ' ']),
        (vec!['P', 'K', 'G', 'B', 'U', 'I', 'L', 'D'], vec!['\u{f303}', ' ']),
    ];
    assert(table_views(r@) =~= name_icon_table());
    r
}

/// Colours of archives and media, by extension.
pub open spec fn archive_table() -> Seq<(Seq<char>, Seq<char>)> {
    seq![
        (seq!['z', 'i', 'p'], magenta()),
        (seq!['t', 'a', 'r'], magenta()),
        (seq!['g', 'z'], magenta()),
        (seq!['b', 'z', '2'], magenta()),
        (seq!['x', 'z'], magenta()),
        (seq!['z', 's', 't'], magenta()),
        (seq!['7', 'z'], magenta()),
        (seq!['r', 'a', 'r'], magenta()),
        (seq!['d', 'e', 'b'], magenta()),
        (seq!['r', 'p', 'm'], magenta()),
        (seq!['p', 'n', 'g'], light_blue()),
        (seq!['j', 'p', 'g'], light_blue()),
        (seq!['j', 'p', 'e', 'g'], light_blue()),
        (seq!['g', 'i', 'f'], light_blue()),
        (seq!['w', 'e', 'b', 'p'], light_blue()),
        (seq!['b', 'm', 'p'], light_blue()),
        (seq!['i', 'c', 'o'], light_blue()),
        (seq!['s', 'v', 'g'], light_blue()),
        (seq!['m', 'p', '3'], light_blue()),
        (seq!['f', 'l', 'a', 'c'], light_blue()),
        (seq!['o', 'g', 'g'], light_blue()),
        (seq!['w', 'a', 'v'], light_blue()),
        (seq!['m', 'p', '4'], light_blue()),
        (seq!['m', 'k', 'v'], light_blue()),
        (seq!['a', 'v', 'i'], light_blue()),
        (seq!['m', 'o', 'v'], light_blue()),
    ]
}

fn archive_entries() -> (r: Vec<(Vec<char>, Vec<char>)>)
    ensures
        table_views(r@) == archive_table(),
{
    let r: Vec<(Vec<char>, Vec<char>)> = vec![
        (vec!['z', 'i', 'p'], vec!['\x1b', '[', '0', ';', '3', '5', 'm']),
        (vec!['t', 'a', 'r'], vec!['\x1b', '[', '0', ';', '3', '5', 'm']),
        (vec!['g', 'z'], vec!['\x1b', '[', '0', ';', '3', '5', 'm']),
        (vec!['b', 'z', '2'], vec!['\x1b', '[', '0', ';', '3', '5', 'm']),
        (vec!['x', 'z'], vec!['\x1b', '[', '0', ';', '3', '5', 'm']),
        (vec!['z', 's', 't'], vec!['\x1b', '[', '0', ';', '3', '5', 'm']),
        (vec!['7', 'z'], vec!['\x1b', '[', '0', ';', '3', '5', 'm']),
        (vec!['r', 'a', 'r'], vec!['\x1b', '[', '0', ';', '3', '5', 'm']),
        (vec!['d', 'e', 'b'], vec!['\x1b', '[', '0', ';', '3', '5', 'm']),
        (vec!['r', 'p', 'm'], vec!['\x1b', '[', '0', ';', '3', '5', 'm']),
        (vec!['p', 'n', 'g'], vec!['\x1b', '[', '0', ';', '3', '4', 'm']),
        (vec!['j', 'p', 'g'], vec!['\x1b', '[', '0', ';', '3', '4', 'm']),
        (vec!['j', 'p', 'e', 'g'], vec!['\x1b', '[', '0', ';', '3', '4', 'm']),
        (vec!['g', 'i', 'f'], vec!['\x1b', '[', '0', ';', '3', '4', 'm']),
        (vec!['w', 'e', 'b', 'p'], vec!['\x1b', '[', '0', ';', '3', '4', 'm']),
        (vec!['b', 'm', 'p'], vec!['\x1b', '[', '0', ';', '3', '4', 'm']),
        (vec!['i', 'c', 'o'], vec!['\x1b', '[', '0', ';', '3', '4', 'm']),
        (vec!['s', 'v', 'g'], vec!['\x1b', '[', '0', ';', '3', '4', 'm']),
        (vec!['m', 'p', '3'], vec!['\x1b', '[', '0', ';', '3', '4', 'm']),
        (vec!['f', 'l', 'a', 'c'], vec!['\x1b', '[', '0', ';', '3', '4', 'm']),
        (vec!['o', 'g', 'g'], vec!['\x1b', '[', '0', ';', '3', '4', 'm']),
        (vec!['w', 'a', 'v'], vec!['\x1b', '[', '0', ';', '3', '4', 'm']),
        (vec!['m', 'p', '4'], vec!['\x1b', '[', '0', ';', '3', '4', 'm']),
        (vec!['m', 'k', 'v'], vec!['\x1b', '[', '0', ';', '3', '4', 'm']),
        (vec!['a', 'v', 'i'], vec!['\x1b', '[', '0', ';', '3', '4', 'm']),
        (vec!['m', 'o', 'v'], vec!['\x1b', '[', '0', ';', '3', '4', 'm']),
    ];
    assert(table_views(r@) =~= archive_table());
    r
}

} // verus!

verus! {

// ───────────────────────────── files ─────────────────────────────

/// What `ls` shows of one file, as the shell read it.
pub struct FileInfo {
    pub name: String,
    /// `st_mode` of the file itself (a link is not followed).
    pub mode: u32,
    pub is_dir: bool,
    pub is_link: bool,
    /// For a link whose target exists: the target's mode and whether it is a
    /// directory.
    pub target: Option<(u32, bool)>,
    pub nlink: u64,
    pub uid: u32,
    pub gid: u32,
    /// Allocated 512-byte blocks.
    pub blocks: u64,
    /// Modification time: whole seconds since the epoch (negative before it)
    /// and nanoseconds within that second.
    pub mtime_secs: i64,
    pub mtime_nanos: u32,
    /// The size column as shown.
    pub size_text: String,
    /// Where a link points, when that can be read.
    pub link_text: Option<String>,
}

/// Just past the last `c` of `w`, or 0.
pub open spec fn after_last(w: Seq<char>, c: char) -> int
    decreases w.len(),
{
    if w.len() == 0 {
        0
    } else if w.last() == c {
        w.len() as int
    } else {
        after_last(w.drop_last(), c)
    }
}

proof fn lemma_after_last(w: Seq<char>, c: char)
    ensures
        0 <= after_last(w, c) <= w.len(),
    decreases w.len(),
{
    if w.len() > 0 && w.last() != c {
        lemma_after_last(w.drop_last(), c);
    }
}

/// What follows the last `c` of `w` (all of `w` without one).
fn after_last_of(w: &Vec<char>, c: char) -> (r: Vec<char>)
    ensures
        r@ == w@.skip(after_last(w@, c)),
{
    let mut j = w.len();
    assert(w@.take(w@.len() as int) == w@);
    while j > 0 && w[j - 1] != c
        invariant
            j <= w@.len(),
            after_last(w@, c) == after_last(w@.take(j as int), c),
        decreases j,
    {
        assert(w@.take(j as int).drop_last() == w@.take(j - 1));
        j -= 1;
    }
    proof {
        if j > 0 {
            assert(w@.take(j as int).last() == w@[j - 1]);
        }
    }
    let r = crate::text::slice_of(w, j, w.len());
    assert(r@ =~= w@.skip(j as int));
    r
}

/// The extension `ls` goes by: what follows the last `.` (the whole name
/// without one), lower-cased.
pub open spec fn extension_of(name: Seq<char>) -> Seq<char> {
    lowercase_of(name.skip(after_last(name, '.')))
}

fn extension(name: &Vec<char>) -> (r: Vec<char>)
    ensures
        r@ == extension_of(name@),
{
    let e = string_of(&after_last_of(name, '.'));
    chars_of(to_lowercase(e.as_str()).as_str())
}

pub open spec fn executable_bits(mode: u32) -> bool {
    mode & 0o111u32 != 0
}

/// The icon of a directory, by its name.
pub open spec fn dir_icon_spec(name: Seq<char>) -> Seq<char> {
    match table_get(dir_icon_table(), name) {
        Some(i) => i,
        None => seq!['\u{f07b}', ' '],
    }
}

pub fn dir_icon(name: &Vec<char>) -> (r: Vec<char>)
    ensures
        r@ == dir_icon_spec(name@),
{
    match lookup(&dir_icon_entries(), name) {
        Some(i) => i,
        None => vec!['\u{f07b}', ' '],
    }
}

/// The icon of a file no extension decides: a terminal for executables,
/// else by well-known names.
pub open spec fn fallback_icon_spec(name: Seq<char>, mode: u32, is_dir: bool) -> Seq<char> {
    if executable_bits(mode) && !is_dir {
        seq!['\u{f489}', ' ']
    } else {
        match table_get(name_icon_table(), name) {
            Some(i) => i,
            None => seq!['\u{f15b}', ' '],
        }
    }
}

pub fn file_icon_fallback(name: &Vec<char>, mode: u32, is_dir: bool) -> (r: Vec<char>)
    ensures
        r@ == fallback_icon_spec(name@, mode, is_dir),
{
    if mode & 0o111u32 != 0 && !is_dir {
        return vec!['\u{f489}', ' '];
    }
    match lookup(&name_icon_entries(), name) {
        Some(i) => i,
        None => vec!['\u{f15b}', ' '],
    }
}

/// The icon of a file: a link, a directory by name, else by extension, else
/// the fallback.
pub open spec fn icon_spec(f: FileInfo) -> Seq<char> {
    if f.is_link {
        seq!['\u{f0c1}', ' ']
    } else if f.is_dir {
        dir_icon_spec(f.name@)
    } else {
        match table_get(ext_icon_table(), extension_of(f.name@)) {
            Some(i) => i,
            None => fallback_icon_spec(f.name@, f.mode, f.is_dir),
        }
    }
}

pub fn icon_for(f: &FileInfo) -> (r: Vec<char>)
    ensures
        r@ == icon_spec(*f),
{
    if f.is_link {
        return vec!['\u{f0c1}', ' '];
    }
    let name = chars_of(f.name.as_str());
    if f.is_dir {
        return dir_icon(&name);
    }
    match lookup(&ext_icon_entries(), &extension(&name)) {
        Some(i) => i,
        None => file_icon_fallback(&name, f.mode, f.is_dir),
    }
}

// ───────────────────────────── colours ─────────────────────────────

pub open spec fn red() -> Seq<char> { seq!['\x1b', '[', '1', ';', '3', '1', 'm'] }
pub open spec fn cyan() -> Seq<char> { seq!['\x1b', '[', '1', ';', '3', '6', 'm'] }
pub open spec fn blue() -> Seq<char> { seq!['\x1b', '[', '1', ';', '3', '4', 'm'] }
pub open spec fn green() -> Seq<char> { seq!['\x1b', '[', '1', ';', '3', '2', 'm'] }
pub open spec fn yellow() -> Seq<char> { seq!['\x1b', '[', '0', ';', '3', '3', 'm'] }
pub open spec fn white() -> Seq<char> { seq!['\x1b', '[', '0', ';', '3', '7', 'm'] }
pub open spec fn reset() -> Seq<char> { seq!['\x1b', '[', '0', 'm'] }
pub open spec fn dim() -> Seq<char> { seq!['\x1b', '[', '2', 'm'] }
pub open spec fn bold() -> Seq<char> { seq!['\x1b', '[', '1', 'm'] }

/// The colour of a file by its kind: a broken link red, a link cyan, a
/// directory blue, an executable green, a device yellow, else white.
pub open spec fn color_spec(mode: u32, is_dir: bool, is_link: bool, link_ok: bool) -> Seq<char> {
    if is_link && !link_ok {
        red()
    } else if is_link {
        cyan()
    } else if is_dir {
        blue()
    } else if executable_bits(mode) {
        green()
    } else if mode & 0o170000u32 == 0o060000u32 || mode & 0o170000u32 == 0o020000u32 {
        yellow()
    } else {
        white()
    }
}

pub fn color_for(mode: u32, is_dir: bool, is_link: bool, link_ok: bool) -> (r: Vec<char>)
    ensures
        r@ == color_spec(mode, is_dir, is_link, link_ok),
{
    if is_link && !link_ok {
        return vec!['\x1b', '[', '1', ';', '3', '1', 'm'];
    }
    if is_link {
        return vec!['\x1b', '[', '1', ';', '3', '6', 'm'];
    }
    if is_dir {
        return vec!['\x1b', '[', '1', ';', '3', '4', 'm'];
    }
    if mode & 0o111u32 != 0 {
        return vec!['\x1b', '[', '1', ';', '3', '2', 'm'];
    }
    let ftype = mode & 0o170000u32;
    if ftype == 0o060000u32 || ftype == 0o020000u32 {
        return vec!['\x1b', '[', '0', ';', '3', '3', 'm'];
    }
    vec!['\x1b', '[', '0', ';', '3', '7', 'm']
}

/// Archives magenta and media light blue, by extension.
pub open spec fn archive_color_spec(name: Seq<char>) -> Option<Seq<char>> {
    table_get(archive_table(), extension_of(name))
}

pub fn archive_color(name: &Vec<char>) -> (r: Option<Vec<char>>)
    ensures
        match r {
            Some(c) => archive_color_spec(name@) == Some(c@),
            None => archive_color_spec(name@) is None,
        },
{
    lookup(&archive_entries(), &extension(name))
}

/// The colour a file is listed in: by extension for archives and media,
/// else by kind, for a link by its target's kind.
pub open spec fn entry_color_spec(f: FileInfo) -> Seq<char> {
    match archive_color_spec(f.name@) {
        Some(c) => c,
        None => match f.target {
            Some((m, d)) => color_spec(m, d, f.is_link, true),
            None => color_spec(f.mode, f.is_dir, f.is_link, false),
        },
    }
}

pub fn entry_color(f: &FileInfo) -> (r: Vec<char>)
    ensures
        r@ == entry_color_spec(*f),
{
    match archive_color(&chars_of(f.name.as_str())) {
        Some(c) => c,
        None => match f.target {
            Some((m, d)) => color_for(m, d, f.is_link, true),
            None => color_for(f.mode, f.is_dir, f.is_link, false),
        },
    }
}

// ───────────────────────────── permissions ─────────────────────────────

pub open spec fn perm_char(mode: u32, bit: u32, c: char) -> char {
    if mode & bit != 0 {
        c
    } else {
        '-'
    }
}

/// The kind letter: `l`ink, `d`irectory, `s`ocket, `b`lock or `c`haracter
/// device, `p`ipe, `-` for a regular file.
pub open spec fn kind_char(mode: u32, is_dir: bool, is_link: bool) -> char {
    if is_link {
        'l'
    } else if is_dir {
        'd'
    } else if mode & 0o170000u32 == 0o140000u32 {
        's'
    } else if mode & 0o170000u32 == 0o060000u32 {
        'b'
    } else if mode & 0o170000u32 == 0o020000u32 {
        'c'
    } else if mode & 0o170000u32 == 0o010000u32 {
        'p'
    } else {
        '-'
    }
}

/// `drwxr-xr-x`: the kind, then read, write and execute for owner, group
/// and others.
pub open spec fn perms_spec(mode: u32, is_dir: bool, is_link: bool) -> Seq<char> {
    seq![
        kind_char(mode, is_dir, is_link),
        perm_char(mode, 0o400u32, 'r'),
        perm_char(mode, 0o200u32, 'w'),
        perm_char(mode, 0o100u32, 'x'),
        perm_char(mode, 0o040u32, 'r'),
        perm_char(mode, 0o020u32, 'w'),
        perm_char(mode, 0o010u32, 'x'),
        perm_char(mode, 0o004u32, 'r'),
        perm_char(mode, 0o002u32, 'w'),
        perm_char(mode, 0o001u32, 'x'),
    ]
}

fn perm(mode: u32, bit: u32, c: char) -> (r: char)
    ensures
        r == perm_char(mode, bit, c),
{
    if mode & bit != 0 {
        c
    } else {
        '-'
    }
}

pub fn fmt_perms(mode: u32, is_dir: bool, is_link: bool) -> (r: Vec<char>)
    ensures
        r@ == perms_spec(mode, is_dir, is_link),
{
    let ft = mode & 0o170000u32;
    let kind = if is_link {
        'l'
    } else if is_dir {
        'd'
    } else if ft == 0o140000u32 {
        's'
    } else if ft == 0o060000u32 {
        'b'
    } else if ft == 0o020000u32 {
        'c'
    } else if ft == 0o010000u32 {
        'p'
    } else {
        '-'
    };
    let r = vec![
        kind,
        perm(mode, 0o400u32, 'r'),
        perm(mode, 0o200u32, 'w'),
        perm(mode, 0o100u32, 'x'),
        perm(mode, 0o040u32, 'r'),
        perm(mode, 0o020u32, 'w'),
        perm(mode, 0o010u32, 'x'),
        perm(mode, 0o004u32, 'r'),
        perm(mode, 0o002u32, 'w'),
        perm(mode, 0o001u32, 'x'),
    ];
    assert(r@ =~= perms_spec(mode, is_dir, is_link));
    r
}

} // verus!

verus! {

// ───────────────────────────── dates ─────────────────────────────

pub open spec fn is_leap(y: nat) -> bool {
    (y % 4 == 0 && y % 100 != 0) || y % 400 == 0
}

pub open spec fn year_len(y: nat) -> nat {
    if is_leap(y) { 366 } else { 365 }
}

/// The year that day `days` (counted from the first day of year `y`) falls
/// in, and the day within that year.
pub open spec fn year_of(days: nat, y: nat) -> (nat, nat)
    decreases days,
{
    if days < year_len(y) {
        (y, days)
    } else {
        year_of((days - year_len(y)) as nat, y + 1)
    }
}

pub open spec fn month_len(m: nat, leap: bool) -> nat {
    if m == 2 {
        if leap { 29 } else { 28 }
    } else if m == 4 || m == 6 || m == 9 || m == 11 {
        30
    } else {
        31
    }
}

/// The month that day `days` (counted from the first day of month `m`)
/// falls in, and the day within that month.
pub open spec fn month_of(days: nat, m: nat, leap: bool) -> (nat, nat)
    decreases 13 - m,
{
    if m > 12 || days < month_len(m, leap) {
        (m, days)
    } else {
        month_of((days - month_len(m, leap)) as nat, m + 1, leap)
    }
}

/// Year, month, day, hour and minute (UTC) of a time in seconds since the
/// epoch.
pub open spec fn ymd_spec(secs: nat) -> (nat, nat, nat, nat, nat) {
    let (y, d) = year_of(secs / 86400, 1970);
    let (m, dm) = month_of(d, 1, is_leap(y));
    (y, m, dm + 1, (secs / 3600) % 24, (secs / 60) % 60)
}

pub fn secs_to_ymd(secs: u64) -> (r: (u64, u64, u64, u64, u64))
    ensures
        (r.0 as nat, r.1 as nat, r.2 as nat, r.3 as nat, r.4 as nat) == ymd_spec(secs as nat),
{
    let mi = (secs / 60) % 60;
    let h = (secs / 3600) % 24;
    let mut days = secs / 86400;
    let ghost days0 = days;
    let mut y: u64 = 1970;
    loop
        invariant
            year_of(days0 as nat, 1970) == year_of(days as nat, y as nat),
            days0 == secs / 86400,
            y <= 1970 + (days0 - days),
            days <= days0,
        ensures
            year_of(days0 as nat, 1970) == year_of(days as nat, y as nat),
            days < year_len(y as nat),
            days < 366,
        decreases days,
    {
        let leap = (y % 4 == 0 && y % 100 != 0) || y % 400 == 0;
        let dy: u64 = if leap { 366 } else { 365 };
        if days < dy {
            break;
        }
        days = days - dy;
        y = y + 1;
    }
    let leap = (y % 4 == 0 && y % 100 != 0) || y % 400 == 0;
    assert(year_of(days0 as nat, 1970) == (y as nat, days as nat));
    let months: Vec<u64> = vec![31, if leap { 29 } else { 28 }, 31, 30, 31, 30, 31, 31, 30, 31, 30, 31];
    let mut mo: u64 = 1;
    let mut k: usize = 0;
    let ghost d0 = days;
    while k < 12
        invariant
            k <= 12,
            mo == k + 1,
            months@.len() == 12,
            forall|j: int| 0 <= j < 12 ==> #[trigger] months@[j] == month_len((j + 1) as nat, leap),
            month_of(d0 as nat, 1, leap) == month_of(days as nat, mo as nat, leap),
            days <= d0,
            d0 < 366,
        ensures
            month_of(d0 as nat, 1, leap) == (mo as nat, days as nat),
            days < 366,
        decreases 12 - k,
    {
        let dm = months[k];
        if days < dm {
            break;
        }
        days = days - dm;
        mo = mo + 1;
        k += 1;
    }
    (y, mo, days + 1, h, mi)
}

/// `YYYY-MM-DD HH:MM`, each number zero-padded.
pub open spec fn time_text(secs: nat) -> Seq<char> {
    let (y, m, d, h, mi) = ymd_spec(secs);
    crate::text::pad_left(crate::text::decimal(y), 4, '0') + seq!['-'] + crate::text::pad_left(crate::text::decimal(m), 2, '0')
        + seq!['-'] + crate::text::pad_left(crate::text::decimal(d), 2, '0') + seq![' '] + crate::text::pad_left(
        crate::text::decimal(h),
        2,
        '0',
    ) + seq![':'] + crate::text::pad_left(crate::text::decimal(mi), 2, '0')
}

/// The time as `ls -l` shows it; times before the epoch count as the epoch.
pub open spec fn mtime_text(secs: i64) -> Seq<char> {
    time_text(if secs < 0 { 0 } else { secs as nat })
}

pub fn fmt_time(secs: i64) -> (r: Vec<char>)
    ensures
        r@ == mtime_text(secs),
{
    let s: u64 = if secs < 0 { 0 } else { secs as u64 };
    let (y, m, d, h, mi) = secs_to_ymd(s);
    let mut out = crate::text::pad_left_chars(&crate::text::decimal_chars(y), 4, '0');
    out.push('-');
    out.extend_from_slice(&crate::text::pad_left_chars(&crate::text::decimal_chars(m), 2, '0'));
    out.push('-');
    out.extend_from_slice(&crate::text::pad_left_chars(&crate::text::decimal_chars(d), 2, '0'));
    out.push(' ');
    out.extend_from_slice(&crate::text::pad_left_chars(&crate::text::decimal_chars(h), 2, '0'));
    out.push(':');
    out.extend_from_slice(&crate::text::pad_left_chars(&crate::text::decimal_chars(mi), 2, '0'));
    out
}

} // verus!

verus! {

// ───────────────────────────── options ─────────────────────────────

/// The options of one `ls` call.
pub struct LsOptions {
    /// `-l`
    pub long: bool,
    /// `-a`
    pub all: bool,
    /// `-h`
    pub human: bool,
    /// `-1`
    pub one: bool,
    /// `-r`
    pub reverse: bool,
    /// `-t`
    pub sort_time: bool,
    /// `-d`
    pub dir_only: bool,
    /// On unless `--no-icons`.
    pub icons: bool,
    /// The operands, `.` when none.
    pub paths: Vec<String>,
}

/// The options as values.
pub struct LsModel {
    pub long: bool,
    pub all: bool,
    pub human: bool,
    pub one: bool,
    pub reverse: bool,
    pub sort_time: bool,
    pub dir_only: bool,
    pub icons: bool,
    pub paths: Seq<Seq<char>>,
}

pub open spec fn strings_view(v: Seq<String>) -> Seq<Seq<char>> {
    v.map_values(|s: String| s@)
}

impl LsOptions {
    pub open spec fn model(self) -> LsModel {
        LsModel {
            long: self.long,
            all: self.all,
            human: self.human,
            one: self.one,
            reverse: self.reverse,
            sort_time: self.sort_time,
            dir_only: self.dir_only,
            icons: self.icons,
            paths: strings_view(self.paths@),
        }
    }
}

pub open spec fn initial_model() -> LsModel {
    LsModel {
        long: false,
        all: false,
        human: false,
        one: false,
        reverse: false,
        sort_time: false,
        dir_only: false,
        icons: true,
        paths: Seq::empty(),
    }
}

/// One letter of a flag group.
pub open spec fn apply_letter(m: LsModel, c: char) -> LsModel {
    if c == 'l' {
        LsModel { long: true, ..m }
    } else if c == 'a' {
        LsModel { all: true, ..m }
    } else if c == 'h' {
        LsModel { human: true, ..m }
    } else if c == '1' {
        LsModel { one: true, ..m }
    } else if c == 'r' {
        LsModel { reverse: true, ..m }
    } else if c == 't' {
        LsModel { sort_time: true, ..m }
    } else if c == 'd' {
        LsModel { dir_only: true, ..m }
    } else {
        m
    }
}

pub open spec fn is_ls_letter(c: char) -> bool {
    c == 'l' || c == 'a' || c == 'h' || c == '1' || c == 'r' || c == 't' || c == 'd'
}

pub open spec fn apply_letters(m: LsModel, cs: Seq<char>) -> LsModel
    decreases cs.len(),
{
    if cs.len() == 0 {
        m
    } else {
        apply_letter(apply_letters(m, cs.drop_last()), cs.last())
    }
}

pub open spec fn no_icons_word() -> Seq<char> {
    seq!['-', '-', 'n', 'o', '-', 'i', 'c', 'o', 'n', 's']
}

pub open spec fn icons_word() -> Seq<char> {
    seq!['-', '-', 'i', 'c', 'o', 'n', 's']
}

/// A flag group: starts with one `-`, not two.
pub open spec fn is_flag_group(a: Seq<char>) -> bool {
    starts_with(a, seq!['-']) && !starts_with(a, seq!['-', '-'])
}

pub open spec fn apply_arg(m: LsModel, a: Seq<char>) -> LsModel {
    if a == no_icons_word() {
        LsModel { icons: false, ..m }
    } else if a == icons_word() {
        LsModel { icons: true, ..m }
    } else if is_flag_group(a) {
        apply_letters(m, a.drop_first())
    } else {
        LsModel { paths: m.paths.push(a), ..m }
    }
}

pub open spec fn apply_args(args: Seq<Seq<char>>) -> LsModel
    decreases args.len(),
{
    if args.len() == 0 {
        initial_model()
    } else {
        apply_arg(apply_args(args.drop_last()), args.last())
    }
}

/// The options that the arguments give; `.` when no path is named.
pub open spec fn parse_spec(args: Seq<Seq<char>>) -> LsModel {
    let m = apply_args(args);
    if m.paths.len() == 0 {
        LsModel { paths: seq![seq!['.']], ..m }
    } else {
        m
    }
}

/// The switch of the options that the flag letter `c` turns on.
pub open spec fn switch_of(m: LsModel, c: char) -> bool {
    if c == 'l' {
        m.long
    } else if c == 'a' {
        m.all
    } else if c == 'h' {
        m.human
    } else if c == '1' {
        m.one
    } else if c == 'r' {
        m.reverse
    } else if c == 't' {
        m.sort_time
    } else {
        m.dir_only
    }
}

/// Some argument is a flag group (one leading `-`, not two) holding `c`.
pub open spec fn letter_given(args: Seq<Seq<char>>, c: char) -> bool {
    exists|i: int| 0 <= i < args.len() && is_flag_group(#[trigger] args[i]) && args[i].drop_first().contains(c)
}

proof fn lemma_letter_switch(m: LsModel, d: char, c: char)
    requires
        is_ls_letter(c),
    ensures
        switch_of(apply_letter(m, d), c) == (switch_of(m, c) || d == c),
{
}

proof fn lemma_letters_switch(m: LsModel, cs: Seq<char>, c: char)
    requires
        is_ls_letter(c),
    ensures
        switch_of(apply_letters(m, cs), c) == (switch_of(m, c) || cs.contains(c)),
    decreases cs.len(),
{
    if cs.len() > 0 {
        lemma_letters_switch(m, cs.drop_last(), c);
        lemma_letter_switch(apply_letters(m, cs.drop_last()), cs.last(), c);
        if cs.drop_last().contains(c) {
            let k = choose|k: int| 0 <= k < cs.drop_last().len() && cs.drop_last()[k] == c;
            assert(cs[k] == c);
        }
        if cs.contains(c) && cs.last() != c {
            let k = choose|k: int| 0 <= k < cs.len() && cs[k] == c;
            assert(cs.drop_last()[k] == c);
        }
        if cs.last() == c {
            assert(cs[cs.len() - 1] == c);
        }
    }
}

proof fn lemma_args_switch(args: Seq<Seq<char>>, c: char)
    requires
        is_ls_letter(c),
    ensures
        switch_of(apply_args(args), c) == letter_given(args, c),
    decreases args.len(),
{
    if args.len() > 0 {
        let t = args.drop_last();
        let a = args.last();
        lemma_args_switch(t, c);
        let m = apply_args(t);
        assert(no_icons_word()[1] == '-' && icons_word()[1] == '-');
        if is_flag_group(a) {
            assert(a != no_icons_word()) by {
                assert(no_icons_word().take(2) =~= seq!['-', '-']);
            }
            assert(a != icons_word()) by {
                assert(icons_word().take(2) =~= seq!['-', '-']);
            }
            lemma_letters_switch(m, a.drop_first(), c);
        }
        if letter_given(t, c) {
            let i = choose|i: int| 0 <= i < t.len() && is_flag_group(#[trigger] t[i]) && t[i].drop_first().contains(c);
            assert(args[i] == t[i]);
        }
        if letter_given(args, c) {
            let i = choose|i: int| 0 <= i < args.len() && is_flag_group(#[trigger] args[i]) && args[i].drop_first().contains(c);
            if i < t.len() {
                assert(t[i] == args[i]);
            }
        }
        if is_flag_group(a) && a.drop_first().contains(c) {
            assert(is_flag_group(args[args.len() - 1]));
        }
    }
}

/// The switches of `ls`: each of `-l`, `-a`, `-h`, `-1`, `-r`, `-t`, `-d` is
/// on exactly when some argument is a flag group (one leading `-`, not two)
/// holding its letter, alone or among others (`-lh` turns on both long and
/// human-readable listing).
pub proof fn lemma_ls_switches(args: Seq<Seq<char>>)
    ensures
        parse_spec(args).long == letter_given(args, 'l'),
        parse_spec(args).all == letter_given(args, 'a'),
        parse_spec(args).human == letter_given(args, 'h'),
        parse_spec(args).one == letter_given(args, '1'),
        parse_spec(args).reverse == letter_given(args, 'r'),
        parse_spec(args).sort_time == letter_given(args, 't'),
        parse_spec(args).dir_only == letter_given(args, 'd'),
{
    lemma_args_switch(args, 'l');
    lemma_args_switch(args, 'a');
    lemma_args_switch(args, 'h');
    lemma_args_switch(args, '1');
    lemma_args_switch(args, 'r');
    lemma_args_switch(args, 't');
    lemma_args_switch(args, 'd');
}

/// The letters of `cs` that are no `ls` option.
pub open spec fn unknown_in(cs: Seq<char>) -> Seq<char>
    decreases cs.len(),
{
    if cs.len() == 0 {
        Seq::empty()
    } else if is_ls_letter(cs.last()) {
        unknown_in(cs.drop_last())
    } else {
        unknown_in(cs.drop_last()).push(cs.last())
    }
}

/// The letters of flag groups that `ls` does not know, in order.
pub open spec fn unknown_letters(args: Seq<Seq<char>>) -> Seq<char>
    decreases args.len(),
{
    if args.len() == 0 {
        Seq::empty()
    } else {
        let a = args.last();
        unknown_letters(args.drop_last()) + if a != no_icons_word() && a != icons_word() && is_flag_group(a) {
            unknown_in(a.drop_first())
        } else {
            Seq::empty()
        }
    }
}

fn flag_group(a: &Vec<char>) -> (r: bool)
    ensures
        r == is_flag_group(a@),
{
    let d1: Vec<char> = vec!['-'];
    let d2: Vec<char> = vec!['-', '-'];
    assert(d1@ == seq!['-'] && d2@ == seq!['-', '-']);
    has_prefix(a, &d1) && !has_prefix(a, &d2)
}

impl LsOptions {
    /// Reads the options and operands of `ls`.
    pub fn parse(args: &Vec<String>) -> (r: LsOptions)
        ensures
            r.model() == parse_spec(strings_view(args@)),
    {
        let mut o = LsOptions {
            long: false,
            all: false,
            human: false,
            one: false,
            reverse: false,
            sort_time: false,
            dir_only: false,
            icons: true,
            paths: Vec::new(),
        };
        let ghost av = strings_view(args@);
        let mut i: usize = 0;
        assert(strings_view(o.paths@) =~= Seq::<Seq<char>>::empty());
        assert(av.take(0) =~= Seq::<Seq<char>>::empty());
        while i < args.len()
            invariant
                i <= args@.len(),
                av == strings_view(args@),
                o.model() == apply_args(av.take(i as int)),
            decreases args@.len() - i,
        {
            let a = chars_of(args[i].as_str());
            let ghost t = av.take(i + 1);
            assert(t.drop_last() == av.take(i as int));
            assert(t.last() == a@);
            if chars_eq(&a, &['-', '-', 'n', 'o', '-', 'i', 'c', 'o', 'n', 's']) {
                o.icons = false;
            } else if chars_eq(&a, &['-', '-', 'i', 'c', 'o', 'n', 's']) {
                o.icons = true;
            } else if flag_group(&a) {
                let ghost m0 = o.model();
                let mut j: usize = 1;
                assert(a@.drop_first().take(0) =~= Seq::<char>::empty());
                while j < a.len()
                    invariant
                        1 <= j <= a@.len(),
                        o.model() == apply_letters(m0, a@.drop_first().take(j - 1)),
                    decreases a@.len() - j,
                {
                    let c = a[j];
                    let ghost cs = a@.drop_first().take(j as int);
                    assert(cs.drop_last() == a@.drop_first().take(j - 1));
                    assert(cs.last() == c);
                    if c == 'l' {
                        o.long = true;
                    } else if c == 'a' {
                        o.all = true;
                    } else if c == 'h' {
                        o.human = true;
                    } else if c == '1' {
                        o.one = true;
                    } else if c == 'r' {
                        o.reverse = true;
                    } else if c == 't' {
                        o.sort_time = true;
                    } else if c == 'd' {
                        o.dir_only = true;
                    }
                    j += 1;
                }
                assert(a@.drop_first().take(a@.len() - 1) == a@.drop_first());
            } else {
                let ghost p0 = o.paths@;
                o.paths.push(args[i].clone());
                assert(strings_view(o.paths@) =~= strings_view(p0).push(a@));
            }
            i += 1;
        }
        assert(av.take(args@.len() as int) == av);
        if o.paths.len() == 0 {
            o.paths.push(string_of(&single('.')));
            assert(strings_view(o.paths@) =~= seq![seq!['.']]);
        }
        o
    }
}

/// The letters of flag groups that `ls` does not know (each is reported).
pub fn unknown_options(args: &Vec<String>) -> (r: Vec<char>)
    ensures
        r@ == unknown_letters(strings_view(args@)),
{
    let ghost av = strings_view(args@);
    let mut out: Vec<char> = Vec::new();
    let mut i: usize = 0;
    assert(av.take(0) =~= Seq::<Seq<char>>::empty());
    while i < args.len()
        invariant
            i <= args@.len(),
            av == strings_view(args@),
            out@ == unknown_letters(av.take(i as int)),
        decreases args@.len() - i,
    {
        let a = chars_of(args[i].as_str());
        let ghost t = av.take(i + 1);
        assert(t.drop_last() == av.take(i as int));
        assert(t.last() == a@);
        let ghost before = out@;
        if !chars_eq(&a, &['-', '-', 'n', 'o', '-', 'i', 'c', 'o', 'n', 's']) && !chars_eq(&a, &['-', '-', 'i', 'c', 'o', 'n', 's'])
            && flag_group(&a) {
            let mut j: usize = 1;
            assert(unknown_in(a@.drop_first().take(0)) =~= Seq::<char>::empty());
            while j < a.len()
                invariant
                    1 <= j <= a@.len(),
                    out@ == before + unknown_in(a@.drop_first().take(j - 1)),
                decreases a@.len() - j,
            {
                let c = a[j];
                let ghost cs = a@.drop_first().take(j as int);
                assert(cs.drop_last() == a@.drop_first().take(j - 1));
                assert(cs.last() == c);
                if !(c == 'l' || c == 'a' || c == 'h' || c == '1' || c == 'r' || c == 't' || c == 'd') {
                    out.push(c);
                }
                j += 1;
            }
            assert(a@.drop_first().take(a@.len() - 1) == a@.drop_first());
        } else {
            assert(out@ == before + Seq::<char>::empty());
        }
        i += 1;
    }
    assert(av.take(args@.len() as int) == av);
    out
}

} // verus!

verus! {

// ───────────────────────────── order ─────────────────────────────

/// `a` was modified before `b`.
pub open spec fn older(a: FileInfo, b: FileInfo) -> bool {
    a.mtime_secs < b.mtime_secs || (a.mtime_secs == b.mtime_secs && a.mtime_nanos < b.mtime_nanos)
}

/// The listing order: newest first with `-t`, else directories first and
/// then by lower-cased name; `-r` turns the order round.
pub open spec fn base_less(a: FileInfo, b: FileInfo, sort_time: bool) -> bool {
    if sort_time {
        older(b, a)
    } else {
        (a.is_dir && !b.is_dir) || (a.is_dir == b.is_dir && crate::ui::completion::seq_less(
            lowercase_of(a.name@),
            lowercase_of(b.name@),
        ))
    }
}

pub open spec fn file_less(a: FileInfo, b: FileInfo, sort_time: bool, reverse: bool) -> bool {
    if reverse {
        base_less(b, a, sort_time)
    } else {
        base_less(a, b, sort_time)
    }
}

pub open spec fn insert_file(s: Seq<FileInfo>, x: FileInfo, st: bool, rev: bool) -> Seq<FileInfo>
    decreases s.len(),
{
    if s.len() == 0 {
        seq![x]
    } else if file_less(x, s[0], st, rev) {
        seq![x] + s
    } else {
        seq![s[0]] + insert_file(s.drop_first(), x, st, rev)
    }
}

/// The stable sort of the files by the listing order (`slice::sort_by`).
pub open spec fn sort_files_spec(s: Seq<FileInfo>, st: bool, rev: bool) -> Seq<FileInfo>
    decreases s.len(),
{
    if s.len() == 0 {
        Seq::empty()
    } else {
        insert_file(sort_files_spec(s.drop_last(), st, rev), s.last(), st, rev)
    }
}

proof fn lemma_insert_file_at(s: Seq<FileInfo>, x: FileInfo, st: bool, rev: bool, p: int)
    requires
        0 <= p <= s.len(),
        forall|k: int| 0 <= k < p ==> !file_less(x, #[trigger] s[k], st, rev),
        p < s.len() ==> file_less(x, s[p], st, rev),
    ensures
        insert_file(s, x, st, rev) == s.take(p) + seq![x] + s.skip(p),
    decreases s.len(),
{
    if s.len() == 0 {
        assert(s.take(p) + seq![x] + s.skip(p) =~= seq![x]);
    } else if p == 0 {
        assert(s.take(0) + seq![x] + s.skip(0) =~= seq![x] + s);
    } else {
        assert forall|k: int| 0 <= k < p - 1 implies !file_less(x, #[trigger] s.drop_first()[k], st, rev) by {
            assert(s.drop_first()[k] == s[k + 1]);
        }
        if p - 1 < s.drop_first().len() {
            assert(s.drop_first()[p - 1] == s[p]);
        }
        lemma_insert_file_at(s.drop_first(), x, st, rev, p - 1);
        assert(seq![s[0]] + (s.drop_first().take(p - 1) + seq![x] + s.drop_first().skip(p - 1)) =~= s.take(p) + seq![x] + s.skip(p));
    }
}

fn name_key(f: &FileInfo) -> (r: Vec<char>)
    ensures
        r@ == lowercase_of(f.name@),
{
    chars_of(to_lowercase(f.name.as_str()).as_str())
}

fn less_files(a: &FileInfo, b: &FileInfo, st: bool, rev: bool) -> (r: bool)
    ensures
        r == file_less(*a, *b, st, rev),
{
    let (x, y) = if rev { (b, a) } else { (a, b) };
    if st {
        y.mtime_secs < x.mtime_secs || (y.mtime_secs == x.mtime_secs && y.mtime_nanos < x.mtime_nanos)
    } else {
        (x.is_dir && !y.is_dir) || (x.is_dir == y.is_dir && crate::ui::completion::str_less(&name_key(x), &name_key(y)))
    }
}

/// Sorts the files into listing order.
pub fn sort_entries(files: Vec<FileInfo>, opt: &LsOptions) -> (r: Vec<FileInfo>)
    ensures
        r@ == sort_files_spec(files@, opt.sort_time, opt.reverse),
{
    let ghost all = files@;
    let st = opt.sort_time;
    let rev = opt.reverse;
    let mut src = files;
    let mut out: Vec<FileInfo> = Vec::new();
    let ghost mut i: int = 0;
    assert(all.take(0) =~= Seq::<FileInfo>::empty());
    assert(all.skip(0) =~= all);
    while src.len() > 0
        invariant
            0 <= i <= all.len(),
            src@ == all.skip(i),
            out@ == sort_files_spec(all.take(i), st, rev),
        decreases src@.len(),
    {
        let x = src.remove(0);
        assert(x == all[i]);
        let mut p: usize = 0;
        while p < out.len() && !less_files(&x, &out[p], st, rev)
            invariant
                p <= out@.len(),
                forall|k: int| 0 <= k < p ==> !file_less(x, #[trigger] out@[k], st, rev),
            decreases out@.len() - p,
        {
            p += 1;
        }
        proof {
            lemma_insert_file_at(out@, x, st, rev, p as int);
            let t = all.take(i + 1);
            assert(t.drop_last() == all.take(i));
            assert(t.last() == x);
        }
        let ghost before = out@;
        out.insert(p, x);
        assert(out@ =~= before.take(p as int) + seq![x] + before.skip(p as int));
        proof {
            assert(all.skip(i).drop_first() == all.skip(i + 1));
            i = i + 1;
        }
    }
    assert(all.take(all.len() as int) == all);
    out
}

/// Files that `ls` shows: hidden ones (leading `.`) only with `-a`.
pub open spec fn visible_spec(s: Seq<FileInfo>, all: bool) -> Seq<FileInfo>
    decreases s.len(),
{
    if s.len() == 0 {
        Seq::empty()
    } else if !all && starts_with(s.last().name@, seq!['.']) {
        visible_spec(s.drop_last(), all)
    } else {
        visible_spec(s.drop_last(), all).push(s.last())
    }
}

pub fn visible_entries(files: Vec<FileInfo>, all: bool) -> (r: Vec<FileInfo>)
    ensures
        r@ == visible_spec(files@, all),
{
    let ghost whole = files@;
    let mut src = files;
    let mut out: Vec<FileInfo> = Vec::new();
    let ghost mut i: int = 0;
    let dot = single('.');
    assert(whole.take(0) =~= Seq::<FileInfo>::empty());
    assert(whole.skip(0) =~= whole);
    while src.len() > 0
        invariant
            0 <= i <= whole.len(),
            dot@ == seq!['.'],
            src@ == whole.skip(i),
            out@ == visible_spec(whole.take(i), all),
        decreases src@.len(),
    {
        let x = src.remove(0);
        proof {
            let t = whole.take(i + 1);
            assert(t.drop_last() == whole.take(i));
            assert(t.last() == x);
            assert(whole.skip(i).drop_first() == whole.skip(i + 1));
            i = i + 1;
        }
        let hidden = has_prefix(&chars_of(x.name.as_str()), &dot);
        if all || !hidden {
            out.push(x);
        }
    }
    assert(whole.take(whole.len() as int) == whole);
    out
}

} // verus!

verus! {

// ───────────────────────────── grid ─────────────────────────────

/// What follows a name in the grid: `/` for a directory, `*` for an
/// executable.
pub open spec fn grid_suffix(f: FileInfo) -> Seq<char> {
    if f.is_dir {
        seq!['/']
    } else if executable_bits(f.mode) {
        seq!['*']
    } else {
        Seq::empty()
    }
}

pub open spec fn icon_shown(f: FileInfo, icons: bool) -> Seq<char> {
    if icons {
        icon_spec(f)
    } else {
        Seq::empty()
    }
}

/// One file as the grid shows it.
pub open spec fn grid_item(f: FileInfo, icons: bool) -> Seq<char> {
    entry_color_spec(f) + icon_shown(f, icons) + f.name@ + grid_suffix(f) + reset()
}

/// The width the grid counts for a file: its name, two for the icon, one
/// for the suffix.
pub open spec fn item_len(f: FileInfo, icons: bool) -> int {
    f.name@.len() + (if icons { 2int } else { 0int }) + (if f.is_dir || executable_bits(f.mode) { 1int } else { 0int })
}

pub open spec fn items_of(files: Seq<FileInfo>, icons: bool) -> Seq<Seq<char>> {
    files.map_values(|f: FileInfo| grid_item(f, icons))
}

pub open spec fn lens_of(files: Seq<FileInfo>, icons: bool) -> Seq<int> {
    files.map_values(|f: FileInfo| item_len(f, icons))
}

pub open spec fn seq_max(s: Seq<int>) -> int
    decreases s.len(),
{
    if s.len() == 0 {
        0
    } else {
        let m = seq_max(s.drop_last());
        if s.last() > m { s.last() } else { m }
    }
}

/// Rows of a grid of `n` items in `c` columns.
pub open spec fn rows_for(n: int, c: int) -> int {
    (n + c - 1) / c
}

/// The widest item of column `ci` among the first `r` rows.
pub open spec fn col_w(lens: Seq<int>, c: int, ci: int, r: int) -> int
    decreases r,
{
    if r <= 0 {
        0
    } else {
        let prev = col_w(lens, c, ci, r - 1);
        let idx = (r - 1) * c + ci;
        if 0 <= idx < lens.len() && lens[idx] > prev {
            lens[idx]
        } else {
            prev
        }
    }
}

pub open spec fn widths_sum(lens: Seq<int>, c: int, rows: int, k: int) -> int
    decreases k,
{
    if k <= 0 {
        0
    } else {
        widths_sum(lens, c, rows, k - 1) + col_w(lens, c, k - 1, rows)
    }
}

/// The width of a grid in `c` columns, with two spaces between columns.
pub open spec fn grid_total(lens: Seq<int>, c: int) -> int {
    widths_sum(lens, c, rows_for(lens.len() as int, c), c) + 2 * (c - 1)
}

/// The most columns worth trying: the width over the widest item and a gap.
pub open spec fn max_cols(lens: Seq<int>, w: int) -> int {
    let m = if lens.len() == 0 { 1 } else { seq_max(lens) };
    let q = w / (m + 2);
    if q >= 1 { q } else { 1 }
}

/// The most columns, from `c` down, whose grid fits in `w`; one if none.
pub open spec fn fit_cols(lens: Seq<int>, w: int, c: int) -> int
    decreases c,
{
    if c <= 0 {
        1
    } else if grid_total(lens, c) <= w {
        c
    } else {
        fit_cols(lens, w, c - 1)
    }
}

pub open spec fn spaces(n: int) -> Seq<char> {
    Seq::new(if n > 0 { n as nat } else { 0 }, |i: int| ' ')
}

/// Row `ri` of the grid from column `ci` on: each item, padded to its
/// column and followed by two spaces except in the last column.
pub open spec fn row_from(items: Seq<Seq<char>>, lens: Seq<int>, c: int, rows: int, ri: int, ci: int) -> Seq<char>
    decreases c - ci,
{
    if ci < 0 || ci >= c {
        Seq::empty()
    } else {
        let idx = ri * c + ci;
        if idx < 0 || idx >= items.len() {
            Seq::empty()
        } else {
            items[idx] + (if ci < c - 1 {
                spaces(col_w(lens, c, ci, rows) - lens[idx]) + seq![' ', ' ']
            } else {
                Seq::empty()
            }) + row_from(items, lens, c, rows, ri, ci + 1)
        }
    }
}

/// The lines of the grid listing: one item per line with `-1` or `-l`,
/// else as many columns as fit in `w`.
pub open spec fn grid_spec(files: Seq<FileInfo>, one_per_line: bool, icons: bool, w: int) -> Seq<Seq<char>> {
    let items = items_of(files, icons);
    let lens = lens_of(files, icons);
    if one_per_line {
        items
    } else {
        let c = fit_cols(lens, w, max_cols(lens, w));
        let rows = rows_for(files.len() as int, c);
        Seq::new(if rows > 0 { rows as nat } else { 0 }, |ri: int| row_from(items, lens, c, rows, ri, 0))
    }
}

/// Names short enough that the grid's widths can be counted.
pub open spec fn names_fit(files: Seq<FileInfo>) -> bool {
    forall|i: int| 0 <= i < files.len() ==> #[trigger] files[i].name@.len() + 5 <= usize::MAX
}

} // verus!

verus! {

pub open spec fn ints(v: Seq<usize>) -> Seq<int> {
    v.map_values(|x: usize| x as int)
}

fn grid_items(files: &Vec<FileInfo>, icons: bool) -> (r: (Vec<Vec<char>>, Vec<usize>))
    requires
        names_fit(files@),
    ensures
        crate::text::views(r.0@) == items_of(files@, icons),
        ints(r.1@) == lens_of(files@, icons),
        r.0@.len() == files@.len(),
        r.1@.len() == files@.len(),
        forall|i: int| 0 <= i < r.1@.len() ==> #[trigger] r.1@[i] + 2 <= usize::MAX,
{
    let mut items: Vec<Vec<char>> = Vec::new();
    let mut lens: Vec<usize> = Vec::new();
    let mut i: usize = 0;
    while i < files.len()
        invariant
            i <= files@.len(),
            names_fit(files@),
            crate::text::views(items@) == items_of(files@, icons).take(i as int),
            ints(lens@) == lens_of(files@, icons).take(i as int),
            items@.len() == i,
            lens@.len() == i,
            forall|k: int| 0 <= k < lens@.len() ==> #[trigger] lens@[k] + 2 <= usize::MAX,
        decreases files@.len() - i,
    {
        let f = &files[i];
        let name = chars_of(f.name.as_str());
        let mut it = entry_color(f);
        if icons {
            it.extend_from_slice(&icon_for(f));
        }
        it.extend_from_slice(&name);
        let marked = f.is_dir || f.mode & 0o111u32 != 0;
        if f.is_dir {
            it.push('/');
        } else if f.mode & 0o111u32 != 0 {
            it.push('*');
        }
        let rst: Vec<char> = vec!['\x1b', '[', '0', 'm'];
        it.extend_from_slice(&rst);
        assert(files@[i as int].name@.len() + 5 <= usize::MAX);
        let len = name.len() + (if icons { 2 } else { 0 }) + (if marked { 1 } else { 0 });
        proof {
            assert(it@ =~= grid_item(files@[i as int], icons));
            crate::text::lemma_views_push(items@, it);
            assert(items_of(files@, icons).take(i + 1) =~= items_of(files@, icons).take(i as int).push(it@));
            assert(ints(lens@.push(len)) =~= ints(lens@).push(len as int));
            assert(lens_of(files@, icons).take(i + 1) =~= lens_of(files@, icons).take(i as int).push(len as int));
        }
        items.push(it);
        lens.push(len);
        i += 1;
    }
    assert(items_of(files@, icons).take(files@.len() as int) =~= items_of(files@, icons));
    assert(lens_of(files@, icons).take(files@.len() as int) =~= lens_of(files@, icons));
    (items, lens)
}

fn max_len(lens: &Vec<usize>) -> (r: usize)
    ensures
        r == (if lens@.len() == 0 { 1 } else { seq_max(ints(lens@)) }),
{
    if lens.len() == 0 {
        return 1;
    }
    let mut m: usize = 0;
    let mut i: usize = 0;
    assert(ints(lens@).take(0) =~= Seq::<int>::empty());
    while i < lens.len()
        invariant
            i <= lens@.len(),
            m == seq_max(ints(lens@).take(i as int)),
        decreases lens@.len() - i,
    {
        let ghost t = ints(lens@).take(i + 1);
        assert(t.drop_last() == ints(lens@).take(i as int));
        assert(t.last() == lens@[i as int]);
        if lens[i] > m {
            m = lens[i];
        }
        i += 1;
    }
    assert(ints(lens@).take(lens@.len() as int) =~= ints(lens@));
    m
}

proof fn lemma_index_fits(r: int, c: int, ci: int)
    requires
        0 <= r <= usize::MAX,
        0 <= c <= usize::MAX,
        0 <= ci <= usize::MAX,
    ensures
        r * c + ci <= u128::MAX,
        0 <= r * c,
{
    assert(r * c <= (usize::MAX as int) * (usize::MAX as int)) by (nonlinear_arith)
        requires
            0 <= r <= usize::MAX,
            0 <= c <= usize::MAX,
    ;
    assert(0 <= r * c) by (nonlinear_arith)
        requires
            0 <= r,
            0 <= c,
    ;
}

fn col_width(lens: &Vec<usize>, c: usize, ci: usize, rows: usize) -> (r: usize)
    ensures
        r as int == col_w(ints(lens@), c as int, ci as int, rows as int),
{
    let mut w: usize = 0;
    let mut r: usize = 0;
    while r < rows
        invariant
            r <= rows,
            w as int == col_w(ints(lens@), c as int, ci as int, r as int),
        decreases rows - r,
    {
        proof { lemma_index_fits(r as int, c as int, ci as int); }
        let idx: u128 = (r as u128) * (c as u128) + (ci as u128);
        if idx < lens.len() as u128 {
            let k = idx as usize;
            if lens[k] > w {
                w = lens[k];
            }
        }
        r += 1;
    }
    w
}

proof fn lemma_col_w_nonneg(lens: Seq<int>, c: int, ci: int, r: int)
    requires
        forall|i: int| 0 <= i < lens.len() ==> lens[i] >= 0,
    ensures
        col_w(lens, c, ci, r) >= 0,
    decreases r,
{
    if r > 0 {
        lemma_col_w_nonneg(lens, c, ci, r - 1);
    }
}

fn grid_total_of(lens: &Vec<usize>, c: usize, rows: usize) -> (r: u128)
    requires
        c >= 1,
    ensures
        r as int == widths_sum(ints(lens@), c as int, rows as int, c as int) + 2 * (c - 1),
{
    let mut acc: u128 = 0;
    let mut k: usize = 0;
    while k < c
        invariant
            k <= c,
            acc as int == widths_sum(ints(lens@), c as int, rows as int, k as int),
            acc as int <= (k as int) * (usize::MAX as int),
        decreases c - k,
    {
        let w = col_width(lens, c, k, rows);
        assert((k as int) * (usize::MAX as int) + (usize::MAX as int) == ((k + 1) as int) * (usize::MAX as int)) by (nonlinear_arith);
        assert(((k + 1) as int) * (usize::MAX as int) <= (usize::MAX as int) * (usize::MAX as int)) by (nonlinear_arith)
            requires
                k < c,
                c <= usize::MAX,
        ;
        acc = acc + w as u128;
        k += 1;
    }
    assert((c as int) * (usize::MAX as int) + 2 * (c as int) <= u128::MAX) by (nonlinear_arith)
        requires
            c <= usize::MAX,
    ;
    acc + 2 * ((c - 1) as u128)
}

proof fn lemma_rows(n: int, c: int)
    requires
        n >= 0,
        c >= 1,
    ensures
        rows_for(n, c) == (if n == 0 { 0 } else { (n - 1) / c + 1 }),
        rows_for(n, c) <= n,
        (rows_for(n, c) - 1) * c < n || n == 0,
{
    if n == 0 {
        assert((c - 1) / c == 0) by (nonlinear_arith)
            requires
                c >= 1,
        ;
    } else {
        assert(((n - 1) + c) / c == (n - 1) / c + 1) by (nonlinear_arith)
            requires
                c >= 1,
                n >= 1,
        ;
        assert((n - 1) / c + 1 <= n) by (nonlinear_arith)
            requires
                c >= 1,
                n >= 1,
        ;
        assert(((n - 1) / c) * c <= n - 1) by (nonlinear_arith)
            requires
                c >= 1,
                n >= 1,
        ;
    }
}

} // verus!

verus! {

proof fn lemma_seq_max_bound(s: Seq<int>, b: int)
    requires
        b >= 0,
        forall|i: int| 0 <= i < s.len() ==> 0 <= #[trigger] s[i] <= b,
    ensures
        0 <= seq_max(s) <= b,
    decreases s.len(),
{
    if s.len() > 0 {
        lemma_seq_max_bound(s.drop_last(), b);
    }
}

fn grid_row(items: &Vec<Vec<char>>, lens: &Vec<usize>, widths: &Vec<usize>, c: usize, rows: usize, ri: usize) -> (r: Vec<char>)
    requires
        c >= 1,
        items@.len() == lens@.len(),
        widths@.len() == c,
        forall|k: int| 0 <= k < c ==> #[trigger] widths@[k] as int == col_w(ints(lens@), c as int, k, rows as int),
    ensures
        r@ == row_from(crate::text::views(items@), ints(lens@), c as int, rows as int, ri as int, 0),
{
    let ghost iv = crate::text::views(items@);
    let ghost lv = ints(lens@);
    let mut out: Vec<char> = Vec::new();
    let mut ci: usize = 0;
    while ci < c
        invariant
            ci <= c,
            c >= 1,
            iv == crate::text::views(items@),
            lv == ints(lens@),
            items@.len() == lens@.len(),
            widths@.len() == c,
            forall|k: int| 0 <= k < c ==> #[trigger] widths@[k] as int == col_w(lv, c as int, k, rows as int),
            row_from(iv, lv, c as int, rows as int, ri as int, 0) == out@ + row_from(iv, lv, c as int, rows as int, ri as int, ci as int),
        decreases c - ci,
    {
        proof { lemma_index_fits(ri as int, c as int, ci as int); }
        let idx: u128 = (ri as u128) * (c as u128) + (ci as u128);
        if idx >= items.len() as u128 {
            assert(row_from(iv, lv, c as int, rows as int, ri as int, ci as int) == Seq::<char>::empty());
            assert(out@ + Seq::<char>::empty() == out@);
            return out;
        }
        let k = idx as usize;
        let ghost before = out@;
        out.extend_from_slice(&items[k]);
        if ci < c - 1 {
            let pad: usize = if widths[ci] > lens[k] { widths[ci] - lens[k] } else { 0 };
            let ghost mid = out@;
            let mut p: usize = 0;
            while p < pad
                invariant
                    p <= pad,
                    out@ == mid + Seq::new(p as nat, |i: int| ' '),
                decreases pad - p,
            {
                out.push(' ');
                p += 1;
                assert(out@ =~= mid + Seq::new(p as nat, |i: int| ' '));
            }
            out.push(' ');
            out.push(' ');
            assert(spaces(col_w(lv, c as int, ci as int, rows as int) - lv[k as int]) =~= Seq::new(pad as nat, |i: int| ' '));
            assert(out@ =~= before + (iv[k as int] + (spaces(col_w(lv, c as int, ci as int, rows as int) - lv[k as int]) + seq![' ', ' '])));
        } else {
            assert(out@ =~= before + (iv[k as int] + Seq::<char>::empty()));
        }
        ci += 1;
    }
    assert(row_from(iv, lv, c as int, rows as int, ri as int, c as int) == Seq::<char>::empty());
    assert(out@ + Seq::<char>::empty() == out@);
    out
}

/// The lines of the grid listing for a terminal `term_w` columns wide.
pub fn render_grid(files: &Vec<FileInfo>, opt: &LsOptions, term_w: usize) -> (r: Vec<String>)
    requires
        names_fit(files@),
    ensures
        strings_view(r@) == grid_spec(files@, opt.one || opt.long, opt.icons, term_w as int),
{
    let (items, lens) = grid_items(files, opt.icons);
    let ghost iv = crate::text::views(items@);
    let ghost lv = ints(lens@);
    let mut lines: Vec<String> = Vec::new();
    if opt.one || opt.long {
        let mut i: usize = 0;
        while i < items.len()
            invariant
                i <= items@.len(),
                strings_view(lines@) == iv.take(i as int),
                iv == crate::text::views(items@),
            decreases items@.len() - i,
        {
            let s = string_of(&items[i]);
            assert(strings_view(lines@.push(s)) =~= strings_view(lines@).push(s@));
            assert(iv.take(i + 1) =~= iv.take(i as int).push(items@[i as int]@));
            lines.push(s);
            i += 1;
        }
        assert(iv.take(items@.len() as int) =~= iv);
        return lines;
    }
    let m = max_len(&lens);
    proof {
        if lens@.len() > 0 {
            lemma_seq_max_bound(lv, usize::MAX - 2);
        }
    }
    let q = term_w / (m + 2);
    let mc: usize = if q >= 1 { q } else { 1 };
    assert(mc as int == max_cols(lv, term_w as int));
    let n = lens.len();
    let mut c = mc;
    loop
        invariant
            c <= mc,
            mc >= 1,
            fit_cols(lv, term_w as int, mc as int) == fit_cols(lv, term_w as int, c as int),
            lv == ints(lens@),
            n == lens@.len(),
        ensures
            c >= 1,
            fit_cols(lv, term_w as int, mc as int) == c,
        decreases c,
    {
        if c == 0 {
            c = 1;
            break;
        }
        proof { lemma_rows(n as int, c as int); }
        let rows = if n == 0 { 0 } else { (n - 1) / c + 1 };
        let total = grid_total_of(&lens, c, rows);
        if total <= term_w as u128 {
            break;
        }
        c -= 1;
    }
    proof { lemma_rows(n as int, c as int); }
    let rows = if n == 0 { 0 } else { (n - 1) / c + 1 };
    let mut widths: Vec<usize> = Vec::new();
    let mut k: usize = 0;
    while k < c
        invariant
            k <= c,
            widths@.len() == k,
            forall|j: int| 0 <= j < k ==> #[trigger] widths@[j] as int == col_w(ints(lens@), c as int, j, rows as int),
        decreases c - k,
    {
        widths.push(col_width(&lens, c, k, rows));
        k += 1;
    }
    let mut ri: usize = 0;
    while ri < rows
        invariant
            ri <= rows,
            c >= 1,
            iv == crate::text::views(items@),
            lv == ints(lens@),
            items@.len() == lens@.len(),
            widths@.len() == c,
            forall|j: int| 0 <= j < c ==> #[trigger] widths@[j] as int == col_w(lv, c as int, j, rows as int),
            strings_view(lines@) == Seq::new(ri as nat, |r: int| row_from(iv, lv, c as int, rows as int, r, 0)),
            lines@.len() == ri,
        decreases rows - ri,
    {
        let row = grid_row(&items, &lens, &widths, c, rows, ri);
        let s = string_of(&row);
        let ghost old_lines = lines@;
        lines.push(s);
        assert forall|r: int| 0 <= r < ri + 1 implies #[trigger] strings_view(lines@)[r] == row_from(iv, lv, c as int, rows as int, r, 0) by {
            if r < ri {
                assert(lines@[r] == old_lines[r]);
                assert(strings_view(old_lines)[r] == row_from(iv, lv, c as int, rows as int, r, 0));
            } else {
                assert(lines@[r] == s);
            }
        }
        assert(strings_view(lines@) =~= Seq::new((ri + 1) as nat, |r: int| row_from(iv, lv, c as int, rows as int, r, 0)));
        ri += 1;
    }
    assert(lens@.len() == files@.len());
    lines
}

} // verus!

verus! {

// ───────────────────────────── long listing ─────────────────────────────

/// What follows a name in the long listing: `/` for a directory, ` →` for
/// a link, `*` for an executable.
pub open spec fn long_suffix(f: FileInfo) -> Seq<char> {
    if f.is_dir {
        seq!['/']
    } else if f.is_link {
        seq![' ', '\u{2192}']
    } else if executable_bits(f.mode) {
        seq!['*']
    } else {
        Seq::empty()
    }
}

/// A link's target, cyan when it exists and red when it does not.
pub open spec fn link_part(f: FileInfo) -> Seq<char> {
    if f.is_link {
        match f.link_text {
            Some(t) => seq![' '] + (if f.target is Some {
                cyan()
            } else {
                red()
            }) + t@ + reset(),
            None => Seq::empty(),
        }
    } else {
        Seq::empty()
    }
}

/// The columns of a `ls -l` line before the name: permissions, links,
/// owner and group ids, size and date.
pub open spec fn long_head(f: FileInfo) -> Seq<char> {
    dim() + crate::text::pad_right(perms_spec(f.mode, f.is_dir, f.is_link), 10) + seq![' '] + crate::text::pad_left(
        crate::text::decimal(f.nlink as nat),
        4,
        ' ',
    ) + seq![' '] + crate::text::pad_left(crate::text::decimal(f.uid as nat), 5, ' ') + seq![' '] + crate::text::pad_left(
        crate::text::decimal(f.gid as nat),
        5,
        ' ',
    ) + reset() + seq![' '] + f.size_text@ + seq![' '] + dim() + mtime_text(f.mtime_secs) + reset() + seq![' ', ' ']
}

/// The coloured name, its suffix, and a link's target.
pub open spec fn long_name(f: FileInfo, icons: bool) -> Seq<char> {
    entry_color_spec(f) + icon_shown(f, icons) + f.name@ + long_suffix(f) + reset() + link_part(f)
}

/// One line of `ls -l`.
pub open spec fn long_line(f: FileInfo, icons: bool) -> Seq<char> {
    long_head(f) + long_name(f, icons)
}

pub open spec fn blocks_sum(files: Seq<FileInfo>) -> int
    decreases files.len(),
{
    if files.len() == 0 {
        0
    } else {
        blocks_sum(files.drop_last()) + files.last().blocks
    }
}

/// `ls -l`: the total in kilobyte blocks, then a line per file.
pub open spec fn long_spec(files: Seq<FileInfo>, icons: bool) -> Seq<Seq<char>> {
    seq![seq!['t', 'o', 't', 'a', 'l', ' '] + crate::text::decimal((blocks_sum(files) / 2) as nat)] + files.map_values(
        |f: FileInfo| long_line(f, icons),
    )
}

proof fn lemma_blocks_sum_mono(files: Seq<FileInfo>, k: int)
    requires
        0 <= k <= files.len(),
    ensures
        0 <= blocks_sum(files.take(k)) <= blocks_sum(files),
    decreases files.len() - k,
{
    if k < files.len() {
        assert(files.take(k + 1).drop_last() == files.take(k));
        lemma_blocks_sum_mono(files, k + 1);
    } else {
        assert(files.take(k) == files);
    }
    lemma_blocks_sum_nonneg(files.take(k));
}

proof fn lemma_blocks_sum_nonneg(files: Seq<FileInfo>)
    ensures
        blocks_sum(files) >= 0,
    decreases files.len(),
{
    if files.len() > 0 {
        lemma_blocks_sum_nonneg(files.drop_last());
    }
}

fn long_head_of(f: &FileInfo) -> (r: Vec<char>)
    ensures
        r@ == long_head(*f),
{
    let mut out: Vec<char> = vec!['\x1b', '[', '2', 'm'];
    out.extend_from_slice(&crate::text::pad_right_chars(&fmt_perms(f.mode, f.is_dir, f.is_link), 10));
    out.push(' ');
    out.extend_from_slice(&crate::text::pad_left_chars(&crate::text::decimal_chars(f.nlink), 4, ' '));
    out.push(' ');
    out.extend_from_slice(&crate::text::pad_left_chars(&crate::text::decimal_chars(f.uid as u64), 5, ' '));
    out.push(' ');
    out.extend_from_slice(&crate::text::pad_left_chars(&crate::text::decimal_chars(f.gid as u64), 5, ' '));
    let rst: Vec<char> = vec!['\x1b', '[', '0', 'm'];
    let dm: Vec<char> = vec!['\x1b', '[', '2', 'm'];
    out.extend_from_slice(&rst);
    out.push(' ');
    out.extend_from_slice(&chars_of(f.size_text.as_str()));
    out.push(' ');
    out.extend_from_slice(&dm);
    out.extend_from_slice(&fmt_time(f.mtime_secs));
    out.extend_from_slice(&rst);
    out.push(' ');
    out.push(' ');
    assert(out@ =~= long_head(*f));
    out
}

fn link_part_of(f: &FileInfo) -> (r: Vec<char>)
    ensures
        r@ == link_part(*f),
{
    let mut out: Vec<char> = Vec::new();
    if f.is_link {
        match &f.link_text {
            Some(t) => {
                out.push(' ');
                if f.target.is_some() {
                    let c: Vec<char> = vec!['\x1b', '[', '1', ';', '3', '6', 'm'];
                    out.extend_from_slice(&c);
                } else {
                    let c: Vec<char> = vec!['\x1b', '[', '1', ';', '3', '1', 'm'];
                    out.extend_from_slice(&c);
                }
                out.extend_from_slice(&chars_of(t.as_str()));
                let rst: Vec<char> = vec!['\x1b', '[', '0', 'm'];
                out.extend_from_slice(&rst);
            },
            None => {},
        }
    }
    assert(out@ =~= link_part(*f));
    out
}

fn long_line_of(f: &FileInfo, icons: bool) -> (r: Vec<char>)
    ensures
        r@ == long_line(*f, icons),
{
    let mut out = long_head_of(f);
    let ghost h = out@;
    out.extend_from_slice(&entry_color(f));
    if icons {
        out.extend_from_slice(&icon_for(f));
    }
    out.extend_from_slice(&chars_of(f.name.as_str()));
    if f.is_dir {
        out.push('/');
    } else if f.is_link {
        out.push(' ');
        out.push('\u{2192}');
    } else if f.mode & 0o111u32 != 0 {
        out.push('*');
    }
    let rst: Vec<char> = vec!['\x1b', '[', '0', 'm'];
    out.extend_from_slice(&rst);
    out.extend_from_slice(&link_part_of(f));
    assert(out@ =~= h + long_name(*f, icons));
    out
}

/// The lines of `ls -l` for the files.
pub fn render_long(files: &Vec<FileInfo>, opt: &LsOptions) -> (r: Vec<String>)
    requires
        blocks_sum(files@) <= u64::MAX,
    ensures
        strings_view(r@) == long_spec(files@, opt.icons),
{
    let mut total: u64 = 0;
    let mut i: usize = 0;
    assert(files@.take(0) =~= Seq::<FileInfo>::empty());
    while i < files.len()
        invariant
            i <= files@.len(),
            blocks_sum(files@) <= u64::MAX,
            total as int == blocks_sum(files@.take(i as int)),
        decreases files@.len() - i,
    {
        assert(files@.take(i + 1).drop_last() == files@.take(i as int));
        proof { lemma_blocks_sum_mono(files@, i + 1); }
        total = total + files[i].blocks;
        i += 1;
    }
    assert(files@.take(files@.len() as int) == files@);
    let mut head: Vec<char> = vec!['t', 'o', 't', 'a', 'l', ' '];
    head.extend_from_slice(&crate::text::decimal_chars(total / 2));
    let mut lines: Vec<String> = Vec::new();
    lines.push(string_of(&head));
    let ghost want = long_spec(files@, opt.icons);
    let mut j: usize = 0;
    while j < files.len()
        invariant
            j <= files@.len(),
            want == long_spec(files@, opt.icons),
            lines@.len() == j + 1,
            forall|k: int| 0 <= k <= j ==> #[trigger] strings_view(lines@)[k] == want[k],
        decreases files@.len() - j,
    {
        let l = long_line_of(&files[j], opt.icons);
        let s = string_of(&l);
        let ghost old_lines = lines@;
        lines.push(s);
        assert forall|k: int| 0 <= k <= j + 1 implies #[trigger] strings_view(lines@)[k] == want[k] by {
            if k <= j {
                assert(lines@[k] == old_lines[k]);
                assert(strings_view(old_lines)[k] == want[k]);
            }
        }
        j += 1;
    }
    assert(strings_view(lines@) =~= want);
    lines
}

} // verus!

verus! {

proof fn lemma_year_of(days: nat, y: nat)
    ensures
        year_of(days, y).0 >= y,
        year_of(days, y).1 < year_len(year_of(days, y).0),
    decreases days,
{
    if days >= year_len(y) {
        lemma_year_of((days - year_len(y)) as nat, y + 1);
    }
}

proof fn lemma_month_of(d: nat, leap: bool)
    requires
        d < (if leap { 366nat } else { 365nat }),
    ensures
        1 <= month_of(d, 1, leap).0 <= 12,
        month_of(d, 1, leap).1 < month_len(month_of(d, 1, leap).0, leap),
{
    reveal_with_fuel(month_of, 13);
}

/// Every time `ls -l` shows is a real date: a month from 1 to 12, a day
/// within that month, an hour below 24 and a minute below 60.
pub proof fn lemma_dates_are_valid(secs: nat)
    ensures
        ymd_spec(secs).0 >= 1970,
        1 <= ymd_spec(secs).1 <= 12,
        1 <= ymd_spec(secs).2 <= month_len(ymd_spec(secs).1, is_leap(ymd_spec(secs).0)),
        ymd_spec(secs).3 < 24,
        ymd_spec(secs).4 < 60,
{
    lemma_year_of(secs / 86400, 1970);
    let (y, d) = year_of(secs / 86400, 1970);
    lemma_month_of(d, is_leap(y));
}

} // verus!

verus! {

// ───────────────────────────── the listing order is an order ─────────────────────────────

proof fn lemma_file_less_order(a: FileInfo, b: FileInfo, c: FileInfo, st: bool, rev: bool)
    ensures
        !(file_less(a, b, st, rev) && file_less(b, a, st, rev)),
        file_less(a, b, st, rev) && file_less(b, c, st, rev) ==> file_less(a, c, st, rev),
{
    let (la, lb, lc) = (lowercase_of(a.name@), lowercase_of(b.name@), lowercase_of(c.name@));
    crate::ui::completion::lemma_seq_less_asym(la, lb);
    if crate::ui::completion::seq_less(la, lb) && crate::ui::completion::seq_less(lb, lc) {
        crate::ui::completion::lemma_seq_less_trans(la, lb, lc);
    }
    if crate::ui::completion::seq_less(lc, lb) && crate::ui::completion::seq_less(lb, la) {
        crate::ui::completion::lemma_seq_less_trans(lc, lb, la);
    }
}

proof fn lemma_insert_file_from(s: Seq<FileInfo>, x: FileInfo, st: bool, rev: bool)
    ensures
        insert_file(s, x, st, rev).len() == s.len() + 1,
        forall|k: int| 0 <= k < s.len() + 1 ==> (#[trigger] insert_file(s, x, st, rev)[k] == x || exists|j: int|
            0 <= j < s.len() && insert_file(s, x, st, rev)[k] == s[j]),
    decreases s.len(),
{
    if s.len() > 0 && !file_less(x, s[0], st, rev) {
        let t = s.drop_first();
        lemma_insert_file_from(t, x, st, rev);
        let r = insert_file(s, x, st, rev);
        assert(r == seq![s[0]] + insert_file(t, x, st, rev));
        assert forall|k: int| 0 <= k < s.len() + 1 implies (#[trigger] r[k] == x || exists|j: int| 0 <= j < s.len() && r[k] == s[j]) by {
            if k == 0 {
                assert(r[0] == s[0]);
            } else {
                assert(r[k] == insert_file(t, x, st, rev)[k - 1]);
                if r[k] != x {
                    let j = choose|j: int| 0 <= j < t.len() && insert_file(t, x, st, rev)[k - 1] == t[j];
                    assert(r[k] == s[j + 1]);
                }
            }
        }
    } else if s.len() > 0 {
        let r = insert_file(s, x, st, rev);
        assert(r == seq![x] + s);
        assert forall|k: int| 0 <= k < s.len() + 1 implies (#[trigger] r[k] == x || exists|j: int| 0 <= j < s.len() && r[k] == s[j]) by {
            if k > 0 {
                assert(r[k] == s[k - 1]);
            }
        }
    }
}

/// No file sorts before one listed ahead of it.
pub open spec fn files_sorted(s: Seq<FileInfo>, st: bool, rev: bool) -> bool {
    forall|i: int, j: int| 0 <= i < j < s.len() ==> !file_less(#[trigger] s[j], #[trigger] s[i], st, rev)
}

proof fn lemma_insert_file_sorted(s: Seq<FileInfo>, x: FileInfo, st: bool, rev: bool)
    requires
        files_sorted(s, st, rev),
    ensures
        files_sorted(insert_file(s, x, st, rev), st, rev),
    decreases s.len(),
{
    let r = insert_file(s, x, st, rev);
    if s.len() == 0 {
    } else if file_less(x, s[0], st, rev) {
        assert(r == seq![x] + s);
        assert forall|i: int, j: int| 0 <= i < j < r.len() implies !file_less(#[trigger] r[j], #[trigger] r[i], st, rev) by {
            if i == 0 {
                lemma_file_less_order(r[j], x, s[0], st, rev);
                lemma_file_less_order(x, s[0], x, st, rev);
                if j > 1 {
                    assert(!file_less(s[j - 1], s[0], st, rev));
                }
            } else {
                assert(r[i] == s[i - 1] && r[j] == s[j - 1]);
            }
        }
    } else {
        let t = s.drop_first();
        assert(files_sorted(t, st, rev)) by {
            assert forall|i: int, j: int| 0 <= i < j < t.len() implies !file_less(#[trigger] t[j], #[trigger] t[i], st, rev) by {
                assert(t[i] == s[i + 1] && t[j] == s[j + 1]);
            }
        }
        lemma_insert_file_sorted(t, x, st, rev);
        lemma_insert_file_from(t, x, st, rev);
        let q = insert_file(t, x, st, rev);
        assert(r == seq![s[0]] + q);
        assert forall|i: int, j: int| 0 <= i < j < r.len() implies !file_less(#[trigger] r[j], #[trigger] r[i], st, rev) by {
            if i == 0 {
                assert(r[j] == q[j - 1]);
                if q[j - 1] != x {
                    let m = choose|m: int| 0 <= m < t.len() && q[j - 1] == t[m];
                    assert(t[m] == s[m + 1]);
                }
            } else {
                assert(r[i] == q[i - 1] && r[j] == q[j - 1]);
            }
        }
    }
}

/// The `ls` listing is in order: no file sorts before one listed ahead of it
/// (directories first, then by lower-cased name; newest first with `-t`;
/// turned round with `-r`).
pub proof fn lemma_listing_sorted(s: Seq<FileInfo>, st: bool, rev: bool)
    ensures
        files_sorted(sort_files_spec(s, st, rev), st, rev),
    decreases s.len(),
{
    if s.len() > 0 {
        lemma_listing_sorted(s.drop_last(), st, rev);
        lemma_insert_file_sorted(sort_files_spec(s.drop_last(), st, rev), s.last(), st, rev);
    }
}


proof fn lemma_insert_file_pos(s: Seq<FileInfo>, x: FileInfo, st: bool, rev: bool) -> (p: int)
    ensures
        0 <= p <= s.len(),
        insert_file(s, x, st, rev) == s.insert(p, x),
    decreases s.len(),
{
    if s.len() == 0 || file_less(x, s[0], st, rev) {
        assert(insert_file(s, x, st, rev) =~= s.insert(0, x));
        0
    } else {
        let q = lemma_insert_file_pos(s.drop_first(), x, st, rev);
        assert(insert_file(s, x, st, rev) =~= s.insert(q + 1, x));
        q + 1
    }
}

/// The `ls` listing shows exactly the files it was given, reordered.
pub proof fn lemma_listing_permutes(s: Seq<FileInfo>, st: bool, rev: bool)
    ensures
        sort_files_spec(s, st, rev).to_multiset() == s.to_multiset(),
    decreases s.len(),
{
    if s.len() > 0 {
        let t = s.drop_last();
        lemma_listing_permutes(t, st, rev);
        let sorted = sort_files_spec(t, st, rev);
        let p = lemma_insert_file_pos(sorted, s.last(), st, rev);
        vstd::seq_lib::to_multiset_insert(sorted, p, s.last());
        vstd::seq_lib::to_multiset_build(t, s.last());
        assert(t.push(s.last()) == s);
        assert(sort_files_spec(s, st, rev) == insert_file(sorted, s.last(), st, rev));
        assert(sort_files_spec(s, st, rev).to_multiset() =~= s.to_multiset());
    } else {
        assert(s =~= sort_files_spec(s, st, rev));
    }
}

} // verus!
