//! Where the shell's executable is, and whether `/etc/shells` lists it.
use vstd::prelude::*;
use crate::text::{chars_of, contains_seq, string_of};

verus! {

broadcast use vstd::string::group_string_axioms;

/// Facts about the shell as an installed program.
pub struct ShellInfo;

pub open spec fn default_shell_path(prefix: Seq<char>) -> Seq<char> {
    if prefix.len() == 0 {
        seq!['/', 'u', 's', 'r', '/', 'b', 'i', 'n', '/', 'o', 'm', 'n', 'i', 's', 'h', 'e', 'l', 'l']
    } else {
        prefix + seq!['/', 'b', 'i', 'n', '/', 'o', 'm', 'n', 'i', 's', 'h', 'e', 'l', 'l']
    }
}

/// `/etc/shells`, under `PREFIX` on Termux.
pub open spec fn etc_shells_of(prefix: Seq<char>) -> Seq<char> {
    if prefix.len() == 0 {
        seq!['/', 'e', 't', 'c', '/', 's', 'h', 'e', 'l', 'l', 's']
    } else {
        prefix + seq!['/', 'e', 't', 'c', '/', 's', 'h', 'e', 'l', 'l', 's']
    }
}

/// What registering prints: how to add the shell to `/etc/shells`, or that
/// it is there already.
pub open spec fn registration_spec(exe: Seq<char>, prefix: Seq<char>, content: Seq<char>) -> Seq<Seq<char>> {
    let etc = etc_shells_of(prefix);
    if !contains_seq(content, exe) {
        seq![
            seq!['T', 'o', ' ', 'm', 'a', 'k', 'e', ' ', 't', 'h', 'e', ' ', 's', 'y', 's', 't', 'e', 'm', ' ', 'f', 'u', 'l', 'l', 'y',
                ' ', 'r', 'e', 'c', 'o', 'g', 'n', 'i', 'z', 'e', ' '] + exe + seq![',', ' ', 'a', 'd', 'd', ' ', 't', 'h', 'e', ' ', 'f',
                'o', 'l', 'l', 'o', 'w', 'i', 'n', 'g', ' ', 'l', 'i', 'n', 'e', ':'],
            if prefix.len() == 0 {
                seq!['s', 'u', 'd', 'o', ' ', 's', 'h', ' ', '-', 'c', ' ', '\'', 'e', 'c', 'h', 'o', ' ', '"'] + exe + seq!['"', ' ', '>',
                    '>', ' '] + etc + seq!['\'']
            } else {
                seq!['e', 'c', 'h', 'o', ' ', '"'] + exe + seq!['"', ' ', '>', '>', ' '] + etc
            },
        ]
    } else {
        seq![seq!['S', 'h', 'e', 'l', 'l', ' ', 'i', 's', ' ', 'a', 'l', 'r', 'e', 'a', 'd', 'y', ' ', 'r', 'e', 'g', 'i', 's', 't', 'e',
            'r', 'e', 'd', ' ', 'i', 'n', ' '] + etc + seq!['!']]
    }
}

impl ShellInfo {
    /// The value `SHELL` gets: the running executable, else the default
    /// install location under `PREFIX`.
    pub fn shell_path(exe: Option<&str>, prefix: &str) -> (r: String)
        ensures
            r@ == match exe {
                Some(e) => e@,
                None => default_shell_path(prefix@),
            },
    {
        match exe {
            Some(e) => crate::text::owned(e),
            None => {
                let p = chars_of(prefix);
                if p.len() == 0 {
                    string_of(&['/', 'u', 's', 'r', '/', 'b', 'i', 'n', '/', 'o', 'm', 'n', 'i', 's', 'h', 'e', 'l', 'l'])
                } else {
                    let mut v = p;
                    let tail: Vec<char> = vec!['/', 'b', 'i', 'n', '/', 'o', 'm', 'n', 'i', 's', 'h', 'e', 'l', 'l'];
                    v.extend_from_slice(&tail);
                    string_of(&v)
                }
            },
        }
    }

    /// Where the list of login shells is.
    pub fn etc_shells(prefix: &str) -> (r: String)
        ensures
            r@ == etc_shells_of(prefix@),
    {
        let p = chars_of(prefix);
        let tail: Vec<char> = vec!['/', 'e', 't', 'c', '/', 's', 'h', 'e', 'l', 'l', 's'];
        if p.len() == 0 {
            string_of(&tail)
        } else {
            let mut v = p;
            v.extend_from_slice(&tail);
            string_of(&v)
        }
    }

    /// The lines that registering prints, given the executable, `PREFIX` and
    /// what the list of shells holds.
    pub fn registration_lines(exe: &str, prefix: &str, content: &str) -> (r: Vec<String>)
        ensures
            crate::builtins::ls::strings_view(r@) == registration_spec(exe@, prefix@, content@),
    {
        let etc = chars_of(Self::etc_shells(prefix).as_str());
        let e = chars_of(exe);
        let mut out: Vec<String> = Vec::new();
        if crate::text::find_chars(&chars_of(content), &e).is_none() {
            let mut l1: Vec<char> = vec![
                'T', 'o', ' ', 'm', 'a', 'k', 'e', ' ', 't', 'h', 'e', ' ', 's', 'y', 's', 't', 'e', 'm', ' ', 'f', 'u', 'l', 'l', 'y', ' ',
                'r', 'e', 'c', 'o', 'g', 'n', 'i', 'z', 'e', ' ',
            ];
            l1.extend_from_slice(&e);
            let t1: Vec<char> = vec![
                ',', ' ', 'a', 'd', 'd', ' ', 't', 'h', 'e', ' ', 'f', 'o', 'l', 'l', 'o', 'w', 'i', 'n', 'g', ' ', 'l', 'i', 'n', 'e', ':',
            ];
            l1.extend_from_slice(&t1);
            let l2: Vec<char> = if chars_of(prefix).len() == 0 {
                let mut l: Vec<char> = vec!['s', 'u', 'd', 'o', ' ', 's', 'h', ' ', '-', 'c', ' ', '\'', 'e', 'c', 'h', 'o', ' ', '"'];
                l.extend_from_slice(&e);
                let m: Vec<char> = vec!['"', ' ', '>', '>', ' '];
                l.extend_from_slice(&m);
                l.extend_from_slice(&etc);
                l.push('\'');
                l
            } else {
                let mut l: Vec<char> = vec!['e', 'c', 'h', 'o', ' ', '"'];
                l.extend_from_slice(&e);
                let m: Vec<char> = vec!['"', ' ', '>', '>', ' '];
                l.extend_from_slice(&m);
                l.extend_from_slice(&etc);
                l
            };
            assert(!contains_seq(content@, exe@));
            assert(l1@ =~= registration_spec(exe@, prefix@, content@)[0]);
            assert(l2@ =~= registration_spec(exe@, prefix@, content@)[1]);
            out.push(string_of(&l1));
            out.push(string_of(&l2));
            assert(crate::builtins::ls::strings_view(out@) =~= registration_spec(exe@, prefix@, content@));
        } else {
            let mut l: Vec<char> = vec![
                'S', 'h', 'e', 'l', 'l', ' ', 'i', 's', ' ', 'a', 'l', 'r', 'e', 'a', 'd', 'y', ' ', 'r', 'e', 'g', 'i', 's', 't', 'e', 'r',
                'e', 'd', ' ', 'i', 'n', ' ',
            ];
            l.extend_from_slice(&etc);
            l.push('!');
            assert(contains_seq(content@, exe@));
            assert(l@ =~= registration_spec(exe@, prefix@, content@)[0]);
            out.push(string_of(&l));
            assert(crate::builtins::ls::strings_view(out@) =~= registration_spec(exe@, prefix@, content@));
        }
        out
    }
}

} // verus!
