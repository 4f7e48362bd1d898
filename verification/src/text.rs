//! Character-level text operations shared by the whole shell.
//!
//! Strings are modelled by their view, a `Seq<char>`; every operation here
//! states its result over that view.
use vstd::prelude::*;

verus! {

broadcast use vstd::string::group_string_axioms;

// ───────────────────────────── characters ─────────────────────────────

/// Unicode `White_Space`, the set that `char::is_whitespace` tests.
pub open spec fn is_ws(c: char) -> bool {
    let n = c as u32;
    ||| 0x09 <= n <= 0x0D
    ||| n == 0x20
    ||| n == 0x85
    ||| n == 0xA0
    ||| n == 0x1680
    ||| 0x2000 <= n <= 0x200A
    ||| n == 0x2028
    ||| n == 0x2029
    ||| n == 0x202F
    ||| n == 0x205F
    ||| n == 0x3000
}

/// Whether `c` is white space (`char::is_whitespace`).
pub fn is_whitespace(c: char) -> (b: bool)
    ensures
        b == is_ws(c),
{
    let n = c as u32;
    (0x09 <= n && n <= 0x0D) || n == 0x20 || n == 0x85 || n == 0xA0 || n == 0x1680 || (0x2000
        <= n && n <= 0x200A) || n == 0x2028 || n == 0x2029 || n == 0x202F || n == 0x205F || n
        == 0x3000
}

/// What `char::is_alphanumeric` answers for `c` (Unicode Alphabetic or Numeric).
pub uninterp spec fn char_alphanumeric(c: char) -> bool;

/// `char::is_alphanumeric`: true for characters that are Unicode Alphabetic or
/// Numeric. The contract names the answer and says nothing more of it.
#[verifier::external_body]
pub(crate) fn is_alphanumeric(c: char) -> (b: bool)
    ensures
        b == char_alphanumeric(c),
{
    c.is_alphanumeric()
}

/// A character that may continue a `$name` reference.
pub open spec fn is_name_char(c: char) -> bool {
    char_alphanumeric(c) || c == '_'
}

pub fn is_name_character(c: char) -> (b: bool)
    ensures
        b == is_name_char(c),
{
    c == '_' || is_alphanumeric(c)
}

/// ASCII lower-casing of one character (`char::to_ascii_lowercase`).
pub open spec fn ascii_lower(c: char) -> char {
    if 'A' <= c <= 'Z' {
        ((c as u32) + 32) as char
    } else {
        c
    }
}

pub fn to_ascii_lower(c: char) -> (r: char)
    ensures
        r == ascii_lower(c),
{
    if 'A' <= c && c <= 'Z' {
        let n = (c as u32) + 32;
        assert(0x61 <= n <= 0x7A);
        char_from_ascii(n)
    } else {
        c
    }
}

/// The character with ASCII code `n`.
pub fn char_from_ascii(n: u32) -> (c: char)
    requires
        n < 128,
    ensures
        c as u32 == n,
        c == n as char,
{
    let b: u8 = n as u8;
    b as char
}

/// The full Unicode lower-case mapping of a string (`str::to_lowercase`).
pub uninterp spec fn lowercase_of(s: Seq<char>) -> Seq<char>;

/// `str::to_lowercase`: the string with every character replaced by its
/// Unicode lower-case mapping. The contract names the result only.
#[verifier::external_body]
pub(crate) fn to_lowercase(s: &str) -> (r: String)
    ensures
        r@ == lowercase_of(s@),
{
    s.to_lowercase()
}

// ───────────────────────────── conversions ─────────────────────────────

/// The characters of `s`, in order.
pub fn chars_of(s: &str) -> (v: Vec<char>)
    ensures
        v@ == s@,
{
    let mut v: Vec<char> = Vec::new();
    for c in it: s.chars()
        invariant
            v@ == it.seq().take(it.index() as int),
            it.seq() == s@,
    {
        v.push(c);
    }
    v
}

/// Appends one character to a string (`String::push`).
#[verifier::external_body]
pub(crate) fn push_char(s: &mut String, c: char)
    ensures
        final(s)@ == old(s)@.push(c),
{
    s.push(c);
}

/// Appends the characters of `v` to `s`.
pub fn push_chars(s: &mut String, v: &[char])
    ensures
        final(s)@ == old(s)@ + v@,
{
    let ghost start = s@;
    let mut i: usize = 0;
    while i < v.len()
        invariant
            i <= v.len(),
            s@ == start + v@.take(i as int),
        decreases v.len() - i,
    {
        push_char(s, v[i]);
        assert(v@.take(i + 1) == v@.take(i as int).push(v@[i as int]));
        i += 1;
    }
    assert(v@.take(v.len() as int) == v@);
}

/// The string made of the characters of `v`, in order.
pub fn string_of(v: &[char]) -> (s: String)
    ensures
        s@ == v@,
{
    let mut s = String::new();
    push_chars(&mut s, v);
    s
}

/// An owned copy of `s`.
pub fn owned(s: &str) -> (r: String)
    ensures
        r@ == s@,
{
    s.to_string()
}

/// Appends `t` to `s`.
pub fn push_str(s: &mut String, t: &str)
    ensures
        final(s)@ == old(s)@ + t@,
{
    s.append(t);
}

/// A copy of `v[a..b]`.
pub fn slice_of(v: &[char], a: usize, b: usize) -> (r: Vec<char>)
    requires
        a <= b <= v.len(),
    ensures
        r@ == v@.subrange(a as int, b as int),
{
    let mut r: Vec<char> = Vec::new();
    let mut i = a;
    while i < b
        invariant
            a <= i <= b <= v.len(),
            r@ == v@.subrange(a as int, i as int),
        decreases b - i,
    {
        r.push(v[i]);
        i += 1;
    }
    r
}

/// The string `v[a..b]`.
pub fn substring(v: &[char], a: usize, b: usize) -> (r: String)
    requires
        a <= b <= v.len(),
    ensures
        r@ == v@.subrange(a as int, b as int),
{
    let c = slice_of(v, a, b);
    string_of(&c)
}

// ───────────────────────────── comparison ─────────────────────────────

/// Whether two character sequences are equal.
pub fn chars_eq(a: &[char], b: &[char]) -> (r: bool)
    ensures
        r == (a@ == b@),
{
    if a.len() != b.len() {
        return false;
    }
    let mut i: usize = 0;
    while i < a.len()
        invariant
            a.len() == b.len(),
            i <= a.len(),
            a@.take(i as int) == b@.take(i as int),
        decreases a.len() - i,
    {
        if a[i] != b[i] {
            assert(a@[i as int] != b@[i as int]);
            return false;
        }
        assert(a@.take(i + 1) == a@.take(i as int).push(a@[i as int]));
        assert(b@.take(i + 1) == b@.take(i as int).push(b@[i as int]));
        i += 1;
    }
    assert(a@ == a@.take(a.len() as int));
    assert(b@ == b@.take(b.len() as int));
    true
}

/// Whether two strings are equal.
pub fn str_eq(a: &str, b: &str) -> (r: bool)
    ensures
        r == (a@ == b@),
{
    let x = chars_of(a);
    let y = chars_of(b);
    chars_eq(&x, &y)
}

/// `p` occurs in `s` at position `k`.
pub open spec fn matches_at(s: Seq<char>, p: Seq<char>, k: int) -> bool {
    0 <= k && k + p.len() <= s.len() && s.subrange(k, k + p.len()) == p
}

pub open spec fn starts_with(s: Seq<char>, p: Seq<char>) -> bool {
    matches_at(s, p, 0)
}

pub open spec fn ends_with(s: Seq<char>, p: Seq<char>) -> bool {
    p.len() <= s.len() && matches_at(s, p, s.len() - p.len())
}

/// Whether `p` occurs in `v` at position `k`.
pub fn has_at(v: &[char], p: &[char], k: usize) -> (r: bool)
    ensures
        r == matches_at(v@, p@, k as int),
{
    if k > v.len() || p.len() > v.len() - k {
        return false;
    }
    let mut i: usize = 0;
    while i < p.len()
        invariant
            k + p.len() <= v.len(),
            i <= p.len(),
            v@.subrange(k as int, k + i) == p@.take(i as int),
        decreases p.len() - i,
    {
        if v[k + i] != p[i] {
            assert(v@.subrange(k as int, k + p.len())[i as int] != p@[i as int]);
            return false;
        }
        assert(v@.subrange(k as int, k + i + 1) == v@.subrange(k as int, k + i).push(v@[k + i]));
        assert(p@.take(i + 1) == p@.take(i as int).push(p@[i as int]));
        i += 1;
    }
    assert(p@.take(p.len() as int) == p@);
    true
}

pub fn has_prefix(v: &[char], p: &[char]) -> (r: bool)
    ensures
        r == starts_with(v@, p@),
{
    has_at(v, p, 0)
}

pub fn has_suffix(v: &[char], p: &[char]) -> (r: bool)
    ensures
        r == ends_with(v@, p@),
{
    if p.len() > v.len() {
        false
    } else {
        has_at(v, p, v.len() - p.len())
    }
}

/// Leftmost position at or after `k` where `p` occurs in `s`.
pub open spec fn find_from(s: Seq<char>, p: Seq<char>, k: int) -> Option<int>
    decreases s.len() + 1 - k,
{
    if k < 0 || k + p.len() > s.len() {
        None
    } else if matches_at(s, p, k) {
        Some(k)
    } else {
        find_from(s, p, k + 1)
    }
}

/// Leftmost position of `p` in `s` (`str::find`).
pub open spec fn find_seq(s: Seq<char>, p: Seq<char>) -> Option<int> {
    find_from(s, p, 0)
}

pub open spec fn contains_seq(s: Seq<char>, p: Seq<char>) -> bool {
    find_seq(s, p) is Some
}

pub proof fn lemma_find_from_bounds(s: Seq<char>, p: Seq<char>, k: int)
    requires
        0 <= k,
    ensures
        find_from(s, p, k) matches Some(i) ==> k <= i && matches_at(s, p, i) && (forall|j: int|
            k <= j < i ==> !matches_at(s, p, j)),
        find_from(s, p, k) is None ==> forall|j: int| k <= j ==> !matches_at(s, p, j),
    decreases s.len() + 1 - k,
{
    if k + p.len() > s.len() {
    } else if matches_at(s, p, k) {
    } else {
        lemma_find_from_bounds(s, p, k + 1);
    }
}

/// The leftmost position at or after `k` where `p` occurs in `v`.
pub fn find_chars_from(v: &[char], p: &[char], k: usize) -> (r: Option<usize>)
    ensures
        r matches Some(i) ==> find_from(v@, p@, k as int) == Some(i as int),
        r is None ==> find_from(v@, p@, k as int) is None,
{
    if k > v.len() {
        return None;
    }
    let mut i = k;
    while p.len() <= v.len() - i
        invariant
            k <= i <= v.len(),
            find_from(v@, p@, k as int) == find_from(v@, p@, i as int),
        decreases v.len() + 1 - i,
    {
        if has_at(v, p, i) {
            return Some(i);
        }
        if i == v.len() {
            assert(find_from(v@, p@, i + 1) is None);
            return None;
        }
        i += 1;
    }
    None
}

/// The leftmost position where `p` occurs in `v` (`str::find`).
pub fn find_chars(v: &[char], p: &[char]) -> (r: Option<usize>)
    ensures
        r matches Some(i) ==> find_seq(v@, p@) == Some(i as int),
        r is None ==> find_seq(v@, p@) is None,
{
    find_chars_from(v, p, 0)
}

/// Whether `v` contains the character `c`.
pub fn has_char(v: &[char], c: char) -> (r: bool)
    ensures
        r == v@.contains(c),
{
    let mut i: usize = 0;
    while i < v.len()
        invariant
            i <= v.len(),
            forall|j: int| 0 <= j < i ==> v@[j] != c,
        decreases v.len() - i,
    {
        if v[i] == c {
            assert(v@[i as int] == c);
            return true;
        }
        i += 1;
    }
    false
}

// ───────────────────────────── trimming ─────────────────────────────

pub open spec fn trim_start(s: Seq<char>) -> Seq<char>
    decreases s.len(),
{
    if s.len() > 0 && is_ws(s[0]) {
        trim_start(s.drop_first())
    } else {
        s
    }
}

pub open spec fn trim_end(s: Seq<char>) -> Seq<char>
    decreases s.len(),
{
    if s.len() > 0 && is_ws(s.last()) {
        trim_end(s.drop_last())
    } else {
        s
    }
}

/// `str::trim`.
pub open spec fn trim(s: Seq<char>) -> Seq<char> {
    trim_end(trim_start(s))
}

pub proof fn lemma_trim_start_at(s: Seq<char>, i: int)
    requires
        0 <= i <= s.len(),
        forall|j: int| 0 <= j < i ==> is_ws(s[j]),
    ensures
        trim_start(s) == trim_start(s.subrange(i, s.len() as int)),
    decreases i,
{
    if i > 0 {
        assert(s.drop_first().subrange(i - 1, s.drop_first().len() as int) == s.subrange(
            i,
            s.len() as int,
        ));
        lemma_trim_start_at(s.drop_first(), i - 1);
    } else {
        assert(s.subrange(0, s.len() as int) == s);
    }
}

pub proof fn lemma_trim_end_at(s: Seq<char>, e: int)
    requires
        0 <= e <= s.len(),
        forall|j: int| e <= j < s.len() ==> is_ws(s[j]),
    ensures
        trim_end(s) == trim_end(s.subrange(0, e)),
    decreases s.len() - e,
{
    if e < s.len() {
        assert(s.drop_last().subrange(0, e) == s.subrange(0, e));
        lemma_trim_end_at(s.drop_last(), e);
    } else {
        assert(s.subrange(0, e) == s);
    }
}

/// Bounds `(a, b)` such that `v[a..b]` is `v` with white space removed at both ends.
pub fn trim_bounds(v: &[char]) -> (r: (usize, usize))
    ensures
        r.0 <= r.1 <= v.len(),
        v@.subrange(r.0 as int, r.1 as int) == trim(v@),
        trim_start(v@) == v@.subrange(r.0 as int, v.len() as int),
{
    let mut a: usize = 0;
    while a < v.len() && is_whitespace(v[a])
        invariant
            a <= v.len(),
            forall|j: int| 0 <= j < a ==> is_ws(v@[j]),
        decreases v.len() - a,
    {
        a += 1;
    }
    proof {
        lemma_trim_start_at(v@, a as int);
    }
    let ghost t = v@.subrange(a as int, v.len() as int);
    assert(!(t.len() > 0 && is_ws(t[0])));
    assert(trim_start(v@) == t);
    let mut b: usize = v.len();
    while b > a && is_whitespace(v[b - 1])
        invariant
            a <= b <= v.len(),
            forall|j: int| b <= j < v.len() ==> is_ws(v@[j]),
        decreases b,
    {
        b -= 1;
    }
    proof {
        lemma_trim_end_at(t, b - a);
        assert(t.subrange(0, b - a) == v@.subrange(a as int, b as int));
        let u = v@.subrange(a as int, b as int);
        assert(!(u.len() > 0 && is_ws(u.last())));
    }
    (a, b)
}

/// `v` without leading and trailing white space.
pub fn trim_chars(v: &[char]) -> (r: Vec<char>)
    ensures
        r@ == trim(v@),
{
    let (a, b) = trim_bounds(v);
    slice_of(v, a, b)
}

/// `str::trim`, as a new string.
pub fn trim_str(s: &str) -> (r: String)
    ensures
        r@ == trim(s@),
{
    let v = chars_of(s);
    let t = trim_chars(&v);
    string_of(&t)
}

// ───────────────────────────── replacing ─────────────────────────────

/// `s` with every non-overlapping occurrence of the non-empty pattern `p`,
/// taken from the left, replaced by `r` (`str::replace`).
pub open spec fn replace_all(s: Seq<char>, p: Seq<char>, r: Seq<char>) -> Seq<char>
    decreases s.len(),
{
    if p.len() == 0 {
        replace_empty(s, r)
    } else {
        match find_seq(s, p) {
            None => s,
            Some(i) => if 0 <= i && i + p.len() <= s.len() {
                s.subrange(0, i) + r + replace_all(s.subrange(i + p.len(), s.len() as int), p, r)
            } else {
                s
            },
        }
    }
}

/// `str::replace` with an empty pattern: `r` before every character and at the end.
pub open spec fn replace_empty(s: Seq<char>, r: Seq<char>) -> Seq<char>
    decreases s.len(),
{
    if s.len() == 0 {
        r
    } else {
        r + seq![s[0]] + replace_empty(s.drop_first(), r)
    }
}

/// Replaces every occurrence of `p` in `v` by `r`, leftmost first (`str::replace`).
pub fn replace_chars(v: &[char], p: &[char], r: &[char]) -> (out: Vec<char>)
    ensures
        out@ == replace_all(v@, p@, r@),
    decreases v.len(),
{
    if p.len() == 0 {
        return replace_empty_chars(v, r);
    }
    match find_chars(v, p) {
        None => {
            let mut o: Vec<char> = Vec::new();
            o.extend_from_slice(v);
            o
        },
        Some(i) => {
            proof {
                lemma_find_from_bounds(v@, p@, 0);
            }
            let mut o = slice_of(v, 0, i);
            o.extend_from_slice(r);
            let rest = slice_of(v, i + p.len(), v.len());
            let tail = replace_chars(&rest, p, r);
            o.extend_from_slice(&tail);
            o
        },
    }
}

fn replace_empty_chars(v: &[char], r: &[char]) -> (out: Vec<char>)
    ensures
        out@ == replace_empty(v@, r@),
    decreases v.len(),
{
    let mut o: Vec<char> = Vec::new();
    o.extend_from_slice(r);
    if v.len() == 0 {
        return o;
    }
    o.push(v[0]);
    let rest = slice_of(v, 1, v.len());
    let tail = replace_empty_chars(&rest, r);
    o.extend_from_slice(&tail);
    assert(v@.drop_first() == v@.subrange(1, v.len() as int));
    o
}

// ───────────────────────────── splitting ─────────────────────────────

/// The pieces of `s` between the separators `c` (`str::split` on a character):
/// there is always one more piece than separators.
pub open spec fn split_char(s: Seq<char>, c: char) -> Seq<Seq<char>>
    decreases s.len(),
{
    if s.len() == 0 {
        seq![Seq::empty()]
    } else {
        let rest = split_char(s.drop_first(), c);
        if s[0] == c {
            seq![Seq::empty()] + rest
        } else {
            rest.update(0, seq![s[0]] + rest[0])
        }
    }
}

proof fn lemma_split_char_nonempty(s: Seq<char>, c: char)
    ensures
        split_char(s, c).len() >= 1,
    decreases s.len(),
{
    if s.len() > 0 {
        lemma_split_char_nonempty(s.drop_first(), c);
    }
}

/// `str::split` on a character.
pub fn split_on(v: &[char], c: char) -> (r: Vec<Vec<char>>)
    ensures
        r@.len() == split_char(v@, c).len(),
        forall|i: int| 0 <= i < r@.len() ==> #[trigger] r@[i]@ == split_char(v@, c)[i],
    decreases v.len(),
{
    if v.len() == 0 {
        let mut r: Vec<Vec<char>> = Vec::new();
        r.push(Vec::new());
        return r;
    }
    let rest = slice_of(v, 1, v.len());
    assert(rest@ == v@.drop_first());
    let mut tail = split_on(&rest, c);
    proof {
        lemma_split_char_nonempty(rest@, c);
    }
    if v[0] == c {
        let mut r: Vec<Vec<char>> = Vec::new();
        r.push(Vec::new());
        let mut j: usize = 0;
        while j < tail.len()
            invariant
                j <= tail.len(),
                tail@.len() == split_char(rest@, c).len(),
                forall|i: int| 0 <= i < tail@.len() ==> #[trigger] tail@[i]@ == split_char(rest@, c)[i],
                r@.len() == j + 1,
                r@[0]@ == Seq::<char>::empty(),
                forall|i: int| 1 <= i < r@.len() ==> #[trigger] r@[i]@ == split_char(rest@, c)[i - 1],
            decreases tail.len() - j,
        {
            let piece = slice_of(&tail[j], 0, tail[j].len());
            assert(piece@ == tail@[j as int]@);
            r.push(piece);
            j += 1;
        }
        r
    } else {
        let mut first: Vec<char> = Vec::new();
        first.push(v[0]);
        first.extend_from_slice(&tail[0]);
        tail.set(0, first);
        tail
    }
}

/// Maximal runs of non-white-space characters (`str::split_whitespace`).
pub open spec fn words(s: Seq<char>) -> Seq<Seq<char>>
    decreases s.len(),
{
    let t = trim_start(s);
    if t.len() == 0 {
        Seq::empty()
    } else {
        let w = word_len(t);
        proof {
            lemma_trim_start_len(s);
            lemma_word_len(t);
        }
        seq![t.take(w)] + words(t.skip(w))
    }
}

/// Length of the leading run of non-white-space characters.
pub open spec fn word_len(s: Seq<char>) -> int
    decreases s.len(),
{
    if s.len() == 0 || is_ws(s[0]) {
        0
    } else {
        1 + word_len(s.drop_first())
    }
}

pub proof fn lemma_word_len(s: Seq<char>)
    ensures
        0 <= word_len(s) <= s.len(),
        forall|j: int| 0 <= j < word_len(s) ==> !is_ws(s[j]),
        word_len(s) < s.len() ==> is_ws(s[word_len(s)]),
    decreases s.len(),
{
    if s.len() == 0 || is_ws(s[0]) {
    } else {
        lemma_word_len(s.drop_first());
        assert forall|j: int| 0 <= j < word_len(s) implies !is_ws(s[j]) by {
            if j > 0 {
                assert(s[j] == s.drop_first()[j - 1]);
            }
        }
    }
}

pub proof fn lemma_trim_start_len(s: Seq<char>)
    ensures
        trim_start(s).len() <= s.len(),
        trim_start(s) == s.subrange(s.len() - trim_start(s).len(), s.len() as int),
        trim_start(s).len() > 0 ==> !is_ws(trim_start(s)[0]),
    decreases s.len(),
{
    if s.len() > 0 && is_ws(s[0]) {
        lemma_trim_start_len(s.drop_first());
        assert(s.drop_first().subrange(
            s.drop_first().len() - trim_start(s).len(),
            s.drop_first().len() as int,
        ) == s.subrange(s.len() - trim_start(s).len(), s.len() as int));
    } else {
        assert(s.subrange(0, s.len() as int) == s);
    }
}

proof fn lemma_word_len_at(s: Seq<char>, i: int)
    requires
        0 <= i <= s.len(),
        forall|j: int| 0 <= j < i ==> !is_ws(s[j]),
        i == s.len() || is_ws(s[i]),
    ensures
        word_len(s) == i,
    decreases i,
{
    if i > 0 {
        assert forall|j: int| 0 <= j < i - 1 implies !is_ws(s.drop_first()[j]) by {
            assert(s.drop_first()[j] == s[j + 1]);
        }
        if i < s.len() {
            assert(s.drop_first()[i - 1] == s[i]);
        }
        lemma_word_len_at(s.drop_first(), i - 1);
    }
}

/// The views of a sequence of character vectors.
pub open spec fn views(r: Seq<Vec<char>>) -> Seq<Seq<char>> {
    r.map_values(|w: Vec<char>| w@)
}

pub proof fn lemma_views_push(r: Seq<Vec<char>>, x: Vec<char>)
    ensures
        views(r.push(x)) == views(r).push(x@),
{
    assert(views(r.push(x)) =~= views(r).push(x@));
}

/// Appends copies of every vector in `more` to `out`.
pub fn append_all(out: &mut Vec<Vec<char>>, more: &Vec<Vec<char>>)
    ensures
        views(final(out)@) == views(old(out)@) + views(more@),
{
    let ghost start = views(out@);
    let mut k: usize = 0;
    while k < more.len()
        invariant
            k <= more.len(),
            views(out@) == start + views(more@).take(k as int),
        decreases more.len() - k,
    {
        let q = slice_of(&more[k], 0, more[k].len());
        proof {
            lemma_views_push(out@, q);
            assert(views(more@)[k as int] == q@);
            assert(views(more@).take(k + 1) == views(more@).take(k as int).push(q@));
        }
        out.push(q);
        k += 1;
    }
    assert(views(more@).take(more@.len() as int) == views(more@));
}

/// `str::split_whitespace`.
pub fn split_words(v: &[char]) -> (r: Vec<Vec<char>>)
    ensures
        r@.len() == words(v@).len(),
        forall|i: int| 0 <= i < r@.len() ==> #[trigger] r@[i]@ == words(v@)[i],
{
    let mut r: Vec<Vec<char>> = Vec::new();
    let mut k: usize = 0;
    assert(v@.subrange(0, v.len() as int) == v@);
    assert(views(r@) + words(v@) == words(v@));
    loop
        invariant
            k <= v.len(),
            words(v@) == views(r@) + words(v@.subrange(k as int, v.len() as int)),
        ensures
            words(v@) == views(r@),
        decreases v.len() - k,
    {
        let ghost s = v@.subrange(k as int, v.len() as int);
        let mut a = k;
        while a < v.len() && is_whitespace(v[a])
            invariant
                k <= a <= v.len(),
                forall|j: int| k <= j < a ==> is_ws(v@[j]),
            decreases v.len() - a,
        {
            a += 1;
        }
        proof {
            lemma_trim_start_at(s, a - k);
            assert(s.subrange(a - k, s.len() as int) == v@.subrange(a as int, v.len() as int));
        }
        if a == v.len() {
            proof {
                assert(trim_start(s).len() == 0);
                assert(words(s) == Seq::<Seq<char>>::empty());
                assert(views(r@) + words(s) == views(r@));
            }
            break;
        }
        let mut b = a;
        while b < v.len() && !is_whitespace(v[b])
            invariant
                a <= b <= v.len(),
                forall|j: int| a <= j < b ==> !is_ws(v@[j]),
            decreases v.len() - b,
        {
            b += 1;
        }
        let ghost t = v@.subrange(a as int, v.len() as int);
        proof {
            assert(trim_start(s) == t);
            lemma_word_len_at(t, b - a);
            assert(t.take(b - a) == v@.subrange(a as int, b as int));
            assert(t.skip(b - a) == v@.subrange(b as int, v.len() as int));
        }
        let w = slice_of(v, a, b);
        let ghost before = views(r@);
        r.push(w);
        proof {
            assert(views(r@) == before.push(w@));
            assert(words(s) == seq![t.take(b - a)] + words(t.skip(b - a)));
        }
        k = b;
    }
    proof {
        let m = views(r@);
        assert forall|i: int| 0 <= i < r@.len() implies #[trigger] r@[i]@ == words(v@)[i] by {
            assert(m[i] == r@[i]@);
        }
    }
    r
}

/// Concatenation of `parts` with `sep` between neighbours (`slice::join`).
pub open spec fn join(parts: Seq<Seq<char>>, sep: Seq<char>) -> Seq<char>
    decreases parts.len(),
{
    if parts.len() == 0 {
        Seq::empty()
    } else if parts.len() == 1 {
        parts[0]
    } else {
        join(parts.drop_last(), sep) + sep + parts.last()
    }
}

/// Joins character sequences with a separator.
pub fn join_chars(parts: &Vec<Vec<char>>, sep: &[char]) -> (r: Vec<char>)
    ensures
        r@ == join(views(parts@), sep@),
{
    let ghost all = views(parts@);
    let mut r: Vec<char> = Vec::new();
    let mut i: usize = 0;
    while i < parts.len()
        invariant
            i <= parts.len(),
            all == views(parts@),
            r@ == join(all.take(i as int), sep@),
        decreases parts.len() - i,
    {
        if i > 0 {
            r.extend_from_slice(sep);
        }
        r.extend_from_slice(&parts[i]);
        proof {
            let t = all.take(i + 1);
            assert(t.drop_last() == all.take(i as int));
            assert(t.last() == parts@[i as int]@);
            if i == 0 {
                assert(t.len() == 1);
            }
        }
        i += 1;
    }
    assert(all.take(parts.len() as int) == all);
    r
}

// ───────────────────────────── numbers ─────────────────────────────

pub open spec fn digit_char(d: nat) -> char {
    ((d % 10) + 48) as char
}

/// Decimal digits of `n`, most significant first, without leading zeros.
pub open spec fn decimal(n: nat) -> Seq<char>
    decreases n,
{
    if n < 10 {
        seq![digit_char(n)]
    } else {
        decimal(n / 10).push(digit_char(n % 10))
    }
}

fn digit(d: u64) -> (c: char)
    requires
        d < 10,
    ensures
        c == digit_char(d as nat),
{
    char_from_ascii((d + 48) as u32)
}

/// Decimal text of `n` (`u64::to_string`).
pub fn decimal_chars(n: u64) -> (r: Vec<char>)
    ensures
        r@ == decimal(n as nat),
{
    let mut acc: Vec<char> = Vec::new();
    let mut q = n;
    while q >= 10
        invariant
            decimal(n as nat) == decimal(q as nat) + acc@,
        decreases q,
    {
        let c = digit(q % 10);
        acc.insert(0, c);
        proof {
            assert(decimal(q as nat) == decimal((q / 10) as nat).push(c));
            assert(decimal((q / 10) as nat).push(c) + acc@.drop_first() == decimal((q / 10) as nat) + acc@);
        }
        q = q / 10;
    }
    let c = digit(q);
    acc.insert(0, c);
    assert(decimal(q as nat) == seq![c]);
    assert(seq![c] + acc@.drop_first() == acc@);
    acc
}

/// Decimal text of a signed number: a minus sign before the digits of its magnitude.
pub open spec fn signed_decimal(n: int) -> Seq<char> {
    if n < 0 {
        seq!['-'] + decimal((-n) as nat)
    } else {
        decimal(n as nat)
    }
}

/// Decimal text of `n` (`i64::to_string`).
pub fn signed_decimal_chars(n: i64) -> (r: Vec<char>)
    ensures
        r@ == signed_decimal(n as int),
{
    if n < 0 {
        let m: u64 = if n == i64::MIN {
            0x8000_0000_0000_0000u64
        } else {
            (-n) as u64
        };
        let d = decimal_chars(m);
        let mut r: Vec<char> = Vec::new();
        r.push('-');
        r.extend_from_slice(&d);
        r
    } else {
        decimal_chars(n as u64)
    }
}

/// `s` preceded by `fill` characters up to `width` characters in all (`{:>width}`).
pub open spec fn pad_left(s: Seq<char>, width: nat, fill: char) -> Seq<char> {
    if s.len() >= width {
        s
    } else {
        Seq::new((width - s.len()) as nat, |_i: int| fill) + s
    }
}

/// `s` followed by spaces up to `width` characters in all (`{:<width}`).
pub open spec fn pad_right(s: Seq<char>, width: nat) -> Seq<char> {
    if s.len() >= width {
        s
    } else {
        s + Seq::new((width - s.len()) as nat, |_i: int| ' ')
    }
}

pub fn pad_left_chars(v: &[char], width: usize, fill: char) -> (r: Vec<char>)
    ensures
        r@ == pad_left(v@, width as nat, fill),
{
    let mut r: Vec<char> = Vec::new();
    if v.len() < width {
        let n = width - v.len();
        let mut i: usize = 0;
        while i < n
            invariant
                i <= n,
                r@ == Seq::new(i as nat, |_i: int| fill),
            decreases n - i,
        {
            r.push(fill);
            i += 1;
        }
    }
    r.extend_from_slice(v);
    r
}

pub fn pad_right_chars(v: &[char], width: usize) -> (r: Vec<char>)
    ensures
        r@ == pad_right(v@, width as nat),
{
    let mut r: Vec<char> = Vec::new();
    r.extend_from_slice(v);
    if v.len() < width {
        let n = width - v.len();
        let mut i: usize = 0;
        while i < n
            invariant
                i <= n,
                r@ == v@ + Seq::new(i as nat, |_i: int| ' '),
            decreases n - i,
        {
            r.push(' ');
            i += 1;
        }
    }
    r
}

/// Value of a digit in base `radix` (2..=36), as `char::to_digit` gives it.
pub open spec fn digit_value(c: char, radix: nat) -> Option<nat> {
    let v: int = if '0' <= c <= '9' {
        (c as int) - 48
    } else if 'a' <= c <= 'z' {
        (c as int) - 97 + 10
    } else if 'A' <= c <= 'Z' {
        (c as int) - 65 + 10
    } else {
        99
    };
    if v < radix {
        Some(v as nat)
    } else {
        None
    }
}

/// Value of a non-empty run of base-`radix` digits, or `None` if a character is not a digit.
pub open spec fn digits_value(s: Seq<char>, radix: nat) -> Option<nat>
    decreases s.len(),
{
    if s.len() == 0 {
        Some(0)
    } else {
        match (digits_value(s.drop_last(), radix), digit_value(s.last(), radix)) {
            (Some(a), Some(d)) => Some(a * radix + d),
            _ => None,
        }
    }
}

/// What `u64::from_str_radix(s, radix)` returns as long as the value is at most
/// `max`: an optional `+`, then at least one digit, every character a digit.
pub open spec fn parse_unsigned(s: Seq<char>, radix: nat, max: nat) -> Option<nat> {
    let b = if s.len() > 0 && s[0] == '+' {
        s.drop_first()
    } else {
        s
    };
    if b.len() == 0 {
        None
    } else {
        match digits_value(b, radix) {
            Some(v) => if v <= max {
                Some(v)
            } else {
                None
            },
            None => None,
        }
    }
}

proof fn lemma_digits_value_mono(s: Seq<char>, radix: nat, k: int)
    requires
        0 <= k <= s.len(),
        radix >= 1,
        digits_value(s, radix) is Some,
    ensures
        digits_value(s.take(k), radix) is Some,
        digits_value(s.take(k), radix)->0 <= digits_value(s, radix)->0,
    decreases s.len(),
{
    if k == s.len() {
        assert(s.take(k) == s);
    } else {
        assert(s.drop_last().take(k) == s.take(k));
        lemma_digits_value_mono(s.drop_last(), radix, k);
        let a = digits_value(s.drop_last(), radix)->0;
        let d = digit_value(s.last(), radix)->0;
        assert(a <= a * radix + d) by (nonlinear_arith)
            requires
                radix >= 1,
        ;
    }
}

/// Parses an unsigned number in base `radix` that must not exceed `max`
/// (`uN::from_str_radix`, `str::parse::<uN>`).
pub fn parse_unsigned_chars(v: &[char], radix: u64, max: u64) -> (r: Option<u64>)
    requires
        2 <= radix <= 36,
    ensures
        r matches Some(x) ==> parse_unsigned(v@, radix as nat, max as nat) == Some(x as nat),
        r is None ==> parse_unsigned(v@, radix as nat, max as nat) is None,
{
    let start: usize = if v.len() > 0 && v[0] == '+' {
        1
    } else {
        0
    };
    let ghost b = if v@.len() > 0 && v@[0] == '+' {
        v@.drop_first()
    } else {
        v@
    };
    assert(b == v@.subrange(start as int, v.len() as int));
    if start == v.len() {
        return None;
    }
    let mut acc: u64 = 0;
    let mut i = start;
    while i < v.len()
        invariant
            start <= i <= v.len(),
            2 <= radix <= 36,
            b == v@.subrange(start as int, v.len() as int),
            b == (if v@.len() > 0 && v@[0] == '+' {
                v@.drop_first()
            } else {
                v@
            }),
            b.len() > 0,
            digits_value(b.take(i - start), radix as nat) == Some(acc as nat),
            acc <= max,
        decreases v.len() - i,
    {
        let c = v[i];
        let d: u64 = if '0' <= c && c <= '9' {
            (c as u64) - 48
        } else if 'a' <= c && c <= 'z' {
            (c as u64) - 97 + 10
        } else if 'A' <= c && c <= 'Z' {
            (c as u64) - 65 + 10
        } else {
            99
        };
        let ghost t = b.take(i + 1 - start);
        assert(t.drop_last() == b.take(i - start));
        assert(t.last() == c);
        if d >= radix {
            assert(digit_value(c, radix as nat) is None);
            assert(digits_value(t, radix as nat) is None);
            proof {
                if digits_value(b, radix as nat) is Some {
                    lemma_digits_value_mono(b, radix as nat, i + 1 - start);
                }
            }
            return None;
        }
        assert(digit_value(c, radix as nat) == Some(d as nat));
        assert(digits_value(t, radix as nat) == Some((acc * radix + d) as nat));
        if d > max || acc > (max - d) / radix {
            proof {
                assert(acc * radix + d > max) by (nonlinear_arith)
                    requires
                        d > max || acc as int > ((max as int) - (d as int)) / (radix as int),
                        radix >= 2,
                        d < radix,
                        acc <= max,
                ;
                if digits_value(b, radix as nat) is Some {
                    lemma_digits_value_mono(b, radix as nat, i + 1 - start);
                }
            }
            return None;
        }
        assert(acc * radix + d <= max) by (nonlinear_arith)
            requires
                acc as int <= ((max as int) - (d as int)) / (radix as int),
                radix >= 2,
                d <= max,
        ;
        acc = acc * radix + d;
        i += 1;
    }
    assert(b.take(v.len() - start) == b);
    Some(acc)
}

} // verus!

verus! {

// ───────────────────────────── lines ─────────────────────────────

/// A line without the `\r` of a `\r\n` ending.
pub open spec fn strip_cr(x: Seq<char>) -> Seq<char> {
    if x.len() > 0 && x.last() == '\r' {
        x.drop_last()
    } else {
        x
    }
}

/// `str::lines`: the text split at `\n`, a `\r` before the `\n` dropped, and
/// no empty line after a final `\n`.
pub open spec fn lines_of(s: Seq<char>) -> Seq<Seq<char>>
    decreases s.len(),
{
    if s.len() == 0 {
        Seq::empty()
    } else {
        match find_seq(s, seq!['\n']) {
            Some(i) => if 0 <= i < s.len() {
                seq![strip_cr(s.take(i))] + lines_of(s.skip(i + 1))
            } else {
                Seq::empty()
            },
            None => seq![s],
        }
    }
}

/// `str::lines`.
pub fn split_lines(v: &Vec<char>) -> (r: Vec<Vec<char>>)
    ensures
        views(r@) == lines_of(v@),
    decreases v@.len(),
{
    let mut out: Vec<Vec<char>> = Vec::new();
    assert(views(out@) =~= Seq::<Seq<char>>::empty());
    if v.len() == 0 {
        return out;
    }
    let nl: Vec<char> = vec!['\n'];
    assert(nl@ == seq!['\n']);
    match find_chars(v, &nl) {
        Some(i) => {
            proof {
                lemma_find_from_bounds(v@, nl@, 0);
            }
            let mut first = slice_of(v, 0, i);
            if first.len() > 0 && first[first.len() - 1] == '\r' {
                first.pop();
            }
            assert(first@ == strip_cr(v@.take(i as int)));
            proof {
                lemma_views_push(out@, first);
            }
            out.push(first);
            let rest = slice_of(v, i + 1, v.len());
            assert(rest@ == v@.skip(i + 1));
            let tail = split_lines(&rest);
            let ghost head = views(out@);
            append_all(&mut out, &tail);
            assert(head == seq![strip_cr(v@.take(i as int))]);
            out
        },
        None => {
            let all = slice_of(v, 0, v.len());
            assert(all@ =~= v@);
            proof {
                lemma_views_push(out@, all);
            }
            out.push(all);
            out
        },
    }
}

/// `s` without any leading or trailing `c` (`str::trim_matches` with a character).
pub open spec fn trim_char(s: Seq<char>, c: char) -> Seq<char>
    decreases s.len(),
{
    if s.len() > 0 && s[0] == c {
        trim_char(s.drop_first(), c)
    } else if s.len() > 0 && s.last() == c {
        trim_char(s.drop_last(), c)
    } else {
        s
    }
}

pub fn trim_char_chars(v: &Vec<char>, c: char) -> (r: Vec<char>)
    ensures
        r@ == trim_char(v@, c),
    decreases v@.len(),
{
    if v.len() > 0 && v[0] == c {
        let rest = slice_of(v, 1, v.len());
        assert(rest@ =~= v@.drop_first());
        trim_char_chars(&rest, c)
    } else if v.len() > 0 && v[v.len() - 1] == c {
        let rest = slice_of(v, 0, v.len() - 1);
        assert(rest@ =~= v@.drop_last());
        trim_char_chars(&rest, c)
    } else {
        slice_of(v, 0, v.len())
    }
}

/// `s` without any number of leading copies of the non-empty `p` (`str::trim_start_matches`).
pub open spec fn strip_prefixes(s: Seq<char>, p: Seq<char>) -> Seq<char>
    decreases s.len(),
{
    if p.len() > 0 && starts_with(s, p) {
        strip_prefixes(s.skip(p.len() as int), p)
    } else {
        s
    }
}

pub fn strip_prefixes_chars(v: &Vec<char>, p: &Vec<char>) -> (r: Vec<char>)
    ensures
        r@ == strip_prefixes(v@, p@),
    decreases v@.len(),
{
    if p.len() > 0 && has_prefix(v, p) {
        let rest = slice_of(v, p.len(), v.len());
        assert(rest@ =~= v@.skip(p@.len() as int));
        strip_prefixes_chars(&rest, p)
    } else {
        slice_of(v, 0, v.len())
    }
}

} // verus!

verus! {

/// The end `b` such that `v[..b]` is `v` without trailing white space.
pub fn trim_end_bounds(v: &[char]) -> (r: (usize, usize))
    ensures
        r.1 <= v.len(),
        v@.subrange(0, r.1 as int) == trim_end(v@),
{
    let mut b: usize = v.len();
    while b > 0 && is_whitespace(v[b - 1])
        invariant
            b <= v.len(),
            forall|j: int| b <= j < v.len() ==> is_ws(v@[j]),
        decreases b,
    {
        b -= 1;
    }
    proof {
        lemma_trim_end_at(v@, b as int);
        let u = v@.subrange(0, b as int);
        assert(!(u.len() > 0 && is_ws(u.last())));
    }
    (0, b)
}

} // verus!

verus! {

// ───────────────────────────── UTF-8 lengths ─────────────────────────────

/// Bytes of `c` in UTF-8 (`char::len_utf8`).
pub open spec fn utf8_width(c: char) -> nat {
    let n = c as u32;
    if n < 0x80 {
        1
    } else if n < 0x800 {
        2
    } else if n < 0x10000 {
        3
    } else {
        4
    }
}

/// Bytes of `s` in UTF-8 (`str::len`).
pub open spec fn byte_len(s: Seq<char>) -> nat
    decreases s.len(),
{
    if s.len() == 0 {
        0
    } else {
        byte_len(s.drop_last()) + utf8_width(s.last())
    }
}

pub fn char_width(c: char) -> (r: usize)
    ensures
        r == utf8_width(c),
{
    let n = c as u32;
    if n < 0x80 {
        1
    } else if n < 0x800 {
        2
    } else if n < 0x10000 {
        3
    } else {
        4
    }
}

/// Whether byte offset `n` of `s` falls between two characters.
pub open spec fn is_boundary(s: Seq<char>, n: nat) -> bool {
    exists|k: int| 0 <= k <= s.len() && byte_len(s.take(k)) == n
}

pub proof fn lemma_byte_len_take_mono(s: Seq<char>, a: int, b: int)
    requires
        0 <= a <= b <= s.len(),
    ensures
        byte_len(s.take(a)) <= byte_len(s.take(b)),
        a < b ==> byte_len(s.take(a)) < byte_len(s.take(b)),
    decreases b - a,
{
    if a < b {
        lemma_byte_len_take_mono(s, a, b - 1);
        assert(s.take(b).drop_last() == s.take(b - 1));
    }
}

/// The number of characters that make up the first `n` bytes of `v`, when
/// byte `n` is a character boundary.
pub fn chars_in_bytes(v: &Vec<char>, n: usize) -> (r: Option<usize>)
    ensures
        match r {
            Some(k) => k <= v@.len() && byte_len(v@.take(k as int)) == n,
            None => !is_boundary(v@, n as nat),
        },
{
    let mut k: usize = 0;
    let mut acc: usize = 0;
    loop
        invariant
            k <= v@.len(),
            acc == byte_len(v@.take(k as int)),
            acc <= n,
        decreases v@.len() - k,
    {
        if acc == n {
            return Some(k);
        }
        if k == v.len() {
            proof {
                assert forall|j: int| 0 <= j <= v@.len() implies byte_len(#[trigger] v@.take(j)) != n by {
                    lemma_byte_len_take_mono(v@, j, k as int);
                }
            }
            return None;
        }
        let w = char_width(v[k]);
        assert(v@.take(k + 1).drop_last() == v@.take(k as int));
        if w > n - acc {
            proof {
                assert forall|j: int| 0 <= j <= v@.len() implies byte_len(#[trigger] v@.take(j)) != n by {
                    if j <= k {
                        lemma_byte_len_take_mono(v@, j, k as int);
                    } else {
                        lemma_byte_len_take_mono(v@, k + 1, j);
                    }
                }
            }
            return None;
        }
        acc = acc + w;
        k += 1;
    }
}

/// Byte length of `v` (`str::len`).
pub fn byte_length(v: &Vec<char>) -> (r: usize)
    requires
        byte_len(v@) <= usize::MAX,
    ensures
        r == byte_len(v@),
{
    let mut k: usize = 0;
    let mut acc: usize = 0;
    while k < v.len()
        invariant
            k <= v@.len(),
            acc == byte_len(v@.take(k as int)),
            byte_len(v@) <= usize::MAX,
        decreases v@.len() - k,
    {
        assert(v@.take(k + 1).drop_last() == v@.take(k as int));
        proof {
            lemma_byte_len_take_mono(v@, k + 1, v@.len() as int);
            assert(v@.take(v@.len() as int) == v@);
        }
        acc = acc + char_width(v[k]);
        k += 1;
    }
    assert(v@.take(v@.len() as int) == v@);
    acc
}

} // verus!

verus! {

/// Whether `v` takes more than `n` bytes in UTF-8.
pub fn longer_than_bytes(v: &Vec<char>, n: usize) -> (r: bool)
    ensures
        r == (byte_len(v@) > n),
{
    let mut k: usize = 0;
    let mut acc: usize = 0;
    while k < v.len()
        invariant
            k <= v@.len(),
            acc == byte_len(v@.take(k as int)),
            acc <= n,
        decreases v@.len() - k,
    {
        let w = char_width(v[k]);
        assert(v@.take(k + 1).drop_last() == v@.take(k as int));
        if w > n - acc {
            proof {
                lemma_byte_len_take_mono(v@, k + 1, v@.len() as int);
                assert(v@.take(v@.len() as int) == v@);
            }
            return true;
        }
        acc = acc + w;
        k += 1;
    }
    assert(v@.take(v@.len() as int) == v@);
    false
}

} // verus!

verus! {

proof fn lemma_byte_len_bound(s: Seq<char>)
    ensures
        byte_len(s) <= 4 * s.len(),
    decreases s.len(),
{
    if s.len() > 0 {
        lemma_byte_len_bound(s.drop_last());
    }
}

/// Byte length of `v` in UTF-8 (`str::len`), in a type wide enough for any
/// vector of characters.
pub fn byte_count(v: &[char]) -> (r: u128)
    ensures
        r == byte_len(v@),
{
    let mut k: usize = 0;
    let mut acc: u128 = 0;
    while k < v.len()
        invariant
            k <= v@.len(),
            acc == byte_len(v@.take(k as int)),
        decreases v@.len() - k,
    {
        assert(v@.take(k + 1).drop_last() == v@.take(k as int));
        proof { lemma_byte_len_bound(v@.take(k as int)); }
        acc = acc + char_width(v[k]) as u128;
        k += 1;
    }
    assert(v@.take(v@.len() as int) == v@);
    acc
}

} // verus!

verus! {

/// The view of an optional string.
pub open spec fn opt_string_view(o: Option<String>) -> Option<Seq<char>> {
    match o {
        Some(s) => Some(s@),
        None => None,
    }
}

} // verus!

verus! {

/// A decimal numeral reads back as the number it was written for: every
/// character is a digit and their value is `n`.
pub proof fn lemma_decimal_reads_back(n: nat)
    ensures
        decimal(n).len() >= 1,
        forall|i: int| 0 <= i < decimal(n).len() ==> '0' <= #[trigger] decimal(n)[i] <= '9',
        digits_value(decimal(n), 10) == Some(n),
    decreases n,
{
    let d = n % 10;
    assert(digit_char(d) as int == d + 48);
    assert(digit_value(digit_char(d), 10) == Some(d));
    if n < 10 {
        assert(decimal(n) == seq![digit_char(n)]);
        assert(d == n);
        assert(decimal(n).drop_last() =~= Seq::<char>::empty());
        assert(digits_value(decimal(n).drop_last(), 10) == Some(0nat));
        assert(decimal(n).last() == digit_char(d));
    } else {
        lemma_decimal_reads_back(n / 10);
        let s = decimal(n / 10);
        assert(decimal(n) == s.push(digit_char(d)));
        assert(decimal(n).drop_last() == s);
        assert(forall|i: int| 0 <= i < s.len() ==> decimal(n)[i] == s[i]);
        assert((n / 10) * 10 + d == n);
        assert(decimal(n).last() == digit_char(d));
        assert(digits_value(decimal(n), 10) == Some((n / 10) * 10 + d));
    }
}

} // verus!
