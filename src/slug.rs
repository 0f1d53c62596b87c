//! Migration names as slugs: separators trimmed at both ends and each run of
//! them inside turned into one underscore.

use vstd::prelude::*;

use crate::text::chars_of;

verus! {

broadcast use vstd::string::group_string_axioms;

/// Is `c` a character with the Unicode White_Space property?
pub open spec fn is_white_space(c: char) -> bool {
    ('\t' <= c && c <= '\r') || c == ' ' || c == '\u{85}' || c == '\u{a0}' || c == '\u{1680}' || (
    '\u{2000}' <= c && c <= '\u{200a}') || c == '\u{2028}' || c == '\u{2029}' || c == '\u{202f}'
        || c == '\u{205f}' || c == '\u{3000}'
}

/// Does `c` separate the words of a name: a hyphen, white space, `.`, `_`,
/// `/`, `\` or `~`?
pub open spec fn is_separator(c: char) -> bool {
    c == '-' || is_white_space(c) || c == '.' || c == '_' || c == '/' || c == '\\' || c == '~'
}

/// `s` without the separators it starts with.
pub open spec fn trim_start(s: Seq<char>) -> Seq<char>
    decreases s.len(),
{
    if s.len() > 0 && is_separator(s[0]) {
        trim_start(s.drop_first())
    } else {
        s
    }
}

/// `s` without the separators it ends with.
pub open spec fn trim_end(s: Seq<char>) -> Seq<char>
    decreases s.len(),
{
    if s.len() > 0 && is_separator(s.last()) {
        trim_end(s.drop_last())
    } else {
        s
    }
}

/// `t` with each run of separators replaced by one underscore.
pub open spec fn collapse(t: Seq<char>) -> Seq<char>
    decreases t.len(),
{
    if t.len() == 0 {
        t
    } else if !is_separator(t.last()) {
        collapse(t.drop_last()).push(t.last())
    } else if t.len() >= 2 && is_separator(t[t.len() - 2]) {
        collapse(t.drop_last())
    } else {
        collapse(t.drop_last()).push('_')
    }
}

/// The slug of `s`.
pub open spec fn slug(s: Seq<char>) -> Seq<char> {
    collapse(trim_end(trim_start(s)))
}

/// Is `c` a separator?
fn separator(c: char) -> (r: bool)
    ensures
        r == is_separator(c),
{
    c == '-' || ('\t' <= c && c <= '\r') || c == ' ' || c == '\u{85}' || c == '\u{a0}' || c
        == '\u{1680}' || ('\u{2000}' <= c && c <= '\u{200a}') || c == '\u{2028}' || c == '\u{2029}'
        || c == '\u{202f}' || c == '\u{205f}' || c == '\u{3000}' || c == '.' || c == '_' || c == '/'
        || c == '\\' || c == '~'
}

/// The slug of a migration name: separators (hyphens, white space, `.`,
/// `_`, `/`, `\`, `~`) removed at both ends, and each run of them inside
/// replaced by one underscore.
pub fn slugify(s: &str) -> (r: String)
    ensures
        r@ == slug(s@),
{
    let cs = chars_of(s);
    let n = cs.len();
    let mut a: usize = 0;
    assert(s@.subrange(0, n as int) =~= s@);
    while a < n && separator(cs[a])
        invariant
            cs@ == s@,
            n == s@.len(),
            a <= n,
            trim_start(s@) == trim_start(s@.subrange(a as int, n as int)),
        decreases n - a,
    {
        assert(s@.subrange(a as int, n as int).drop_first() =~= s@.subrange(a + 1, n as int));
        a = a + 1;
    }
    assert(trim_start(s@) == s@.subrange(a as int, n as int));
    let mut b: usize = n;
    while b > a && separator(cs[b - 1])
        invariant
            cs@ == s@,
            n == s@.len(),
            a <= b <= n,
            trim_end(s@.subrange(a as int, n as int)) == trim_end(s@.subrange(a as int, b as int)),
        decreases b,
    {
        assert(s@.subrange(a as int, b as int).drop_last() =~= s@.subrange(a as int, b - 1));
        b = b - 1;
    }
    let ghost t = s@.subrange(a as int, b as int);
    assert(trim_end(t) == t);
    assert(slug(s@) == collapse(t));
    let mut out = String::new();
    let mut rs: usize = a;
    let mut j: usize = a;
    while j < b
        invariant
            cs@ == s@,
            n == s@.len(),
            a <= rs <= j <= b <= n,
            t == s@.subrange(a as int, b as int),
            a < b ==> !is_separator(s@[a as int]),
            forall|i: int| rs <= i < j ==> !is_separator(#[trigger] s@[i]),
            collapse(t.take(j - a)) == out@ + s@.subrange(rs as int, j as int),
        decreases b - j,
    {
        let ghost u = t.take(j + 1 - a);
        assert(u.drop_last() =~= t.take(j - a));
        assert(u.last() == s@[j as int]);
        if separator(cs[j]) {
            assert(j > a);
            assert(u[u.len() - 2] == s@[j - 1]);
            if !separator(cs[j - 1]) {
                let run = s.substring_char(rs, j);
                out.append(run);
                proof {
                    reveal_strlit("_");
                }
                out.append("_");
                assert(collapse(u) =~= out@ + s@.subrange(j + 1, j + 1));
            } else {
                assert(rs == j);
                assert(collapse(u) =~= out@ + s@.subrange(j + 1, j + 1));
            }
            rs = j + 1;
        } else {
            assert(collapse(u) =~= out@ + s@.subrange(rs as int, j + 1));
        }
        j = j + 1;
    }
    let run = s.substring_char(rs, b);
    out.append(run);
    assert(t.take(b - a) =~= t);
    assert(out@ =~= slug(s@));
    out
}

} // verus!
