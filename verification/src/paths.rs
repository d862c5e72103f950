//! File names and extensions of paths written as text, with both `/` and `\` as
//! separators (as on Windows, where the tool runs). A drive prefix such as `C:` gets no
//! special treatment: it only matters for paths that name no file.
use vstd::prelude::*;

use crate::chars::slice_chars;

verus! {

/// Whether `c` separates the components of a path.
pub open spec fn is_sep(c: char) -> bool {
    c == '/' || c == '\\'
}

/// `s` without its trailing separators.
pub open spec fn trim_seps_end(s: Seq<char>) -> Seq<char>
    decreases s.len(),
{
    if s.len() > 0 && is_sep(s.last()) {
        trim_seps_end(s.drop_last())
    } else {
        s
    }
}

/// The position of the last separator of `s`.
pub open spec fn last_sep(s: Seq<char>) -> Option<int>
    decreases s.len(),
{
    if s.len() == 0 {
        None
    } else if is_sep(s.last()) {
        Some(s.len() - 1)
    } else {
        last_sep(s.drop_last())
    }
}

/// The position of the last `.` of `s`.
pub open spec fn last_dot(s: Seq<char>) -> Option<int>
    decreases s.len(),
{
    if s.len() == 0 {
        None
    } else if s.last() == '.' {
        Some(s.len() - 1)
    } else {
        last_dot(s.drop_last())
    }
}

/// The text after the last separator of `t`.
pub open spec fn final_component(t: Seq<char>) -> Seq<char> {
    match last_sep(t) {
        Some(p) => t.skip(p + 1),
        None => t,
    }
}

/// `"."`
pub open spec fn dot() -> Seq<char> {
    seq!['.']
}

/// `".."`
pub open spec fn dotdot() -> Seq<char> {
    seq!['.', '.']
}

pub proof fn lemma_trim_seps_len(s: Seq<char>)
    ensures
        trim_seps_end(s).len() <= s.len(),
        trim_seps_end(s) == s.take(trim_seps_end(s).len() as int),
    decreases s.len(),
{
    if s.len() > 0 && is_sep(s.last()) {
        lemma_trim_seps_len(s.drop_last());
        assert(s.drop_last().take(trim_seps_end(s).len() as int) =~= s.take(
            trim_seps_end(s).len() as int,
        ));
    } else {
        assert(s.take(s.len() as int) =~= s);
    }
}

pub proof fn lemma_last_sep(s: Seq<char>)
    ensures
        match last_sep(s) {
            Some(p) => 0 <= p < s.len() && is_sep(s[p]) && forall|j: int|
                p < j < s.len() ==> !is_sep(#[trigger] s[j]),
            None => forall|j: int| 0 <= j < s.len() ==> !is_sep(#[trigger] s[j]),
        },
    decreases s.len(),
{
    if s.len() > 0 && !is_sep(s.last()) {
        lemma_last_sep(s.drop_last());
        assert forall|j: int| 0 <= j < s.len() - 1 implies s[j] == s.drop_last()[j] by {}
    }
}

pub proof fn lemma_last_dot(s: Seq<char>)
    ensures
        match last_dot(s) {
            Some(p) => 0 <= p < s.len() && s[p] == '.' && forall|j: int|
                p < j < s.len() ==> #[trigger] s[j] != '.',
            None => forall|j: int| 0 <= j < s.len() ==> #[trigger] s[j] != '.',
        },
    decreases s.len(),
{
    if s.len() > 0 && s.last() != '.' {
        lemma_last_dot(s.drop_last());
        assert forall|j: int| 0 <= j < s.len() - 1 implies s[j] == s.drop_last()[j] by {}
    }
}

/// The file name of a path (`Path::file_name`): its last component once trailing
/// separators and trailing `.` components are dropped; none when that component is
/// empty, `.` or `..`.
pub open spec fn path_file_name(s: Seq<char>) -> Option<Seq<char>>
    decreases s.len(),
{
    let t = trim_seps_end(s);
    let c = final_component(t);
    if c == dot() && c.len() < t.len() {
        proof {
            lemma_trim_seps_len(s);
        }
        path_file_name(t.drop_last())
    } else if c.len() == 0 || c == dot() || c == dotdot() {
        None
    } else {
        Some(c)
    }
}

/// The extension of a path (`Path::extension`): the text after the last `.` of its
/// file name, when that `.` is not the first character of the name.
pub open spec fn path_extension(s: Seq<char>) -> Option<Seq<char>> {
    match path_file_name(s) {
        Some(n) => match last_dot(n) {
            Some(p) => if p == 0 {
                None
            } else {
                Some(n.skip(p + 1))
            },
            None => None,
        },
        None => None,
    }
}

fn trim_seps_end_vec(v: &[char]) -> (r: Vec<char>)
    ensures
        r@ == trim_seps_end(v@),
{
    let mut i: usize = v.len();
    assert(v@.take(v@.len() as int) =~= v@);
    while i > 0 && (v[i - 1] == '/' || v[i - 1] == '\\')
        invariant
            i <= v@.len(),
            trim_seps_end(v@) == trim_seps_end(v@.take(i as int)),
        decreases i,
    {
        assert(v@.take(i as int).drop_last() =~= v@.take(i - 1));
        i -= 1;
    }
    slice_chars(v, 0, i)
}

fn final_component_vec(t: &[char]) -> (r: Vec<char>)
    ensures
        r@ == final_component(t@),
{
    let mut i: usize = t.len();
    assert(t@.take(t@.len() as int) =~= t@);
    while i > 0 && !(t[i - 1] == '/' || t[i - 1] == '\\')
        invariant
            i <= t@.len(),
            last_sep(t@) == last_sep(t@.take(i as int)),
        decreases i,
    {
        assert(t@.take(i as int).drop_last() =~= t@.take(i - 1));
        i -= 1;
    }
    if i == 0 {
        assert(last_sep(t@.take(0)) is None);
        let r = slice_chars(t, 0, t.len());
        assert(r@ =~= t@);
        r
    } else {
        assert(last_sep(t@.take(i as int)) == Some(i - 1));
        let r = slice_chars(t, i, t.len());
        assert(r@ =~= t@.skip(i as int));
        r
    }
}

fn is_dot(c: &[char]) -> (r: bool)
    ensures
        r == (c@ == dot()),
{
    if c.len() == 1 && c[0] == '.' {
        assert(c@ =~= dot());
        true
    } else {
        false
    }
}

fn is_dotdot(c: &[char]) -> (r: bool)
    ensures
        r == (c@ == dotdot()),
{
    if c.len() == 2 && c[0] == '.' && c[1] == '.' {
        assert(c@ =~= dotdot());
        true
    } else {
        false
    }
}

/// Executable form of [`path_file_name`].
pub fn file_name_chars(path: &[char]) -> (r: Option<Vec<char>>)
    ensures
        match r {
            Some(n) => path_file_name(path@) == Some(n@),
            None => path_file_name(path@) is None,
        },
{
    let mut s = slice_chars(path, 0, path.len());
    assert(s@ =~= path@);
    loop
        invariant
            path_file_name(path@) == path_file_name(s@),
        decreases s@.len(),
    {
        let t = trim_seps_end_vec(&s);
        let c = final_component_vec(&t);
        proof {
            lemma_trim_seps_len(s@);
        }
        if is_dot(&c) && c.len() < t.len() {
            s = slice_chars(&t, 0, t.len() - 1);
            assert(s@ =~= t@.drop_last());
        } else if c.len() == 0 || is_dot(&c) || is_dotdot(&c) {
            return None;
        } else {
            return Some(c);
        }
    }
}

/// Executable form of [`path_extension`].
pub fn extension_chars(path: &[char]) -> (r: Option<Vec<char>>)
    ensures
        match r {
            Some(e) => path_extension(path@) == Some(e@),
            None => path_extension(path@) is None,
        },
{
    match file_name_chars(path) {
        Some(n) => {
            let mut i: usize = n.len();
            assert(n@.take(n@.len() as int) =~= n@);
            while i > 0 && n[i - 1] != '.'
                invariant
                    i <= n@.len(),
                    last_dot(n@) == last_dot(n@.take(i as int)),
                decreases i,
            {
                assert(n@.take(i as int).drop_last() =~= n@.take(i - 1));
                i -= 1;
            }
            if i == 0 {
                assert(last_dot(n@.take(0)) is None);
                None
            } else {
                assert(last_dot(n@.take(i as int)) == Some(i - 1));
                if i == 1 {
                    None
                } else {
                    let e = slice_chars(&n, i, n.len());
                    assert(e@ =~= n@.skip(i as int));
                    Some(e)
                }
            }
        },
        None => None,
    }
}

} // verus!
