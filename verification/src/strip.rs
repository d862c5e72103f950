//! Removing comment lines from an NC program.
//!
//! A line is a comment when it starts (after leading white space) with one of the
//! comment characters, or, in the `contains` mode, when it holds one anywhere. Comment
//! lines that hold one of the "keep" fragments stay.
use vstd::prelude::*;

use crate::chars::{
    contains_char_vec, contains_sub, contains_sub_vec, find_char, find_char_vec, from_chars,
    join, join_strings, lemma_find_char, lines_of, slice_chars, starts_with_char, string_seqs,
    to_chars, trim, trim_start, trim_start_vec, trim_vec,
};
use crate::text::{decode_utf8_lossy, text_lines, utf8_lossy};

verus! {

/// The pieces of `s` split at every `c` (`s.split(c)`); there is always at least one.
pub open spec fn pieces(s: Seq<char>, c: char) -> Seq<Seq<char>>
    decreases s.len(),
{
    match find_char(s, c) {
        Some(p) => {
            proof {
                lemma_find_char(s, c);
            }
            seq![s.take(p)] + pieces(s.skip(p + 1), c)
        },
        None => seq![s],
    }
}

/// The trimmed pieces that are not empty, in order.
pub open spec fn nonempty_trimmed(ps: Seq<Seq<char>>) -> Seq<Seq<char>>
    decreases ps.len(),
{
    if ps.len() == 0 {
        seq![]
    } else {
        let r = nonempty_trimmed(ps.drop_last());
        if trim(ps.last()).len() > 0 {
            r.push(trim(ps.last()))
        } else {
            r
        }
    }
}

/// The fragments that keep a comment line: the `keep_string` setting split at commas,
/// each piece trimmed, empty pieces dropped; none without the setting.
pub open spec fn keep_fragments(keep_string: Option<Seq<char>>) -> Seq<Seq<char>> {
    match keep_string {
        Some(k) => nonempty_trimmed(pieces(k, ',')),
        None => seq![],
    }
}

/// The characters that begin a comment: the `comment_chars` setting, or `;`.
pub open spec fn comment_set(comment_chars: Option<Seq<char>>) -> Seq<char> {
    match comment_chars {
        Some(c) => c,
        None => seq![';'],
    }
}

/// `"contains"`
pub open spec fn contains_word() -> Seq<char> {
    seq!['c', 'o', 'n', 't', 'a', 'i', 'n', 's']
}

/// Whether a `strip_mode` setting selects the `contains` mode (any other value, or
/// none, means `starts-with`).
pub open spec fn contains_mode(strip_mode: Option<Seq<char>>) -> bool {
    strip_mode == Some(contains_word())
}

/// Whether a line is a comment line.
pub open spec fn is_comment_line(line: Seq<char>, cs: Seq<char>, anywhere: bool) -> bool {
    if anywhere {
        exists|i: int| 0 <= i < cs.len() && line.contains(#[trigger] cs[i])
    } else {
        exists|i: int| 0 <= i < cs.len() && starts_with_char(trim_start(line), #[trigger] cs[i])
    }
}

/// Whether a line stays: it is not a comment line, or it holds a keep fragment.
pub open spec fn keeps_line(line: Seq<char>, keep: Seq<Seq<char>>, cs: Seq<char>, anywhere: bool) -> bool {
    !is_comment_line(line, cs, anywhere) || exists|j: int|
        0 <= j < keep.len() && contains_sub(line, #[trigger] keep[j])
}

/// The lines that stay, in order.
pub open spec fn kept_lines(
    ls: Seq<Seq<char>>,
    keep: Seq<Seq<char>>,
    cs: Seq<char>,
    anywhere: bool,
) -> Seq<Seq<char>>
    decreases ls.len(),
{
    if ls.len() == 0 {
        seq![]
    } else {
        let r = kept_lines(ls.drop_last(), keep, cs, anywhere);
        if keeps_line(ls.last(), keep, cs, anywhere) {
            r.push(ls.last())
        } else {
            r
        }
    }
}

/// The result of stripping comments from a program: the lines that stay and the
/// number of lines removed.
pub struct StripOutcome {
    pub kept: Vec<String>,
    pub removed: usize,
}

fn pieces_vec(s: &[char], c: char) -> (r: Vec<Vec<char>>)
    ensures
        r@.map_values(|x: Vec<char>| x@) == pieces(s@, c),
{
    let mut out: Vec<Vec<char>> = Vec::new();
    let mut rest = slice_chars(s, 0, s.len());
    assert(rest@ =~= s@);
    loop
        invariant
            pieces(s@, c) == out@.map_values(|x: Vec<char>| x@) + pieces(rest@, c),
        decreases rest@.len(),
    {
        match find_char_vec(&rest, c) {
            Some(p) => {
                proof {
                    lemma_find_char(rest@, c);
                }
                let head = slice_chars(&rest, 0, p);
                let tail = slice_chars(&rest, p + 1, rest.len());
                assert(tail@ =~= rest@.skip(p + 1));
                let ghost before = out@.map_values(|x: Vec<char>| x@);
                out.push(head);
                assert(out@.map_values(|x: Vec<char>| x@) =~= before.push(head@));
                rest = tail;
            },
            None => {
                let ghost before = out@.map_values(|x: Vec<char>| x@);
                out.push(rest);
                assert(out@.map_values(|x: Vec<char>| x@) =~= before + seq![rest@]);
                return out;
            },
        }
    }
}

/// The keep fragments of a `keep_string` setting (see [`keep_fragments`]).
pub fn keep_fragments_vec(keep_string: Option<&str>) -> (r: Vec<Vec<char>>)
    ensures
        r@.map_values(|x: Vec<char>| x@) == keep_fragments(
            match keep_string {
                Some(k) => Some(k@),
                None => None,
            },
        ),
{
    match keep_string {
        None => {
            let r: Vec<Vec<char>> = Vec::new();
            assert(r@.map_values(|x: Vec<char>| x@) =~= Seq::<Seq<char>>::empty());
            r
        },
        Some(k) => {
            let ps = pieces_vec(&to_chars(k), ',');
            let ghost pv = ps@.map_values(|x: Vec<char>| x@);
            let mut r: Vec<Vec<char>> = Vec::new();
            let mut i: usize = 0;
            assert(pv.take(0) =~= Seq::<Seq<char>>::empty());
            while i < ps.len()
                invariant
                    i <= ps@.len(),
                    pv == ps@.map_values(|x: Vec<char>| x@),
                    r@.map_values(|x: Vec<char>| x@) == nonempty_trimmed(pv.take(i as int)),
                decreases ps@.len() - i,
            {
                assert(pv.take(i + 1).drop_last() =~= pv.take(i as int));
                assert(pv.take(i + 1).last() == ps@[i as int]@);
                let t = trim_vec(&ps[i]);
                if t.len() > 0 {
                    let ghost before = r@.map_values(|x: Vec<char>| x@);
                    r.push(t);
                    assert(r@.map_values(|x: Vec<char>| x@) =~= before.push(t@));
                }
                i += 1;
            }
            assert(pv.take(i as int) =~= pv);
            r
        },
    }
}

fn is_comment_exec(line: &[char], cs: &[char], anywhere: bool) -> (r: bool)
    ensures
        r == is_comment_line(line@, cs@, anywhere),
{
    let t = trim_start_vec(line);
    let mut i: usize = 0;
    while i < cs.len()
        invariant
            i <= cs@.len(),
            t@ == trim_start(line@),
            forall|j: int|
                0 <= j < i ==> !(if anywhere {
                    line@.contains(#[trigger] cs@[j])
                } else {
                    starts_with_char(trim_start(line@), cs@[j])
                }),
        decreases cs@.len() - i,
    {
        let hit = if anywhere {
            contains_char_vec(line, cs[i])
        } else {
            t.len() > 0 && t[0] == cs[i]
        };
        if hit {
            return true;
        }
        i += 1;
    }
    false
}

fn keeps_line_exec(line: &[char], keep: &Vec<Vec<char>>, cs: &[char], anywhere: bool, Ghost(kv): Ghost<
    Seq<Seq<char>>,
>) -> (r: bool)
    requires
        kv == keep@.map_values(|x: Vec<char>| x@),
    ensures
        r == keeps_line(line@, kv, cs@, anywhere),
{
    if !is_comment_exec(line, cs, anywhere) {
        return true;
    }
    let mut j: usize = 0;
    while j < keep.len()
        invariant
            j <= keep@.len(),
            kv == keep@.map_values(|x: Vec<char>| x@),
            forall|m: int| 0 <= m < j ==> !contains_sub(line@, #[trigger] kv[m]),
        decreases keep@.len() - j,
    {
        if contains_sub_vec(line, &keep[j]) {
            assert(kv[j as int] == keep@[j as int]@);
            return true;
        }
        assert(kv[j as int] == keep@[j as int]@);
        j += 1;
    }
    false
}

/// The text of `s`, or nothing.
pub open spec fn opt_view(s: Option<&str>) -> Option<Seq<char>> {
    match s {
        Some(x) => Some(x@),
        None => None,
    }
}

/// The lines of a program that stay once comment lines are removed (see
/// [`keeps_line`]), with the settings `keep_string`, `comment_chars` and `strip_mode`.
pub open spec fn stripped_lines(
    text: Seq<char>,
    keep_string: Option<Seq<char>>,
    comment_chars: Option<Seq<char>>,
    strip_mode: Option<Seq<char>>,
) -> Seq<Seq<char>> {
    kept_lines(
        lines_of(text),
        keep_fragments(keep_string),
        comment_set(comment_chars),
        contains_mode(strip_mode),
    )
}

/// Removes the comment lines of a program given as bytes (read as lossy UTF-8): the
/// lines that stay, in order, and how many lines were removed.
pub fn strip_comment_lines(
    content: &[u8],
    keep_string: Option<&str>,
    comment_chars: Option<&str>,
    strip_mode: Option<&str>,
) -> (r: StripOutcome)
    ensures
        string_seqs(r.kept@) == stripped_lines(
            utf8_lossy(content@),
            opt_view(keep_string),
            opt_view(comment_chars),
            opt_view(strip_mode),
        ),
        r.removed + r.kept@.len() == lines_of(utf8_lossy(content@)).len(),
{
    let text = to_chars(decode_utf8_lossy(content).as_str());
    let lines = text_lines(&text);
    let ghost ls = string_seqs(lines@);
    let keep = keep_fragments_vec(keep_string);
    let ghost kv = keep@.map_values(|x: Vec<char>| x@);
    let cs: Vec<char> = match comment_chars {
        Some(c) => to_chars(c),
        None => vec![';'],
    };
    assert(cs@ =~= comment_set(opt_view(comment_chars)));
    let anywhere = match strip_mode {
        Some(m) => {
            let mv = to_chars(m);
            let cw = vec!['c', 'o', 'n', 't', 'a', 'i', 'n', 's'];
            assert(cw@ =~= contains_word());
            crate::chars::chars_eq(&mv, &cw)
        },
        None => false,
    };
    let mut kept: Vec<String> = Vec::new();
    let mut i: usize = 0;
    assert(ls.take(0) =~= Seq::<Seq<char>>::empty());
    while i < lines.len()
        invariant
            i <= lines@.len(),
            ls == string_seqs(lines@),
            kv == keep@.map_values(|x: Vec<char>| x@),
            string_seqs(kept@) == kept_lines(ls.take(i as int), kv, cs@, anywhere),
            kept@.len() <= i,
        decreases lines@.len() - i,
    {
        assert(ls.take(i + 1).drop_last() =~= ls.take(i as int));
        let line = to_chars(lines[i].as_str());
        assert(ls.take(i + 1).last() == line@);
        if keeps_line_exec(&line, &keep, &cs, anywhere, Ghost(kv)) {
            let s = from_chars(&line);
            let ghost before = string_seqs(kept@);
            kept.push(s);
            assert(string_seqs(kept@) =~= before.push(line@));
        }
        i += 1;
    }
    assert(ls.take(i as int) =~= ls);
    let removed = lines.len() - kept.len();
    StripOutcome { kept, removed }
}

/// The lines joined with `"\r\n"`, as the stripped program is written back.
pub fn join_crlf(lines: &[String]) -> (r: String)
    ensures
        r@ == join(string_seqs(lines@), seq!['\r', '\n']),
{
    let sep = vec!['\r', '\n'];
    assert(sep@ =~= seq!['\r', '\n']);
    join_strings(lines, &sep)
}


/// Every line that stays is one that [`keeps_line`] keeps, and stripping the lines that
/// stay removes nothing more.
pub proof fn lemma_strip_idempotent(ls: Seq<Seq<char>>, keep: Seq<Seq<char>>, cs: Seq<char>, anywhere: bool)
    ensures
        forall|i: int| 0 <= i < kept_lines(ls, keep, cs, anywhere).len() ==> keeps_line(
            #[trigger] kept_lines(ls, keep, cs, anywhere)[i],
            keep,
            cs,
            anywhere,
        ),
        kept_lines(kept_lines(ls, keep, cs, anywhere), keep, cs, anywhere) == kept_lines(
            ls,
            keep,
            cs,
            anywhere,
        ),
    decreases ls.len(),
{
    if ls.len() > 0 {
        let prev = ls.drop_last();
        lemma_strip_idempotent(prev, keep, cs, anywhere);
        let r = kept_lines(prev, keep, cs, anywhere);
        if keeps_line(ls.last(), keep, cs, anywhere) {
            let k = r.push(ls.last());
            assert(k.drop_last() =~= r);
            assert(k.last() == ls.last());
            assert forall|i: int| 0 <= i < k.len() implies keeps_line(#[trigger] k[i], keep, cs, anywhere) by {
                if i < r.len() {
                    assert(k[i] == r[i]);
                }
            }
        }
    }
}

/// Stripping keeps exactly the lines, in order, that hold a keep fragment or hold none
/// of the comment characters: in `contains` mode anywhere in the line, in `starts-with`
/// mode at the start of the line after its leading white space.
pub proof fn lemma_strip_keeps_exactly(ls: Seq<Seq<char>>, keep: Seq<Seq<char>>, cs: Seq<char>)
    ensures
        kept_lines(ls, keep, cs, true) == ls.filter(
            |l: Seq<char>|
                (forall|i: int| 0 <= i < cs.len() ==> !l.contains(#[trigger] cs[i])) || (exists|
                    j: int,
                | 0 <= j < keep.len() && contains_sub(l, #[trigger] keep[j])),
        ),
        kept_lines(ls, keep, cs, false) == ls.filter(
            |l: Seq<char>|
                (forall|i: int|
                    0 <= i < cs.len() ==> !starts_with_char(trim_start(l), #[trigger] cs[i])) || (
                exists|j: int| 0 <= j < keep.len() && contains_sub(l, #[trigger] keep[j])),
        ),
    decreases ls.len(),
{
    reveal(Seq::filter);
    if ls.len() > 0 {
        lemma_strip_keeps_exactly(ls.drop_last(), keep, cs);
    }
}

/// The settings of a strip: `strip_mode` `contains` looks for the comment characters
/// anywhere in a line, no `strip_mode` at the start; the comment characters are those
/// given, or `;` when none are.
pub proof fn lemma_strip_settings(
    text: Seq<char>,
    keep_string: Option<Seq<char>>,
    cc: Seq<char>,
    strip_mode: Option<Seq<char>>,
)
    ensures
        stripped_lines(text, keep_string, Some(cc), Some("contains"@)) == kept_lines(
            lines_of(text),
            keep_fragments(keep_string),
            cc,
            true,
        ),
        stripped_lines(text, keep_string, Some(cc), None) == kept_lines(
            lines_of(text),
            keep_fragments(keep_string),
            cc,
            false,
        ),
        stripped_lines(text, keep_string, None, strip_mode) == stripped_lines(
            text,
            keep_string,
            Some(seq![';']),
            strip_mode,
        ),
{
    reveal_strlit("contains");
    assert("contains"@ =~= contains_word());
}

} // verus!
