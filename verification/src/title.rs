//! The file behind a CIMCO Edit window: its title reads `[C:\...\file.nc]`, with a `*`
//! before the `]` while the file has unsaved changes.
use vstd::prelude::*;

use crate::chars::{
    after_char, after_char_vec, first_at, from_chars, lemma_find_char_at, to_chars, trim, trim_end_char,
    trim_end_char_vec, trim_vec,
};

verus! {

/// Whether a window title marks unsaved changes: without its trailing `]`s it ends
/// with `*`.
pub open spec fn title_modified(title: Seq<char>) -> bool {
    let t = trim_end_char(title, ']');
    t.len() > 0 && t.last() == '*'
}

/// The file path in a window title: the text after the first `[` (or the whole title),
/// without trailing `]`s, then without trailing `*`s, trimmed.
pub open spec fn title_path(title: Seq<char>) -> Seq<char> {
    let a = match after_char(title, '[') {
        Some(rest) => rest,
        None => title,
    };
    trim(trim_end_char(trim_end_char(a, ']'), '*'))
}

/// The file path and the unsaved-changes mark of a CIMCO Edit window title.
pub fn file_path_from_title(title: &str) -> (r: (String, bool))
    ensures
        r.0@ == title_path(title@),
        r.1 == title_modified(title@),
{
    let t = to_chars(title);
    let closed = trim_end_char_vec(&t, ']');
    let modified = closed.len() > 0 && closed[closed.len() - 1] == '*';
    let a = match after_char_vec(&t, '[') {
        Some(rest) => rest,
        None => t,
    };
    let path = trim_vec(&trim_end_char_vec(&trim_end_char_vec(&a, ']'), '*'));
    (from_chars(&path), modified)
}

/// What `String::from_utf16_lossy` gives for UTF-16 code units.
pub uninterp spec fn utf16_lossy(units: Seq<u16>) -> Seq<char>;

/// Calls `String::from_utf16_lossy`: the result is [`utf16_lossy`] of the units.
#[verifier::external_body]
fn from_utf16_lossy(units: &[u16]) -> (s: String)
    ensures
        s@ == utf16_lossy(units@),
{
    String::from_utf16_lossy(units)
}

/// The number of code units before the first NUL (all of them when there is none).
pub open spec fn nul_terminated_len(buf: Seq<u16>) -> int
    decreases buf.len(),
{
    if buf.len() == 0 {
        0
    } else if buf[0] == 0 {
        0
    } else {
        1 + nul_terminated_len(buf.drop_first())
    }
}

/// The text of a NUL-terminated UTF-16 buffer: the units before the first NUL, decoded
/// as by `String::from_utf16_lossy`.
pub fn utf16_to_string(buf: &[u16]) -> (s: String)
    ensures
        s@ == utf16_lossy(buf@.take(nul_terminated_len(buf@))),
{
    let mut end: usize = 0;
    assert(buf@.skip(0) =~= buf@);
    while end < buf.len() && buf[end] != 0
        invariant
            end <= buf@.len(),
            nul_terminated_len(buf@) == end + nul_terminated_len(buf@.skip(end as int)),
        decreases buf@.len() - end,
    {
        assert(buf@.skip(end as int).drop_first() =~= buf@.skip(end + 1));
        end += 1;
    }
    let mut units: Vec<u16> = Vec::new();
    let mut i: usize = 0;
    while i < end
        invariant
            end <= buf@.len(),
            i <= end,
            units@ == buf@.take(i as int),
        decreases end - i,
    {
        units.push(buf[i]);
        i += 1;
        assert(units@ =~= buf@.take(i as int));
    }
    from_utf16_lossy(&units)
}


proof fn lemma_trim_end_char_plain(p: Seq<char>, c: char)
    requires
        p.len() == 0 || p.last() != c,
    ensures
        trim_end_char(p, c) == p,
{
}

/// A title `prefix[path]` names `path` with no unsaved changes, and `prefix[path*]`
/// names `path` with unsaved changes, for any prefix without `[` and any trimmed path
/// without `[` that does not end with `*` or `]`.
pub proof fn lemma_title_parts(prefix: Seq<char>, path: Seq<char>)
    requires
        !prefix.contains('['),
        !path.contains('['),
        trim(path) == path,
        path.len() == 0 || (path.last() != '*' && path.last() != ']'),
    ensures
        title_path(prefix + seq!['['] + path + seq![']']) == path,
        !title_modified(prefix + seq!['['] + path + seq![']']),
        title_path(prefix + seq!['['] + path + seq!['*', ']']) == path,
        title_modified(prefix + seq!['['] + path + seq!['*', ']']),
{
    let open = prefix + seq!['['] + path;
    let saved = open + seq![']'];
    let starred = open + seq!['*', ']'];
    assert(forall|j: int| 0 <= j < prefix.len() ==> prefix[j] != '[');
    assert(first_at(saved, '[', prefix.len() as int));
    assert(first_at(starred, '[', prefix.len() as int));
    lemma_find_char_at(saved, '[', prefix.len() as int);
    lemma_find_char_at(starred, '[', prefix.len() as int);
    assert(saved.skip(prefix.len() + 1int) =~= path + seq![']']);
    assert(starred.skip(prefix.len() + 1int) =~= path + seq!['*', ']']);
    // saved title
    assert((path + seq![']']).drop_last() =~= path);
    lemma_trim_end_char_plain(path, ']');
    assert(trim_end_char(path + seq![']'], ']') == path);
    lemma_trim_end_char_plain(path, '*');
    assert(saved.drop_last() =~= open);
    assert(open.last() == (if path.len() == 0 { '[' } else { path.last() }));
    lemma_trim_end_char_plain(open, ']');
    assert(trim_end_char(saved, ']') == open);
    // starred title
    assert((path + seq!['*', ']']).drop_last() =~= path + seq!['*']);
    assert((path + seq!['*']).last() == '*');
    lemma_trim_end_char_plain(path + seq!['*'], ']');
    assert(trim_end_char(path + seq!['*', ']'], ']') == trim_end_char(path + seq!['*'], ']'));
    assert(trim_end_char(path + seq!['*', ']'], ']') == path + seq!['*']);
    assert((path + seq!['*']).drop_last() =~= path);
    assert(trim_end_char(path + seq!['*'], '*') == path);
    assert(starred.drop_last() =~= open + seq!['*']);
    assert((open + seq!['*']).last() == '*');
    lemma_trim_end_char_plain(open + seq!['*'], ']');
    assert(trim_end_char(starred, ']') == trim_end_char(open + seq!['*'], ']'));
    assert(trim_end_char(starred, ']') == open + seq!['*']);
}
} // verus!
