//! The program name written inside an NC program file, by CNC system: Fanuc
//! (`O0001(NAME)` or `<NAME>`), Mazatrol (bytes at a fixed offset), Sinumerik
//! (`MSG("NAME")`) and Heidenhain (`BEGIN PGM NAME`).
use vstd::prelude::*;

use crate::chars::{
    lowercase_known,
    first_at, lemma_find_char, lemma_find_char_first, trim_end_char,
    before_char, before_char_vec, chars_eq, first_word, first_word_vec, from_chars, lines_of,
    lowercased, matches_at, matches_at_vec, replace_all, replace_all_vec, second_piece,
    second_piece_vec, split_lines, starts_with_char, to_chars, to_lowercase, trim,
    trim_char, trim_char_vec, trim_start_char, trim_start_char_vec, trim_vec, contains_char_vec,
};
use crate::paths::{extension_chars, path_extension};
use crate::text::{decode_utf8_lossy, utf8_lossy};

verus! {

/// Offset, in bytes of the file, at which a Mazatrol program name begins.
pub const MAZATROL_NAME_OFFSET: usize = 80;

/// Largest length, in bytes, of a Mazatrol program name.
pub const MAZATROL_NAME_LENGTH: usize = 32;

/// The characters that Windows forbids in file names.
pub open spec fn is_bad_symbol(c: char) -> bool {
    c == '<' || c == '>' || c == ':' || c == '"' || c == '/' || c == '\\' || c == '|' || c
        == '?' || c == '*'
}

/// `s` with every character forbidden in Windows file names replaced by `-`.
pub open spec fn without_bad_symbols(s: Seq<char>) -> Seq<char> {
    s.map_values(|c: char| if is_bad_symbol(c) { '-' } else { c })
}

fn is_bad_symbol_char(c: char) -> (r: bool)
    ensures
        r == is_bad_symbol(c),
{
    c == '<' || c == '>' || c == ':' || c == '"' || c == '/' || c == '\\' || c == '|' || c == '?'
        || c == '*'
}

fn without_bad_symbols_vec(v: &[char]) -> (r: Vec<char>)
    ensures
        r@ == without_bad_symbols(v@),
{
    let mut r: Vec<char> = Vec::new();
    let mut i: usize = 0;
    while i < v.len()
        invariant
            i <= v@.len(),
            r@ == without_bad_symbols(v@.take(i as int)),
        decreases v@.len() - i,
    {
        let c = v[i];
        r.push(if is_bad_symbol_char(c) { '-' } else { c });
        i += 1;
        assert(r@ =~= without_bad_symbols(v@.take(i as int)));
    }
    assert(v@.take(i as int) =~= v@);
    r
}

/// Replaces the characters that Windows forbids in file names
/// (`< > : " / \ | ? *`) by `-`.
pub fn remove_bad_symbols(text: &str) -> (r: String)
    ensures
        r@ == without_bad_symbols(text@),
{
    from_chars(&without_bad_symbols_vec(&to_chars(text)))
}

/// The name of a Fanuc program from its lines: the first line must start with `%`; a
/// second line `<NAME>...` gives the text between the first `<` and the next `>`
/// (or `<`); a second line `O....(NAME)` gives the text between the first `(` and the
/// next `)` (or `(`).
pub open spec fn fanuc_name(ls: Seq<Seq<char>>) -> Option<Seq<char>> {
    if ls.len() >= 2 && starts_with_char(ls[0], '%') {
        let l = ls[1];
        if starts_with_char(l, '<') {
            match second_piece(l, '<') {
                Some(p) => Some(without_bad_symbols(before_char(p, '>'))),
                None => None,
            }
        } else if starts_with_char(l, 'O') {
            match second_piece(l, '(') {
                Some(p) => Some(without_bad_symbols(before_char(p, ')'))),
                None => None,
            }
        } else {
            None
        }
    } else {
        None
    }
}

/// The bytes of a Mazatrol file that hold the program name: up to 32 bytes from
/// offset 80 (fewer, or none, when the file is shorter).
pub open spec fn mazatrol_window(bytes: Seq<u8>) -> Seq<u8> {
    let from = if bytes.len() < 80 {
        bytes.len() as int
    } else {
        80
    };
    let to = if bytes.len() < from + 32 {
        bytes.len() as int
    } else {
        from + 32
    };
    bytes.subrange(from, to)
}

/// The name of a Mazatrol program from the bytes of its file: the bytes of
/// [`mazatrol_window`] read as lossy UTF-8, trimmed of white space and then of NUL
/// characters.
pub open spec fn mazatrol_name(bytes: Seq<u8>) -> Seq<char> {
    without_bad_symbols(trim_char(trim(utf8_lossy(mazatrol_window(bytes))), '\0'))
}

/// `"MSG"`
pub open spec fn msg() -> Seq<char> {
    seq!['M', 'S', 'G']
}

/// `"BEGIN PGM"`
pub open spec fn begin_pgm() -> Seq<char> {
    seq!['B', 'E', 'G', 'I', 'N', ' ', 'P', 'G', 'M']
}

/// `"BEGIN PGM "`
pub open spec fn begin_pgm_space() -> Seq<char> {
    seq!['B', 'E', 'G', 'I', 'N', ' ', 'P', 'G', 'M', ' ']
}

/// The name of a Sinumerik program from its lines: a first line `MSG(...)` holding
/// both `(` and `)` gives the text between the first `(` and the next `)` (or `(`),
/// without surrounding `"`.
pub open spec fn sinumerik_name(ls: Seq<Seq<char>>) -> Option<Seq<char>> {
    if ls.len() >= 1 && matches_at(ls[0], msg(), 0) && ls[0].contains('(') && ls[0].contains(
        ')',
    ) {
        match second_piece(ls[0], '(') {
            Some(p) => Some(without_bad_symbols(trim_char(before_char(p, ')'), '"'))),
            None => None,
        }
    } else {
        None
    }
}

/// The name of a Heidenhain program from its lines: in a first line starting with
/// `BEGIN PGM`, with every `BEGIN PGM ` removed, the first word without leading zeros,
/// trimmed.
pub open spec fn heidenhain_name(ls: Seq<Seq<char>>) -> Option<Seq<char>> {
    if ls.len() >= 1 && matches_at(ls[0], begin_pgm(), 0) {
        let rest = replace_all(ls[0], begin_pgm_space(), seq![]);
        let word = match first_word(rest) {
            Some(w) => w,
            None => seq![],
        };
        Some(without_bad_symbols(trim(trim_start_char(word, '0'))))
    } else {
        None
    }
}

/// The kind of program a file extension stands for.
pub enum NameFormat {
    Fanuc,
    Mazatrol,
    Heidenhain,
    Sinumerik,
}

/// The format of a program by the extension of its file: `pbg`, `pbd` for Mazatrol;
/// `h` for Heidenhain; `mpf`, `spf` for Sinumerik (any case); Fanuc otherwise.
pub open spec fn name_format(ext: Option<Seq<char>>) -> NameFormat {
    match ext {
        Some(e) => {
            let l = lowercased(e);
            if l == seq!['p', 'b', 'g'] || l == seq!['p', 'b', 'd'] {
                NameFormat::Mazatrol
            } else if l == seq!['h'] {
                NameFormat::Heidenhain
            } else if l == seq!['m', 'p', 'f'] || l == seq!['s', 'p', 'f'] {
                NameFormat::Sinumerik
            } else {
                NameFormat::Fanuc
            }
        },
        None => NameFormat::Fanuc,
    }
}

/// The program name in a file and the extension to give the renamed file (the file's
/// own extension, or none for Fanuc programs), from the file's path and bytes; the
/// lines are those of the bytes read as lossy UTF-8.
pub open spec fn cnc_name(path: Seq<char>, bytes: Seq<u8>) -> Option<(Seq<char>, Seq<char>)> {
    let ext = path_extension(path);
    let ls = lines_of(utf8_lossy(bytes));
    match name_format(ext) {
        NameFormat::Mazatrol => Some((mazatrol_name(bytes), ext->0)),
        NameFormat::Heidenhain => match heidenhain_name(ls) {
            Some(n) => Some((n, ext->0)),
            None => None,
        },
        NameFormat::Sinumerik => match sinumerik_name(ls) {
            Some(n) => Some((n, ext->0)),
            None => None,
        },
        NameFormat::Fanuc => match fanuc_name(ls) {
            Some(n) => Some((n, seq![])),
            None => None,
        },
    }
}

fn get_fanuc_name(ls: &Vec<Vec<char>>, Ghost(lv): Ghost<Seq<Seq<char>>>) -> (r: Option<Vec<char>>)
    requires
        lv == ls@.map_values(|x: Vec<char>| x@),
    ensures
        match r {
            Some(n) => fanuc_name(lv) == Some(n@),
            None => fanuc_name(lv) is None,
        },
{
    if ls.len() >= 2 && ls[0].len() > 0 && ls[0][0] == '%' {
        assert(lv[0] == ls@[0]@);
        assert(lv[1] == ls@[1]@);
        let l = &ls[1];
        if l.len() > 0 && l[0] == '<' {
            match second_piece_vec(l, '<') {
                Some(p) => Some(without_bad_symbols_vec(&before_char_vec(&p, '>'))),
                None => None,
            }
        } else if l.len() > 0 && l[0] == 'O' {
            match second_piece_vec(l, '(') {
                Some(p) => Some(without_bad_symbols_vec(&before_char_vec(&p, ')'))),
                None => None,
            }
        } else {
            None
        }
    } else {
        proof {
            if ls@.len() >= 2 {
                assert(lv[0] == ls@[0]@);
            }
        }
        None
    }
}

fn get_mazatrol_name(content: &[u8]) -> (r: Vec<char>)
    ensures
        r@ == mazatrol_name(content@),
{
    let from = if content.len() < MAZATROL_NAME_OFFSET {
        content.len()
    } else {
        MAZATROL_NAME_OFFSET
    };
    let to = if content.len() - from < MAZATROL_NAME_LENGTH {
        content.len()
    } else {
        from + MAZATROL_NAME_LENGTH
    };
    let mut window: Vec<u8> = Vec::new();
    let mut i: usize = from;
    while i < to
        invariant
            from <= i <= to <= content@.len(),
            window@ == content@.subrange(from as int, i as int),
        decreases to - i,
    {
        window.push(content[i]);
        i += 1;
        assert(window@ =~= content@.subrange(from as int, i as int));
    }
    assert(window@ == mazatrol_window(content@));
    let text = to_chars(decode_utf8_lossy(&window).as_str());
    let t = trim_vec(&text);
    without_bad_symbols_vec(&trim_char_vec(&t, '\0'))
}

fn lit_msg() -> (v: Vec<char>)
    ensures
        v@ == msg(),
{
    let v = vec!['M', 'S', 'G'];
    assert(v@ =~= msg());
    v
}

fn lit_begin_pgm() -> (v: Vec<char>)
    ensures
        v@ == begin_pgm(),
{
    let v = vec!['B', 'E', 'G', 'I', 'N', ' ', 'P', 'G', 'M'];
    assert(v@ =~= begin_pgm());
    v
}

fn lit_begin_pgm_space() -> (v: Vec<char>)
    ensures
        v@ == begin_pgm_space(),
{
    let v = vec!['B', 'E', 'G', 'I', 'N', ' ', 'P', 'G', 'M', ' '];
    assert(v@ =~= begin_pgm_space());
    v
}

fn get_sinumerik_name(ls: &Vec<Vec<char>>, Ghost(lv): Ghost<Seq<Seq<char>>>) -> (r: Option<
    Vec<char>,
>)
    requires
        lv == ls@.map_values(|x: Vec<char>| x@),
    ensures
        match r {
            Some(n) => sinumerik_name(lv) == Some(n@),
            None => sinumerik_name(lv) is None,
        },
{
    if ls.len() == 0 {
        return None;
    }
    let l = &ls[0];
    assert(lv[0] == l@);
    if matches_at_vec(l, &lit_msg(), 0) && contains_char_vec(l, '(') && contains_char_vec(l, ')') {
        match second_piece_vec(l, '(') {
            Some(p) => {
                let inner = before_char_vec(&p, ')');
                Some(without_bad_symbols_vec(&trim_char_vec(&inner, '"')))
            },
            None => None,
        }
    } else {
        None
    }
}

fn get_heidenhain_name(ls: &Vec<Vec<char>>, Ghost(lv): Ghost<Seq<Seq<char>>>) -> (r: Option<
    Vec<char>,
>)
    requires
        lv == ls@.map_values(|x: Vec<char>| x@),
    ensures
        match r {
            Some(n) => heidenhain_name(lv) == Some(n@),
            None => heidenhain_name(lv) is None,
        },
{
    if ls.len() == 0 {
        return None;
    }
    let l = &ls[0];
    assert(lv[0] == l@);
    if matches_at_vec(l, &lit_begin_pgm(), 0) {
        let empty: Vec<char> = Vec::new();
        let rest = replace_all_vec(l, &lit_begin_pgm_space(), &empty);
        assert(empty@ =~= Seq::<char>::empty());
        let word = match first_word_vec(&rest) {
            Some(w) => w,
            None => Vec::new(),
        };
        let t = trim_vec(&trim_start_char_vec(&word, '0'));
        Some(without_bad_symbols_vec(&t))
    } else {
        None
    }
}

/// The extension of a file path, as it is written (see [`path_extension`]).
pub fn get_extension(filename: &str) -> (r: Option<String>)
    ensures
        match r {
            Some(e) => path_extension(filename@) == Some(e@),
            None => path_extension(filename@) is None,
        },
{
    match extension_chars(&to_chars(filename)) {
        Some(e) => Some(from_chars(&e)),
        None => None,
    }
}

fn name_format_exec(ext: &Option<String>) -> (r: NameFormat)
    ensures
        r == name_format(match ext {
            Some(e) => Some(e@),
            None => None,
        }),
        ext matches Some(e) ==> lowercase_known(e@),
{
    match ext {
        Some(e) => {
            let l = to_chars(to_lowercase(e.as_str()).as_str());
            let pbg = vec!['p', 'b', 'g'];
            let pbd = vec!['p', 'b', 'd'];
            let h = vec!['h'];
            let mpf = vec!['m', 'p', 'f'];
            let spf = vec!['s', 'p', 'f'];
            assert(pbg@ =~= seq!['p', 'b', 'g']);
            assert(pbd@ =~= seq!['p', 'b', 'd']);
            assert(h@ =~= seq!['h']);
            assert(mpf@ =~= seq!['m', 'p', 'f']);
            assert(spf@ =~= seq!['s', 'p', 'f']);
            if chars_eq(&l, &pbg) || chars_eq(&l, &pbd) {
                NameFormat::Mazatrol
            } else if chars_eq(&l, &h) {
                NameFormat::Heidenhain
            } else if chars_eq(&l, &mpf) || chars_eq(&l, &spf) {
                NameFormat::Sinumerik
            } else {
                NameFormat::Fanuc
            }
        },
        None => NameFormat::Fanuc,
    }
}

/// The program name inside a file and the extension for the renamed file (see
/// [`cnc_name`]), from the file's path and its bytes. `None` when the file holds no
/// name in its format.
pub fn get_cnc_name(file_path: &str, content: &[u8]) -> (r: Option<(String, String)>)
    ensures
        match r {
            Some((n, e)) => cnc_name(file_path@, content@) == Some((n@, e@)),
            None => cnc_name(file_path@, content@) is None,
        },
        path_extension(file_path@) matches Some(e) ==> lowercase_known(e),
{
    let text = to_chars(decode_utf8_lossy(content).as_str());
    let ext = get_extension(file_path);
    let lines = split_lines(&text);
    let ghost lv = lines@.map_values(|x: Vec<char>| x@);
    assert(lv == lines_of(text@));
    match name_format_exec(&ext) {
        NameFormat::Mazatrol => {
            let name = get_mazatrol_name(content);
            match ext {
                Some(e) => Some((from_chars(&name), e)),
                None => None,
            }
        },
        NameFormat::Heidenhain => match get_heidenhain_name(&lines, Ghost(lv)) {
            Some(n) => match ext {
                Some(e) => Some((from_chars(&n), e)),
                None => None,
            },
            None => None,
        },
        NameFormat::Sinumerik => match get_sinumerik_name(&lines, Ghost(lv)) {
            Some(n) => match ext {
                Some(e) => Some((from_chars(&n), e)),
                None => None,
            },
            None => None,
        },
        NameFormat::Fanuc => match get_fanuc_name(&lines, Ghost(lv)) {
            Some(n) => Some((from_chars(&n), String::new())),
            None => None,
        },
    }
}


/// After the replacement no forbidden character is left, the length is the same, a
/// second replacement changes nothing, and a text without forbidden characters is
/// left as it is.
pub proof fn lemma_bad_symbols_removed(s: Seq<char>)
    ensures
        forall|i: int| 0 <= i < without_bad_symbols(s).len() ==> !is_bad_symbol(#[trigger] without_bad_symbols(s)[i]),
        without_bad_symbols(s).len() == s.len(),
        without_bad_symbols(without_bad_symbols(s)) == without_bad_symbols(s),
        (forall|i: int| 0 <= i < s.len() ==> !is_bad_symbol(#[trigger] s[i])) ==> without_bad_symbols(s) == s,
{
    assert(without_bad_symbols(without_bad_symbols(s)) =~= without_bad_symbols(s));
    if forall|i: int| 0 <= i < s.len() ==> !is_bad_symbol(#[trigger] s[i]) {
        assert(without_bad_symbols(s) =~= s);
    }
}

proof fn lemma_before_char_at(p: Seq<char>, c: char, j: int)
    requires
        first_at(p, c, j),
    ensures
        before_char(p, c) == p.take(j),
{
    lemma_find_char_first(p, c, j);
}

/// A file whose extension is `spf` or `mpf` (in any case) is read as a Sinumerik
/// program: a first line `MSG("NAME")` (a name with no `(`, `)` or character that
/// Windows forbids in file names) gives the name `NAME`, and the file keeps its own
/// extension.
pub proof fn lemma_sinumerik_file_named_by_msg(
    path: Seq<char>,
    bytes: Seq<u8>,
    e: Seq<char>,
    nm: Seq<char>,
    rest: Seq<char>,
)
    requires
        path_extension(path) == Some(e),
        lowercased(e) == seq!['s', 'p', 'f'] || lowercased(e) == seq!['m', 'p', 'f'],
        lines_of(utf8_lossy(bytes)).len() >= 1,
        lines_of(utf8_lossy(bytes))[0] == seq!['M', 'S', 'G', '(', '"'] + nm + seq!['"', ')']
            + rest,
        forall|i: int| 0 <= i < nm.len() ==> !is_bad_symbol(#[trigger] nm[i]) && nm[i] != '('
            && nm[i] != ')',
    ensures
        cnc_name(path, bytes) == Some((nm, e)),
{
    let l = lines_of(utf8_lossy(bytes))[0];
    let w = seq!['"'] + nm + seq!['"'];
    let n = nm.len() as int;
    assert(l.subrange(0, 3) =~= msg());
    assert(l[3] == '(');
    assert(l[n + 6] == ')');
    assert(first_at(l, '(', 3));
    lemma_find_char_first(l, '(', 3);
    let s4 = l.skip(4);
    assert(s4.take(n + 3) =~= w.push(')'));
    assert forall|m: int| 0 <= m < n + 3 implies s4[m] != '(' by {
        assert(s4[m] == w.push(')')[m]);
        if 1 <= m <= n {
            assert(w.push(')')[m] == nm[m - 1]);
        }
    }
    lemma_find_char(s4, '(');
    let p = before_char(s4, '(');
    assert(p.len() >= n + 3);
    assert(p.take(n + 3) =~= w.push(')'));
    assert forall|m: int| 0 <= m < n + 2 implies p[m] != ')' by {
        assert(p[m] == w.push(')')[m]);
        if 1 <= m <= n {
            assert(w.push(')')[m] == nm[m - 1]);
        }
    }
    assert(p[n + 2] == w.push(')')[n + 2]);
    assert(first_at(p, ')', n + 2));
    lemma_before_char_at(p, ')', n + 2);
    assert(p.take(n + 2) =~= w);
    assert(second_piece(l, '(') == Some(p));
    // the quotes round the name go, the name stays
    assert(w.drop_first() =~= nm.push('"'));
    assert(w[0] == '"');
    if n == 0 {
        let q = nm.push('"');
        assert(q[0] == '"');
        assert(q.drop_first() =~= nm);
        assert(trim_start_char(nm, '"') == nm);
        assert(trim_start_char(q, '"') == nm);
        assert(trim_start_char(w, '"') == nm);
    } else {
        assert(nm.push('"')[0] == nm[0]);
        assert(!is_bad_symbol(nm[0]));
        assert(trim_start_char(nm.push('"'), '"') == nm.push('"'));
        assert(trim_start_char(w, '"') == nm.push('"'));
    }
    assert(trim_start_char(w, '"') == nm.push('"') || n == 0);
    if n > 0 {
        assert(nm.push('"').drop_last() =~= nm);
        assert(!is_bad_symbol(nm[n - 1]));
        assert(trim_end_char(nm, '"') == nm);
    }
    assert(trim_char(w, '"') == nm);
    lemma_bad_symbols_removed(nm);
    assert(sinumerik_name(lines_of(utf8_lossy(bytes))) == Some(nm));
}

} // verus!
