//! The tools of an NC program: which CNC dialect a program is written in, which tools
//! it calls (with their comments and offset codes), and the tool table that is put
//! back into the program.
use vstd::prelude::*;

use crate::paths::{extension_chars, path_extension};
use crate::chars::{
    lowercase_known,
    after_char, after_char_vec, decimal, push_all, push_padded, zero_pad, contains_char_vec, contains_sub, contains_sub_vec, digit_run, digit_run_vec,
    find_char, find_char_vec, first_at, first_word, first_word_vec, from_chars, lowercased,
    second_piece, second_piece_sub, second_piece_sub_vec, second_piece_vec, to_lowercase, lemma_find_char, lemma_find_char_first, parse_u32, parse_u32_chars,
    slice_chars, starts_with_char, string_seqs, to_chars, trim, trim_start, trim_start_vec,
    trim_vec,
};

verus! {

/// Name given to a tool whose program carries no comment for it.
pub const UNNAMED_TOOL: &'static str = "---";

/// The characters of [`UNNAMED_TOOL`].
pub open spec fn unnamed() -> Seq<char> {
    seq!['-', '-', '-']
}

/// A tool found in an NC program.
#[derive(Clone, Debug, PartialEq)]
pub struct ToolInfo {
    /// Tool number.
    pub number: u32,
    /// Comment (name) of the tool.
    pub name: String,
    /// H code (length offset, Fanuc milling).
    pub h: u32,
    /// D code (radius offset, Fanuc milling).
    pub d: u32,
}

/// A tool as plain values: number, name, H code and D code.
pub struct ToolView {
    pub number: u32,
    pub name: Seq<char>,
    pub h: u32,
    pub d: u32,
}

impl View for ToolInfo {
    type V = ToolView;

    open spec fn view(&self) -> ToolView {
        ToolView { number: self.number, name: self.name@, h: self.h, d: self.d }
    }
}

/// The views of a sequence of tools.
pub open spec fn tool_views(v: Seq<ToolInfo>) -> Seq<ToolView> {
    v.map_values(|t: ToolInfo| t@)
}

/// The CNC dialect in which a program is read.
#[derive(Clone, Copy, Debug, PartialEq, Eq, Structural)]
pub enum CncVariant {
    FanucMilling,
    FanucLathe,
    Sinumerik,
    Heidenhain,
}

// ───────────────────────────── words of a line ─────────────────────────────

/// `"M06"`
pub open spec fn m06() -> Seq<char> {
    seq!['M', '0', '6']
}

/// `"M6"`
pub open spec fn m6() -> Seq<char> {
    seq!['M', '6']
}

/// `"M30"`
pub open spec fn m30() -> Seq<char> {
    seq!['M', '3', '0']
}

/// `"M99"`
pub open spec fn m99() -> Seq<char> {
    seq!['M', '9', '9']
}

/// `"G43"`
pub open spec fn g43() -> Seq<char> {
    seq!['G', '4', '3']
}

/// `"G41"`
pub open spec fn g41() -> Seq<char> {
    seq!['G', '4', '1']
}

/// `"G42"`
pub open spec fn g42() -> Seq<char> {
    seq!['G', '4', '2']
}

/// `"tool call"`
pub open spec fn tool_call() -> Seq<char> {
    seq!['t', 'o', 'o', 'l', ' ', 'c', 'a', 'l', 'l']
}

/// The line holds a tool change (`M06` or `M6`).
pub open spec fn has_m6(s: Seq<char>) -> bool {
    contains_sub(s, m06()) || contains_sub(s, m6())
}

/// The number written right after the first `letter` of `s`: the ASCII digits that
/// follow it, when there is at least one and their value fits in a `u32`.
pub open spec fn number_after(s: Seq<char>, letter: char) -> Option<u32> {
    match after_char(s, letter) {
        Some(a) => parse_u32(a.take(digit_run(a) as int)),
        None => None,
    }
}

/// The tool number of a line: the number after the first `T` of the trimmed line,
/// unless the line is a comment (starts with `(`).
pub open spec fn tool_number_of(line: Seq<char>) -> Option<u32> {
    let t = trim(line);
    if starts_with_char(t, '(') {
        None
    } else {
        number_after(t, 'T')
    }
}

/// The comment of a line: the trimmed text between the first `(` and the first `)`
/// after it.
pub open spec fn comment_of(line: Seq<char>) -> Option<Seq<char>> {
    match after_char(line, '(') {
        Some(a) => match find_char(a, ')') {
            Some(c) => Some(trim(a.take(c))),
            None => None,
        },
        None => None,
    }
}

/// A line that marks a Fanuc milling program: not a comment or a `<...>` name line,
/// and the first `T` of it is followed by digits and then by a tool change.
pub open spec fn milling_marker(line: Seq<char>) -> bool {
    let t = trim_start(line);
    &&& !starts_with_char(t, '(')
    &&& !starts_with_char(t, '<')
    &&& match after_char(t, 'T') {
        Some(a) => digit_run(a) > 0 && has_m6(a.skip(digit_run(a) as int)),
        None => false,
    }
}

fn lit_m06() -> (v: Vec<char>)
    ensures
        v@ == m06(),
{
    let v = vec!['M', '0', '6'];
    assert(v@ =~= m06());
    v
}

fn lit_m6() -> (v: Vec<char>)
    ensures
        v@ == m6(),
{
    let v = vec!['M', '6'];
    assert(v@ =~= m6());
    v
}

fn lit_m30() -> (v: Vec<char>)
    ensures
        v@ == m30(),
{
    let v = vec!['M', '3', '0'];
    assert(v@ =~= m30());
    v
}

fn lit_m99() -> (v: Vec<char>)
    ensures
        v@ == m99(),
{
    let v = vec!['M', '9', '9'];
    assert(v@ =~= m99());
    v
}

fn lit_g43() -> (v: Vec<char>)
    ensures
        v@ == g43(),
{
    let v = vec!['G', '4', '3'];
    assert(v@ =~= g43());
    v
}

fn lit_g41() -> (v: Vec<char>)
    ensures
        v@ == g41(),
{
    let v = vec!['G', '4', '1'];
    assert(v@ =~= g41());
    v
}

fn lit_g42() -> (v: Vec<char>)
    ensures
        v@ == g42(),
{
    let v = vec!['G', '4', '2'];
    assert(v@ =~= g42());
    v
}

fn lit_tool_call() -> (v: Vec<char>)
    ensures
        v@ == tool_call(),
{
    let v = vec!['t', 'o', 'o', 'l', ' ', 'c', 'a', 'l', 'l'];
    assert(v@ =~= tool_call());
    v
}

fn lit_unnamed() -> (v: Vec<char>)
    ensures
        v@ == unnamed(),
{
    let v = vec!['-', '-', '-'];
    assert(v@ =~= unnamed());
    v
}

fn has_m6_chars(s: &[char]) -> (r: bool)
    ensures
        r == has_m6(s@),
{
    contains_sub_vec(s, &lit_m06()) || contains_sub_vec(s, &lit_m6())
}

/// Whether the line holds a tool change (`M06` or `M6`).
pub fn line_has_m6(line: &str) -> (r: bool)
    ensures
        r == has_m6(line@),
{
    has_m6_chars(&to_chars(line))
}

fn number_after_chars(s: &[char], letter: char) -> (r: Option<u32>)
    ensures
        r == number_after(s@, letter),
{
    match after_char_vec(s, letter) {
        Some(a) => {
            let n = digit_run_vec(&a);
            let digits = slice_chars(&a, 0, n);
            parse_u32_chars(&digits)
        },
        None => None,
    }
}

fn tool_number_chars(line: &[char]) -> (r: Option<u32>)
    ensures
        r == tool_number_of(line@),
{
    let t = trim_vec(line);
    if t.len() > 0 && t[0] == '(' {
        return None;
    }
    number_after_chars(&t, 'T')
}

fn comment_chars(line: &[char]) -> (r: Option<Vec<char>>)
    ensures
        match r {
            Some(c) => comment_of(line@) == Some(c@),
            None => comment_of(line@) is None,
        },
{
    match after_char_vec(line, '(') {
        Some(a) => match find_char_vec(&a, ')') {
            Some(c) => {
                proof {
                    lemma_find_char(a@, ')');
                }
                let inner = slice_chars(&a, 0, c);
                Some(trim_vec(&inner))
            },
            None => None,
        },
        None => None,
    }
}

/// The tool number of a line (see [`tool_number_of`]).
pub fn extract_tool_number(line: &str) -> (r: Option<u32>)
    ensures
        r == tool_number_of(line@),
{
    tool_number_chars(&to_chars(line))
}

/// The comment of a line (see [`comment_of`]).
pub fn extract_comment(line: &str) -> (r: Option<String>)
    ensures
        match r {
            Some(c) => comment_of(line@) == Some(c@),
            None => comment_of(line@) is None,
        },
{
    match comment_chars(&to_chars(line)) {
        Some(c) => Some(from_chars(&c)),
        None => None,
    }
}

/// The H code of a line: the number after its first `H`.
pub fn extract_h_number(line: &str) -> (r: Option<u32>)
    ensures
        r == number_after(line@, 'H'),
{
    number_after_chars(&to_chars(line), 'H')
}

/// The D code of a line: the number after its first `D`.
pub fn extract_d_number(line: &str) -> (r: Option<u32>)
    ensures
        r == number_after(line@, 'D'),
{
    number_after_chars(&to_chars(line), 'D')
}

fn milling_marker_chars(line: &[char]) -> (r: bool)
    ensures
        r == milling_marker(line@),
{
    let t = trim_start_vec(line);
    if t.len() > 0 && (t[0] == '(' || t[0] == '<') {
        return false;
    }
    match after_char_vec(&t, 'T') {
        Some(a) => {
            let n = digit_run_vec(&a);
            if n == 0 {
                return false;
            }
            let rest = slice_chars(&a, n, a.len());
            assert(rest@ =~= a@.skip(n as int));
            has_m6_chars(&rest)
        },
        None => false,
    }
}

/// Whether the program is a Fanuc milling program: some line is a
/// [`milling_marker`] (a `T` number followed by a tool change).
pub fn is_fanuc_milling(lines: &[String]) -> (r: bool)
    ensures
        r == exists|i: int| 0 <= i < lines@.len() && #[trigger] milling_marker(lines@[i]@),
{
    let mut i: usize = 0;
    while i < lines.len()
        invariant
            i <= lines@.len(),
            forall|j: int| 0 <= j < i ==> !#[trigger] milling_marker(lines@[j]@),
        decreases lines@.len() - i,
    {
        let line = to_chars(lines[i].as_str());
        if milling_marker_chars(&line) {
            return true;
        }
        i += 1;
    }
    false
}


// ───────────────────────────── tool tables ─────────────────────────────

/// What a program says of one tool number: comment, H code, D code.
pub type Entry = (Seq<char>, u32, u32);

/// `v` lists the map `m`: one tool per key of `m`, in strictly increasing order of
/// number, each with the entry that `m` holds for it.
pub open spec fn lists(v: Seq<ToolView>, m: Map<u32, Entry>) -> bool {
    &&& forall|i: int, j: int| 0 <= i < j < v.len() ==> v[i].number < v[j].number
    &&& forall|i: int|
        0 <= i < v.len() ==> m.contains_key(#[trigger] v[i].number) && m[v[i].number] == (
        v[i].name,
        v[i].h,
        v[i].d,
    )
    &&& forall|k: u32| #[trigger]
        m.contains_key(k) ==> exists|i: int| 0 <= i < v.len() && v[i].number == k
}

/// A map has exactly one listing: two sequences that list the same map are equal.
pub proof fn lemma_listing_unique(a: Seq<ToolView>, b: Seq<ToolView>, m: Map<u32, Entry>)
    requires
        lists(a, m),
        lists(b, m),
    ensures
        a == b,
    decreases a.len() + b.len(),
{
    if a.len() == 0 || b.len() == 0 {
        if a.len() > 0 {
            assert(m.contains_key(a[0].number));
            let j = choose|j: int| 0 <= j < b.len() && b[j].number == a[0].number;
        }
        if b.len() > 0 {
            assert(m.contains_key(b[0].number));
            let j = choose|j: int| 0 <= j < a.len() && a[j].number == b[0].number;
        }
        assert(a =~= b);
    } else {
        let ka = a.last().number;
        let kb = b.last().number;
        assert(m.contains_key(ka));
        assert(m.contains_key(kb));
        let ia = choose|i: int| 0 <= i < a.len() && a[i].number == kb;
        let ib = choose|i: int| 0 <= i < b.len() && b[i].number == ka;
        if ka < kb {
            assert(a[ia].number <= ka);
        }
        if kb < ka {
            assert(b[ib].number <= kb);
        }
        assert(ka == kb);
        let m2 = m.remove(ka);
        assert(lists(a.drop_last(), m2)) by {
            assert forall|k: u32| #[trigger] m2.contains_key(k) implies exists|i: int|
                0 <= i < a.drop_last().len() && a.drop_last()[i].number == k by {
                let i = choose|i: int| 0 <= i < a.len() && a[i].number == k;
                if i == a.len() - 1 {
                    assert(false);
                }
                assert(a.drop_last()[i].number == k);
            }
        }
        assert(lists(b.drop_last(), m2)) by {
            assert forall|k: u32| #[trigger] m2.contains_key(k) implies exists|i: int|
                0 <= i < b.drop_last().len() && b.drop_last()[i].number == k by {
                let i = choose|i: int| 0 <= i < b.len() && b[i].number == k;
                if i == b.len() - 1 {
                    assert(false);
                }
                assert(b.drop_last()[i].number == k);
            }
        }
        lemma_listing_unique(a.drop_last(), b.drop_last(), m2);
        assert(a.last() == b.last());
        assert(a =~= a.drop_last().push(a.last()));
        assert(b =~= b.drop_last().push(b.last()));
    }
}

/// The entry that `t` stands for.
pub open spec fn entry_of(t: ToolView) -> Entry {
    (t.name, t.h, t.d)
}

/// The position of tool `k` in a table that lists `m`, when `m` has it.
fn lookup(v: &Vec<ToolInfo>, k: u32, Ghost(m): Ghost<Map<u32, Entry>>) -> (r: Option<usize>)
    requires
        lists(tool_views(v@), m),
    ensures
        match r {
            Some(i) => i < v@.len() && v@[i as int].number == k && m.contains_key(k) && m[k]
                == entry_of(v@[i as int]@),
            None => !m.contains_key(k),
        },
{
    let mut i: usize = 0;
    while i < v.len()
        invariant
            i <= v@.len(),
            lists(tool_views(v@), m),
            forall|j: int| 0 <= j < i ==> v@[j].number != k,
        decreases v@.len() - i,
    {
        if v[i].number == k {
            assert(tool_views(v@)[i as int].number == k);
            return Some(i);
        }
        i += 1;
    }
    proof {
        if m.contains_key(k) {
            let j = choose|j: int| 0 <= j < tool_views(v@).len() && tool_views(v@)[j].number == k;
            assert(v@[j].number == k);
        }
    }
    None
}

/// Sets the entry of `tool.number` to that of `tool`, inserting it in number order when
/// the table does not hold that number yet.
fn upsert(v: &mut Vec<ToolInfo>, tool: ToolInfo, Ghost(m): Ghost<Map<u32, Entry>>)
    requires
        lists(tool_views(old(v)@), m),
    ensures
        lists(tool_views(final(v)@), m.insert(tool.number, entry_of(tool@))),
{
    let k = tool.number;
    let ghost e = entry_of(tool@);
    let ghost m2 = m.insert(k, e);
    let mut i: usize = 0;
    while i < v.len() && v[i].number < k
        invariant
            i <= v@.len(),
            lists(tool_views(v@), m),
            forall|j: int| 0 <= j < i ==> v@[j].number < k,
        decreases v@.len() - i,
    {
        i += 1;
    }
    let ghost old_views = tool_views(v@);
    if i < v.len() && v[i].number == k {
        v.set(i, tool);
        let ghost nv = tool_views(v@);
        assert(nv =~= old_views.update(i as int, tool@));
        assert forall|a: int, b: int| 0 <= a < b < nv.len() implies nv[a].number < nv[b].number by {
            assert(old_views[a].number < old_views[b].number);
        }
        assert forall|a: int| 0 <= a < nv.len() implies m2.contains_key(#[trigger] nv[a].number)
            && m2[nv[a].number] == (nv[a].name, nv[a].h, nv[a].d) by {
            if a != i {
                assert(old_views[a].number != k) by {
                    if a < i {
                    } else {
                        assert(old_views[i as int].number < old_views[a].number);
                    }
                }
            }
        }
        assert forall|key: u32| #[trigger] m2.contains_key(key) implies exists|a: int|
            0 <= a < nv.len() && nv[a].number == key by {
            if key == k {
                assert(nv[i as int].number == key);
            } else {
                let a = choose|a: int| 0 <= a < old_views.len() && old_views[a].number == key;
                assert(nv[a].number == key);
            }
        }
    } else {
        v.insert(i, tool);
        let ghost nv = tool_views(v@);
        assert(nv =~= old_views.insert(i as int, tool@));
        assert forall|a: int, b: int| 0 <= a < b < nv.len() implies nv[a].number < nv[b].number by {
            if b < i {
                assert(old_views[a].number < old_views[b].number);
            } else if b == i {
                assert(nv[a] == old_views[a]);
            } else if a < i {
                assert(old_views[a].number < k);
                assert(old_views[i as int].number >= k);
                if b - 1 > i {
                    assert(old_views[i as int].number < old_views[b - 1].number);
                }
                assert(nv[b] == old_views[b - 1]);
            } else if a == i {
                assert(nv[b] == old_views[b - 1]);
                assert(old_views[i as int].number > k);
                if b - 1 > i {
                    assert(old_views[i as int].number < old_views[b - 1].number);
                }
            } else {
                assert(old_views[a - 1].number < old_views[b - 1].number);
            }
        }
        assert forall|a: int| 0 <= a < nv.len() implies m2.contains_key(#[trigger] nv[a].number)
            && m2[nv[a].number] == (nv[a].name, nv[a].h, nv[a].d) by {
            if a < i {
                assert(nv[a] == old_views[a]);
                assert(old_views[a].number < k);
            } else if a > i {
                assert(nv[a] == old_views[a - 1]);
                assert(old_views[i as int].number > k);
                if a - 1 > i {
                    assert(old_views[i as int].number < old_views[a - 1].number);
                }
            }
        }
        assert forall|key: u32| #[trigger] m2.contains_key(key) implies exists|a: int|
            0 <= a < nv.len() && nv[a].number == key by {
            if key == k {
                assert(nv[i as int].number == key);
            } else {
                let a = choose|a: int| 0 <= a < old_views.len() && old_views[a].number == key;
                if a < i {
                    assert(nv[a].number == key);
                } else {
                    assert(nv[a + 1].number == key);
                }
            }
        }
    }
}

/// Records a tool after its block: a tool not seen yet is added with `comment` and
/// zero codes; a tool seen without a comment gets `comment`.
pub open spec fn flush_tool(m: Map<u32, Entry>, k: u32, comment: Seq<char>) -> Map<u32, Entry> {
    if m.contains_key(k) {
        if m[k].0.len() == 0 {
            m.insert(k, (comment, m[k].1, m[k].2))
        } else {
            m
        }
    } else {
        m.insert(k, (comment, 0, 0))
    }
}

/// Records the H code `h` of tool `k` (adding the tool with `comment` if needed).
pub open spec fn with_h(m: Map<u32, Entry>, k: u32, comment: Seq<char>, h: u32) -> Map<u32, Entry> {
    if m.contains_key(k) {
        m.insert(k, (m[k].0, h, m[k].2))
    } else {
        m.insert(k, (comment, h, 0))
    }
}

/// Records the D code `d` of tool `k` (adding the tool with `comment` if needed).
pub open spec fn with_d(m: Map<u32, Entry>, k: u32, comment: Seq<char>, d: u32) -> Map<u32, Entry> {
    if m.contains_key(k) {
        m.insert(k, (m[k].0, m[k].1, d))
    } else {
        m.insert(k, (comment, 0, d))
    }
}

/// Adds tool `k` named `name` unless it is there already (the first name stays).
pub open spec fn keep_first(m: Map<u32, Entry>, k: u32, name: Seq<char>) -> Map<u32, Entry> {
    if m.contains_key(k) {
        m
    } else {
        m.insert(k, (name, 0, 0))
    }
}

fn flush_tool_exec(v: &mut Vec<ToolInfo>, k: u32, comment: &[char], Ghost(m): Ghost<Map<u32, Entry>>)
    requires
        lists(tool_views(old(v)@), m),
    ensures
        lists(tool_views(final(v)@), flush_tool(m, k, comment@)),
{
    match lookup(v, k, Ghost(m)) {
        Some(i) => {
            if v[i].name.as_str().is_empty() {
                let t = ToolInfo { number: k, name: from_chars(comment), h: v[i].h, d: v[i].d };
                upsert(v, t, Ghost(m));
            } else {
                assert(m.insert(k, m[k]) =~= m);
            }
        },
        None => {
            let t = ToolInfo { number: k, name: from_chars(comment), h: 0, d: 0 };
            upsert(v, t, Ghost(m));
        },
    }
}

fn with_h_exec(v: &mut Vec<ToolInfo>, k: u32, comment: &[char], h: u32, Ghost(m): Ghost<Map<u32, Entry>>)
    requires
        lists(tool_views(old(v)@), m),
    ensures
        lists(tool_views(final(v)@), with_h(m, k, comment@, h)),
{
    match lookup(v, k, Ghost(m)) {
        Some(i) => {
            let t = ToolInfo { number: k, name: v[i].name.clone(), h: h, d: v[i].d };
            upsert(v, t, Ghost(m));
        },
        None => {
            let t = ToolInfo { number: k, name: from_chars(comment), h: h, d: 0 };
            upsert(v, t, Ghost(m));
        },
    }
}

fn with_d_exec(v: &mut Vec<ToolInfo>, k: u32, comment: &[char], d: u32, Ghost(m): Ghost<Map<u32, Entry>>)
    requires
        lists(tool_views(old(v)@), m),
    ensures
        lists(tool_views(final(v)@), with_d(m, k, comment@, d)),
{
    match lookup(v, k, Ghost(m)) {
        Some(i) => {
            let t = ToolInfo { number: k, name: v[i].name.clone(), h: v[i].h, d: d };
            upsert(v, t, Ghost(m));
        },
        None => {
            let t = ToolInfo { number: k, name: from_chars(comment), h: 0, d: d };
            upsert(v, t, Ghost(m));
        },
    }
}

fn keep_first_exec(v: &mut Vec<ToolInfo>, k: u32, name: &[char], Ghost(m): Ghost<Map<u32, Entry>>)
    requires
        lists(tool_views(old(v)@), m),
    ensures
        lists(tool_views(final(v)@), keep_first(m, k, name@)),
{
    match lookup(v, k, Ghost(m)) {
        Some(_) => {},
        None => {
            let t = ToolInfo { number: k, name: from_chars(name), h: 0, d: 0 };
            upsert(v, t, Ghost(m));
        },
    }
}


// ───────────────────────────── Fanuc programs ─────────────────────────────

/// Where a line-by-line reading of a Fanuc program stands: the tools so far, the tool
/// in use (0 for none) and its comment, and whether the end of the program
/// (`M30`/`M99`) was reached.
pub struct ScanState {
    pub tools: Map<u32, Entry>,
    pub current: u32,
    pub comment: Seq<char>,
    pub done: bool,
}

/// The state before the first line.
pub open spec fn scan_start() -> ScanState {
    ScanState { tools: Map::empty(), current: 0, comment: seq![], done: false }
}

/// The tools with the tool in use recorded (see [`flush_tool`]), when there is one.
pub open spec fn flushed(st: ScanState) -> Map<u32, Entry> {
    if st.current != 0 {
        flush_tool(st.tools, st.current, st.comment)
    } else {
        st.tools
    }
}

/// The comment of a line, or nothing.
pub open spec fn comment_or_empty(line: Seq<char>) -> Seq<char> {
    match comment_of(line) {
        Some(c) => c,
        None => seq![],
    }
}

/// One line of a Fanuc milling program. Comment lines (`(`) and name lines (`<`) are
/// skipped; `M30` or `M99` ends the program; a tool change `T.. M6` starts a new tool;
/// `G43 H..` sets the H code and `G41`/`G42 D..` the D code of the tool in use.
pub open spec fn mill_step(st: ScanState, line: Seq<char>) -> ScanState {
    let t = trim_start(line);
    if st.done || starts_with_char(t, '(') || starts_with_char(t, '<') {
        st
    } else if contains_sub(t, m30()) || contains_sub(t, m99()) {
        ScanState { tools: flushed(st), current: st.current, comment: st.comment, done: true }
    } else if has_m6(t) && tool_number_of(t) is Some {
        ScanState {
            tools: flushed(st),
            current: tool_number_of(t)->0,
            comment: comment_or_empty(t),
            done: false,
        }
    } else {
        let tools1 = if contains_sub(t, g43()) && t.contains('H') && number_after(t, 'H') is Some
            && st.current != 0 {
            with_h(st.tools, st.current, st.comment, number_after(t, 'H')->0)
        } else {
            st.tools
        };
        let tools2 = if (contains_sub(t, g41()) || contains_sub(t, g42())) && t.contains('D')
            && number_after(t, 'D') is Some && st.current != 0 {
            with_d(tools1, st.current, st.comment, number_after(t, 'D')->0)
        } else {
            tools1
        };
        ScanState { tools: tools2, current: st.current, comment: st.comment, done: false }
    }
}

/// The reading of a Fanuc milling program after its lines `ls`.
pub open spec fn mill_run(ls: Seq<Seq<char>>) -> ScanState
    decreases ls.len(),
{
    if ls.len() == 0 {
        scan_start()
    } else {
        mill_step(mill_run(ls.drop_last()), ls.last())
    }
}

/// One line of a Fanuc lathe program. Comment and name lines are skipped; `M30` or
/// `M99` ends the program; lines with a tool change (`M6`) are ignored; any other line
/// with a `T` number starts a new tool.
pub open spec fn lathe_step(st: ScanState, line: Seq<char>) -> ScanState {
    let t = trim_start(line);
    if st.done || starts_with_char(t, '(') || starts_with_char(t, '<') {
        st
    } else if contains_sub(t, m30()) || contains_sub(t, m99()) {
        ScanState { tools: flushed(st), current: st.current, comment: st.comment, done: true }
    } else if has_m6(t) {
        st
    } else if tool_number_of(t) is Some {
        ScanState {
            tools: flushed(st),
            current: tool_number_of(t)->0,
            comment: comment_or_empty(t),
            done: false,
        }
    } else {
        st
    }
}

/// The reading of a Fanuc lathe program after its lines `ls`.
pub open spec fn lathe_run(ls: Seq<Seq<char>>) -> ScanState
    decreases ls.len(),
{
    if ls.len() == 0 {
        scan_start()
    } else {
        lathe_step(lathe_run(ls.drop_last()), ls.last())
    }
}

/// The name a tool is listed under: its comment, or [`unnamed`] when it has none.
pub open spec fn named(c: Seq<char>) -> Seq<char> {
    if c.len() == 0 {
        unnamed()
    } else {
        c
    }
}

/// The map with every comment replaced by the name it is listed under.
pub open spec fn named_map(m: Map<u32, Entry>) -> Map<u32, Entry> {
    Map::new(|k: u32| m.contains_key(k), |k: u32| (named(m[k].0), m[k].1, m[k].2))
}

/// The map with every comment replaced by the name it is listed under, and zero codes.
pub open spec fn named_map_zero(m: Map<u32, Entry>) -> Map<u32, Entry> {
    Map::new(|k: u32| m.contains_key(k), |k: u32| (named(m[k].0), 0u32, 0u32))
}

/// The tools of a Fanuc milling program, by number.
pub open spec fn milling_tools(ls: Seq<Seq<char>>) -> Map<u32, Entry> {
    named_map(mill_run(ls).tools)
}

/// The tools of a Fanuc lathe program, by number (lathe tools carry no H or D code).
pub open spec fn lathe_tools(ls: Seq<Seq<char>>) -> Map<u32, Entry> {
    named_map_zero(lathe_run(ls).tools)
}

proof fn lemma_mill_done(ls: Seq<Seq<char>>, i: int)
    requires
        0 <= i <= ls.len(),
        mill_run(ls.take(i)).done,
    ensures
        mill_run(ls) == mill_run(ls.take(i)),
    decreases ls.len(),
{
    if i == ls.len() {
        assert(ls.take(i) =~= ls);
    } else {
        assert(ls.drop_last().take(i) =~= ls.take(i));
        lemma_mill_done(ls.drop_last(), i);
    }
}

proof fn lemma_lathe_done(ls: Seq<Seq<char>>, i: int)
    requires
        0 <= i <= ls.len(),
        lathe_run(ls.take(i)).done,
    ensures
        lathe_run(ls) == lathe_run(ls.take(i)),
    decreases ls.len(),
{
    if i == ls.len() {
        assert(ls.take(i) =~= ls);
    } else {
        assert(ls.drop_last().take(i) =~= ls.take(i));
        lemma_lathe_done(ls.drop_last(), i);
    }
}

/// The table with each tool listed under its name (see [`named`]); with `zero_codes`
/// the H and D codes are set to zero.
fn finish_table(v: Vec<ToolInfo>, zero_codes: bool, Ghost(m): Ghost<Map<u32, Entry>>) -> (r: Vec<
    ToolInfo,
>)
    requires
        lists(tool_views(v@), m),
    ensures
        lists(tool_views(r@), if zero_codes { named_map_zero(m) } else { named_map(m) }),
{
    let ghost nm = if zero_codes { named_map_zero(m) } else { named_map(m) };
    let mut r: Vec<ToolInfo> = Vec::new();
    let mut i: usize = 0;
    while i < v.len()
        invariant
            i <= v@.len(),
            lists(tool_views(v@), m),
            nm == (if zero_codes { named_map_zero(m) } else { named_map(m) }),
            r@.len() == i,
            forall|j: int|
                0 <= j < i ==> (#[trigger] r@[j]).number == v@[j].number && r@[j].name@ == named(
                    v@[j].name@,
                ) && r@[j].h == (if zero_codes { 0 } else { v@[j].h }) && r@[j].d == (
                if zero_codes {
                    0
                } else {
                    v@[j].d
                }),
        decreases v@.len() - i,
    {
        let name = if v[i].name.as_str().is_empty() {
            from_chars(&lit_unnamed())
        } else {
            v[i].name.clone()
        };
        let t = ToolInfo {
            number: v[i].number,
            name: name,
            h: if zero_codes { 0 } else { v[i].h },
            d: if zero_codes { 0 } else { v[i].d },
        };
        r.push(t);
        i += 1;
    }
    let ghost rv = tool_views(r@);
    let ghost vv = tool_views(v@);
    assert forall|a: int, b: int| 0 <= a < b < rv.len() implies rv[a].number < rv[b].number by {
        assert(vv[a].number < vv[b].number);
    }
    assert forall|a: int| 0 <= a < rv.len() implies nm.contains_key(#[trigger] rv[a].number)
        && nm[rv[a].number] == (rv[a].name, rv[a].h, rv[a].d) by {
        assert(m.contains_key(vv[a].number));
    }
    assert forall|key: u32| #[trigger] nm.contains_key(key) implies exists|a: int|
        0 <= a < rv.len() && rv[a].number == key by {
        assert(m.contains_key(key));
        let a = choose|a: int| 0 <= a < vv.len() && vv[a].number == key;
        assert(rv[a].number == key);
    }
    r
}

/// The tools of a Fanuc milling program, in increasing order of number (see
/// [`mill_step`]): one per tool number, named by its comment or [`UNNAMED_TOOL`].
pub fn parse_fanuc_milling(lines: &[String]) -> (r: Vec<ToolInfo>)
    ensures
        lists(tool_views(r@), milling_tools(string_seqs(lines@))),
{
    let ghost ls = string_seqs(lines@);
    let mut table: Vec<ToolInfo> = Vec::new();
    let mut current: u32 = 0;
    let mut comment: Vec<char> = Vec::new();
    let mut stopped = false;
    let mut i: usize = 0;
    assert(ls.take(0) =~= Seq::<Seq<char>>::empty());
    while i < lines.len() && !stopped
        invariant
            i <= lines@.len(),
            ls == string_seqs(lines@),
            lists(tool_views(table@), mill_run(ls.take(i as int)).tools),
            current == mill_run(ls.take(i as int)).current,
            comment@ == mill_run(ls.take(i as int)).comment,
            stopped == mill_run(ls.take(i as int)).done,
        decreases lines@.len() - i,
    {
        let ghost st = mill_run(ls.take(i as int));
        assert(ls.take(i + 1).drop_last() =~= ls.take(i as int));
        let line = to_chars(lines[i].as_str());
        assert(ls.take(i + 1).last() == line@);
        let t = trim_start_vec(&line);
        if t.len() > 0 && (t[0] == '(' || t[0] == '<') {
        } else if contains_sub_vec(&t, &lit_m30()) || contains_sub_vec(&t, &lit_m99()) {
            if current != 0 {
                flush_tool_exec(&mut table, current, &comment, Ghost(st.tools));
            }
            stopped = true;
        } else {
            let num = if has_m6_chars(&t) {
                tool_number_chars(&t)
            } else {
                None
            };
            match num {
                Some(n) => {
                    if current != 0 {
                        flush_tool_exec(&mut table, current, &comment, Ghost(st.tools));
                    }
                    current = n;
                    comment = match comment_chars(&t) {
                        Some(c) => c,
                        None => Vec::new(),
                    };
                    assert(comment@ == comment_or_empty(t@));
                },
                None => {
                    let ghost tools1 = if contains_sub(t@, g43()) && t@.contains('H') && number_after(
                        t@,
                        'H',
                    ) is Some && st.current != 0 {
                        with_h(st.tools, st.current, st.comment, number_after(t@, 'H')->0)
                    } else {
                        st.tools
                    };
                    if contains_sub_vec(&t, &lit_g43()) && contains_char_vec(&t, 'H') {
                        match number_after_chars(&t, 'H') {
                            Some(h) => {
                                if current != 0 {
                                    with_h_exec(&mut table, current, &comment, h, Ghost(st.tools));
                                }
                            },
                            None => {},
                        }
                    }
                    assert(lists(tool_views(table@), tools1));
                    if (contains_sub_vec(&t, &lit_g41()) || contains_sub_vec(&t, &lit_g42()))
                        && contains_char_vec(&t, 'D') {
                        match number_after_chars(&t, 'D') {
                            Some(d) => {
                                if current != 0 {
                                    with_d_exec(&mut table, current, &comment, d, Ghost(tools1));
                                }
                            },
                            None => {},
                        }
                    }
                },
            }
        }
        i += 1;
    }
    proof {
        if stopped {
            lemma_mill_done(ls, i as int);
        } else {
            assert(ls.take(i as int) =~= ls);
        }
    }
    finish_table(table, false, Ghost(mill_run(ls).tools))
}

/// The tools of a Fanuc lathe program, in increasing order of number (see
/// [`lathe_step`]): one per tool number, named by its comment or [`UNNAMED_TOOL`].
pub fn parse_fanuc_lathe(lines: &[String]) -> (r: Vec<ToolInfo>)
    ensures
        lists(tool_views(r@), lathe_tools(string_seqs(lines@))),
{
    let ghost ls = string_seqs(lines@);
    let mut table: Vec<ToolInfo> = Vec::new();
    let mut current: u32 = 0;
    let mut comment: Vec<char> = Vec::new();
    let mut stopped = false;
    let mut i: usize = 0;
    assert(ls.take(0) =~= Seq::<Seq<char>>::empty());
    while i < lines.len() && !stopped
        invariant
            i <= lines@.len(),
            ls == string_seqs(lines@),
            lists(tool_views(table@), lathe_run(ls.take(i as int)).tools),
            current == lathe_run(ls.take(i as int)).current,
            comment@ == lathe_run(ls.take(i as int)).comment,
            stopped == lathe_run(ls.take(i as int)).done,
        decreases lines@.len() - i,
    {
        let ghost st = lathe_run(ls.take(i as int));
        assert(ls.take(i + 1).drop_last() =~= ls.take(i as int));
        let line = to_chars(lines[i].as_str());
        assert(ls.take(i + 1).last() == line@);
        let t = trim_start_vec(&line);
        if t.len() > 0 && (t[0] == '(' || t[0] == '<') {
        } else if contains_sub_vec(&t, &lit_m30()) || contains_sub_vec(&t, &lit_m99()) {
            if current != 0 {
                insert_lathe_tool(&mut table, current, &comment, Ghost(st.tools));
            }
            stopped = true;
        } else if has_m6_chars(&t) {
        } else {
            match tool_number_chars(&t) {
                Some(n) => {
                    if current != 0 {
                        insert_lathe_tool(&mut table, current, &comment, Ghost(st.tools));
                    }
                    current = n;
                    comment = match comment_chars(&t) {
                        Some(c) => c,
                        None => Vec::new(),
                    };
                    assert(comment@ == comment_or_empty(t@));
                },
                None => {},
            }
        }
        i += 1;
    }
    proof {
        if stopped {
            lemma_lathe_done(ls, i as int);
        } else {
            assert(ls.take(i as int) =~= ls);
        }
    }
    finish_table(table, true, Ghost(lathe_run(ls).tools))
}

/// Records a lathe tool after its block: a tool not seen yet is added with `comment`;
/// a tool seen without a comment gets `comment` (see [`flush_tool`]).
fn insert_lathe_tool(tools: &mut Vec<ToolInfo>, num: u32, comment: &[char], Ghost(m): Ghost<
    Map<u32, Entry>,
>)
    requires
        lists(tool_views(old(tools)@), m),
    ensures
        lists(tool_views(final(tools)@), flush_tool(m, num, comment@)),
{
    flush_tool_exec(tools, num, comment, Ghost(m));
}


// ───────────────────────────── Sinumerik and Heidenhain ─────────────────────────────

/// The name of a Sinumerik tool-change line: the trimmed text after its first `;`
/// (up to a second `;`), or [`unnamed`] when that is empty or missing.
pub open spec fn sinumerik_name(line: Seq<char>) -> Seq<char> {
    match second_piece(line, ';') {
        Some(p) => named(trim(p)),
        None => unnamed(),
    }
}

/// The tools of a Sinumerik program after the lines `ls`: every line with a tool
/// change and a `T` number names that tool, the first such line of a number counting.
pub open spec fn sinumerik_run(ls: Seq<Seq<char>>) -> Map<u32, Entry>
    decreases ls.len(),
{
    if ls.len() == 0 {
        Map::empty()
    } else {
        let m = sinumerik_run(ls.drop_last());
        let line = ls.last();
        if has_m6(line) && tool_number_of(line) is Some {
            keep_first(m, tool_number_of(line)->0, sinumerik_name(line))
        } else {
            m
        }
    }
}

/// The tools of a Sinumerik program, by number.
pub open spec fn sinumerik_tools(ls: Seq<Seq<char>>) -> Map<u32, Entry> {
    sinumerik_run(ls)
}

/// The tool number of a Heidenhain `TOOL CALL` line: in the lower-case form of the
/// line, the first word after the first `tool call` (up to a second one), read as a
/// number.
pub open spec fn heidenhain_number(line: Seq<char>) -> Option<u32> {
    let lower = lowercased(line);
    if contains_sub(lower, tool_call()) {
        let after = match second_piece_sub(lower, tool_call()) {
            Some(p) => trim(p),
            None => seq![],
        };
        let word = match first_word(after) {
            Some(w) => w,
            None => seq![],
        };
        parse_u32(word)
    } else {
        None
    }
}

/// The comment of the line before a `TOOL CALL`: the trimmed text after its first `;`,
/// or else after its first `*`, or nothing.
pub open spec fn heidenhain_comment(prev: Seq<char>) -> Seq<char> {
    match after_char(prev, ';') {
        Some(a) => trim(a),
        None => match after_char(prev, '*') {
            Some(a) => trim(a),
            None => seq![],
        },
    }
}

/// The name of the tool called at line `i`: the comment of line `i - 1`, or
/// [`unnamed`].
pub open spec fn heidenhain_name(ls: Seq<Seq<char>>, i: int) -> Seq<char> {
    if i > 0 {
        named(heidenhain_comment(ls[i - 1]))
    } else {
        unnamed()
    }
}

/// The tools of a Heidenhain program after its first `n` lines; the first call of a
/// number counts.
pub open spec fn heidenhain_run(ls: Seq<Seq<char>>, n: nat) -> Map<u32, Entry>
    decreases n,
{
    if n == 0 {
        Map::empty()
    } else {
        let m = heidenhain_run(ls, (n - 1) as nat);
        match heidenhain_number(ls[n - 1]) {
            Some(p) => keep_first(m, p, heidenhain_name(ls, n - 1)),
            None => m,
        }
    }
}

/// The tools of a Heidenhain program, by number.
pub open spec fn heidenhain_tools(ls: Seq<Seq<char>>) -> Map<u32, Entry> {
    heidenhain_run(ls, ls.len())
}

fn sinumerik_name_chars(line: &[char]) -> (r: Vec<char>)
    ensures
        r@ == sinumerik_name(line@),
{
    match second_piece_vec(line, ';') {
        Some(p) => {
            let t = trim_vec(&p);
            if t.len() == 0 {
                lit_unnamed()
            } else {
                t
            }
        },
        None => lit_unnamed(),
    }
}

/// The tools of a Sinumerik program, in increasing order of number (see
/// [`sinumerik_run`]).
pub fn parse_sinumerik(lines: &[String]) -> (r: Vec<ToolInfo>)
    ensures
        lists(tool_views(r@), sinumerik_tools(string_seqs(lines@))),
{
    let ghost ls = string_seqs(lines@);
    let mut table: Vec<ToolInfo> = Vec::new();
    let mut i: usize = 0;
    assert(ls.take(0) =~= Seq::<Seq<char>>::empty());
    while i < lines.len()
        invariant
            i <= lines@.len(),
            ls == string_seqs(lines@),
            lists(tool_views(table@), sinumerik_run(ls.take(i as int))),
        decreases lines@.len() - i,
    {
        let ghost m = sinumerik_run(ls.take(i as int));
        assert(ls.take(i + 1).drop_last() =~= ls.take(i as int));
        let line = to_chars(lines[i].as_str());
        assert(ls.take(i + 1).last() == line@);
        if has_m6_chars(&line) {
            match tool_number_chars(&line) {
                Some(n) => {
                    let name = sinumerik_name_chars(&line);
                    keep_first_exec(&mut table, n, &name, Ghost(m));
                },
                None => {},
            }
        }
        i += 1;
    }
    assert(ls.take(i as int) =~= ls);
    table
}

fn heidenhain_number_chars(line: &str) -> (r: Option<u32>)
    ensures
        r == heidenhain_number(line@),
        lowercase_known(line@),
{
    let lower = to_chars(to_lowercase(line).as_str());
    let pat = lit_tool_call();
    if contains_sub_vec(&lower, &pat) {
        let after = match second_piece_sub_vec(&lower, &pat) {
            Some(p) => trim_vec(&p),
            None => Vec::new(),
        };
        let word = match first_word_vec(&after) {
            Some(w) => w,
            None => Vec::new(),
        };
        parse_u32_chars(&word)
    } else {
        None
    }
}

fn heidenhain_comment_chars(prev: &[char]) -> (r: Vec<char>)
    ensures
        r@ == heidenhain_comment(prev@),
{
    match after_char_vec(prev, ';') {
        Some(a) => trim_vec(&a),
        None => match after_char_vec(prev, '*') {
            Some(a) => trim_vec(&a),
            None => Vec::new(),
        },
    }
}

/// The tools of a Heidenhain program, in increasing order of number (see
/// [`heidenhain_run`]).
pub fn parse_heidenhain(lines: &[String]) -> (r: Vec<ToolInfo>)
    ensures
        lists(tool_views(r@), heidenhain_tools(string_seqs(lines@))),
        forall|j: int| 0 <= j < lines@.len() ==> lowercase_known(#[trigger] lines@[j]@),
{
    let ghost ls = string_seqs(lines@);
    let mut table: Vec<ToolInfo> = Vec::new();
    let mut i: usize = 0;
    while i < lines.len()
        invariant
            i <= lines@.len(),
            ls == string_seqs(lines@),
            lists(tool_views(table@), heidenhain_run(ls, i as nat)),
            forall|j: int| 0 <= j < i ==> lowercase_known(#[trigger] lines@[j]@),
        decreases lines@.len() - i,
    {
        let ghost m = heidenhain_run(ls, i as nat);
        match heidenhain_number_chars(lines[i].as_str()) {
            Some(pos) => {
                let comment = if i > 0 {
                    let prev = to_chars(lines[i - 1].as_str());
                    heidenhain_comment_chars(&prev)
                } else {
                    Vec::new()
                };
                let name = if comment.len() == 0 {
                    lit_unnamed()
                } else {
                    comment
                };
                assert(name@ == heidenhain_name(ls, i as int));
                keep_first_exec(&mut table, pos, &name, Ghost(m));
            },
            None => {},
        }
        i += 1;
    }
    table
}


// ───────────────────────────── dialect and table ─────────────────────────────

/// The lower-case extension of a file path.
pub open spec fn lower_extension(file: Seq<char>) -> Option<Seq<char>> {
    match path_extension(file) {
        Some(e) => Some(lowercased(e)),
        None => None,
    }
}

/// Whether the lower-case extension of a path is known for an ASCII extension (see
/// [`lowercase_known`]).
pub open spec fn ascii_extension_lowered(file: Seq<char>) -> bool {
    match path_extension(file) {
        Some(e) => lowercase_known(e),
        None => true,
    }
}

/// The lower-case extension of a file path (see [`path_extension`]).
pub fn get_file_extension(file: &str) -> (r: Option<String>)
    ensures
        match r {
            Some(e) => lower_extension(file@) == Some(e@),
            None => lower_extension(file@) is None,
        },
        ascii_extension_lowered(file@),
{
    match extension_chars(&to_chars(file)) {
        Some(e) => Some(to_lowercase(from_chars(&e).as_str())),
        None => None,
    }
}

/// The dialect of a program, from the extension of its file (`h`: Heidenhain;
/// `mpf`, `spf`: Sinumerik; `pbg`, `pbd`: Mazatrol, which is not read) and otherwise
/// from its lines (Fanuc milling when a line is a [`milling_marker`], else Fanuc
/// lathe).
pub open spec fn variant_of(file: Seq<char>, ls: Seq<Seq<char>>) -> Option<CncVariant> {
    let e = lower_extension(file);
    if e == Some(seq!['h']) {
        Some(CncVariant::Heidenhain)
    } else if e == Some(seq!['m', 'p', 'f']) || e == Some(seq!['s', 'p', 'f']) {
        Some(CncVariant::Sinumerik)
    } else if e == Some(seq!['p', 'b', 'g']) || e == Some(seq!['p', 'b', 'd']) {
        None
    } else if exists|i: int| 0 <= i < ls.len() && #[trigger] milling_marker(ls[i]) {
        Some(CncVariant::FanucMilling)
    } else {
        Some(CncVariant::FanucLathe)
    }
}

fn ext_is(e: &[char], a: char, b: char, c: char) -> (r: bool)
    ensures
        r == (e@ == seq![a, b, c]),
{
    if e.len() == 3 && e[0] == a && e[1] == b && e[2] == c {
        assert(e@ =~= seq![a, b, c]);
        true
    } else {
        false
    }
}

/// Determines the dialect of a program (see [`variant_of`]); `None` for Mazatrol,
/// which is not supported.
pub fn detect_variant(file: &str, lines: &[String]) -> (r: Option<CncVariant>)
    ensures
        r == variant_of(file@, string_seqs(lines@)),
        ascii_extension_lowered(file@),
{
    let ghost ls = string_seqs(lines@);
    match get_file_extension(file) {
        Some(ext) => {
            let e = to_chars(ext.as_str());
            if e.len() == 1 && e[0] == 'h' {
                assert(e@ =~= seq!['h']);
                return Some(CncVariant::Heidenhain);
            }
            assert(e@ != seq!['h']);
            if ext_is(&e, 'm', 'p', 'f') || ext_is(&e, 's', 'p', 'f') {
                return Some(CncVariant::Sinumerik);
            }
            if ext_is(&e, 'p', 'b', 'g') || ext_is(&e, 'p', 'b', 'd') {
                return None;
            }
        },
        None => {},
    }
    let milling = is_fanuc_milling(lines);
    proof {
        if milling {
            let i = choose|i: int| 0 <= i < lines@.len() && #[trigger] milling_marker(lines@[i]@);
            assert(ls[i] == lines@[i]@);
            assert(milling_marker(ls[i]));
        } else {
            assert forall|i: int| 0 <= i < ls.len() implies !#[trigger] milling_marker(ls[i]) by {
                assert(ls[i] == lines@[i]@);
            }
        }
    }
    if milling {
        Some(CncVariant::FanucMilling)
    } else {
        Some(CncVariant::FanucLathe)
    }
}

/// The tools of a program in the given dialect, by number.
pub open spec fn tools_of(ls: Seq<Seq<char>>, variant: CncVariant) -> Map<u32, Entry> {
    match variant {
        CncVariant::FanucMilling => milling_tools(ls),
        CncVariant::FanucLathe => lathe_tools(ls),
        CncVariant::Sinumerik => sinumerik_tools(ls),
        CncVariant::Heidenhain => heidenhain_tools(ls),
    }
}

/// The tools of a program in the given dialect, in increasing order of number, one per
/// tool number.
pub fn parse_tools(lines: &[String], variant: &CncVariant) -> (r: Vec<ToolInfo>)
    ensures
        lists(tool_views(r@), tools_of(string_seqs(lines@), *variant)),
        *variant == CncVariant::Heidenhain ==> forall|j: int|
            0 <= j < lines@.len() ==> lowercase_known(#[trigger] lines@[j]@),
{
    match variant {
        CncVariant::FanucMilling => parse_fanuc_milling(lines),
        CncVariant::FanucLathe => parse_fanuc_lathe(lines),
        CncVariant::Sinumerik => parse_sinumerik(lines),
        CncVariant::Heidenhain => parse_heidenhain(lines),
    }
}

/// The row of the tool table for one tool. With `print_number`, Fanuc milling rows
/// read `(Tnn Hnn Dnn - name)`, Fanuc lathe rows `(Tnnnn - name)` and Sinumerik and
/// Heidenhain rows `;Tnn - name` (numbers zero padded to the width shown); without it,
/// `(name)` for Fanuc and `;name` for the others.
pub open spec fn tool_row(t: ToolView, variant: CncVariant, print_number: bool) -> Seq<char> {
    match variant {
        CncVariant::FanucMilling => if print_number {
            seq!['(', 'T'] + zero_pad(decimal(t.number as nat), 2) + seq![' ', 'H'] + zero_pad(
                decimal(t.h as nat),
                2,
            ) + seq![' ', 'D'] + zero_pad(decimal(t.d as nat), 2) + seq![' ', '-', ' '] + t.name
                + seq![')']
        } else {
            seq!['('] + t.name + seq![')']
        },
        CncVariant::FanucLathe => if print_number {
            seq!['(', 'T'] + zero_pad(decimal(t.number as nat), 4) + seq![' ', '-', ' '] + t.name
                + seq![')']
        } else {
            seq!['('] + t.name + seq![')']
        },
        _ => if print_number {
            seq![';', 'T'] + zero_pad(decimal(t.number as nat), 2) + seq![' ', '-', ' '] + t.name
        } else {
            seq![';'] + t.name
        },
    }
}

fn tool_row_exec(t: &ToolInfo, variant: &CncVariant, print_number: bool) -> (r: String)
    ensures
        r@ == tool_row(t@, *variant, print_number),
{
    let name = to_chars(t.name.as_str());
    let mut out: Vec<char> = Vec::new();
    match variant {
        CncVariant::FanucMilling => {
            if print_number {
                out.push('(');
                out.push('T');
                push_padded(&mut out, t.number, 2);
                out.push(' ');
                out.push('H');
                push_padded(&mut out, t.h, 2);
                out.push(' ');
                out.push('D');
                push_padded(&mut out, t.d, 2);
                out.push(' ');
                out.push('-');
                out.push(' ');
                push_all(&mut out, &name);
                out.push(')');
            } else {
                out.push('(');
                push_all(&mut out, &name);
                out.push(')');
            }
        },
        CncVariant::FanucLathe => {
            if print_number {
                out.push('(');
                out.push('T');
                push_padded(&mut out, t.number, 4);
                out.push(' ');
                out.push('-');
                out.push(' ');
                push_all(&mut out, &name);
                out.push(')');
            } else {
                out.push('(');
                push_all(&mut out, &name);
                out.push(')');
            }
        },
        _ => {
            if print_number {
                out.push(';');
                out.push('T');
                push_padded(&mut out, t.number, 2);
                out.push(' ');
                out.push('-');
                out.push(' ');
                push_all(&mut out, &name);
            } else {
                out.push(';');
                push_all(&mut out, &name);
            }
        },
    }
    assert(out@ =~= tool_row(t@, *variant, print_number));
    from_chars(&out)
}

/// The rows of the tool table, one per tool and in the order of `tools` (see
/// [`tool_row`]).
pub fn format_tool_table(tools: &[ToolInfo], variant: &CncVariant, print_number: bool) -> (r: Vec<
    String,
>)
    ensures
        r@.len() == tools@.len(),
        forall|i: int|
            0 <= i < tools@.len() ==> (#[trigger] r@[i])@ == tool_row(
                tools@[i]@,
                *variant,
                print_number,
            ),
{
    let mut rows: Vec<String> = Vec::new();
    let mut i: usize = 0;
    while i < tools.len()
        invariant
            i <= tools@.len(),
            rows@.len() == i,
            forall|j: int|
                0 <= j < i ==> (#[trigger] rows@[j])@ == tool_row(
                    tools@[j]@,
                    *variant,
                    print_number,
                ),
        decreases tools@.len() - i,
    {
        let row = tool_row_exec(&tools[i], variant, print_number);
        rows.push(row);
        i += 1;
    }
    rows
}


/// Whether the milling reading passes over a line: it starts, after white space, with
/// `(` or `<`.
pub open spec fn skipped_line(line: Seq<char>) -> bool {
    starts_with_char(trim_start(line), '(') || starts_with_char(trim_start(line), '<')
}

/// Whether a line ends the milling reading: it is not passed over and holds `M30` or
/// `M99`.
pub open spec fn stop_line(line: Seq<char>) -> bool {
    !skipped_line(line) && (contains_sub(trim_start(line), m30()) || contains_sub(trim_start(line), m99()))
}

/// Inserting a comment line (one starting with `(` or `<`) anywhere in a program
/// changes nothing in what the milling reading finds.
pub proof fn lemma_milling_ignores_comment_lines(ls: Seq<Seq<char>>, k: int, c: Seq<char>)
    requires
        0 <= k <= ls.len(),
        skipped_line(c),
    ensures
        mill_run(ls.insert(k, c)) == mill_run(ls),
        milling_tools(ls.insert(k, c)) == milling_tools(ls),
    decreases ls.len(),
{
    let ins = ls.insert(k, c);
    if k == ls.len() {
        assert(ins.drop_last() =~= ls);
        assert(ins.last() == c);
    } else {
        lemma_milling_ignores_comment_lines(ls.drop_last(), k, c);
        assert(ins.drop_last() =~= ls.drop_last().insert(k, c));
        assert(ins.last() == ls.last());
    }
}

proof fn lemma_mill_run_done_append(xs: Seq<Seq<char>>, zs: Seq<Seq<char>>)
    requires
        mill_run(xs).done,
    ensures
        mill_run(xs + zs) == mill_run(xs),
    decreases zs.len(),
{
    if zs.len() == 0 {
        assert(xs + zs =~= xs);
    } else {
        lemma_mill_run_done_append(xs, zs.drop_last());
        assert((xs + zs).drop_last() =~= xs + zs.drop_last());
    }
}

/// The milling reading ends at its first stop line: what follows a stop line changes
/// nothing in what it finds.
pub proof fn lemma_milling_stops(xs: Seq<Seq<char>>, zs: Seq<Seq<char>>)
    requires
        xs.len() > 0,
        stop_line(xs.last()),
    ensures
        mill_run(xs + zs) == mill_run(xs),
        milling_tools(xs + zs) == milling_tools(xs),
{
    assert(mill_run(xs).done);
    lemma_mill_run_done_append(xs, zs);
}
/// The lines of a program that the milling reading does not pass over, in order.
pub open spec fn unskipped(ls: Seq<Seq<char>>) -> Seq<Seq<char>>
    decreases ls.len(),
{
    if ls.len() == 0 {
        ls
    } else if skipped_line(ls.last()) {
        unskipped(ls.drop_last())
    } else {
        unskipped(ls.drop_last()).push(ls.last())
    }
}

proof fn lemma_mill_run_unskipped(ls: Seq<Seq<char>>)
    ensures
        mill_run(ls) == mill_run(unskipped(ls)),
    decreases ls.len(),
{
    if ls.len() > 0 {
        lemma_mill_run_unskipped(ls.drop_last());
        if !skipped_line(ls.last()) {
            let u = unskipped(ls.drop_last()).push(ls.last());
            assert(u.drop_last() =~= unskipped(ls.drop_last()));
        }
    }
}

/// Two programs whose lines agree once the comment lines (those starting with `(` or
/// `<`) are taken out are read alike by the milling reading.
pub proof fn lemma_milling_same_unskipped(xs: Seq<Seq<char>>, ys: Seq<Seq<char>>)
    requires
        unskipped(xs) == unskipped(ys),
    ensures
        mill_run(xs) == mill_run(ys),
        milling_tools(xs) == milling_tools(ys),
{
    lemma_mill_run_unskipped(xs);
    lemma_mill_run_unskipped(ys);
}

/// A program with lines inserted one after the other: each pair gives the position
/// in the program as it stands at that point, and the line put there.
pub open spec fn with_insertions(xs: Seq<Seq<char>>, ins: Seq<(int, Seq<char>)>) -> Seq<Seq<char>>
    decreases ins.len(),
{
    if ins.len() == 0 {
        xs
    } else {
        with_insertions(xs, ins.drop_last()).insert(ins.last().0, ins.last().1)
    }
}

proof fn lemma_with_insertions_len(xs: Seq<Seq<char>>, ins: Seq<(int, Seq<char>)>)
    requires
        forall|i: int| 0 <= i < ins.len() ==> 0 <= #[trigger] ins[i].0 <= xs.len() + i,
    ensures
        with_insertions(xs, ins).len() == xs.len() + ins.len(),
    decreases ins.len(),
{
    if ins.len() > 0 {
        let pre = ins.drop_last();
        assert forall|i: int| 0 <= i < pre.len() implies 0 <= #[trigger] pre[i].0 <= xs.len() + i by {
            assert(pre[i] == ins[i]);
        }
        lemma_with_insertions_len(xs, pre);
    }
}

/// Inserting comment lines (each starting with `(` or `<`) at any positions in a
/// program, one after the other, changes nothing in what the milling reading finds.
pub proof fn lemma_milling_ignores_inserted_comments(
    xs: Seq<Seq<char>>,
    ins: Seq<(int, Seq<char>)>,
)
    requires
        forall|i: int| 0 <= i < ins.len() ==> 0 <= #[trigger] ins[i].0 <= xs.len() + i,
        forall|i: int| 0 <= i < ins.len() ==> skipped_line(#[trigger] ins[i].1),
    ensures
        mill_run(with_insertions(xs, ins)) == mill_run(xs),
        milling_tools(with_insertions(xs, ins)) == milling_tools(xs),
    decreases ins.len(),
{
    if ins.len() > 0 {
        let pre = ins.drop_last();
        assert forall|i: int| 0 <= i < pre.len() implies 0 <= #[trigger] pre[i].0 <= xs.len() + i by {
            assert(pre[i] == ins[i]);
        }
        assert forall|i: int| 0 <= i < pre.len() implies skipped_line(#[trigger] pre[i].1) by {
            assert(pre[i] == ins[i]);
        }
        lemma_milling_ignores_inserted_comments(xs, pre);
        lemma_with_insertions_len(xs, pre);
        let last = ins[ins.len() - 1];
        assert(0 <= last.0 <= xs.len() + pre.len());
        assert(skipped_line(last.1));
        lemma_milling_ignores_comment_lines(with_insertions(xs, pre), last.0, last.1);
    }
}

/// A line that changes to tool `k`: not passed over, not a stop line, with `M6` and the
/// tool number `k`.
pub open spec fn tool_change_to(line: Seq<char>, k: u32) -> bool {
    &&& !skipped_line(line)
    &&& !stop_line(line)
    &&& has_m6(trim_start(line))
    &&& tool_number_of(trim_start(line)) == Some(k)
}

/// A line that neither ends the program nor changes the tool.
pub open spec fn keeps_tool(line: Seq<char>) -> bool {
    skipped_line(line) || (!stop_line(line) && !(has_m6(trim_start(line)) && tool_number_of(
        trim_start(line),
    ) is Some))
}

proof fn lemma_mill_not_done(ls: Seq<Seq<char>>)
    requires
        forall|i: int| 0 <= i < ls.len() ==> !stop_line(#[trigger] ls[i]),
    ensures
        !mill_run(ls).done,
    decreases ls.len(),
{
    if ls.len() > 0 {
        let pre = ls.drop_last();
        assert forall|i: int| 0 <= i < pre.len() implies !stop_line(#[trigger] pre[i]) by {
            assert(pre[i] == ls[i]);
        }
        lemma_mill_not_done(pre);
        assert(!stop_line(ls[ls.len() - 1]));
    }
}

proof fn lemma_mill_keeps_tool(ys: Seq<Seq<char>>, mid: Seq<Seq<char>>)
    requires
        !mill_run(ys).done,
        forall|i: int| 0 <= i < mid.len() ==> keeps_tool(#[trigger] mid[i]),
    ensures
        !mill_run(ys + mid).done,
        mill_run(ys + mid).current == mill_run(ys).current,
    decreases mid.len(),
{
    if mid.len() == 0 {
        assert(ys + mid =~= ys);
    } else {
        let pre = mid.drop_last();
        assert forall|i: int| 0 <= i < pre.len() implies keeps_tool(#[trigger] pre[i]) by {
            assert(pre[i] == mid[i]);
        }
        lemma_mill_keeps_tool(ys, pre);
        assert((ys + mid).drop_last() =~= ys + pre);
        assert((ys + mid).last() == mid[mid.len() - 1]);
    }
}

/// After a change to tool `k` (with no stop line before it, and only lines that keep
/// the tool since), tool `k` is the tool in use and the reading goes on.
proof fn lemma_mill_tool_in_use(pre: Seq<Seq<char>>, c: Seq<char>, mid: Seq<Seq<char>>, k: u32)
    requires
        forall|i: int| 0 <= i < pre.len() ==> !stop_line(#[trigger] pre[i]),
        tool_change_to(c, k),
        forall|i: int| 0 <= i < mid.len() ==> keeps_tool(#[trigger] mid[i]),
    ensures
        !mill_run(pre.push(c) + mid).done,
        mill_run(pre.push(c) + mid).current == k,
{
    lemma_mill_not_done(pre);
    assert(pre.push(c).drop_last() =~= pre);
    lemma_mill_keeps_tool(pre.push(c), mid);
}

proof fn lemma_holds_letter(t: Seq<char>, letter: char)
    requires
        number_after(t, letter) is Some,
    ensures
        t.contains(letter),
{
    lemma_find_char(t, letter);
    let p = find_char(t, letter)->0;
    assert(t[p] == letter);
}

/// In a milling program, a line after a change to tool `k` (`k` not 0, no stop line
/// before, only lines that keep the tool in between) that holds `G41` or `G42` and a
/// `D` number `n`, and neither ends the program nor changes the tool, gives tool `k`
/// the D code `n`.
pub proof fn lemma_milling_d_code(
    pre: Seq<Seq<char>>,
    c: Seq<char>,
    mid: Seq<Seq<char>>,
    k: u32,
    l: Seq<char>,
    n: u32,
)
    requires
        forall|i: int| 0 <= i < pre.len() ==> !stop_line(#[trigger] pre[i]),
        tool_change_to(c, k),
        k != 0,
        forall|i: int| 0 <= i < mid.len() ==> keeps_tool(#[trigger] mid[i]),
        !skipped_line(l),
        !stop_line(l),
        !(has_m6(trim_start(l)) && tool_number_of(trim_start(l)) is Some),
        contains_sub(trim_start(l), g41()) || contains_sub(trim_start(l), g42()),
        number_after(trim_start(l), 'D') == Some(n),
    ensures
        milling_tools((pre.push(c) + mid).push(l)).contains_key(k),
        milling_tools((pre.push(c) + mid).push(l))[k].2 == n,
{
    let ys = pre.push(c) + mid;
    lemma_mill_tool_in_use(pre, c, mid, k);
    lemma_holds_letter(trim_start(l), 'D');
    assert(ys.push(l).drop_last() =~= ys);
}

/// In a milling program, a line after a change to tool `k` (as in
/// [`lemma_milling_d_code`]) that holds `G43` and an `H` number `h`, and neither ends
/// the program nor changes the tool, gives tool `k` the H code `h`.
pub proof fn lemma_milling_h_code(
    pre: Seq<Seq<char>>,
    c: Seq<char>,
    mid: Seq<Seq<char>>,
    k: u32,
    l: Seq<char>,
    h: u32,
)
    requires
        forall|i: int| 0 <= i < pre.len() ==> !stop_line(#[trigger] pre[i]),
        tool_change_to(c, k),
        k != 0,
        forall|i: int| 0 <= i < mid.len() ==> keeps_tool(#[trigger] mid[i]),
        !skipped_line(l),
        !stop_line(l),
        !(has_m6(trim_start(l)) && tool_number_of(trim_start(l)) is Some),
        contains_sub(trim_start(l), g43()),
        number_after(trim_start(l), 'H') == Some(h),
    ensures
        milling_tools((pre.push(c) + mid).push(l)).contains_key(k),
        milling_tools((pre.push(c) + mid).push(l))[k].1 == h,
{
    let ys = pre.push(c) + mid;
    lemma_mill_tool_in_use(pre, c, mid, k);
    lemma_holds_letter(trim_start(l), 'H');
    assert(ys.push(l).drop_last() =~= ys);
}
proof fn lemma_hh_not_called_yet(ls: Seq<Seq<char>>, n: nat, k: u32)
    requires
        n <= ls.len(),
        forall|m: int| 0 <= m < n ==> heidenhain_number(#[trigger] ls[m]) != Some(k),
    ensures
        !heidenhain_run(ls, n).contains_key(k),
    decreases n,
{
    if n > 0 {
        lemma_hh_not_called_yet(ls, (n - 1) as nat, k);
        assert(heidenhain_number(ls[n - 1]) != Some(k));
    }
}

proof fn lemma_hh_first_call_stays(ls: Seq<Seq<char>>, i: int, n: nat, k: u32)
    requires
        0 <= i < n <= ls.len(),
        heidenhain_run(ls, (i + 1) as nat).contains_key(k),
    ensures
        heidenhain_run(ls, n).contains_key(k),
        heidenhain_run(ls, n)[k] == heidenhain_run(ls, (i + 1) as nat)[k],
    decreases n,
{
    if n > i + 1 {
        lemma_hh_first_call_stays(ls, i, (n - 1) as nat, k);
    }
}

/// In a Heidenhain program, a tool called for the first time at line `i` is named by
/// the line before it: by the trimmed text after that line's first `;`, or, when the
/// line holds no `;`, after its first `*` (when that text is not empty).
pub proof fn lemma_heidenhain_named_by_previous_line(
    ls: Seq<Seq<char>>,
    i: int,
    k: u32,
    c: char,
    j: int,
)
    requires
        0 < i < ls.len(),
        heidenhain_number(ls[i]) == Some(k),
        forall|m: int| 0 <= m < i ==> heidenhain_number(#[trigger] ls[m]) != Some(k),
        first_at(ls[i - 1], c, j),
        c == ';' || (c == '*' && !ls[i - 1].contains(';')),
        trim(ls[i - 1].skip(j + 1)).len() > 0,
    ensures
        heidenhain_tools(ls).contains_key(k),
        heidenhain_tools(ls)[k].0 == trim(ls[i - 1].skip(j + 1)),
{
    let prev = ls[i - 1];
    lemma_find_char_first(prev, c, j);
    if c == '*' {
        lemma_find_char(prev, ';');
        if let Some(p) = find_char(prev, ';') {
            assert(prev[p] == ';');
            assert(prev.contains(';'));
        }
    }
    assert(heidenhain_comment(prev) == trim(prev.skip(j + 1)));
    lemma_hh_not_called_yet(ls, i as nat, k);
    assert(heidenhain_run(ls, (i + 1) as nat) == keep_first(
        heidenhain_run(ls, i as nat),
        k,
        heidenhain_name(ls, i),
    ));
    lemma_hh_first_call_stays(ls, i, ls.len(), k);
}
} // verus!
