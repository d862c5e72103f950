//! Putting the tool table into an NC program: where it goes, whether tool numbers are
//! printed, and the program that results.
use vstd::prelude::*;

use crate::chars::{
    chars_eq, join, lines_of, parse_usize, parse_usize_chars, string_seqs, to_chars,
};
use crate::settings::{Extra, lookup};
use crate::strip::join_crlf;
use crate::text::{decode_bytes, decoded_text, text_lines};
use crate::tool_list::{
    CncVariant, ToolView, detect_variant, format_tool_table, lists, parse_tools, tool_row,
    tool_views, tools_of, variant_of,
};

verus! {

/// Line before which the table goes in a Fanuc or Sinumerik program when no line is
/// configured.
pub const DEFAULT_LINE: usize = 6;

/// Line before which the table goes in a Heidenhain program when no line is configured.
pub const DEFAULT_HEIDENHAIN_LINE: usize = 3;

/// The setting that holds the insertion line for a dialect.
pub open spec fn line_key(variant: CncVariant) -> Seq<char> {
    match variant {
        CncVariant::FanucMilling => "fanuc_milling_line"@,
        CncVariant::FanucLathe => "fanuc_lathe_line"@,
        CncVariant::Sinumerik => "sinumerik_line"@,
        CncVariant::Heidenhain => "heidenhain_line"@,
    }
}

/// The setting that says whether tool numbers are printed for a dialect.
pub open spec fn print_key(variant: CncVariant) -> Seq<char> {
    match variant {
        CncVariant::FanucMilling => "fanuc_milling_print_tool_number"@,
        CncVariant::FanucLathe => "fanuc_lathe_print_tool_number"@,
        CncVariant::Sinumerik => "sinumerik_print_tool_number"@,
        CncVariant::Heidenhain => "heidenhain_print_tool_number"@,
    }
}

/// The insertion line of a dialect when none is configured: 3 for Heidenhain, 6
/// otherwise.
pub open spec fn default_line(variant: CncVariant) -> usize {
    match variant {
        CncVariant::Heidenhain => DEFAULT_HEIDENHAIN_LINE,
        _ => DEFAULT_LINE,
    }
}

/// The line at which the table is inserted: the dialect's setting read as a number,
/// or the dialect's [`default_line`] when the setting is missing or not a number.
pub open spec fn insert_line(variant: CncVariant, extra: Seq<(Seq<char>, Seq<char>)>) -> usize {
    match lookup(extra, line_key(variant)) {
        Some(s) => match parse_usize(s) {
            Some(n) => n,
            None => default_line(variant),
        },
        None => default_line(variant),
    }
}

/// Whether tool numbers are printed: the dialect's setting is `true`, or missing.
pub open spec fn print_tool_number(variant: CncVariant, extra: Seq<(Seq<char>, Seq<char>)>) -> bool {
    match lookup(extra, print_key(variant)) {
        Some(s) => s == "true"@,
        None => true,
    }
}

/// The line at which the tool table is inserted (see [`insert_line`]).
pub fn get_insert_line(variant: &CncVariant, extra: &Extra) -> (r: usize)
    ensures
        r == insert_line(*variant, extra@),
{
    let (key, default) = match variant {
        CncVariant::FanucMilling => ("fanuc_milling_line", DEFAULT_LINE),
        CncVariant::FanucLathe => ("fanuc_lathe_line", DEFAULT_LINE),
        CncVariant::Sinumerik => ("sinumerik_line", DEFAULT_LINE),
        CncVariant::Heidenhain => ("heidenhain_line", DEFAULT_HEIDENHAIN_LINE),
    };
    match extra.get(key) {
        Some(s) => match parse_usize_chars(&to_chars(s.as_str())) {
            Some(n) => n,
            None => default,
        },
        None => default,
    }
}

/// Whether tool numbers are printed in the table (see [`print_tool_number`]).
pub fn get_print_tool_number(variant: &CncVariant, extra: &Extra) -> (r: bool)
    ensures
        r == print_tool_number(*variant, extra@),
{
    let key = match variant {
        CncVariant::FanucMilling => "fanuc_milling_print_tool_number",
        CncVariant::FanucLathe => "fanuc_lathe_print_tool_number",
        CncVariant::Sinumerik => "sinumerik_print_tool_number",
        CncVariant::Heidenhain => "heidenhain_print_tool_number",
    };
    match extra.get(key) {
        Some(s) => chars_eq(&to_chars(s.as_str()), &to_chars("true")),
        None => true,
    }
}

/// The lines with `rows` put in before line `at`.
pub open spec fn with_rows<A>(ls: Seq<A>, at: int, rows: Seq<A>) -> Seq<A> {
    ls.take(at) + rows + ls.skip(at)
}

/// Puts `rows` into `lines` before line `min(at, lines.len())`, in order.
pub fn insert_rows(lines: &mut Vec<String>, at: usize, rows: &[String])
    ensures
        final(lines)@ == with_rows(
            old(lines)@,
            if at < old(lines)@.len() {
                at as int
            } else {
                old(lines)@.len() as int
            },
            rows@,
        ),
{
    let start = if at < lines.len() {
        at
    } else {
        lines.len()
    };
    let ghost orig = lines@;
    let mut k: usize = 0;
    assert(orig =~= orig.take(start as int) + rows@.take(0) + orig.skip(start as int));
    while k < rows.len()
        invariant
            start <= orig.len(),
            k <= rows@.len(),
            lines@ == orig.take(start as int) + rows@.take(k as int) + orig.skip(start as int),
        decreases rows@.len() - k,
    {
        assert(lines@.len() == orig.len() + k);
        assert(start + k <= lines.len());
        lines.insert(start + k, rows[k].clone());
        k += 1;
        assert(lines@ =~= orig.take(start as int) + rows@.take(k as int) + orig.skip(start as int));
    }
    assert(rows@.take(k as int) =~= rows@);
}

/// What putting the tool table into a program comes to.
pub enum ToolListOutcome {
    /// The program has no lines.
    EmptyFile,
    /// The program is a Mazatrol program, which is not read.
    Mazatrol,
    /// The program calls no tools.
    NoTools,
    /// The table of `count` tools was put in; `program` is the new text.
    Inserted { program: String, count: usize },
}

/// The rows of the table for a listing of the tools.
pub open spec fn table_rows(tv: Seq<ToolView>, variant: CncVariant, print_number: bool) -> Seq<
    Seq<char>,
> {
    tv.map_values(|t: ToolView| tool_row(t, variant, print_number))
}

/// The program text with the table of the listed tools put in at the dialect's
/// insertion line, lines joined with `"\r\n"`.
pub open spec fn program_with_table(
    ls: Seq<Seq<char>>,
    variant: CncVariant,
    extra: Seq<(Seq<char>, Seq<char>)>,
    tv: Seq<ToolView>,
) -> Seq<char> {
    let at = if insert_line(variant, extra) < ls.len() {
        insert_line(variant, extra) as int
    } else {
        ls.len() as int
    };
    join(
        with_rows(ls, at, table_rows(tv, variant, print_tool_number(variant, extra))),
        seq!['\r', '\n'],
    )
}

/// Puts the tool table into the program held in `content` (the bytes of the file at
/// `file`, decoded as by [`decode_bytes`]): nothing for an empty program, a Mazatrol
/// program or a program without tools; otherwise the new program text and the number
/// of tools, the table listing the tools in increasing order of number.
pub fn generate_tool_list(file: &str, content: &[u8], extra: &Extra) -> (r: ToolListOutcome)
    requires
        content@.len() <= usize::MAX / 4,
    ensures
        ({
            let ls = lines_of(decoded_text(content@));
            match r {
                ToolListOutcome::EmptyFile => ls.len() == 0,
                ToolListOutcome::Mazatrol => ls.len() > 0 && variant_of(file@, ls) is None,
                ToolListOutcome::NoTools => ls.len() > 0 && variant_of(file@, ls) is Some
                    && tools_of(ls, variant_of(file@, ls)->0).dom() == Set::<u32>::empty(),
                ToolListOutcome::Inserted { program, count } => ls.len() > 0 && variant_of(
                    file@,
                    ls,
                ) is Some && exists|tv: Seq<ToolView>|
                    lists(tv, tools_of(ls, variant_of(file@, ls)->0)) && tv.len() > 0 && count
                        == tv.len() && program@ == program_with_table(
                        ls,
                        variant_of(file@, ls)->0,
                        extra@,
                        tv,
                    ),
            }
        }),
{
    let text = to_chars(decode_bytes(content).as_str());
    let mut lines = text_lines(&text);
    let ghost ls = string_seqs(lines@);
    if lines.len() == 0 {
        return ToolListOutcome::EmptyFile;
    }
    let variant = match detect_variant(file, &lines) {
        Some(v) => v,
        None => {
            return ToolListOutcome::Mazatrol;
        },
    };
    let at = get_insert_line(&variant, extra);
    let tools = parse_tools(&lines, &variant);
    let ghost tv = tool_views(tools@);
    let ghost m = tools_of(ls, variant);
    if tools.len() == 0 {
        proof {
            assert forall|k: u32| !m.contains_key(k) by {
                if m.contains_key(k) {
                    let i = choose|i: int| 0 <= i < tv.len() && tv[i].number == k;
                }
            }
            assert(m.dom() =~= Set::<u32>::empty());
        }
        return ToolListOutcome::NoTools;
    }
    let print = get_print_tool_number(&variant, extra);
    let table = format_tool_table(&tools, &variant, print);
    assert(string_seqs(table@) =~= table_rows(tv, variant, print));
    insert_rows(&mut lines, at, &table);
    let program = join_crlf(&lines);
    let ghost start = if at < ls.len() {
        at as int
    } else {
        ls.len() as int
    };
    assert(string_seqs(lines@) =~= with_rows(ls, start, string_seqs(table@)));
    assert(program@ == program_with_table(ls, variant, extra@, tv));
    ToolListOutcome::Inserted { program, count: tools.len() }
}


/// Putting rows in keeps every line of the program, in order: the lines before the
/// insertion point, then the rows, then the remaining lines.
pub proof fn lemma_rows_keep_lines<A>(ls: Seq<A>, at: int, rows: Seq<A>)
    requires
        0 <= at <= ls.len(),
    ensures
        with_rows(ls, at, rows).len() == ls.len() + rows.len(),
        with_rows(ls, at, rows).subrange(at, at + rows.len()) == rows,
        with_rows(ls, at, rows).take(at) + with_rows(ls, at, rows).skip(at + rows.len()) == ls,
{
    let w = with_rows(ls, at, rows);
    assert(w.subrange(at, at + rows.len()) =~= rows);
    assert(w.take(at) + w.skip(at + rows.len()) =~= ls);
}

/// Whether tool numbers are printed for each dialect follows that dialect's own
/// `..._print_tool_number` setting: printed when it is `true` or missing, not printed
/// for any other value.
pub proof fn lemma_print_number_setting(extra: Seq<(Seq<char>, Seq<char>)>)
    ensures
        print_tool_number(CncVariant::FanucMilling, extra) == match lookup(
            extra,
            "fanuc_milling_print_tool_number"@,
        ) {
            Some(s) => s == "true"@,
            None => true,
        },
        print_tool_number(CncVariant::FanucLathe, extra) == match lookup(
            extra,
            "fanuc_lathe_print_tool_number"@,
        ) {
            Some(s) => s == "true"@,
            None => true,
        },
        print_tool_number(CncVariant::Sinumerik, extra) == match lookup(
            extra,
            "sinumerik_print_tool_number"@,
        ) {
            Some(s) => s == "true"@,
            None => true,
        },
        print_tool_number(CncVariant::Heidenhain, extra) == match lookup(
            extra,
            "heidenhain_print_tool_number"@,
        ) {
            Some(s) => s == "true"@,
            None => true,
        },
{
}

/// A setting placed in front of the others changes the value it names for a key,
/// and nothing else.
proof fn lemma_lookup_front(extra: Seq<(Seq<char>, Seq<char>)>, k: Seq<char>, v: Seq<char>, key: Seq<char>)
    ensures
        lookup(seq![(k, v)] + extra, key) == if k == key {
            Some(v)
        } else {
            lookup(extra, key)
        },
{
    let e2 = seq![(k, v)] + extra;
    assert(e2[0] == (k, v));
    assert(e2.drop_first() =~= extra);
}

/// A setting of another name, such as another dialect's print setting, takes no part
/// in whether tool numbers are printed for a Fanuc lathe program; its own setting
/// decides.
pub proof fn lemma_lathe_print_number_own_setting(
    extra: Seq<(Seq<char>, Seq<char>)>,
    k: Seq<char>,
    v: Seq<char>,
)
    ensures
        k != "fanuc_lathe_print_tool_number"@ ==> print_tool_number(
            CncVariant::FanucLathe,
            seq![(k, v)] + extra,
        ) == print_tool_number(CncVariant::FanucLathe, extra),
        k == "fanuc_lathe_print_tool_number"@ ==> print_tool_number(
            CncVariant::FanucLathe,
            seq![(k, v)] + extra,
        ) == (v == "true"@),
{
    lemma_lookup_front(extra, k, v, "fanuc_lathe_print_tool_number"@);
}
} // verus!
