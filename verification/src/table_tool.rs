//! The tool-table program: it reads a program file (named on the command line, or
//! the one open in the first CIMCO Edit window) and puts its tool table on the
//! clipboard.
use vstd::prelude::*;

use crate::chars::{chars_eq, lines_of, string_seqs, to_chars};
use crate::commands::non_options;
use crate::generate::table_rows;
use crate::text::{decode_bytes, decoded_text, text_lines};
use crate::tool_list::{
    detect_variant, format_tool_table, lists, parse_tools, tool_views, tools_of, variant_of,
    ToolView,
};

verus! {

/// The option that leaves the tool numbers out of the table.
pub const NO_NUMBERS_FLAG: &'static str = "--no-numbers";

/// What the command line of the tool-table program asks for.
pub enum TableRequest {
    /// Print how to use the program.
    Usage,
    /// Read the file open in the first CIMCO Edit window.
    FromWindow { print_number: bool },
    /// Read the named file.
    FromFile { path: String, print_number: bool },
}

/// The arguments after the program's path.
pub open spec fn after_program(args: Seq<Seq<char>>) -> Seq<Seq<char>> {
    if args.len() >= 1 {
        args.skip(1)
    } else {
        seq![]
    }
}

/// Whether help is asked for: an argument after the program's path is `--help` or
/// `-h`.
pub open spec fn wants_help(args: Seq<Seq<char>>) -> bool {
    exists|i: int| 1 <= i < args.len() && (args[i] == "--help"@ || args[i] == "-h"@)
}

/// Whether the table shows tool numbers: no argument is `--no-numbers`.
pub open spec fn shows_numbers(args: Seq<Seq<char>>) -> bool {
    !(exists|i: int| 0 <= i < args.len() && args[i] == NO_NUMBERS_FLAG@)
}

/// What a command line asks for: usage on `--help`, `-h` or more than one file;
/// otherwise the window (no file) or the file, with or without tool numbers.
pub open spec fn request_of(args: Seq<Seq<char>>) -> (bool, bool, Option<Seq<char>>) {
    let files = non_options(after_program(args));
    if wants_help(args) || files.len() > 1 {
        (true, shows_numbers(args), None)
    } else if files.len() == 0 {
        (false, shows_numbers(args), None)
    } else {
        (false, shows_numbers(args), Some(files[0]))
    }
}

/// The view of a request: whether it is for usage, whether it shows numbers, and the
/// file it names.
pub open spec fn request_view(r: TableRequest, print_default: bool) -> (bool, bool, Option<Seq<char>>) {
    match r {
        TableRequest::Usage => (true, print_default, None),
        TableRequest::FromWindow { print_number } => (false, print_number, None),
        TableRequest::FromFile { path, print_number } => (false, print_number, Some(path@)),
    }
}

/// What the command line asks for (see [`request_of`]).
pub fn table_request(args: &[String]) -> (r: TableRequest)
    ensures
        request_view(r, shows_numbers(args@.map_values(|a: String| a@))) == request_of(
            args@.map_values(|a: String| a@),
        ),
{
    let ghost av = args@.map_values(|a: String| a@);
    let mut help = false;
    let mut print_number = true;
    let mut files: Vec<String> = Vec::new();
    let mut i: usize = 0;
    let ghost rest = after_program(av);
    assert(rest.take(0) =~= Seq::<Seq<char>>::empty());
    while i < args.len()
        invariant
            i <= args@.len(),
            av == args@.map_values(|a: String| a@),
            rest == after_program(av),
            help == exists|j: int| 1 <= j < i && (av[j] == "--help"@ || av[j] == "-h"@),
            print_number == !(exists|j: int| 0 <= j < i && av[j] == NO_NUMBERS_FLAG@),
            i >= 1 ==> files@.map_values(|a: String| a@) == non_options(rest.take(i - 1)),
            i == 0 ==> files@.len() == 0,
        decreases args@.len() - i,
    {
        let a = to_chars(args[i].as_str());
        assert(av[i as int] == a@);
        if chars_eq(&a, &to_chars(NO_NUMBERS_FLAG)) {
            print_number = false;
        }
        if i >= 1 {
            if chars_eq(&a, &to_chars("--help")) || chars_eq(&a, &to_chars("-h")) {
                help = true;
            }
            assert(rest.take(i as int).drop_last() =~= rest.take(i - 1));
            assert(rest.take(i as int).last() == a@);
            if !(a.len() > 0 && a[0] == '-') {
                let ghost prev = files@;
                files.push(args[i].clone());
                assert(files@.map_values(|x: String| x@) =~= prev.map_values(|x: String| x@).push(a@));
            }
        } else {
            assert(files@.map_values(|x: String| x@) =~= Seq::<Seq<char>>::empty());
            assert(rest.take(0) =~= Seq::<Seq<char>>::empty());
        }
        i += 1;
    }
    proof {
        if args@.len() >= 1 {
            assert(rest.take(i - 1) =~= rest);
        } else {
            assert(rest =~= Seq::<Seq<char>>::empty());
            assert(non_options(rest) =~= Seq::<Seq<char>>::empty());
        }
    }
    if help || files.len() > 1 {
        TableRequest::Usage
    } else if files.len() == 0 {
        TableRequest::FromWindow { print_number }
    } else {
        assert(files@.map_values(|x: String| x@)[0] == files@[0]@);
        let path = files[0].clone();
        TableRequest::FromFile { path, print_number }
    }
}

/// What reading the tool table of a file comes to.
pub enum TableOutcome {
    /// A Mazatrol program, which is not read.
    Mazatrol,
    /// The program calls no tools.
    NoTools,
    /// The rows of the table.
    Table(Vec<String>),
}

/// The tool table of the program held in `content` (the bytes of the file at `path`,
/// decoded as by [`decode_bytes`]): none for a Mazatrol program or a program without
/// tools; otherwise the rows, one per tool in increasing order of number.
pub fn tool_table(path: &str, content: &[u8], print_number: bool) -> (r: TableOutcome)
    requires
        content@.len() <= usize::MAX / 4,
    ensures
        ({
            let ls = lines_of(decoded_text(content@));
            match r {
                TableOutcome::Mazatrol => variant_of(path@, ls) is None,
                TableOutcome::NoTools => variant_of(path@, ls) is Some && tools_of(
                    ls,
                    variant_of(path@, ls)->0,
                ).dom() == Set::<u32>::empty(),
                TableOutcome::Table(rows) => variant_of(path@, ls) is Some && exists|tv: Seq<ToolView>|
                    lists(tv, tools_of(ls, variant_of(path@, ls)->0)) && tv.len() > 0 && string_seqs(
                        rows@,
                    ) == table_rows(tv, variant_of(path@, ls)->0, print_number),
            }
        }),
{
    let text = to_chars(decode_bytes(content).as_str());
    let lines = text_lines(&text);
    let ghost ls = string_seqs(lines@);
    let variant = match detect_variant(path, &lines) {
        Some(v) => v,
        None => {
            return TableOutcome::Mazatrol;
        },
    };
    let tools = parse_tools(&lines, &variant);
    let ghost tv = tool_views(tools@);
    let ghost m = tools_of(ls, variant);
    if tools.len() == 0 {
        proof {
            assert forall|k: u32| !m.contains_key(k) by {
                if m.contains_key(k) {
                    let i = choose|i: int| 0 <= i < tv.len() && tv[i].number == k;
                }
            }
            assert(m.dom() =~= Set::<u32>::empty());
        }
        return TableOutcome::NoTools;
    }
    let table = format_tool_table(&tools, &variant, print_number);
    assert(string_seqs(table@) =~= table_rows(tv, variant, print_number));
    TableOutcome::Table(table)
}

} // verus!
