//! The tool's commands: how a command line is understood, the commands that run on
//! files from the context menu, and the choices of the interactive main menu.
use vstd::prelude::*;

use crate::chars::{chars_eq, to_chars};
use crate::settings::{lookup, Extra};

verus! {

/// A key pressed in an interactive screen.
#[derive(Clone, Copy, Debug, PartialEq, Eq, Structural)]
pub enum Key {
    Char(char),
    Esc,
    Other,
}

/// The choices of the interactive main menu.
#[derive(Clone, Copy, Debug, PartialEq, Eq, Structural)]
pub enum Command {
    Install,
    Uninstall,
    ShowAbout,
    ShowSettings,
    Exit,
}

/// The commands that run on files.
#[derive(Clone, Copy, Debug, PartialEq, Eq, Structural)]
pub enum FileCommand {
    Rename,
    Archive,
    StripComments,
    GenerateToolList,
}

/// The commands that run on files, by name.
pub open spec fn registered() -> Seq<(Seq<char>, FileCommand)> {
    seq![
        ("rename"@, FileCommand::Rename),
        ("archive"@, FileCommand::Archive),
        ("strip-comments"@, FileCommand::StripComments),
        ("generate-tool-list"@, FileCommand::GenerateToolList),
    ]
}

/// The command called `name`.
pub open spec fn command_named(name: Seq<char>) -> Option<FileCommand> {
    if exists|i: int| 0 <= i < registered().len() && #[trigger] registered()[i].0 == name {
        let i = choose|i: int| 0 <= i < registered().len() && #[trigger] registered()[i].0 == name;
        Some(registered()[i].1)
    } else {
        None
    }
}

/// The commands that run on files, with their names (see [`registered`]).
pub fn registered_commands() -> (r: Vec<(String, FileCommand)>)
    ensures
        r@.map_values(|p: (String, FileCommand)| (p.0@, p.1)) == registered(),
{
    let r = vec![
        (String::from_str("rename"), FileCommand::Rename),
        (String::from_str("archive"), FileCommand::Archive),
        (String::from_str("strip-comments"), FileCommand::StripComments),
        (String::from_str("generate-tool-list"), FileCommand::GenerateToolList),
    ];
    assert(r@.map_values(|p: (String, FileCommand)| (p.0@, p.1)) =~= registered());
    r
}

proof fn lemma_registered_names_distinct()
    ensures
        forall|i: int, j: int|
            0 <= i < j < registered().len() ==> #[trigger] registered()[i].0 != #[trigger] registered()[j].0,
{
    reveal_strlit("rename");
    reveal_strlit("archive");
    reveal_strlit("strip-comments");
    reveal_strlit("generate-tool-list");
    assert("rename"@.len() != "archive"@.len());
    assert("rename"@.len() != "strip-comments"@.len());
    assert("rename"@.len() != "generate-tool-list"@.len());
    assert("archive"@.len() != "strip-comments"@.len());
    assert("archive"@.len() != "generate-tool-list"@.len());
    assert("strip-comments"@.len() != "generate-tool-list"@.len());
}

/// The command that runs on files called `name` (see [`command_named`]).
pub fn find_file_command(name: &str) -> (r: Option<FileCommand>)
    ensures
        r == command_named(name@),
{
    let cmds = registered_commands();
    let n = to_chars(name);
    proof {
        lemma_registered_names_distinct();
    }
    let mut i: usize = 0;
    while i < cmds.len()
        invariant
            i <= cmds@.len(),
            n@ == name@,
            cmds@.map_values(|p: (String, FileCommand)| (p.0@, p.1)) == registered(),
            forall|j: int| 0 <= j < i ==> registered()[j].0 != name@,
        decreases cmds@.len() - i,
    {
        assert(registered()[i as int] == (cmds@[i as int].0@, cmds@[i as int].1));
        if chars_eq(&to_chars(cmds[i].0.as_str()), &n) {
            proof {
                lemma_registered_names_distinct();
                assert(registered()[i as int].0 == name@);
                let k = choose|k: int| 0 <= k < registered().len() && #[trigger] registered()[k].0 == name@;
                assert(k == i);
            }
            return Some(cmds[i].1);
        }
        i += 1;
    }
    None
}

/// The main menu's answer to a key: `0` or Esc closes the program; `1` installs or,
/// when installed, uninstalls, but only with administrator rights; `2` shows the
/// description; `3` opens the settings when installed. Any other key is ignored
/// (`None`).
pub open spec fn menu_choice(key: Key, elevated: bool, installed: bool) -> Option<Command> {
    match key {
        Key::Esc => Some(Command::Exit),
        Key::Char(c) => if c == '0' {
            Some(Command::Exit)
        } else if c == '1' && elevated {
            if installed {
                Some(Command::Uninstall)
            } else {
                Some(Command::Install)
            }
        } else if c == '2' {
            Some(Command::ShowAbout)
        } else if c == '3' && installed {
            Some(Command::ShowSettings)
        } else {
            None
        },
        Key::Other => None,
    }
}

/// The main menu's answer to a key (see [`menu_choice`]).
pub fn main_menu_choice(key: Key, elevated: bool, installed: bool) -> (r: Option<Command>)
    ensures
        r == menu_choice(key, elevated, installed),
{
    match key {
        Key::Esc => Some(Command::Exit),
        Key::Char(c) => {
            if c == '0' {
                Some(Command::Exit)
            } else if c == '1' && elevated {
                if installed {
                    Some(Command::Uninstall)
                } else {
                    Some(Command::Install)
                }
            } else if c == '2' {
                Some(Command::ShowAbout)
            } else if c == '3' && installed {
                Some(Command::ShowSettings)
            } else {
                None
            }
        },
        Key::Other => None,
    }
}

/// What a command line asks for.
#[derive(Clone, Copy, Debug, PartialEq, Eq, Structural)]
pub enum Invocation {
    /// No argument: the interactive menu.
    Menu,
    /// `--reset-config` alone: write the default configuration.
    ResetConfig,
    /// `install`.
    Install,
    /// `uninstall`.
    Uninstall,
    /// The name of a command that runs on files.
    Run(FileCommand),
    /// Anything else.
    Unknown,
}

/// What a command line (the program's path first) asks for.
pub open spec fn invocation_of(args: Seq<Seq<char>>) -> Invocation {
    if args.len() == 2 && args[1] == "--reset-config"@ {
        Invocation::ResetConfig
    } else if args.len() == 1 {
        Invocation::Menu
    } else if args[1] == "install"@ {
        Invocation::Install
    } else if args[1] == "uninstall"@ {
        Invocation::Uninstall
    } else {
        match command_named(args[1]) {
            Some(c) => Invocation::Run(c),
            None => Invocation::Unknown,
        }
    }
}

/// What a command line asks for (see [`invocation_of`]).
pub fn invocation(args: &[String]) -> (r: Invocation)
    requires
        args@.len() >= 1,
    ensures
        r == invocation_of(args@.map_values(|a: String| a@)),
{
    let ghost av = args@.map_values(|a: String| a@);
    if args.len() == 1 {
        return Invocation::Menu;
    }
    assert(av[1] == args@[1]@);
    let first = to_chars(args[1].as_str());
    if args.len() == 2 && chars_eq(&first, &to_chars("--reset-config")) {
        Invocation::ResetConfig
    } else if chars_eq(&first, &to_chars("install")) {
        Invocation::Install
    } else if chars_eq(&first, &to_chars("uninstall")) {
        Invocation::Uninstall
    } else {
        match find_file_command(args[1].as_str()) {
            Some(c) => Invocation::Run(c),
            None => Invocation::Unknown,
        }
    }
}

/// Whether an argument is an option: it starts with `-`.
pub open spec fn is_option(a: Seq<char>) -> bool {
    a.len() > 0 && a[0] == '-'
}

/// The arguments that are not options, in order.
pub open spec fn non_options(args: Seq<Seq<char>>) -> Seq<Seq<char>>
    decreases args.len(),
{
    if args.len() == 0 {
        seq![]
    } else if is_option(args.last()) {
        non_options(args.drop_last())
    } else {
        non_options(args.drop_last()).push(args.last())
    }
}

/// The arguments after the program's path and the command's name.
pub open spec fn after_command(args: Seq<Seq<char>>) -> Seq<Seq<char>> {
    if args.len() >= 2 {
        args.skip(2)
    } else {
        seq![]
    }
}

/// The files a command line names: the arguments after the command's name that are
/// not options.
pub fn file_arguments(args: &[String]) -> (r: Vec<String>)
    ensures
        r@.map_values(|a: String| a@) == non_options(after_command(args@.map_values(|a: String| a@))),
{
    let ghost av = args@.map_values(|a: String| a@);
    let mut r: Vec<String> = Vec::new();
    if args.len() < 2 {
        assert(r@.map_values(|a: String| a@) =~= Seq::<Seq<char>>::empty());
        return r;
    }
    let mut i: usize = 2;
    assert(av.skip(2).take(0) =~= Seq::<Seq<char>>::empty());
    assert(r@.map_values(|a: String| a@) =~= Seq::<Seq<char>>::empty());
    while i < args.len()
        invariant
            2 <= i <= args@.len(),
            av == args@.map_values(|a: String| a@),
            r@.map_values(|a: String| a@) == non_options(av.skip(2).take(i - 2)),
        decreases args@.len() - i,
    {
        let a = to_chars(args[i].as_str());
        assert(av.skip(2).take(i - 1).drop_last() =~= av.skip(2).take(i - 2));
        assert(av.skip(2).take(i - 1).last() == a@);
        if !(a.len() > 0 && a[0] == '-') {
            let ghost prev = r@;
            r.push(args[i].clone());
            assert(r@.map_values(|a: String| a@) =~= prev.map_values(|a: String| a@).push(a@));
        }
        i += 1;
    }
    assert(av.skip(2).take(i - 2) =~= av.skip(2));
    r
}

/// Whether the `recurse` setting is `true`: directories are then processed with all
/// their subdirectories.
pub fn recurse_enabled(extra: &Extra) -> (r: bool)
    ensures
        r == (lookup(extra@, "recurse"@) == Some("true"@)),
{
    match extra.get("recurse") {
        Some(v) => chars_eq(&to_chars(v.as_str()), &to_chars("true")),
        None => false,
    }
}


/// Without administrator rights the main menu neither installs nor uninstalls, and
/// when the tool is not installed it does not open the settings.
pub proof fn lemma_menu_guards(key: Key, elevated: bool, installed: bool)
    ensures
        !elevated ==> menu_choice(key, elevated, installed) != Some(Command::Install)
            && menu_choice(key, elevated, installed) != Some(Command::Uninstall),
        !installed ==> menu_choice(key, elevated, installed) != Some(Command::ShowSettings)
            && menu_choice(key, elevated, installed) != Some(Command::Uninstall),
        installed ==> menu_choice(key, elevated, installed) != Some(Command::Install),
{
}

} // verus!
