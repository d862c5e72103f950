//! The installation of the tool under its former name, CNC Renamer: one verb per
//! context-menu target, registered directly in `HKEY_CLASSES_ROOT`.
use vstd::prelude::*;

use crate::chars::{contains_sub, contains_sub_vec, from_chars, push_all, string_seqs, to_chars};
use crate::registry::{op_views, Hive, OpView, RegistryOp};

verus! {

/// The outcome of a step, as the status line prints it.
#[derive(Clone, Copy, Debug, PartialEq, Eq, Structural)]
pub enum Status {
    Good,
    Bad,
}

/// Directory the tool was installed to.
pub const INSTALL_PATH: &'static str = "C:\\Program Files\\dece1ver\\CNC Renamer";

/// Full path of the installed executable.
pub const INSTALL_EXECUTABLE_PATH: &'static str =
    "C:\\Program Files\\dece1ver\\CNC Renamer\\cncr.exe";

/// Verb key on files.
pub const REG_FILE_PATH: &'static str = "*\\shell\\cnc_renamer";

/// Verb key on directories.
pub const REG_DIR_PATH: &'static str = "Directory\\shell\\cnc_renamer";

/// Verb key on the directory background.
pub const REG_BGDIR_PATH: &'static str = "Directory\\Background\\shell\\cnc_renamer";

/// Command key of the verb on files.
pub const REG_FILE_COMMAND_PATH: &'static str = "*\\shell\\cnc_renamer\\command";

/// Command key of the verb on directories.
pub const REG_DIR_COMMAND_PATH: &'static str = "Directory\\shell\\cnc_renamer\\command";

/// Command key of the verb on the directory background.
pub const REG_BGDIR_COMMAND_PATH: &'static str =
    "Directory\\Background\\shell\\cnc_renamer\\command";

/// Registry path of the system environment, which holds `PATH`.
pub const REG_SYSTEM_ENV_PATH: &'static str =
    "SYSTEM\\CurrentControlSet\\Control\\Session Manager\\Environment";

/// The keys (in `HKEY_CLASSES_ROOT`) that an installation has: the three verbs and
/// their command keys.
pub open spec fn installed_keys() -> Seq<Seq<char>> {
    seq![
        REG_FILE_PATH@,
        REG_DIR_PATH@,
        REG_BGDIR_PATH@,
        REG_FILE_COMMAND_PATH@,
        REG_DIR_COMMAND_PATH@,
        REG_BGDIR_COMMAND_PATH@,
    ]
}

/// The keys to look for to tell whether the tool is installed (see
/// [`installed_keys`]).
pub fn installed_key_list() -> (r: Vec<String>)
    ensures
        string_seqs(r@) == installed_keys(),
{
    let r = vec![
        from_chars(&to_chars(REG_FILE_PATH)),
        from_chars(&to_chars(REG_DIR_PATH)),
        from_chars(&to_chars(REG_BGDIR_PATH)),
        from_chars(&to_chars(REG_FILE_COMMAND_PATH)),
        from_chars(&to_chars(REG_DIR_COMMAND_PATH)),
        from_chars(&to_chars(REG_BGDIR_COMMAND_PATH)),
    ];
    assert(string_seqs(r@) =~= installed_keys());
    r
}

/// Whether the tool is installed: the executable is in place, each key of
/// [`installed_keys`] exists, and the system `PATH`, when it can be read, names the
/// install directory.
pub fn is_installed(exe_exists: bool, keys_exist: bool, env_path: Option<&str>) -> (r: bool)
    ensures
        r == (exe_exists && keys_exist && match env_path {
            Some(p) => contains_sub(p@, INSTALL_PATH@),
            None => true,
        }),
{
    if !exe_exists || !keys_exist {
        return false;
    }
    match env_path {
        Some(p) => contains_sub_vec(&to_chars(p), &to_chars(INSTALL_PATH)),
        None => true,
    }
}

/// The icon of a verb: the executable's third icon resource.
pub open spec fn icon_value() -> Seq<char> {
    seq!['"'] + INSTALL_EXECUTABLE_PATH@ + seq!['"', ',', '2']
}

/// The command line of a verb: the quoted executable and the quoted argument.
pub open spec fn command_line(arg: Seq<char>) -> Seq<char> {
    seq!['"'] + INSTALL_EXECUTABLE_PATH@ + seq!['"', ' ', '"'] + arg + seq!['"']
}

/// Registering a verb: its key with the title and the icon, then its command key with
/// the command line, all in `HKEY_CLASSES_ROOT`.
pub open spec fn install_key_ops(
    base_key: Seq<char>,
    command_key: Seq<char>,
    arg: Seq<char>,
    command_name: Seq<char>,
) -> Seq<OpView> {
    seq![
        OpView::CreateKey { hive: Hive::ClassesRoot, path: base_key },
        OpView::SetString { hive: Hive::ClassesRoot, path: base_key, name: seq![], value: command_name },
        OpView::SetString { hive: Hive::ClassesRoot, path: base_key, name: "Icon"@, value: icon_value() },
        OpView::CreateKey { hive: Hive::ClassesRoot, path: command_key },
        OpView::SetString {
            hive: Hive::ClassesRoot,
            path: command_key,
            name: seq![],
            value: command_line(arg),
        },
    ]
}

/// The registry operations that register a verb (see [`install_key_ops`]).
pub fn install_key(base_key: &str, command_key: &str, arg: &str, command_name: &str) -> (r: Vec<
    RegistryOp,
>)
    ensures
        op_views(r@) == install_key_ops(base_key@, command_key@, arg@, command_name@),
{
    let mut icon: Vec<char> = Vec::new();
    icon.push('"');
    push_all(&mut icon, &to_chars(INSTALL_EXECUTABLE_PATH));
    icon.push('"');
    icon.push(',');
    icon.push('2');
    assert(icon@ =~= icon_value());
    let mut line: Vec<char> = Vec::new();
    line.push('"');
    push_all(&mut line, &to_chars(INSTALL_EXECUTABLE_PATH));
    line.push('"');
    line.push(' ');
    line.push('"');
    push_all(&mut line, &to_chars(arg));
    line.push('"');
    assert(line@ =~= command_line(arg@));
    let base = from_chars(&to_chars(base_key));
    let command = from_chars(&to_chars(command_key));
    let r = vec![
        RegistryOp::CreateKey { hive: Hive::ClassesRoot, path: base.clone() },
        RegistryOp::SetString {
            hive: Hive::ClassesRoot,
            path: base.clone(),
            name: String::new(),
            value: from_chars(&to_chars(command_name)),
        },
        RegistryOp::SetString {
            hive: Hive::ClassesRoot,
            path: base,
            name: from_chars(&to_chars("Icon")),
            value: from_chars(&icon),
        },
        RegistryOp::CreateKey { hive: Hive::ClassesRoot, path: command.clone() },
        RegistryOp::SetString {
            hive: Hive::ClassesRoot,
            path: command,
            name: String::new(),
            value: from_chars(&line),
        },
    ];
    assert(op_views(r@) =~= install_key_ops(base_key@, command_key@, arg@, command_name@));
    r
}

/// What registering a verb does after one of the operations of [`install_key`].
#[derive(Clone, Copy, Debug, PartialEq, Eq, Structural)]
pub enum KeyStep {
    /// Go on with the next operation.
    Continue,
    /// Stop: the verb is registered, or its command key could not be created, which is
    /// not reported.
    Finished,
    /// Stop with the error "the registry key could not be created".
    Refused,
    /// Stop with the registry's own error.
    Failed,
}

/// The step after operation `index` (from 0) of [`install_key_ops`] succeeded or
/// failed; `title_written` tells whether operation 1 (the verb's title) succeeded.
/// The verb key must be created; both its title and its icon are written before a
/// failure of either is reported; a failure to create the command key ends the
/// registration silently; a failure to write the command line is reported as the
/// registry's error.
pub open spec fn next_key_step(index: int, succeeded: bool, title_written: bool) -> KeyStep {
    if index == 0 {
        if succeeded { KeyStep::Continue } else { KeyStep::Refused }
    } else if index == 1 {
        KeyStep::Continue
    } else if index == 2 {
        if succeeded && title_written { KeyStep::Continue } else { KeyStep::Refused }
    } else if index == 3 {
        if succeeded { KeyStep::Continue } else { KeyStep::Finished }
    } else {
        if succeeded { KeyStep::Finished } else { KeyStep::Failed }
    }
}

/// The step after an operation of [`install_key`] (see [`next_key_step`]).
pub fn install_key_step(index: usize, succeeded: bool, title_written: bool) -> (r: KeyStep)
    requires
        index < 5,
    ensures
        r == next_key_step(index as int, succeeded, title_written),
{
    if index == 0 {
        if succeeded { KeyStep::Continue } else { KeyStep::Refused }
    } else if index == 1 {
        KeyStep::Continue
    } else if index == 2 {
        if succeeded && title_written { KeyStep::Continue } else { KeyStep::Refused }
    } else if index == 3 {
        if succeeded { KeyStep::Continue } else { KeyStep::Finished }
    } else {
        if succeeded { KeyStep::Finished } else { KeyStep::Failed }
    }
}

} // verus!
