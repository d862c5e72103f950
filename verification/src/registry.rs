//! The Windows registry entries of the installed tool: the context-menu submenu on
//! files and directories, the verbs on the directory background, and the install
//! directory in the system `PATH`. The entries are computed here as a list of
//! registry operations, which the program then carries out in order.
use vstd::prelude::*;

use crate::chars::{
    chars_eq, contains_sub, contains_sub_vec, decimal, from_chars, push_all, push_padded,
    replace_all, replace_all_vec, string_seqs, to_chars, zero_pad,
};
use crate::config::{command_name_list, command_names, CommandConfig, CommandView, Config, ConfigView};
use crate::order::{sorted_texts, text_order};

verus! {

/// Directory the tool is installed to.
pub const INSTALL_PATH: &'static str = "C:\\Program Files\\dece1ver\\CNC Remedy";

/// Full path of the installed executable.
pub const INSTALL_EXECUTABLE_PATH: &'static str =
    "C:\\Program Files\\dece1ver\\CNC Remedy\\cncr.exe";

/// Registry key of the context-menu submenu.
pub const SUBMENU_KEY: &'static str = "CNCRemedy";

/// Prefix of the registry paths of the entries (under `HKEY_LOCAL_MACHINE`).
pub const CLASSES_PREFIX: &'static str = "Software\\Classes";

/// Registry path of the system environment, which holds `PATH`.
pub const REG_SYSTEM_ENV_PATH: &'static str =
    "SYSTEM\\CurrentControlSet\\Control\\Session Manager\\Environment";

/// The context-menu targets: the target's name and the registry key of its class.
pub const TARGETS: [(&'static str, &'static str); 3] = [
    ("file", "*"),
    ("directory", "Directory"),
    ("background", "Directory\\Background"),
];

/// A root key of the registry.
#[derive(Clone, Copy, Debug, PartialEq, Eq, Structural)]
pub enum Hive {
    LocalMachine,
    CurrentUser,
    ClassesRoot,
}

/// One step of changing the registry.
pub enum RegistryOp {
    /// Delete a key with everything below it; a failure (such as a missing key) is
    /// ignored.
    DeleteTree { hive: Hive, path: String },
    /// Create a key, or open it if it exists.
    CreateKey { hive: Hive, path: String },
    /// Set a string value of a key; the empty name stands for the key's default value.
    SetString { hive: Hive, path: String, name: String, value: String },
}

/// A registry operation as plain values.
pub enum OpView {
    DeleteTree { hive: Hive, path: Seq<char> },
    CreateKey { hive: Hive, path: Seq<char> },
    SetString { hive: Hive, path: Seq<char>, name: Seq<char>, value: Seq<char> },
}

impl View for RegistryOp {
    type V = OpView;

    open spec fn view(&self) -> OpView {
        match self {
            RegistryOp::DeleteTree { hive, path } => OpView::DeleteTree { hive: *hive, path: path@ },
            RegistryOp::CreateKey { hive, path } => OpView::CreateKey { hive: *hive, path: path@ },
            RegistryOp::SetString { hive, path, name, value } => OpView::SetString {
                hive: *hive,
                path: path@,
                name: name@,
                value: value@,
            },
        }
    }
}

/// The operations of a list as plain values.
pub open spec fn op_views(v: Seq<RegistryOp>) -> Seq<OpView> {
    v.map_values(|o: RegistryOp| o@)
}

// ───────────────────────────── paths and values ─────────────────────────────

/// The path separator of the registry.
pub open spec fn sep() -> Seq<char> {
    seq!['\\']
}

/// The path of a class key below [`CLASSES_PREFIX`].
pub open spec fn classes_path(key: Seq<char>) -> Seq<char> {
    CLASSES_PREFIX@ + sep() + key
}

/// The `shell` key of a target's class.
pub open spec fn shell_path(target_key: Seq<char>) -> Seq<char> {
    classes_path(target_key) + sep() + "shell"@
}

/// The submenu key of a target's class.
pub open spec fn submenu_path(target_key: Seq<char>) -> Seq<char> {
    shell_path(target_key) + sep() + SUBMENU_KEY@
}

/// The icon of the entries: the executable's first icon resource.
pub open spec fn icon_value() -> Seq<char> {
    seq!['"'] + INSTALL_EXECUTABLE_PATH@ + seq!['"', ',', '0']
}

/// The command line of a verb: the quoted executable, the command's name, and the
/// quoted argument placeholder.
pub open spec fn command_line(name: Seq<char>, arg: Seq<char>) -> Seq<char> {
    seq!['"'] + INSTALL_EXECUTABLE_PATH@ + seq!['"', ' '] + name + seq![' ', '"'] + arg + seq![
        '"',
    ]
}

fn classes_path_exec(key: &[char]) -> (r: Vec<char>)
    ensures
        r@ == classes_path(key@),
{
    let mut out = to_chars(CLASSES_PREFIX);
    out.push('\\');
    push_all(&mut out, key);
    assert(out@ =~= classes_path(key@));
    out
}

fn shell_path_exec(target_key: &[char]) -> (r: Vec<char>)
    ensures
        r@ == shell_path(target_key@),
{
    let mut out = classes_path_exec(target_key);
    out.push('\\');
    push_all(&mut out, &to_chars("shell"));
    assert(out@ =~= shell_path(target_key@));
    out
}

fn submenu_path_exec(target_key: &[char]) -> (r: Vec<char>)
    ensures
        r@ == submenu_path(target_key@),
{
    let mut out = shell_path_exec(target_key);
    out.push('\\');
    push_all(&mut out, &to_chars(SUBMENU_KEY));
    assert(out@ =~= submenu_path(target_key@));
    out
}

fn icon_value_exec() -> (r: String)
    ensures
        r@ == icon_value(),
{
    let mut out: Vec<char> = Vec::new();
    out.push('"');
    push_all(&mut out, &to_chars(INSTALL_EXECUTABLE_PATH));
    out.push('"');
    out.push(',');
    out.push('0');
    assert(out@ =~= icon_value());
    from_chars(&out)
}

fn command_line_exec(name: &[char], arg: &str) -> (r: String)
    ensures
        r@ == command_line(name@, arg@),
{
    let mut out: Vec<char> = Vec::new();
    out.push('"');
    push_all(&mut out, &to_chars(INSTALL_EXECUTABLE_PATH));
    out.push('"');
    out.push(' ');
    push_all(&mut out, name);
    out.push(' ');
    out.push('"');
    push_all(&mut out, &to_chars(arg));
    out.push('"');
    assert(out@ =~= command_line(name@, arg@));
    from_chars(&out)
}

/// `path` followed by the separator and `child`.
pub open spec fn child(path: Seq<char>, name: Seq<char>) -> Seq<char> {
    path + sep() + name
}

fn child_exec(path: &[char], name: &str) -> (r: Vec<char>)
    ensures
        r@ == child(path@, name@),
{
    let mut out: Vec<char> = Vec::new();
    push_all(&mut out, path);
    out.push('\\');
    push_all(&mut out, &to_chars(name));
    assert(out@ =~= child(path@, name@));
    out
}

// ───────────────────────────── removal ─────────────────────────────

/// Keys that earlier versions of the tool (and its former names) registered.
pub open spec fn legacy_keys() -> Seq<Seq<char>> {
    seq![
        "*\\shell\\cnc_remedy"@,
        "Directory\\shell\\cnc_remedy"@,
        "Directory\\Background\\shell\\cnc_remedy"@,
        "*\\shell\\cnc_remedy_archive"@,
        "*\\shell\\cnc_renamer"@,
        "Directory\\shell\\cnc_renamer"@,
        "Directory\\Background\\shell\\cnc_renamer"@,
        "*\\shell\\cnc_renamer_archive"@,
        "*\\shell\\nc_renamer"@,
    ]
}

/// Keys that the current version registers.
pub open spec fn current_keys() -> Seq<Seq<char>> {
    seq![
        "*\\shell\\CNCRemedy"@,
        "Directory\\shell\\CNCRemedy"@,
        "Directory\\Background\\shell\\CNCRemedy"@,
        "Directory\\Background\\shell\\rename"@,
    ]
}

/// Removing a class key: below the classes prefix in `HKEY_LOCAL_MACHINE` and in
/// `HKEY_CURRENT_USER`, and directly in `HKEY_CLASSES_ROOT`.
pub open spec fn removal_ops(key: Seq<char>) -> Seq<OpView> {
    seq![
        OpView::DeleteTree { hive: Hive::LocalMachine, path: classes_path(key) },
        OpView::DeleteTree { hive: Hive::CurrentUser, path: classes_path(key) },
        OpView::DeleteTree { hive: Hive::ClassesRoot, path: key },
    ]
}

/// Removing each of the keys, in order.
pub open spec fn removals(keys: Seq<Seq<char>>) -> Seq<OpView>
    decreases keys.len(),
{
    if keys.len() == 0 {
        seq![]
    } else {
        removals(keys.drop_last()) + removal_ops(keys.last())
    }
}

/// What uninstalling does to the registry: remove the keys of earlier versions, then
/// those of the current one.
pub open spec fn uninstall_ops() -> Seq<OpView> {
    removals(legacy_keys()) + removals(current_keys())
}

fn push_removals(ops: &mut Vec<RegistryOp>, keys: &[&str])
    ensures
        op_views(final(ops)@) == op_views(old(ops)@) + removals(
            keys@.map_values(|k: &str| k@),
        ),
{
    let ghost ks = keys@.map_values(|k: &str| k@);
    let ghost start = op_views(ops@);
    let mut i: usize = 0;
    assert(ks.take(0) =~= Seq::<Seq<char>>::empty());
    assert(op_views(ops@) =~= start + removals(ks.take(0)));
    while i < keys.len()
        invariant
            i <= keys@.len(),
            ks == keys@.map_values(|k: &str| k@),
            op_views(ops@) == start + removals(ks.take(i as int)),
        decreases keys@.len() - i,
    {
        let key = to_chars(keys[i]);
        let path = classes_path_exec(&key);
        let ghost before = ops@;
        ops.push(RegistryOp::DeleteTree { hive: Hive::LocalMachine, path: from_chars(&path) });
        ops.push(RegistryOp::DeleteTree { hive: Hive::CurrentUser, path: from_chars(&path) });
        ops.push(RegistryOp::DeleteTree { hive: Hive::ClassesRoot, path: from_chars(&key) });
        assert(ks.take(i + 1).drop_last() =~= ks.take(i as int));
        assert(ks.take(i + 1).last() == key@);
        assert(op_views(ops@) =~= op_views(before) + removal_ops(key@));
        i += 1;
    }
    assert(ks.take(i as int) =~= ks);
}

fn remove_legacy(ops: &mut Vec<RegistryOp>)
    ensures
        op_views(final(ops)@) == op_views(old(ops)@) + removals(legacy_keys()),
{
    let keys: [&str; 9] = [
        "*\\shell\\cnc_remedy",
        "Directory\\shell\\cnc_remedy",
        "Directory\\Background\\shell\\cnc_remedy",
        "*\\shell\\cnc_remedy_archive",
        "*\\shell\\cnc_renamer",
        "Directory\\shell\\cnc_renamer",
        "Directory\\Background\\shell\\cnc_renamer",
        "*\\shell\\cnc_renamer_archive",
        "*\\shell\\nc_renamer",
    ];
    assert(keys@.map_values(|k: &str| k@) =~= legacy_keys());
    push_removals(ops, &keys);
}

fn remove_current(ops: &mut Vec<RegistryOp>)
    ensures
        op_views(final(ops)@) == op_views(old(ops)@) + removals(current_keys()),
{
    let keys: [&str; 4] = [
        "*\\shell\\CNCRemedy",
        "Directory\\shell\\CNCRemedy",
        "Directory\\Background\\shell\\CNCRemedy",
        "Directory\\Background\\shell\\rename",
    ];
    assert(keys@.map_values(|k: &str| k@) =~= current_keys());
    push_removals(ops, &keys);
}

/// The registry operations that remove every entry of the tool (see
/// [`uninstall_ops`]).
pub fn uninstall_all() -> (r: Vec<RegistryOp>)
    ensures
        op_views(r@) == uninstall_ops(),
{
    let mut ops: Vec<RegistryOp> = Vec::new();
    assert(op_views(ops@) =~= Seq::<OpView>::empty());
    remove_legacy(&mut ops);
    remove_current(&mut ops);
    assert(op_views(ops@) =~= uninstall_ops());
    ops
}


// ───────────────────────────── installation ─────────────────────────────

/// The settings of the first command called `name`.
pub open spec fn command_of(cmds: Seq<(Seq<char>, CommandView)>, name: Seq<char>) -> Option<
    CommandView,
>
    decreases cmds.len(),
{
    if cmds.len() == 0 {
        None
    } else if cmds[0].0 == name {
        Some(cmds[0].1)
    } else {
        command_of(cmds.drop_first(), name)
    }
}

/// Whether the command called `name` is shown on a target: it is enabled and lists
/// the target.
pub open spec fn shown(cmds: Seq<(Seq<char>, CommandView)>, name: Seq<char>, target: Seq<char>) -> bool {
    match command_of(cmds, name) {
        Some(c) => c.enabled && c.targets.contains(target),
        None => false,
    }
}

/// The label of the command called `name`.
pub open spec fn label_of(cmds: Seq<(Seq<char>, CommandView)>, name: Seq<char>) -> Seq<char> {
    match command_of(cmds, name) {
        Some(c) => c.label,
        None => seq![],
    }
}

/// The verb of a command on the directory background: its key with the label and the
/// icon, and its `command` key with the command line for the directory (`%V`).
pub open spec fn background_verb_ops(verb: Seq<char>, name: Seq<char>, label: Seq<char>) -> Seq<OpView> {
    let command = child(verb, "command"@);
    seq![
        OpView::DeleteTree { hive: Hive::LocalMachine, path: verb },
        OpView::CreateKey { hive: Hive::LocalMachine, path: verb },
        OpView::SetString { hive: Hive::LocalMachine, path: verb, name: seq![], value: label },
        OpView::SetString { hive: Hive::LocalMachine, path: verb, name: "Icon"@, value: icon_value() },
        OpView::CreateKey { hive: Hive::LocalMachine, path: command },
        OpView::SetString {
            hive: Hive::LocalMachine,
            path: command,
            name: seq![],
            value: command_line(name, "%V"@),
        },
    ]
}

/// The background verbs of the commands shown on the background, in the order of
/// `names`, each below the `shell` key `shell` under the command's name.
pub open spec fn background_verbs(
    names: Seq<Seq<char>>,
    cmds: Seq<(Seq<char>, CommandView)>,
    shell: Seq<char>,
) -> Seq<OpView>
    decreases names.len(),
{
    if names.len() == 0 {
        seq![]
    } else {
        let name = names.last();
        background_verbs(names.drop_last(), cmds, shell) + if shown(cmds, name, "background"@) {
            background_verb_ops(child(shell, name), name, label_of(cmds, name))
        } else {
            seq![]
        }
    }
}

/// How many of `names` are shown on the target.
pub open spec fn shown_count(
    names: Seq<Seq<char>>,
    cmds: Seq<(Seq<char>, CommandView)>,
    target: Seq<char>,
) -> nat
    decreases names.len(),
{
    if names.len() == 0 {
        0
    } else {
        shown_count(names.drop_last(), cmds, target) + if shown(cmds, names.last(), target) {
            1nat
        } else {
            0nat
        }
    }
}

/// The key name of the `n`-th verb of the submenu: `n` in at least two digits, `-`,
/// the command's name (so that the shell lists the verbs in this order).
pub open spec fn verb_name(n: nat, name: Seq<char>) -> Seq<char> {
    zero_pad(decimal(n), 2) + seq!['-'] + name
}

/// A verb of the submenu: its key with the label, and its `command` key with the
/// command line for the selected item (`%1`).
pub open spec fn submenu_verb_ops(verb: Seq<char>, name: Seq<char>, label: Seq<char>) -> Seq<OpView> {
    let command = child(verb, "command"@);
    seq![
        OpView::CreateKey { hive: Hive::LocalMachine, path: verb },
        OpView::SetString { hive: Hive::LocalMachine, path: verb, name: seq![], value: label },
        OpView::CreateKey { hive: Hive::LocalMachine, path: command },
        OpView::SetString {
            hive: Hive::LocalMachine,
            path: command,
            name: seq![],
            value: command_line(name, "%1"@),
        },
    ]
}

/// The submenu verbs of the commands shown on the target, in the order of `names`,
/// numbered from 1 below `container`.
pub open spec fn submenu_verbs(
    names: Seq<Seq<char>>,
    cmds: Seq<(Seq<char>, CommandView)>,
    target: Seq<char>,
    container: Seq<char>,
) -> Seq<OpView>
    decreases names.len(),
{
    if names.len() == 0 {
        seq![]
    } else {
        let name = names.last();
        let prev = names.drop_last();
        submenu_verbs(prev, cmds, target, container) + if shown(cmds, name, target) {
            submenu_verb_ops(
                child(container, verb_name(shown_count(prev, cmds, target) + 1, name)),
                name,
                label_of(cmds, name),
            )
        } else {
            seq![]
        }
    }
}

/// The entries of one target. On the background: the commands' verbs directly in the
/// `shell` key. Elsewhere: the submenu key (menu name, icon, an empty `SubCommands`)
/// with the numbered verbs in its `Shell` key. Either way the submenu key is first
/// deleted.
pub open spec fn target_ops(
    target_name: Seq<char>,
    target_key: Seq<char>,
    menu_name: Seq<char>,
    names: Seq<Seq<char>>,
    cmds: Seq<(Seq<char>, CommandView)>,
) -> Seq<OpView> {
    let base = submenu_path(target_key);
    if target_name == "background"@ {
        seq![OpView::DeleteTree { hive: Hive::LocalMachine, path: base }] + background_verbs(
            names,
            cmds,
            shell_path(target_key),
        )
    } else {
        let container = child(base, "Shell"@);
        seq![
            OpView::DeleteTree { hive: Hive::LocalMachine, path: base },
            OpView::CreateKey { hive: Hive::LocalMachine, path: base },
            OpView::SetString { hive: Hive::LocalMachine, path: base, name: "MUIVerb"@, value: menu_name },
            OpView::SetString { hive: Hive::LocalMachine, path: base, name: "SubCommands"@, value: seq![] },
            OpView::SetString { hive: Hive::LocalMachine, path: base, name: "Icon"@, value: icon_value() },
            OpView::CreateKey { hive: Hive::LocalMachine, path: container },
        ] + submenu_verbs(names, cmds, target_name, container)
    }
}

/// [`TARGETS`] as plain values.
pub open spec fn target_list() -> Seq<(Seq<char>, Seq<char>)> {
    seq![("file"@, "*"@), ("directory"@, "Directory"@), ("background"@, "Directory\\Background"@)]
}

/// The entries of each target, in order.
pub open spec fn targets_ops(
    ts: Seq<(Seq<char>, Seq<char>)>,
    menu_name: Seq<char>,
    names: Seq<Seq<char>>,
    cmds: Seq<(Seq<char>, CommandView)>,
) -> Seq<OpView>
    decreases ts.len(),
{
    if ts.len() == 0 {
        seq![]
    } else {
        targets_ops(ts.drop_last(), menu_name, names, cmds) + target_ops(
            ts.last().0,
            ts.last().1,
            menu_name,
            names,
            cmds,
        )
    }
}

/// The name of the submenu: the configured one, `CNC Remedy` by default.
pub open spec fn menu_name_of(c: ConfigView) -> Seq<char> {
    match c.menu_name {
        Some(n) => n,
        None => "CNC Remedy"@,
    }
}

/// What installing the context menu does to the registry: remove every entry of the
/// tool, then write the entries of each target with the commands taken in the order
/// of their names.
pub open spec fn install_ops(c: ConfigView) -> Seq<OpView> {
    uninstall_ops() + targets_ops(
        target_list(),
        menu_name_of(c),
        command_names(c.commands).sort_by(text_order()),
        c.commands,
    )
}

proof fn lemma_command_of_skip(cmds: Seq<(Seq<char>, CommandView)>, name: Seq<char>, i: int)
    requires
        0 <= i < cmds.len(),
        cmds[i].0 != name,
    ensures
        command_of(cmds.skip(i), name) == command_of(cmds.skip(i + 1), name),
{
    assert(cmds.skip(i).drop_first() =~= cmds.skip(i + 1));
}

fn find_command<'a>(config: &'a Config, name: &[char]) -> (r: Option<&'a CommandConfig>)
    ensures
        match r {
            Some(c) => command_of(config@.commands, name@) == Some(c@),
            None => command_of(config@.commands, name@) is None,
        },
{
    let ghost cmds = config@.commands;
    let mut i: usize = 0;
    assert(cmds.skip(0) =~= cmds);
    while i < config.commands.len()
        invariant
            i <= config.commands@.len(),
            cmds == config@.commands,
            command_of(cmds, name@) == command_of(cmds.skip(i as int), name@),
        decreases config.commands@.len() - i,
    {
        let entry = &config.commands[i];
        assert(cmds[i as int] == (entry.0@, entry.1@));
        if chars_eq(&to_chars(entry.0.as_str()), name) {
            assert(cmds.skip(i as int)[0] == cmds[i as int]);
            return Some(&entry.1);
        }
        proof {
            lemma_command_of_skip(cmds, name@, i as int);
        }
        i += 1;
    }
    None
}

/// The settings of the first command called `name` (see [`command_of`]).
pub fn command_settings<'a>(config: &'a Config, name: &str) -> (r: Option<&'a CommandConfig>)
    ensures
        match r {
            Some(c) => command_of(config@.commands, name@) == Some(c@),
            None => command_of(config@.commands, name@) is None,
        },
{
    find_command(config, &to_chars(name))
}

fn lists_target(c: &CommandConfig, target: &str) -> (r: bool)
    ensures
        r == c@.targets.contains(target@),
{
    let t = to_chars(target);
    let mut i: usize = 0;
    while i < c.targets.len()
        invariant
            i <= c.targets@.len(),
            t@ == target@,
            forall|j: int| 0 <= j < i ==> c@.targets[j] != target@,
        decreases c.targets@.len() - i,
    {
        assert(c@.targets[i as int] == c.targets@[i as int]@);
        if chars_eq(&to_chars(c.targets[i].as_str()), &t) {
            assert(c@.targets[i as int] == target@);
            return true;
        }
        i += 1;
    }
    false
}

/// The command called `name` when it is shown on the target.
fn shown_command<'a>(config: &'a Config, name: &[char], target: &str) -> (r: Option<
    &'a CommandConfig,
>)
    ensures
        match r {
            Some(c) => shown(config@.commands, name@, target@) && label_of(
                config@.commands,
                name@,
            ) == c.label@,
            None => !shown(config@.commands, name@, target@),
        },
{
    match find_command(config, name) {
        Some(c) => {
            if c.enabled && lists_target(c, target) {
                Some(c)
            } else {
                None
            }
        },
        None => None,
    }
}

fn push_background_verbs(
    ops: &mut Vec<RegistryOp>,
    names: &Vec<String>,
    config: &Config,
    shell: &[char],
)
    ensures
        op_views(final(ops)@) == op_views(old(ops)@) + background_verbs(
            string_seqs(names@),
            config@.commands,
            shell@,
        ),
{
    let ghost ns = string_seqs(names@);
    let ghost cmds = config@.commands;
    let ghost start = op_views(ops@);
    assert(ns.take(0) =~= Seq::<Seq<char>>::empty());
    assert(op_views(ops@) =~= start + background_verbs(ns.take(0), cmds, shell@));
    let mut i: usize = 0;
    while i < names.len()
        invariant
            i <= names@.len(),
            ns == string_seqs(names@),
            cmds == config@.commands,
            op_views(ops@) == start + background_verbs(ns.take(i as int), cmds, shell@),
        decreases names@.len() - i,
    {
        let name = to_chars(names[i].as_str());
        let ghost before = op_views(ops@);
        assert(ns.take(i + 1).drop_last() =~= ns.take(i as int));
        assert(ns.take(i + 1).last() == name@);
        match shown_command(config, &name, "background") {
            Some(c) => {
                let verb = child_exec(shell, names[i].as_str());
                let command = child_exec(&verb, "command");
                let o1 = RegistryOp::DeleteTree { hive: Hive::LocalMachine, path: from_chars(&verb) };
                let o2 = RegistryOp::CreateKey { hive: Hive::LocalMachine, path: from_chars(&verb) };
                let o3 = RegistryOp::SetString {
                    hive: Hive::LocalMachine,
                    path: from_chars(&verb),
                    name: String::new(),
                    value: c.label.clone(),
                };
                let o4 = RegistryOp::SetString {
                    hive: Hive::LocalMachine,
                    path: from_chars(&verb),
                    name: from_chars(&to_chars("Icon")),
                    value: icon_value_exec(),
                };
                let o5 = RegistryOp::CreateKey { hive: Hive::LocalMachine, path: from_chars(&command) };
                let o6 = RegistryOp::SetString {
                    hive: Hive::LocalMachine,
                    path: from_chars(&command),
                    name: String::new(),
                    value: command_line_exec(&name, "%V"),
                };
                let ghost expected = background_verb_ops(
                    child(shell@, name@),
                    name@,
                    label_of(cmds, name@),
                );
                assert(o1@ == expected[0]);
                assert(o2@ == expected[1]);
                assert(o3@ == expected[2]);
                assert(o4@ == expected[3]);
                assert(o5@ == expected[4]);
                assert(o6@ == expected[5]);
                ops.push(o1);
                ops.push(o2);
                ops.push(o3);
                ops.push(o4);
                ops.push(o5);
                ops.push(o6);
                assert(op_views(ops@) =~= before + expected);
            },
            None => {},
        }
        i += 1;
    }
    assert(ns.take(i as int) =~= ns);
}

proof fn lemma_shown_count_bound(
    names: Seq<Seq<char>>,
    cmds: Seq<(Seq<char>, CommandView)>,
    target: Seq<char>,
)
    ensures
        shown_count(names, cmds, target) <= names.len(),
    decreases names.len(),
{
    if names.len() > 0 {
        lemma_shown_count_bound(names.drop_last(), cmds, target);
    }
}

fn verb_key(container: &[char], n: u32, name: &[char]) -> (r: Vec<char>)
    ensures
        r@ == child(container@, verb_name(n as nat, name@)),
{
    let mut out: Vec<char> = Vec::new();
    push_all(&mut out, container);
    out.push('\\');
    push_padded(&mut out, n, 2);
    out.push('-');
    push_all(&mut out, name);
    assert(out@ =~= child(container@, verb_name(n as nat, name@)));
    out
}

fn push_submenu_verbs(
    ops: &mut Vec<RegistryOp>,
    names: &Vec<String>,
    config: &Config,
    target: &str,
    container: &[char],
)
    requires
        names@.len() < u32::MAX,
    ensures
        op_views(final(ops)@) == op_views(old(ops)@) + submenu_verbs(
            string_seqs(names@),
            config@.commands,
            target@,
            container@,
        ),
{
    let ghost ns = string_seqs(names@);
    let ghost cmds = config@.commands;
    let ghost start = op_views(ops@);
    assert(ns.take(0) =~= Seq::<Seq<char>>::empty());
    assert(op_views(ops@) =~= start + submenu_verbs(ns.take(0), cmds, target@, container@));
    let mut i: usize = 0;
    let mut index: u32 = 0;
    while i < names.len()
        invariant
            i <= names@.len(),
            names@.len() < u32::MAX,
            ns == string_seqs(names@),
            cmds == config@.commands,
            index == shown_count(ns.take(i as int), cmds, target@),
            op_views(ops@) == start + submenu_verbs(ns.take(i as int), cmds, target@, container@),
        decreases names@.len() - i,
    {
        let name = to_chars(names[i].as_str());
        let ghost before = op_views(ops@);
        assert(ns.take(i + 1).drop_last() =~= ns.take(i as int));
        assert(ns.take(i + 1).last() == name@);
        proof {
            lemma_shown_count_bound(ns.take(i as int), cmds, target@);
        }
        match shown_command(config, &name, target) {
            Some(c) => {
                index = index + 1;
                let verb = verb_key(container, index, &name);
                let command = child_exec(&verb, "command");
                let o1 = RegistryOp::CreateKey { hive: Hive::LocalMachine, path: from_chars(&verb) };
                let o2 = RegistryOp::SetString {
                    hive: Hive::LocalMachine,
                    path: from_chars(&verb),
                    name: String::new(),
                    value: c.label.clone(),
                };
                let o3 = RegistryOp::CreateKey { hive: Hive::LocalMachine, path: from_chars(&command) };
                let o4 = RegistryOp::SetString {
                    hive: Hive::LocalMachine,
                    path: from_chars(&command),
                    name: String::new(),
                    value: command_line_exec(&name, "%1"),
                };
                let ghost expected = submenu_verb_ops(
                    child(container@, verb_name(index as nat, name@)),
                    name@,
                    label_of(cmds, name@),
                );
                assert(o1@ == expected[0]);
                assert(o2@ == expected[1]);
                assert(o3@ == expected[2]);
                assert(o4@ == expected[3]);
                ops.push(o1);
                ops.push(o2);
                ops.push(o3);
                ops.push(o4);
                assert(op_views(ops@) =~= before + expected);
            },
            None => {},
        }
        i += 1;
    }
    assert(ns.take(i as int) =~= ns);
}

fn push_target_ops(
    ops: &mut Vec<RegistryOp>,
    target_name: &str,
    target_key: &str,
    menu_name: &[char],
    names: &Vec<String>,
    config: &Config,
)
    requires
        names@.len() < u32::MAX,
    ensures
        op_views(final(ops)@) == op_views(old(ops)@) + target_ops(
            target_name@,
            target_key@,
            menu_name@,
            string_seqs(names@),
            config@.commands,
        ),
{
    let key = to_chars(target_key);
    let base = submenu_path_exec(&key);
    let ghost start = op_views(ops@);
    ops.push(RegistryOp::DeleteTree { hive: Hive::LocalMachine, path: from_chars(&base) });
    if chars_eq(&to_chars(target_name), &to_chars("background")) {
        let shell = shell_path_exec(&key);
        let ghost mid = op_views(ops@);
        push_background_verbs(ops, names, config, &shell);
        assert(op_views(ops@) =~= start + target_ops(
            target_name@,
            target_key@,
            menu_name@,
            string_seqs(names@),
            config@.commands,
        ));
    } else {
        let container = child_exec(&base, "Shell");
        ops.push(RegistryOp::CreateKey { hive: Hive::LocalMachine, path: from_chars(&base) });
        ops.push(
            RegistryOp::SetString {
                hive: Hive::LocalMachine,
                path: from_chars(&base),
                name: from_chars(&to_chars("MUIVerb")),
                value: from_chars(menu_name),
            },
        );
        ops.push(
            RegistryOp::SetString {
                hive: Hive::LocalMachine,
                path: from_chars(&base),
                name: from_chars(&to_chars("SubCommands")),
                value: String::new(),
            },
        );
        ops.push(
            RegistryOp::SetString {
                hive: Hive::LocalMachine,
                path: from_chars(&base),
                name: from_chars(&to_chars("Icon")),
                value: icon_value_exec(),
            },
        );
        ops.push(RegistryOp::CreateKey { hive: Hive::LocalMachine, path: from_chars(&container) });
        push_submenu_verbs(ops, names, config, target_name, &container);
        assert(op_views(ops@) =~= start + target_ops(
            target_name@,
            target_key@,
            menu_name@,
            string_seqs(names@),
            config@.commands,
        ));
    }
}

/// The registry operations that install the context menu for a configuration (see
/// [`install_ops`]).
pub fn install_all(config: &Config) -> (r: Vec<RegistryOp>)
    requires
        config@.commands.len() < u32::MAX,
    ensures
        op_views(r@) == install_ops(config@),
{
    let mut ops = uninstall_all();
    let names = sorted_texts(&command_name_list(config));
    let menu_name = match &config.context_menu_name {
        Some(n) => to_chars(n.as_str()),
        None => to_chars("CNC Remedy"),
    };
    let ghost ns = string_seqs(names@);
    let ghost start = op_views(ops@);
    assert(names@.len() == config@.commands.len()) by {
        assert(command_names(config@.commands).len() == config@.commands.len());
    }
    let targets = TARGETS;
    assert(target_list().take(0) =~= Seq::<(Seq<char>, Seq<char>)>::empty());
    assert(op_views(ops@) =~= start + targets_ops(target_list().take(0), menu_name@, ns, config@.commands));
    let mut i: usize = 0;
    while i < 3
        invariant
            i <= 3,
            targets == TARGETS,
            names@.len() < u32::MAX,
            ns == string_seqs(names@),
            op_views(ops@) == start + targets_ops(
                target_list().take(i as int),
                menu_name@,
                ns,
                config@.commands,
            ),
        decreases 3 - i,
    {
        let (target_name, target_key) = targets[i];
        assert(target_list().take(i + 1).drop_last() =~= target_list().take(i as int));
        assert(target_list().take(i + 1).last() == (target_name@, target_key@));
        push_target_ops(&mut ops, target_name, target_key, &menu_name, &names, config);
        i += 1;
    }
    assert(target_list().take(3) =~= target_list());
    ops
}


// ───────────────────────────── installed state and PATH ─────────────────────────────

/// The key whose presence shows that a target is installed: the submenu, or on the
/// background the `rename` verb.
pub open spec fn installed_key(target: (Seq<char>, Seq<char>)) -> Seq<char> {
    if target.0 == "background"@ {
        child(shell_path(target.1), "rename"@)
    } else {
        submenu_path(target.1)
    }
}

/// The keys (in `HKEY_LOCAL_MACHINE`) that an installation has, one per target.
pub open spec fn installed_keys() -> Seq<Seq<char>> {
    target_list().map_values(|t: (Seq<char>, Seq<char>)| installed_key(t))
}

/// The keys to look for to tell whether the tool is installed (see
/// [`installed_keys`]).
pub fn installed_key_list() -> (r: Vec<String>)
    ensures
        string_seqs(r@) == installed_keys(),
{
    let mut r: Vec<String> = Vec::new();
    let targets = TARGETS;
    let mut i: usize = 0;
    while i < 3
        invariant
            i <= 3,
            targets == TARGETS,
            string_seqs(r@) == installed_keys().take(i as int),
        decreases 3 - i,
    {
        let (target_name, target_key) = targets[i];
        let key = to_chars(target_key);
        let path = if chars_eq(&to_chars(target_name), &to_chars("background")) {
            child_exec(&shell_path_exec(&key), "rename")
        } else {
            submenu_path_exec(&key)
        };
        assert(path@ == installed_keys()[i as int]);
        let ghost prev = r@;
        r.push(from_chars(&path));
        assert(string_seqs(r@) =~= string_seqs(prev).push(path@));
        assert(string_seqs(r@) =~= installed_keys().take(i + 1));
        i += 1;
    }
    assert(installed_keys().take(3) =~= installed_keys());
    r
}

/// Whether the system `PATH` (when it could be read) names the install directory.
pub open spec fn path_lists_install(env_path: Option<Seq<char>>) -> bool {
    match env_path {
        Some(p) => contains_sub(p, INSTALL_PATH@),
        None => true,
    }
}

/// Whether the tool is installed: the executable is in place, each key of
/// [`installed_keys`] exists, and the system `PATH`, when it can be read, names the
/// install directory.
pub fn is_installed(exe_exists: bool, keys_exist: bool, env_path: Option<&str>) -> (r: bool)
    ensures
        r == (exe_exists && keys_exist && path_lists_install(
            match env_path {
                Some(p) => Some(p@),
                None => None,
            },
        )),
{
    if !exe_exists || !keys_exist {
        return false;
    }
    match env_path {
        Some(p) => contains_sub_vec(&to_chars(p), &to_chars(INSTALL_PATH)),
        None => true,
    }
}

/// `;` followed by the install directory: what installing appends to `PATH`.
pub open spec fn path_entry() -> Seq<char> {
    seq![';'] + INSTALL_PATH@
}

fn path_entry_exec() -> (r: Vec<char>)
    ensures
        r@ == path_entry(),
{
    let mut out: Vec<char> = Vec::new();
    out.push(';');
    push_all(&mut out, &to_chars(INSTALL_PATH));
    assert(out@ =~= path_entry());
    out
}

/// The system `PATH` with the install directory appended.
pub fn path_with_install(path: &str) -> (r: String)
    ensures
        r@ == path@ + path_entry(),
{
    let mut out = to_chars(path);
    push_all(&mut out, &path_entry_exec());
    from_chars(&out)
}

/// The system `PATH` with every `;` + install directory removed.
pub fn path_without_install(path: &str) -> (r: String)
    ensures
        r@ == replace_all(path@, path_entry(), seq![]),
{
    let empty: Vec<char> = Vec::new();
    let entry = path_entry_exec();
    let r = replace_all_vec(&to_chars(path), &entry, &empty);
    assert(empty@ =~= Seq::<char>::empty());
    from_chars(&r)
}


// ───────────────────────────── laws ─────────────────────────────

/// Installing first removes every entry of the tool: the operations of an
/// installation begin with those of an uninstallation.
pub proof fn lemma_install_starts_clean(c: ConfigView)
    ensures
        install_ops(c).take(uninstall_ops().len() as int) == uninstall_ops(),
{
    assert(install_ops(c).take(uninstall_ops().len() as int) =~= uninstall_ops());
}

/// Removing the install directory from `PATH` undoes adding it, when `PATH` did not
/// already name it after a `;`.
pub proof fn lemma_path_entry_removed(path: Seq<char>)
    requires
        !contains_sub(path, path_entry()),
    ensures
        replace_all(path + path_entry(), path_entry(), seq![]) == path,
{
    let e = path_entry();
    let s = path + e;
    reveal_strlit("C:\\Program Files\\dece1ver\\CNC Remedy");
    assert(e.len() > 1);
    assert(forall|k: int| 1 <= k < e.len() ==> e[k] != ';');
    assert(s.subrange(path.len() as int, (path.len() + e.len()) as int) =~= e);
    assert(crate::chars::matches_at(s, e, path.len() as int));
    assert forall|j: int| 0 <= j < path.len() implies !#[trigger] crate::chars::matches_at(s, e, j) by {
        if crate::chars::matches_at(s, e, j) {
            if j + e.len() <= path.len() {
                assert(path.subrange(j, j + e.len()) =~= s.subrange(j, j + e.len()));
                assert(crate::chars::matches_at(path, e, j));
            } else {
                let k = path.len() - j;
                assert(s.subrange(j, j + e.len())[k] == s[path.len() as int]);
                assert(s[path.len() as int] == e[0]);
                assert(e[k] == ';');
            }
        }
    }
    assert(crate::chars::first_match_at(s, e, path.len() as int));
    crate::chars::lemma_find_sub_at(s, e, path.len() as int);
    let rest = s.skip((path.len() + e.len()) as int);
    assert(rest =~= Seq::<char>::empty());
    crate::chars::lemma_find_sub(rest, e);
    assert(!crate::chars::contains_sub(rest, e)) by {
        if crate::chars::contains_sub(rest, e) {
            let i = choose|i: int| #[trigger] crate::chars::matches_at(rest, e, i);
        }
    }
    assert(replace_all(rest, e, seq![]) == rest);
    assert(s.take(path.len() as int) =~= path);
    assert(replace_all(s, e, seq![]) =~= path);
}

/// Whether `path` is the key `key` or lies below it.
pub open spec fn below(path: Seq<char>, key: Seq<char>) -> bool {
    path == key || (key.len() < path.len() && path.take(key.len() as int) == key && path[key.len() as int] == '\\')
}

/// Whether uninstalling deletes a key: it is in `HKEY_LOCAL_MACHINE`, at or below one
/// of the keys of the current version under the classes prefix.
pub open spec fn removed_on_uninstall(hive: Hive, path: Seq<char>) -> bool {
    hive == Hive::LocalMachine && exists|i: int|
        0 <= i < current_keys().len() && below(path, classes_path(#[trigger] current_keys()[i]))
}

/// Whether every key that the operations create or write is deleted on uninstalling.
pub open spec fn writes_removed(ops: Seq<OpView>) -> bool {
    forall|i: int| 0 <= i < ops.len() ==> match #[trigger] ops[i] {
        OpView::DeleteTree { .. } => true,
        OpView::CreateKey { hive, path } => removed_on_uninstall(hive, path),
        OpView::SetString { hive, path, .. } => removed_on_uninstall(hive, path),
    }
}

proof fn lemma_writes_removed_concat(a: Seq<OpView>, b: Seq<OpView>)
    requires
        writes_removed(a),
        writes_removed(b),
    ensures
        writes_removed(a + b),
{
    assert forall|i: int| 0 <= i < (a + b).len() implies match #[trigger] (a + b)[i] {
        OpView::DeleteTree { .. } => true,
        OpView::CreateKey { hive, path } => removed_on_uninstall(hive, path),
        OpView::SetString { hive, path, .. } => removed_on_uninstall(hive, path),
    } by {
        if i < a.len() {
            assert((a + b)[i] == a[i]);
        } else {
            assert((a + b)[i] == b[i - a.len()]);
        }
    }
}

proof fn lemma_below_child(p: Seq<char>, x: Seq<char>, q: Seq<char>)
    requires
        below(p, q),
    ensures
        below(child(p, x), q),
{
    let c = child(p, x);
    assert(c.take(p.len() as int) =~= p);
    assert(c[p.len() as int] == '\\');
    if p != q {
        assert(c.take(q.len() as int) =~= p.take(q.len() as int));
        assert(c[q.len() as int] == p[q.len() as int]);
    } else {
        assert(c.take(q.len() as int) =~= q);
    }
}

proof fn lemma_removed_child(p: Seq<char>, x: Seq<char>)
    requires
        removed_on_uninstall(Hive::LocalMachine, p),
    ensures
        removed_on_uninstall(Hive::LocalMachine, child(p, x)),
{
    let i = choose|i: int| 0 <= i < current_keys().len() && below(p, classes_path(#[trigger] current_keys()[i]));
    lemma_below_child(p, x, classes_path(current_keys()[i]));
}

proof fn lemma_removed_key(i: int)
    requires
        0 <= i < current_keys().len(),
    ensures
        removed_on_uninstall(Hive::LocalMachine, classes_path(current_keys()[i])),
{
    assert(below(classes_path(current_keys()[i]), classes_path(current_keys()[i])));
}

proof fn lemma_submenu_verbs_removed(
    names: Seq<Seq<char>>,
    cmds: Seq<(Seq<char>, CommandView)>,
    target: Seq<char>,
    container: Seq<char>,
)
    requires
        removed_on_uninstall(Hive::LocalMachine, container),
    ensures
        writes_removed(submenu_verbs(names, cmds, target, container)),
    decreases names.len(),
{
    if names.len() > 0 {
        let name = names.last();
        let prev = names.drop_last();
        lemma_submenu_verbs_removed(prev, cmds, target, container);
        if shown(cmds, name, target) {
            let verb = child(container, verb_name(shown_count(prev, cmds, target) + 1, name));
            lemma_removed_child(container, verb_name(shown_count(prev, cmds, target) + 1, name));
            lemma_removed_child(verb, "command"@);
            let ops = submenu_verb_ops(verb, name, label_of(cmds, name));
            assert(writes_removed(ops));
            lemma_writes_removed_concat(submenu_verbs(prev, cmds, target, container), ops);
        } else {
            assert(submenu_verbs(names, cmds, target, container) =~= submenu_verbs(prev, cmds, target, container));
        }
    }
}

proof fn lemma_background_verbs_removed(
    names: Seq<Seq<char>>,
    cmds: Seq<(Seq<char>, CommandView)>,
    shell: Seq<char>,
)
    requires
        forall|n: Seq<char>| #[trigger] shown(cmds, n, "background"@) ==> n == "rename"@,
        removed_on_uninstall(Hive::LocalMachine, child(shell, "rename"@)),
    ensures
        writes_removed(background_verbs(names, cmds, shell)),
    decreases names.len(),
{
    if names.len() > 0 {
        let name = names.last();
        let prev = names.drop_last();
        lemma_background_verbs_removed(prev, cmds, shell);
        if shown(cmds, name, "background"@) {
            let verb = child(shell, name);
            lemma_removed_child(verb, "command"@);
            let ops = background_verb_ops(verb, name, label_of(cmds, name));
            assert(writes_removed(ops));
            lemma_writes_removed_concat(background_verbs(prev, cmds, shell), ops);
        } else {
            assert(background_verbs(names, cmds, shell) =~= background_verbs(prev, cmds, shell));
        }
    }
}

/// Uninstalling deletes every key that installing writes, as long as the only
/// command on the directory background is `rename` (the background verbs of other
/// commands are not among the keys that uninstalling deletes).
pub proof fn lemma_uninstall_removes_install(c: ConfigView)
    requires
        forall|n: Seq<char>| #[trigger] shown(c.commands, n, "background"@) ==> n == "rename"@,
    ensures
        writes_removed(install_ops(c)),
{
    reveal_strlit("*");
    reveal_strlit("Directory");
    reveal_strlit("Directory\\Background");
    reveal_strlit("shell");
    reveal_strlit("CNCRemedy");
    reveal_strlit("rename");
    reveal_strlit("*\\shell\\CNCRemedy");
    reveal_strlit("Directory\\shell\\CNCRemedy");
    reveal_strlit("Directory\\Background\\shell\\CNCRemedy");
    reveal_strlit("Directory\\Background\\shell\\rename");
    reveal_strlit("file");
    reveal_strlit("directory");
    reveal_strlit("background");
    let names = command_names(c.commands).sort_by(text_order());
    let menu = menu_name_of(c);
    let cmds = c.commands;
    assert(writes_removed(uninstall_ops())) by {
        assert forall|i: int| 0 <= i < uninstall_ops().len() implies match #[trigger] uninstall_ops()[i] {
            OpView::DeleteTree { .. } => true,
            OpView::CreateKey { hive, path } => removed_on_uninstall(hive, path),
            OpView::SetString { hive, path, .. } => removed_on_uninstall(hive, path),
        } by {
            lemma_removals_delete_only(legacy_keys());
            lemma_removals_delete_only(current_keys());
            let a = removals(legacy_keys());
            let b = removals(current_keys());
            if i < a.len() {
                assert(uninstall_ops()[i] == a[i]);
            } else {
                assert(uninstall_ops()[i] == b[i - a.len()]);
            }
        }
    }
    // files and directories: everything lies below the submenu key
    assert(submenu_path("*"@) =~= classes_path(current_keys()[0]));
    assert(submenu_path("Directory"@) =~= classes_path(current_keys()[1]));
    assert(child(shell_path("Directory\\Background"@), "rename"@) =~= classes_path(current_keys()[3]));
    assert(submenu_path("Directory\\Background"@) =~= classes_path(current_keys()[2]));
    lemma_removed_key(0);
    lemma_removed_key(1);
    lemma_removed_key(2);
    lemma_removed_key(3);
    let ts = target_list();
    assert forall|k: int| 0 <= k < 3 implies writes_removed(#[trigger] target_ops(ts[k].0, ts[k].1, menu, names, cmds)) by {
        let base = submenu_path(ts[k].1);
        if k == 2 {
            assert(ts[k].0 == "background"@);
            lemma_background_verbs_removed(names, cmds, shell_path(ts[k].1));
            let head = seq![OpView::DeleteTree { hive: Hive::LocalMachine, path: base }];
            assert(writes_removed(head));
            lemma_writes_removed_concat(head, background_verbs(names, cmds, shell_path(ts[k].1)));
        } else {
            assert("file"@.len() == 4 && "directory"@.len() == 9 && "background"@.len() == 10);
            assert(ts[k].0 != "background"@);
            assert(removed_on_uninstall(Hive::LocalMachine, base));
            let container = child(base, "Shell"@);
            lemma_removed_child(base, "Shell"@);
            lemma_submenu_verbs_removed(names, cmds, ts[k].0, container);
            let head = seq![
                OpView::DeleteTree { hive: Hive::LocalMachine, path: base },
                OpView::CreateKey { hive: Hive::LocalMachine, path: base },
                OpView::SetString { hive: Hive::LocalMachine, path: base, name: "MUIVerb"@, value: menu },
                OpView::SetString { hive: Hive::LocalMachine, path: base, name: "SubCommands"@, value: seq![] },
                OpView::SetString { hive: Hive::LocalMachine, path: base, name: "Icon"@, value: icon_value() },
                OpView::CreateKey { hive: Hive::LocalMachine, path: container },
            ];
            assert(writes_removed(head));
            lemma_writes_removed_concat(head, submenu_verbs(names, cmds, ts[k].0, container));
        }
    }
    assert(writes_removed(targets_ops(ts.take(0), menu, names, cmds))) by {
        assert(ts.take(0) =~= Seq::<(Seq<char>, Seq<char>)>::empty());
    }
    assert(ts.take(1).drop_last() =~= ts.take(0));
    assert(ts.take(2).drop_last() =~= ts.take(1));
    assert(ts.take(3).drop_last() =~= ts.take(2));
    lemma_writes_removed_concat(targets_ops(ts.take(0), menu, names, cmds), target_ops(ts[0].0, ts[0].1, menu, names, cmds));
    lemma_writes_removed_concat(targets_ops(ts.take(1), menu, names, cmds), target_ops(ts[1].0, ts[1].1, menu, names, cmds));
    lemma_writes_removed_concat(targets_ops(ts.take(2), menu, names, cmds), target_ops(ts[2].0, ts[2].1, menu, names, cmds));
    assert(ts.take(3) =~= ts);
    lemma_writes_removed_concat(uninstall_ops(), targets_ops(ts, menu, names, cmds));
}

proof fn lemma_removals_delete_only(keys: Seq<Seq<char>>)
    ensures
        forall|i: int| 0 <= i < removals(keys).len() ==> (#[trigger] removals(keys)[i]) is DeleteTree,
    decreases keys.len(),
{
    if keys.len() > 0 {
        lemma_removals_delete_only(keys.drop_last());
        let a = removals(keys.drop_last());
        let b = removal_ops(keys.last());
        assert forall|i: int| 0 <= i < removals(keys).len() implies (#[trigger] removals(keys)[i]) is DeleteTree by {
            if i < a.len() {
                assert(removals(keys)[i] == a[i]);
            } else {
                assert(removals(keys)[i] == b[i - a.len()]);
            }
        }
    }
}
} // verus!
