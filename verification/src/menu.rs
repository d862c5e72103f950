//! The settings screens: what each key does, and the changes they make to the
//! configuration (enabling a command, setting or removing an extra parameter).
use vstd::prelude::*;

use crate::chars::{ascii_lowercase, ascii_lowercase_chars, chars_eq, parse_usize, parse_usize_chars, to_chars, trim, trim_vec, from_chars};
use crate::commands::Key;
use crate::config::{command_names, names_unique, sorted_command_names, CommandConfig, CommandView, Config, ConfigView};
use crate::order::text_order;
use crate::settings::{first_index, inserted, is_first_index, lemma_first_index, lemma_first_index_none, without_key};

verus! {

/// The position of a digit key `1`–`9` in a numbered list.
pub open spec fn digit_position(c: char) -> Option<usize> {
    if '1' == c { Some(0usize) }
    else if '2' == c { Some(1usize) }
    else if '3' == c { Some(2usize) }
    else if '4' == c { Some(3usize) }
    else if '5' == c { Some(4usize) }
    else if '6' == c { Some(5usize) }
    else if '7' == c { Some(6usize) }
    else if '8' == c { Some(7usize) }
    else if '9' == c { Some(8usize) }
    else { None }
}

/// The position a digit key `1`–`9` selects (see [`digit_position`]).
pub fn digit_index(c: char) -> (r: Option<usize>)
    ensures
        r == digit_position(c),
{
    if c == '1' { Some(0) }
    else if c == '2' { Some(1) }
    else if c == '3' { Some(2) }
    else if c == '4' { Some(3) }
    else if c == '5' { Some(4) }
    else if c == '6' { Some(5) }
    else if c == '7' { Some(6) }
    else if c == '8' { Some(7) }
    else if c == '9' { Some(8) }
    else { None }
}

/// Whether a key leaves a screen: Esc or `0`.
pub open spec fn is_back(key: Key) -> bool {
    key == Key::Esc || key == Key::Char('0')
}

fn is_back_key(key: Key) -> (r: bool)
    ensures
        r == is_back(key),
{
    match key {
        Key::Esc => true,
        Key::Char(c) => c == '0',
        Key::Other => false,
    }
}

/// What a key does on the settings screen.
#[derive(Clone, Copy, Debug, PartialEq, Eq, Structural)]
pub enum SettingsAction {
    /// `1`, when installed: the screen of context-menu commands.
    Commands,
    /// `2`, when installed: the screen of command parameters.
    Params,
    /// `d`: restore the default configuration.
    Reset,
    /// Esc or `0`: back to the main menu.
    Back,
    /// Any other key: nothing.
    Nothing,
}

/// What a key does on the settings screen (see [`SettingsAction`]).
pub fn settings_action(key: Key, installed: bool) -> (r: SettingsAction)
    ensures
        r == if key == Key::Char('1') && installed {
            SettingsAction::Commands
        } else if key == Key::Char('2') && installed {
            SettingsAction::Params
        } else if key == Key::Char('d') {
            SettingsAction::Reset
        } else if is_back(key) {
            SettingsAction::Back
        } else {
            SettingsAction::Nothing
        },
{
    if key == Key::Char('1') && installed {
        SettingsAction::Commands
    } else if key == Key::Char('2') && installed {
        SettingsAction::Params
    } else if key == Key::Char('d') {
        SettingsAction::Reset
    } else if is_back_key(key) {
        SettingsAction::Back
    } else {
        SettingsAction::Nothing
    }
}

/// What a key does on the screen of context-menu commands.
#[derive(Clone, Copy, Debug, PartialEq, Eq, Structural)]
pub enum CommandsAction {
    /// `1`–`9`: switch the command at that position (from 0) on or off.
    Toggle(usize),
    /// `r`: write the context menu again (with administrator rights).
    Reinstall,
    /// Esc or `0`: back.
    Back,
    /// Any other key: nothing.
    Nothing,
}

/// What a key does on the screen of context-menu commands (see [`CommandsAction`]).
pub fn commands_action(key: Key) -> (r: CommandsAction)
    ensures
        r == match key {
            Key::Char(c) => match digit_position(c) {
                Some(i) => CommandsAction::Toggle(i),
                None => if c == 'r' {
                    CommandsAction::Reinstall
                } else if c == '0' {
                    CommandsAction::Back
                } else {
                    CommandsAction::Nothing
                },
            },
            Key::Esc => CommandsAction::Back,
            Key::Other => CommandsAction::Nothing,
        },
{
    match key {
        Key::Char(c) => match digit_index(c) {
            Some(i) => CommandsAction::Toggle(i),
            None => {
                if c == 'r' {
                    CommandsAction::Reinstall
                } else if c == '0' {
                    CommandsAction::Back
                } else {
                    CommandsAction::Nothing
                }
            },
        },
        Key::Esc => CommandsAction::Back,
        Key::Other => CommandsAction::Nothing,
    }
}

/// What a key does on the screen of command parameters.
#[derive(Clone, Copy, Debug, PartialEq, Eq, Structural)]
pub enum ParamsAction {
    /// `1`–`9`: edit the parameters of the command at that position (from 0).
    Edit(usize),
    /// Esc or `0`: back.
    Back,
    /// Any other key: nothing.
    Nothing,
}

/// What a key does on the screen of command parameters (see [`ParamsAction`]).
pub fn params_action(key: Key) -> (r: ParamsAction)
    ensures
        r == match key {
            Key::Char(c) => match digit_position(c) {
                Some(i) => ParamsAction::Edit(i),
                None => if c == '0' {
                    ParamsAction::Back
                } else {
                    ParamsAction::Nothing
                },
            },
            Key::Esc => ParamsAction::Back,
            Key::Other => ParamsAction::Nothing,
        },
{
    match key {
        Key::Char(c) => match digit_index(c) {
            Some(i) => ParamsAction::Edit(i),
            None => {
                if c == '0' {
                    ParamsAction::Back
                } else {
                    ParamsAction::Nothing
                }
            },
        },
        Key::Esc => ParamsAction::Back,
        Key::Other => ParamsAction::Nothing,
    }
}

/// What a key does on the screen of one command's parameters.
#[derive(Clone, Copy, Debug, PartialEq, Eq, Structural)]
pub enum EditAction {
    /// `1`–`9`: change the parameter at that position (from 0).
    Change(usize),
    /// `+`: add a parameter.
    Add,
    /// `-`, when there are parameters: remove one.
    Remove,
    /// Esc or `0`: back.
    Back,
    /// Any other key: nothing.
    Nothing,
}

/// What a key does on the screen of one command's parameters (see [`EditAction`]).
pub fn edit_action(key: Key, has_params: bool) -> (r: EditAction)
    ensures
        r == match key {
            Key::Char(c) => match digit_position(c) {
                Some(i) => EditAction::Change(i),
                None => if c == '+' {
                    EditAction::Add
                } else if c == '-' && has_params {
                    EditAction::Remove
                } else if c == '0' {
                    EditAction::Back
                } else {
                    EditAction::Nothing
                },
            },
            Key::Esc => EditAction::Back,
            Key::Other => EditAction::Nothing,
        },
{
    match key {
        Key::Char(c) => match digit_index(c) {
            Some(i) => EditAction::Change(i),
            None => {
                if c == '+' {
                    EditAction::Add
                } else if c == '-' && has_params {
                    EditAction::Remove
                } else if c == '0' {
                    EditAction::Back
                } else {
                    EditAction::Nothing
                }
            },
        },
        Key::Esc => EditAction::Back,
        Key::Other => EditAction::Nothing,
    }
}

// ───────────────────────────── parameter values ─────────────────────────────

/// The value a parameter switches to: `true` and `false`, `now` and `modified`,
/// `starts-with` and `contains` (in any case) switch to each other; any other value
/// has none, and a new one is asked for.
pub open spec fn switched_value(v: Seq<char>) -> Option<Seq<char>> {
    let l = ascii_lowercase(v);
    if l == "true"@ {
        Some("false"@)
    } else if l == "false"@ {
        Some("true"@)
    } else if l == "now"@ {
        Some("modified"@)
    } else if l == "modified"@ {
        Some("now"@)
    } else if l == "starts-with"@ {
        Some("contains"@)
    } else if l == "contains"@ {
        Some("starts-with"@)
    } else {
        None
    }
}

/// The value a parameter switches to (see [`switched_value`]).
pub fn toggle_value(v: &str) -> (r: Option<String>)
    ensures
        match r {
            Some(n) => switched_value(v@) == Some(n@),
            None => switched_value(v@) is None,
        },
{
    let l = ascii_lowercase_chars(&to_chars(v));
    if chars_eq(&l, &to_chars("true")) {
        Some(String::from_str("false"))
    } else if chars_eq(&l, &to_chars("false")) {
        Some(String::from_str("true"))
    } else if chars_eq(&l, &to_chars("now")) {
        Some(String::from_str("modified"))
    } else if chars_eq(&l, &to_chars("modified")) {
        Some(String::from_str("now"))
    } else if chars_eq(&l, &to_chars("starts-with")) {
        Some(String::from_str("contains"))
    } else if chars_eq(&l, &to_chars("contains")) {
        Some(String::from_str("starts-with"))
    } else {
        None
    }
}

/// The position (from 0) of the parameter to remove, from the number typed (from 1):
/// the trimmed input must be a number from 1 to `count`.
pub open spec fn removal_position(input: Seq<char>, count: usize) -> Option<usize> {
    match parse_usize(trim(input)) {
        Some(n) => if 1 <= n && n <= count {
            Some((n - 1) as usize)
        } else {
            None
        },
        None => None,
    }
}

/// The position of the parameter to remove (see [`removal_position`]).
pub fn removal_index(input: &str, count: usize) -> (r: Option<usize>)
    ensures
        r == removal_position(input@, count),
{
    match parse_usize_chars(&trim_vec(&to_chars(input))) {
        Some(n) => {
            if 1 <= n && n <= count {
                Some(n - 1)
            } else {
                None
            }
        },
        None => None,
    }
}

/// An input line without its surrounding white space.
pub fn trimmed_input(input: &str) -> (r: String)
    ensures
        r@ == trim(input@),
{
    from_chars(&trim_vec(&to_chars(input)))
}

// ───────────────────────────── configuration changes ─────────────────────────────

/// The commands with the settings of the first command called `name` replaced by `c`
/// (unchanged when there is none).
pub open spec fn with_command(
    cmds: Seq<(Seq<char>, CommandView)>,
    name: Seq<char>,
    c: CommandView,
) -> Seq<(Seq<char>, CommandView)> {
    match first_index(cmds, name) {
        Some(i) => cmds.update(i, (name, c)),
        None => cmds,
    }
}

/// A command's settings switched on or off.
pub open spec fn flipped(c: CommandView) -> CommandView {
    CommandView { label: c.label, enabled: !c.enabled, targets: c.targets, icon: c.icon, extra: c.extra }
}

/// A command's settings with other extra parameters.
pub open spec fn with_extra(c: CommandView, extra: Seq<(Seq<char>, Seq<char>)>) -> CommandView {
    CommandView { label: c.label, enabled: c.enabled, targets: c.targets, icon: c.icon, extra }
}

/// The configuration after switching the command at a position of the sorted names
/// on or off (unchanged for a position past the end).
pub open spec fn toggled(c: ConfigView, idx: int) -> ConfigView {
    let names = command_names(c.commands).sort_by(text_order());
    if 0 <= idx < names.len() {
        let name = names[idx];
        match first_index(c.commands, name) {
            Some(i) => ConfigView {
                menu_name: c.menu_name,
                commands: with_command(c.commands, name, flipped(c.commands[i].1)),
            },
            None => c,
        }
    } else {
        c
    }
}

/// The configuration with an extra parameter of the command called `name` set.
pub open spec fn param_set(c: ConfigView, name: Seq<char>, key: Seq<char>, value: Seq<char>) -> ConfigView {
    match first_index(c.commands, name) {
        Some(i) => ConfigView {
            menu_name: c.menu_name,
            commands: with_command(
                c.commands,
                name,
                with_extra(c.commands[i].1, inserted(c.commands[i].1.extra, key, value)),
            ),
        },
        None => c,
    }
}

/// The configuration with an extra parameter of the command called `name` removed.
pub open spec fn param_removed(c: ConfigView, name: Seq<char>, key: Seq<char>) -> ConfigView {
    match first_index(c.commands, name) {
        Some(i) => ConfigView {
            menu_name: c.menu_name,
            commands: with_command(
                c.commands,
                name,
                with_extra(c.commands[i].1, without_key(c.commands[i].1.extra, key)),
            ),
        },
        None => c,
    }
}

fn command_index(config: &Config, name: &[char]) -> (r: Option<usize>)
    ensures
        match r {
            Some(i) => is_first_index(config@.commands, name@, i as int) && first_index(
                config@.commands,
                name@,
            ) == Some(i as int),
            None => first_index(config@.commands, name@) is None,
        },
{
    let ghost cmds = config@.commands;
    let mut i: usize = 0;
    while i < config.commands.len()
        invariant
            i <= config.commands@.len(),
            cmds == config@.commands,
            forall|j: int| 0 <= j < i ==> cmds[j].0 != name@,
        decreases config.commands@.len() - i,
    {
        assert(cmds[i as int].0 == config.commands@[i as int].0@);
        if chars_eq(&to_chars(config.commands[i].0.as_str()), name) {
            proof {
                lemma_first_index(cmds, name@, i as int);
            }
            return Some(i);
        }
        i += 1;
    }
    proof {
        lemma_first_index_none(cmds, name@);
    }
    None
}

/// Replaces the entry at position `i` by its own name and `c`.
fn put_command(config: &mut Config, i: usize, c: CommandConfig)
    requires
        i < old(config).commands@.len(),
    ensures
        final(config)@ == (ConfigView {
            menu_name: old(config)@.menu_name,
            commands: old(config)@.commands.update(i as int, (old(config)@.commands[i as int].0, c@)),
        }),
{
    let ghost before = config@;
    let (name, _old) = config.commands.remove(i);
    config.commands.insert(i, (name, c));
    assert(config@.commands =~= before.commands.update(i as int, (before.commands[i as int].0, c@)));
}

/// Takes out the settings of the command at position `i`, leaving a placeholder.
fn take_command(config: &mut Config, i: usize) -> (r: CommandConfig)
    requires
        i < old(config).commands@.len(),
    ensures
        r@ == old(config)@.commands[i as int].1,
        final(config).commands@.len() == old(config).commands@.len(),
        final(config)@.commands[i as int].0 == old(config)@.commands[i as int].0,
        forall|j: int| 0 <= j < old(config).commands@.len() && j != i ==> final(config)@.commands[j]
            == old(config)@.commands[j],
        final(config)@.menu_name == old(config)@.menu_name,
{
    let ghost before = config@;
    let (name, c) = config.commands.remove(i);
    let placeholder = CommandConfig {
        label: String::new(),
        enabled: false,
        targets: Vec::new(),
        icon: None,
        extra: crate::settings::Extra::new(),
    };
    config.commands.insert(i, (name, placeholder));
    assert forall|j: int| 0 <= j < before.commands.len() && j != i implies config@.commands[j]
        == before.commands[j] by {
        if j < i {
            assert(config.commands@[j] == old(config).commands@[j]);
        } else {
            assert(config.commands@[j] == old(config).commands@[j]);
        }
    }
    c
}

/// Switches the command at position `idx` of the sorted names on or off; `false`
/// when there is no such position (see [`toggled`]).
pub fn toggle_command(config: &mut Config, idx: usize) -> (r: bool)
    ensures
        final(config)@ == toggled(old(config)@, idx as int),
        r == (idx < old(config)@.commands.len()),
        command_names(final(config)@.commands) == command_names(old(config)@.commands),
        names_unique(old(config)@.commands) ==> names_unique(final(config)@.commands),
{
    let names = sorted_command_names(config);
    if idx >= names.len() {
        return false;
    }
    let name = to_chars(names[idx].as_str());
    assert(name@ == command_names(config@.commands).sort_by(text_order())[idx as int]);
    match command_index(config, &name) {
        Some(i) => {
            let ghost before = config@;
            let mut c = take_command(config, i);
            c.enabled = !c.enabled;
            put_command(config, i, c);
            assert(config@.commands =~= with_command(before.commands, name@, flipped(before.commands[i as int].1)));
            assert(command_names(config@.commands) =~= command_names(before.commands));
        },
        None => {},
    }
    true
}

/// Sets an extra parameter of the command called `name` (see [`param_set`]).
pub fn set_param(config: &mut Config, name: &str, key: String, value: String)
    ensures
        final(config)@ == param_set(old(config)@, name@, key@, value@),
        command_names(final(config)@.commands) == command_names(old(config)@.commands),
        names_unique(old(config)@.commands) ==> names_unique(final(config)@.commands),
{
    let n = to_chars(name);
    match command_index(config, &n) {
        Some(i) => {
            let ghost before = config@;
            let mut c = take_command(config, i);
            c.extra.insert(key, value);
            put_command(config, i, c);
            assert(config@.commands =~= with_command(
                before.commands,
                name@,
                with_extra(before.commands[i as int].1, inserted(before.commands[i as int].1.extra, key@, value@)),
            ));
            assert(command_names(config@.commands) =~= command_names(before.commands));
        },
        None => {},
    }
}

/// Removes an extra parameter of the command called `name` (see [`param_removed`]).
pub fn remove_param(config: &mut Config, name: &str, key: &str)
    ensures
        final(config)@ == param_removed(old(config)@, name@, key@),
        command_names(final(config)@.commands) == command_names(old(config)@.commands),
        names_unique(old(config)@.commands) ==> names_unique(final(config)@.commands),
{
    let n = to_chars(name);
    match command_index(config, &n) {
        Some(i) => {
            let ghost before = config@;
            let mut c = take_command(config, i);
            c.extra.remove(key);
            put_command(config, i, c);
            assert(config@.commands =~= with_command(
                before.commands,
                name@,
                with_extra(before.commands[i as int].1, without_key(before.commands[i as int].1.extra, key@)),
            ));
            assert(command_names(config@.commands) =~= command_names(before.commands));
        },
        None => {},
    }
}


// ───────────────────────────── laws ─────────────────────────────

/// Switching a parameter's value twice gives back the value, in lower case.
pub proof fn lemma_switch_twice(v: Seq<char>)
    requires
        switched_value(v) is Some,
    ensures
        switched_value(switched_value(v)->0) == Some(ascii_lowercase(v)),
{
    reveal_strlit("true");
    reveal_strlit("false");
    reveal_strlit("now");
    reveal_strlit("modified");
    reveal_strlit("starts-with");
    reveal_strlit("contains");
    assert("true"@.len() == 4);
    assert("false"@.len() == 5);
    assert("now"@.len() == 3);
    assert("modified"@.len() == 8);
    assert("starts-with"@.len() == 11);
    assert("contains"@.len() == 8);
    assert("modified"@[0] != "contains"@[0]);
    let l = ascii_lowercase(v);
    if l == "true"@ {
        assert(ascii_lowercase("false"@) =~= "false"@);
    } else if l == "false"@ {
        assert(ascii_lowercase("true"@) =~= "true"@);
    } else if l == "now"@ {
        assert(ascii_lowercase("modified"@) =~= "modified"@);
    } else if l == "modified"@ {
        assert(ascii_lowercase("now"@) =~= "now"@);
    } else if l == "starts-with"@ {
        assert(ascii_lowercase("contains"@) =~= "contains"@);
    } else {
        assert(ascii_lowercase("starts-with"@) =~= "starts-with"@);
    }
}

/// Switching the same command on or off twice gives back the configuration.
pub proof fn lemma_toggle_twice(c: ConfigView, idx: int)
    ensures
        toggled(toggled(c, idx), idx) == c,
{
    let names = command_names(c.commands).sort_by(text_order());
    if 0 <= idx < names.len() {
        let name = names[idx];
        match first_index(c.commands, name) {
            Some(i) => {
                let t = toggled(c, idx);
                let ci = c.commands[i];
                assert(is_first_index(c.commands, name, i)) by {
                    let k = choose|k: int| is_first_index(c.commands, name, k);
                    assert(is_first_index(c.commands, name, k));
                }
                assert(ci.0 == name);
                assert(t.commands =~= c.commands.update(i, (name, flipped(ci.1))));
                assert(command_names(t.commands) =~= command_names(c.commands));
                assert(is_first_index(t.commands, name, i));
                lemma_first_index(t.commands, name, i);
                assert(flipped(flipped(ci.1)) == ci.1);
                assert(t.commands.update(i, (name, flipped(t.commands[i].1))) =~= c.commands);
            },
            None => {},
        }
    }
}

/// A parameter that was set reads back as set; the other parameters of that command
/// keep their values.
pub proof fn lemma_param_set_reads_back(c: ConfigView, name: Seq<char>, key: Seq<char>, value: Seq<char>)
    requires
        first_index(c.commands, name) is Some,
    ensures
        ({
            let i = first_index(c.commands, name)->0;
            let e = param_set(c, name, key, value).commands[i].1.extra;
            &&& crate::settings::lookup(e, key) == Some(value)
            &&& forall|k: Seq<char>| k != key ==> crate::settings::lookup(e, k)
                == crate::settings::lookup(c.commands[i].1.extra, k)
        }),
{
    let i = first_index(c.commands, name)->0;
    assert(is_first_index(c.commands, name, i)) by {
        let k = choose|k: int| is_first_index(c.commands, name, k);
        assert(is_first_index(c.commands, name, k));
    }
    crate::settings::lemma_inserted_lookup(c.commands[i].1.extra, key, value);
}
} // verus!
