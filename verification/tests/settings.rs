use cnc_remedy::commands::Key;
use cnc_remedy::config::{sorted_command_names, Config};
use cnc_remedy::menu::{
    commands_action, digit_index, edit_action, params_action, remove_param, removal_index,
    set_param, settings_action, toggle_command, toggle_value, trimmed_input, CommandsAction,
    EditAction, ParamsAction, SettingsAction,
};
use cnc_remedy::settings::Extra;

#[test]
fn extra_reads_back_what_was_set() {
    let mut e = Extra::new();
    e.insert("prefix".to_string(), "NC_".to_string());
    e.insert("suffix".to_string(), "_v2".to_string());
    e.insert("prefix".to_string(), "X_".to_string());
    assert_eq!(e.get("prefix"), Some(&"X_".to_string()));
    assert_eq!(e.get("suffix"), Some(&"_v2".to_string()));
    assert_eq!(e.entries.len(), 2);
    e.remove("prefix");
    assert_eq!(e.get("prefix"), None);
    assert_eq!(e.get("suffix"), Some(&"_v2".to_string()));
    assert_eq!(e.sorted_keys(), vec!["suffix".to_string()]);
}

#[test]
fn extra_keys_sort_in_string_order() {
    let mut e = Extra::new();
    for k in ["strip_mode", "comment_chars", "keep_string", "Zeta"] {
        e.insert(k.to_string(), String::new());
    }
    assert_eq!(e.sorted_keys(), vec!["Zeta", "comment_chars", "keep_string", "strip_mode"]);
}

#[test]
fn switching_values_pairs_them_up() {
    assert_eq!(toggle_value("true"), Some("false".to_string()));
    assert_eq!(toggle_value("FALSE"), Some("true".to_string()));
    assert_eq!(toggle_value("now"), Some("modified".to_string()));
    assert_eq!(toggle_value("Modified"), Some("now".to_string()));
    assert_eq!(toggle_value("starts-with"), Some("contains".to_string()));
    assert_eq!(toggle_value("contains"), Some("starts-with".to_string()));
    assert_eq!(toggle_value("%d%m%y"), None);
    let back = toggle_value(&toggle_value("TRUE").unwrap()).unwrap();
    assert_eq!(back, "true");
}

#[test]
fn removal_numbers_count_from_one() {
    assert_eq!(removal_index(" 2 \n", 3), Some(1));
    assert_eq!(removal_index("+1", 3), Some(0));
    assert_eq!(removal_index("0", 3), None);
    assert_eq!(removal_index("4", 3), None);
    assert_eq!(removal_index("two", 3), None);
    assert_eq!(trimmed_input("  key \r\n"), "key");
}

#[test]
fn keys_pick_the_actions() {
    assert_eq!(digit_index('1'), Some(0));
    assert_eq!(digit_index('9'), Some(8));
    assert_eq!(digit_index('0'), None);
    assert_eq!(settings_action(Key::Char('1'), true), SettingsAction::Commands);
    assert_eq!(settings_action(Key::Char('1'), false), SettingsAction::Nothing);
    assert_eq!(settings_action(Key::Char('2'), true), SettingsAction::Params);
    assert_eq!(settings_action(Key::Char('d'), false), SettingsAction::Reset);
    assert_eq!(settings_action(Key::Esc, false), SettingsAction::Back);
    assert_eq!(commands_action(Key::Char('3')), CommandsAction::Toggle(2));
    assert_eq!(commands_action(Key::Char('r')), CommandsAction::Reinstall);
    assert_eq!(commands_action(Key::Char('0')), CommandsAction::Back);
    assert_eq!(commands_action(Key::Other), CommandsAction::Nothing);
    assert_eq!(params_action(Key::Char('2')), ParamsAction::Edit(1));
    assert_eq!(params_action(Key::Char('x')), ParamsAction::Nothing);
    assert_eq!(edit_action(Key::Char('+'), false), EditAction::Add);
    assert_eq!(edit_action(Key::Char('-'), false), EditAction::Nothing);
    assert_eq!(edit_action(Key::Char('-'), true), EditAction::Remove);
    assert_eq!(edit_action(Key::Char('5'), true), EditAction::Change(4));
    assert_eq!(edit_action(Key::Esc, true), EditAction::Back);
}

#[test]
fn toggling_a_command_twice_restores_it() {
    let mut config = Config::default();
    let names = sorted_command_names(&config);
    assert_eq!(names, vec!["archive", "generate-tool-list", "rename", "strip-comments"]);
    assert!(toggle_command(&mut config, 2));
    let rename = config.commands.iter().find(|(n, _)| n == "rename").unwrap();
    assert!(!rename.1.enabled);
    assert!(toggle_command(&mut config, 2));
    let rename = config.commands.iter().find(|(n, _)| n == "rename").unwrap();
    assert!(rename.1.enabled);
    assert!(!toggle_command(&mut config, 4));
}

#[test]
fn parameters_are_set_and_removed_on_the_named_command() {
    let mut config = Config::default();
    set_param(&mut config, "archive", "timestamp_source".to_string(), "modified".to_string());
    set_param(&mut config, "archive", "extra_key".to_string(), "1".to_string());
    let archive = &config.commands.iter().find(|(n, _)| n == "archive").unwrap().1;
    assert_eq!(archive.extra.get("timestamp_source"), Some(&"modified".to_string()));
    assert_eq!(archive.extra.get("extra_key"), Some(&"1".to_string()));
    remove_param(&mut config, "archive", "extra_key");
    let archive = &config.commands.iter().find(|(n, _)| n == "archive").unwrap().1;
    assert_eq!(archive.extra.get("extra_key"), None);
    assert_eq!(archive.extra.get("date_format"), Some(&"%d%m%y.%H%M".to_string()));
    let rename = &config.commands.iter().find(|(n, _)| n == "rename").unwrap().1;
    assert_eq!(rename.extra.get("extra_key"), None);
}
