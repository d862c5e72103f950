use cnc_remedy::commands::{
    file_arguments, find_file_command, invocation, main_menu_choice, recurse_enabled,
    registered_commands, Command, FileCommand, Invocation, Key,
};
use cnc_remedy::settings::Extra;

fn args(list: &[&str]) -> Vec<String> {
    list.iter().map(|s| s.to_string()).collect()
}

#[test]
fn command_lines_are_understood() {
    assert_eq!(invocation(&args(&["cncr"])), Invocation::Menu);
    assert_eq!(invocation(&args(&["cncr", "--reset-config"])), Invocation::ResetConfig);
    assert_eq!(invocation(&args(&["cncr", "--reset-config", "x"])), Invocation::Unknown);
    assert_eq!(invocation(&args(&["cncr", "install"])), Invocation::Install);
    assert_eq!(invocation(&args(&["cncr", "uninstall", "x"])), Invocation::Uninstall);
    assert_eq!(
        invocation(&args(&["cncr", "strip-comments", "a.nc"])),
        Invocation::Run(FileCommand::StripComments)
    );
    assert_eq!(invocation(&args(&["cncr", "frobnicate"])), Invocation::Unknown);
}

#[test]
fn file_arguments_skip_options() {
    let a = args(&["cncr", "rename", "a.nc", "-v", "b.nc", "--x"]);
    assert_eq!(file_arguments(&a), vec!["a.nc", "b.nc"]);
    assert!(file_arguments(&args(&["cncr"])).is_empty());
}

#[test]
fn registered_file_commands() {
    let names: Vec<String> = registered_commands().into_iter().map(|(n, _)| n).collect();
    assert_eq!(names, vec!["rename", "archive", "strip-comments", "generate-tool-list"]);
    assert_eq!(find_file_command("archive"), Some(FileCommand::Archive));
    assert_eq!(find_file_command("generate-tool-list"), Some(FileCommand::GenerateToolList));
    assert_eq!(find_file_command("Rename"), None);
}

#[test]
fn main_menu_needs_rights_to_install() {
    assert_eq!(main_menu_choice(Key::Char('1'), true, false), Some(Command::Install));
    assert_eq!(main_menu_choice(Key::Char('1'), true, true), Some(Command::Uninstall));
    assert_eq!(main_menu_choice(Key::Char('1'), false, false), None);
    assert_eq!(main_menu_choice(Key::Char('2'), false, false), Some(Command::ShowAbout));
    assert_eq!(main_menu_choice(Key::Char('3'), false, false), None);
    assert_eq!(main_menu_choice(Key::Char('3'), false, true), Some(Command::ShowSettings));
    assert_eq!(main_menu_choice(Key::Esc, false, true), Some(Command::Exit));
    assert_eq!(main_menu_choice(Key::Char('0'), true, true), Some(Command::Exit));
    assert_eq!(main_menu_choice(Key::Other, true, true), None);
}

#[test]
fn recurse_setting() {
    let mut e = Extra::new();
    assert!(!recurse_enabled(&e));
    e.insert("recurse".to_string(), "true".to_string());
    assert!(recurse_enabled(&e));
    e.insert("recurse".to_string(), "TRUE".to_string());
    assert!(!recurse_enabled(&e));
}
