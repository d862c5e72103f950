use cnc_remedy::config::Config;
use cnc_remedy::registry::{
    install_all, installed_key_list, is_installed, path_with_install, path_without_install,
    uninstall_all, Hive, RegistryOp, INSTALL_EXECUTABLE_PATH, INSTALL_PATH, REG_SYSTEM_ENV_PATH,
    TARGETS,
};

#[test]
fn constants_are_valid_paths() {
    assert!(INSTALL_PATH.contains("CNC Remedy"));
    assert!(INSTALL_EXECUTABLE_PATH.contains("cncr.exe"));
    assert!(REG_SYSTEM_ENV_PATH.contains("Environment"));
}

#[test]
fn targets_are_valid() {
    assert_eq!(TARGETS.len(), 3);
    assert_eq!(TARGETS[0], ("file", "*"));
    assert_eq!(TARGETS[1], ("directory", "Directory"));
    assert_eq!(TARGETS[2], ("background", "Directory\\Background"));
}

fn describe(op: &RegistryOp) -> String {
    match op {
        RegistryOp::DeleteTree { hive, path } => format!("delete {:?} {}", hive, path),
        RegistryOp::CreateKey { hive, path } => format!("create {:?} {}", hive, path),
        RegistryOp::SetString { hive, path, name, value } => {
            format!("set {:?} {} [{}] = {}", hive, path, name, value)
        }
    }
}

#[test]
fn uninstall_removes_each_key_from_three_hives() {
    let ops = uninstall_all();
    assert_eq!(ops.len(), 3 * 13);
    let first: Vec<String> = ops.iter().take(3).map(describe).collect();
    assert_eq!(
        first,
        vec![
            "delete LocalMachine Software\\Classes\\*\\shell\\cnc_remedy".to_string(),
            "delete CurrentUser Software\\Classes\\*\\shell\\cnc_remedy".to_string(),
            "delete ClassesRoot *\\shell\\cnc_remedy".to_string(),
        ]
    );
    let last = describe(&ops[ops.len() - 1]);
    assert_eq!(last, "delete ClassesRoot Directory\\Background\\shell\\rename");
}

#[test]
fn install_writes_sorted_numbered_submenu_and_background_verbs() {
    let config = Config::default();
    let ops = install_all(&config);
    let uninstall = uninstall_all();
    let texts: Vec<String> = ops.iter().map(describe).collect();
    let cleanup: Vec<String> = uninstall.iter().map(describe).collect();
    assert_eq!(&texts[..cleanup.len()], &cleanup[..]);
    let rest = &texts[cleanup.len()..];
    let exe = "\"C:\\Program Files\\dece1ver\\CNC Remedy\\cncr.exe\"";
    let file_base = "Software\\Classes\\*\\shell\\CNCRemedy";
    let expected_file: Vec<String> = vec![
        format!("delete LocalMachine {file_base}"),
        format!("create LocalMachine {file_base}"),
        format!("set LocalMachine {file_base} [MUIVerb] = CNC Remedy"),
        format!("set LocalMachine {file_base} [SubCommands] = "),
        format!("set LocalMachine {file_base} [Icon] = {exe},0"),
        format!("create LocalMachine {file_base}\\Shell"),
        format!("create LocalMachine {file_base}\\Shell\\01-archive"),
        format!("set LocalMachine {file_base}\\Shell\\01-archive [] = Архивировать УП"),
        format!("create LocalMachine {file_base}\\Shell\\01-archive\\command"),
        format!("set LocalMachine {file_base}\\Shell\\01-archive\\command [] = {exe} archive \"%1\""),
        format!("create LocalMachine {file_base}\\Shell\\02-generate-tool-list"),
    ];
    assert_eq!(&rest[..expected_file.len()], &expected_file[..]);
    let background: Vec<&String> =
        rest.iter().filter(|t| t.contains("Directory\\Background")).collect();
    let bg = "Software\\Classes\\Directory\\Background\\shell";
    assert_eq!(
        background,
        vec![
            &format!("delete LocalMachine {bg}\\CNCRemedy"),
            &format!("delete LocalMachine {bg}\\rename"),
            &format!("create LocalMachine {bg}\\rename"),
            &format!("set LocalMachine {bg}\\rename [] = Переименовать УП"),
            &format!("set LocalMachine {bg}\\rename [Icon] = {exe},0"),
            &format!("create LocalMachine {bg}\\rename\\command"),
            &format!("set LocalMachine {bg}\\rename\\command [] = {exe} rename \"%V\""),
        ]
    );
    let directory_verbs: Vec<&String> = rest
        .iter()
        .filter(|t| t.starts_with("create LocalMachine Software\\Classes\\Directory\\shell\\CNCRemedy\\Shell\\"))
        .collect();
    assert_eq!(
        directory_verbs,
        vec![
            &"create LocalMachine Software\\Classes\\Directory\\shell\\CNCRemedy\\Shell\\01-rename".to_string(),
            &"create LocalMachine Software\\Classes\\Directory\\shell\\CNCRemedy\\Shell\\01-rename\\command".to_string(),
        ]
    );
}

#[test]
fn disabled_commands_are_left_out() {
    let mut config = Config::default();
    for (_, c) in config.commands.iter_mut() {
        c.enabled = false;
    }
    let ops = install_all(&config);
    let texts: Vec<String> = ops.iter().map(describe).collect();
    assert!(!texts.iter().any(|t| t.contains("\\command")));
    assert!(matches!(ops[0], RegistryOp::DeleteTree { hive: Hive::LocalMachine, .. }));
}

#[test]
fn installed_keys_are_the_submenus_and_the_background_verb() {
    assert_eq!(
        installed_key_list(),
        vec![
            "Software\\Classes\\*\\shell\\CNCRemedy".to_string(),
            "Software\\Classes\\Directory\\shell\\CNCRemedy".to_string(),
            "Software\\Classes\\Directory\\Background\\shell\\rename".to_string(),
        ]
    );
}

#[test]
fn installed_needs_file_keys_and_path() {
    let path = format!("C:\\Windows;{}", INSTALL_PATH);
    assert!(is_installed(true, true, Some(&path)));
    assert!(is_installed(true, true, None));
    assert!(!is_installed(true, true, Some("C:\\Windows")));
    assert!(!is_installed(false, true, Some(&path)));
    assert!(!is_installed(true, false, Some(&path)));
}

#[test]
fn path_entry_added_then_removed() {
    let before = "C:\\Windows;C:\\Tools";
    let added = path_with_install(before);
    assert_eq!(added, format!("{before};{INSTALL_PATH}"));
    assert_eq!(path_without_install(&added), before);
    let twice = path_with_install(&added);
    assert_eq!(path_without_install(&twice), before);
}

fn written_paths(ops: &[RegistryOp]) -> Vec<String> {
    ops.iter()
        .filter_map(|op| match op {
            RegistryOp::CreateKey { path, .. } | RegistryOp::SetString { path, .. } => Some(path.clone()),
            RegistryOp::DeleteTree { .. } => None,
        })
        .collect()
}

fn deleted_lm_paths(ops: &[RegistryOp]) -> Vec<String> {
    ops.iter()
        .filter_map(|op| match op {
            RegistryOp::DeleteTree { hive: Hive::LocalMachine, path } => Some(path.clone()),
            _ => None,
        })
        .collect()
}

fn is_below(path: &str, key: &str) -> bool {
    path == key || (path.starts_with(key) && path[key.len()..].starts_with('\\'))
}

#[test]
fn uninstall_deletes_what_install_writes() {
    let deleted = deleted_lm_paths(&uninstall_all());
    let written = written_paths(&install_all(&Config::default()));
    assert!(!written.is_empty());
    for path in &written {
        assert!(deleted.iter().any(|k| is_below(path, k)), "{path} stays");
    }
}

#[test]
fn background_verbs_other_than_rename_stay_after_uninstall() {
    let mut config = Config::default();
    for (name, c) in config.commands.iter_mut() {
        if name == "archive" {
            c.targets.push("background".to_string());
        }
    }
    let deleted = deleted_lm_paths(&uninstall_all());
    let written = written_paths(&install_all(&config));
    let left: Vec<&String> = written.iter().filter(|p| !deleted.iter().any(|k| is_below(p, k))).collect();
    assert_eq!(
        left,
        vec![
            "Software\\Classes\\Directory\\Background\\shell\\archive",
            "Software\\Classes\\Directory\\Background\\shell\\archive",
            "Software\\Classes\\Directory\\Background\\shell\\archive",
            "Software\\Classes\\Directory\\Background\\shell\\archive\\command",
            "Software\\Classes\\Directory\\Background\\shell\\archive\\command",
        ]
    );
}
