use cnc_remedy::config::{config_dir, config_path, Config};

#[test]
fn config_path_ends_with_cncr_toml() {
    let path = config_path(Some("C:\\ProgramData"));
    assert!(path.ends_with("cncr.toml"));
    assert_eq!(path, "C:\\ProgramData\\dece1ver\\CNC Remedy\\cncr.toml");
    assert!(config_path(None).ends_with("cncr.toml"));
}

#[test]
fn config_file_is_in_config_dir() {
    for pd in [Some("C:\\ProgramData"), Some("C:\\ProgramData\\"), Some("D:"), None] {
        let dir = config_dir(pd);
        let path = config_path(pd);
        assert!(path.starts_with(&dir));
        assert!(path.ends_with("cncr.toml"));
    }
    assert_eq!(config_dir(None), ".");
    assert_eq!(config_path(None), ".\\cncr.toml");
    assert_eq!(config_dir(Some("D:")), "D:dece1ver\\CNC Remedy");
}

#[test]
fn default_config_has_the_four_commands() {
    let c = Config::default();
    assert_eq!(c.context_menu_name, Some("CNC Remedy".to_string()));
    let names: Vec<&str> = c.commands.iter().map(|(n, _)| n.as_str()).collect();
    assert_eq!(names, vec!["rename", "archive", "strip-comments", "generate-tool-list"]);
    let generate = &c.commands[3].1;
    assert_eq!(generate.extra.get("heidenhain_line"), Some(&"3".to_string()));
    assert_eq!(generate.icon, None);
    assert!(c.commands.iter().all(|(_, cmd)| cmd.enabled));
}

#[test]
fn config_file_name_is_cncr_toml() {
    for pd in [Some("C:\\ProgramData"), Some("C:/ProgramData/"), Some(""), Some("D:"), None] {
        let path = config_path(pd);
        assert_eq!(path.rsplit(['\\', '/']).next(), Some("cncr.toml"));
    }
}
