use cnc_remedy::generate::{
    generate_tool_list, get_insert_line, get_print_tool_number, insert_rows, ToolListOutcome,
};
use cnc_remedy::settings::Extra;
use cnc_remedy::tool_list::CncVariant;

#[test]
fn insert_line_and_number_settings() {
    let mut extra = Extra::new();
    assert_eq!(get_insert_line(&CncVariant::Sinumerik, &extra), 6);
    assert_eq!(get_insert_line(&CncVariant::FanucMilling, &extra), 6);
    assert_eq!(get_insert_line(&CncVariant::FanucLathe, &extra), 6);
    assert_eq!(get_insert_line(&CncVariant::Heidenhain, &extra), 3);
    assert!(get_print_tool_number(&CncVariant::Sinumerik, &extra));
    extra.insert("sinumerik_line".to_string(), "3".to_string());
    extra.insert("sinumerik_print_tool_number".to_string(), "false".to_string());
    extra.insert("heidenhain_line".to_string(), "x".to_string());
    assert_eq!(get_insert_line(&CncVariant::Sinumerik, &extra), 3);
    assert!(!get_print_tool_number(&CncVariant::Sinumerik, &extra));
    assert_eq!(get_insert_line(&CncVariant::Heidenhain, &extra), 3);
}

#[test]
fn rows_go_in_at_the_line_or_at_the_end() {
    let mut lines = vec!["a".to_string(), "b".to_string()];
    insert_rows(&mut lines, 1, &["x".to_string(), "y".to_string()]);
    assert_eq!(lines, vec!["a", "x", "y", "b"]);
    insert_rows(&mut lines, 99, &["z".to_string()]);
    assert_eq!(lines, vec!["a", "x", "y", "b", "z"]);
}

#[test]
fn table_goes_into_a_milling_program() {
    let mut extra = Extra::new();
    extra.insert("fanuc_milling_line".to_string(), "1".to_string());
    let program = "%\nT2 M6 (DRILL)\nG43 H2\nT1 M6 (MILL)\nG43 H1 D1\nG41 D7\nM30";
    match generate_tool_list("part.nc", program.as_bytes(), &extra) {
        ToolListOutcome::Inserted { program, count } => {
            assert_eq!(count, 2);
            assert_eq!(
                program,
                "%\r\n(T01 H01 D07 - MILL)\r\n(T02 H02 D00 - DRILL)\r\nT2 M6 (DRILL)\r\nG43 H2\r\nT1 M6 (MILL)\r\nG43 H1 D1\r\nG41 D7\r\nM30"
            );
        }
        _ => panic!("a table was expected"),
    }
}

#[test]
fn programs_without_a_table() {
    let extra = Extra::new();
    assert!(matches!(generate_tool_list("p.nc", b"", &extra), ToolListOutcome::EmptyFile));
    assert!(matches!(generate_tool_list("p.pbg", b"x", &extra), ToolListOutcome::Mazatrol));
    assert!(matches!(generate_tool_list("p.nc", b"%\nG0 X0", &extra), ToolListOutcome::NoTools));
}
