use cnc_remedy::table_tool::{table_request, tool_table, TableOutcome, TableRequest};

fn args(list: &[&str]) -> Vec<String> {
    list.iter().map(|s| s.to_string()).collect()
}

#[test]
fn command_line_of_the_table_program() {
    assert!(matches!(table_request(&args(&["cnctt"])), TableRequest::FromWindow { print_number: true }));
    assert!(matches!(
        table_request(&args(&["cnctt", "--no-numbers"])),
        TableRequest::FromWindow { print_number: false }
    ));
    match table_request(&args(&["cnctt", "part.nc", "--no-numbers"])) {
        TableRequest::FromFile { path, print_number } => {
            assert_eq!(path, "part.nc");
            assert!(!print_number);
        }
        _ => panic!("a file was expected"),
    }
    assert!(matches!(table_request(&args(&["cnctt", "a.nc", "b.nc"])), TableRequest::Usage));
    assert!(matches!(table_request(&args(&["cnctt", "a.nc", "-h"])), TableRequest::Usage));
    assert!(matches!(table_request(&args(&["cnctt", "--help"])), TableRequest::Usage));
}

#[test]
fn table_of_a_lathe_program() {
    match tool_table("part.nc", b"%\nT0202 (FINISH)\nT0101 (ROUGH)\nM30", true) {
        TableOutcome::Table(rows) => {
            assert_eq!(rows, vec!["(T0101 - ROUGH)", "(T0202 - FINISH)"]);
        }
        _ => panic!("a table was expected"),
    }
    assert!(matches!(tool_table("part.pbd", b"x", true), TableOutcome::Mazatrol));
    assert!(matches!(tool_table("part.mpf", b"N10 G0", true), TableOutcome::NoTools));
}
