use cnc_remedy::reader::{get_cnc_name, get_extension, remove_bad_symbols, MAZATROL_NAME_OFFSET};

#[test]
fn fanuc_percent_then_o_with_parens() {
    let (name, ext) = get_cnc_name("/tmp/.tmpA1b2C3", "%\nO0001(МОЯ ДЕТАЛЬ)".as_bytes()).unwrap();
    assert_eq!(name, "МОЯ ДЕТАЛЬ");
    assert_eq!(ext, "");
}

#[test]
fn fanuc_percent_then_angle() {
    let (name, ext) = get_cnc_name("/tmp/.tmpA1b2C3", b"%\n<MY-PART>").unwrap();
    assert_eq!(name, "MY-PART");
    assert_eq!(ext, "");
}

#[test]
fn fanuc_no_name_returns_none() {
    assert!(get_cnc_name("/tmp/.tmpA1b2C3", b"N10 G0 X0\nN20 G1 Z-1").is_none());
}

#[test]
fn fanuc_bad_symbols_replaced() {
    let (name, _) = get_cnc_name("/tmp/.tmpA1b2C3", b"%\nO0001(file<name>)").unwrap();
    assert_eq!(name, "file-name-");
}

#[test]
fn mazatrol_name_from_offset() {
    let mut content = vec![b' '; 120];
    let prog_name = b"MY-PROGRAM";
    content[MAZATROL_NAME_OFFSET..MAZATROL_NAME_OFFSET + prog_name.len()].copy_from_slice(prog_name);
    let (name, ext) = get_cnc_name("/tmp/.tmpA1b2C3.pbg", &content).unwrap();
    assert_eq!(name, "MY-PROGRAM");
    assert_eq!(ext, "pbg");
}

#[test]
fn sinumerik_msg_format() {
    let (name, ext) = get_cnc_name("/tmp/.tmpA1b2C3.mpf", b"MSG(\"TestPart\")\nN10 G0 X0").unwrap();
    assert_eq!(name, "TestPart");
    assert_eq!(ext, "mpf");
}

#[test]
fn sinumerik_no_msg_returns_none() {
    assert!(get_cnc_name("/tmp/.tmpA1b2C3.mpf", b"N10 G0 X0\n").is_none());
}

#[test]
fn heidenhain_begin_pgm() {
    let (name, ext) = get_cnc_name("/tmp/.tmpA1b2C3.h", b"BEGIN PGM 0123 MM\n").unwrap();
    assert_eq!(name, "123");
    assert_eq!(ext, "h");
}

#[test]
fn heidenhain_no_begin_returns_none() {
    assert!(get_cnc_name("/tmp/.tmpA1b2C3.h", b"N10 G0 X0\n").is_none());
}

#[test]
fn removes_bad_symbols() {
    assert_eq!(remove_bad_symbols("a<b>c:d\"e/f\\g|h?i*j"), "a-b-c-d-e-f-g-h-i-j");
}

#[test]
fn leaves_good_symbols_alone() {
    assert_eq!(remove_bad_symbols("hello world 123"), "hello world 123");
}

#[test]
fn removing_bad_symbols_twice_changes_nothing_more() {
    let once = remove_bad_symbols("a<b>|c");
    assert_eq!(once, "a-b--c");
    assert_eq!(remove_bad_symbols(&once), once);
}

#[test]
fn extension_is_taken_as_written() {
    assert_eq!(get_extension("C:\\NC\\part.MPF"), Some("MPF".to_string()));
    assert_eq!(get_extension("/tmp/.hidden"), None);
    assert_eq!(get_extension("archive.tar.gz"), Some("gz".to_string()));
    assert_eq!(get_extension("noext"), None);
}

#[test]
fn extension_case_does_not_matter_for_the_format() {
    let (name, ext) = get_cnc_name("PART.MPF", b"MSG(\"X1\")").unwrap();
    assert_eq!(name, "X1");
    assert_eq!(ext, "MPF");
}

#[test]
fn mazatrol_name_is_trimmed_of_nul_characters() {
    let mut content = vec![0u8; 120];
    content[80..84].copy_from_slice(b"AB:C");
    let (name, _) = get_cnc_name("prog.pbd", &content).unwrap();
    assert_eq!(name, "AB-C");
}

#[test]
fn fanuc_name_needs_percent_first() {
    assert!(get_cnc_name("part.nc", b"O0001(NAME)\n%").is_none());
    assert!(get_cnc_name("part.nc", b"%").is_none());
}

#[test]
fn mazatrol_name_offset_counts_bytes() {
    let mut content = vec![0xC3u8, 0xA9];
    content.extend(vec![b' '; 78]);
    content.extend_from_slice(b"MY-PROGRAM");
    content.extend(vec![b' '; 30]);
    assert_eq!(content.len(), 120);
    let (name, ext) = get_cnc_name("prog.pbg", &content).unwrap();
    assert_eq!(name, "MY-PROGRAM");
    assert_eq!(ext, "pbg");
}

#[test]
fn mazatrol_name_is_at_most_32_bytes() {
    let mut content = vec![b' '; 80];
    content.extend_from_slice(b"ABCDEFGHIJKLMNOPQRSTUVWXYZ0123456789");
    let (name, _) = get_cnc_name("prog.PBD", &content).unwrap();
    assert_eq!(name, "ABCDEFGHIJKLMNOPQRSTUVWXYZ012345");
    let (short, _) = get_cnc_name("prog.pbg", b"short").unwrap();
    assert_eq!(short, "");
}
