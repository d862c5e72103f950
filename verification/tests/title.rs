use cnc_remedy::title::{file_path_from_title, utf16_to_string};

#[test]
fn parses_saved_title() {
    let (path, modified) = file_path_from_title(r"[C:\NC\part.nc]");
    assert_eq!(path, r"C:\NC\part.nc");
    assert!(!modified);
}

#[test]
fn parses_modified_title() {
    let (path, modified) = file_path_from_title(r"[C:\NC\part.nc*]");
    assert_eq!(path, r"C:\NC\part.nc");
    assert!(modified);
}

#[test]
fn parses_title_without_brackets() {
    let (path, modified) = file_path_from_title(r"C:\NC\part.nc");
    assert_eq!(path, r"C:\NC\part.nc");
    assert!(!modified);
}

#[test]
fn title_with_program_name_before_path() {
    let (path, modified) = file_path_from_title(r"CIMCO Edit 8 - [C:\NC\part.nc*]");
    assert_eq!(path, r"C:\NC\part.nc");
    assert!(modified);
    let (path, modified) = file_path_from_title(r"CIMCO Edit 8 - [ C:\NC\part.nc * ]");
    assert_eq!(path, r"C:\NC\part.nc *");
    assert!(!modified);
}

#[test]
fn utf16_text_stops_at_nul() {
    let mut buf: Vec<u16> = "Деталь".encode_utf16().collect();
    buf.push(0);
    buf.extend("junk".encode_utf16());
    assert_eq!(utf16_to_string(&buf), "Деталь");
    let plain: Vec<u16> = "abc".encode_utf16().collect();
    assert_eq!(utf16_to_string(&plain), "abc");
}

#[test]
fn any_prefix_and_path_round_trip() {
    for prefix in ["", "CIMCO Edit 8 - ", "x] y*"] {
        for path in ["", r"C:\NC\part.nc", r"D:\a b\c.mpf", "ФАЙЛ.nc"] {
            assert_eq!(file_path_from_title(&format!("{prefix}[{path}]")), (path.to_string(), false));
            assert_eq!(file_path_from_title(&format!("{prefix}[{path}*]")), (path.to_string(), true));
        }
    }
}
