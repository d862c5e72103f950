use cnc_remedy::tool_list::{
    extract_comment, extract_d_number, extract_h_number, extract_tool_number, line_has_m6,
    detect_variant, format_tool_table, is_fanuc_milling, parse_fanuc_lathe, parse_fanuc_milling,
    parse_heidenhain, parse_sinumerik, parse_tools, CncVariant, ToolInfo, UNNAMED_TOOL,
};

#[test]
fn detects_fanuc_milling() {
    let lines = vec![
        "%".to_string(),
        "T1 M6 (10MM ENDMILL)".to_string(),
        "G43 H1".to_string(),
        "G41 D1".to_string(),
        "M30".to_string(),
    ];
    assert!(is_fanuc_milling(&lines));
}

#[test]
fn detects_fanuc_lathe() {
    let lines = vec![
        "%".to_string(),
        "T0101 (ROUGH TURN)".to_string(),
        "G00 X50 Z5".to_string(),
        "M30".to_string(),
    ];
    assert!(!is_fanuc_milling(&lines));
}

#[test]
fn parse_fanuc_milling_basic() {
    let lines = vec![
        "%".to_string(),
        "T1 M6 (10MM ENDMILL)".to_string(),
        "G43 H1".to_string(),
        "G41 D1".to_string(),
        "M30".to_string(),
    ];
    let tools = parse_fanuc_milling(&lines);
    assert_eq!(tools.len(), 1);
    assert_eq!(tools[0].number, 1);
    assert_eq!(tools[0].name, "10MM ENDMILL");
    assert_eq!(tools[0].h, 1);
    assert_eq!(tools[0].d, 1);
}

#[test]
fn parse_fanuc_milling_no_comment() {
    let lines = vec![
        "%".to_string(),
        "T1 M6".to_string(),
        "G43 H1".to_string(),
        "M30".to_string(),
    ];
    let tools = parse_fanuc_milling(&lines);
    assert_eq!(tools.len(), 1);
    assert_eq!(tools[0].name, UNNAMED_TOOL);
}

#[test]
fn parse_fanuc_lathe_basic() {
    let lines = vec![
        "%".to_string(),
        "T0101 (ROUGH TURN)".to_string(),
        "G00 X50 Z5".to_string(),
        "M30".to_string(),
    ];
    let tools = parse_fanuc_lathe(&lines);
    assert_eq!(tools.len(), 1);
    assert_eq!(tools[0].number, 101);
    assert_eq!(tools[0].name, "ROUGH TURN");
}

#[test]
fn parse_fanuc_lathe_multiple() {
    let lines = vec![
        "%".to_string(),
        "T0101 (ROUGH)".to_string(),
        "G00 X50 Z5".to_string(),
        "T0202 (FINISH)".to_string(),
        "G00 X30 Z2".to_string(),
        "M30".to_string(),
    ];
    let tools = parse_fanuc_lathe(&lines);
    assert_eq!(tools.len(), 2);
    assert_eq!(tools[0].number, 101);
    assert_eq!(tools[1].number, 202);
}

#[test]
fn parse_fanuc_lathe_skips_m6_lines() {
    let lines = vec![
        "%".to_string(),
        "T0101 (TURN)".to_string(),
        "T1 M6 (MILL)".to_string(),
        "M30".to_string(),
    ];
    let tools = parse_fanuc_lathe(&lines);
    assert_eq!(tools.len(), 1);
    assert_eq!(tools[0].number, 101);
    assert_eq!(tools[0].name, "TURN");
}

#[test]
fn parse_fanuc_lathe_fills_comment_on_repeat() {
    let lines = vec![
        "T0828G55 ".to_string(),
        "T0828G55(RASKOTNIK M8*1.25)".to_string(),
        "M30".to_string(),
    ];
    let tools = parse_fanuc_lathe(&lines);
    assert_eq!(tools.len(), 1);
    assert_eq!(tools[0].number, 828);
    assert_eq!(tools[0].name, "RASKOTNIK M8*1.25");
}

#[test]
fn parse_sinumerik_basic() {
    let lines = vec![
        "MSG(\"TEST\")".to_string(),
        "T25 M6;FR 6".to_string(),
        "M30".to_string(),
    ];
    let tools = parse_sinumerik(&lines);
    assert_eq!(tools.len(), 1);
    assert_eq!(tools[0].number, 25);
    assert_eq!(tools[0].name, "FR 6");
}

#[test]
fn parse_heidenhain_basic() {
    let lines = vec![
        "BEGIN PGM TEST MM".to_string(),
        "; 10MM ENDMILL".to_string(),
        "TOOL CALL 1 Z S1000".to_string(),
        "M30".to_string(),
    ];
    let tools = parse_heidenhain(&lines);
    assert_eq!(tools.len(), 1);
    assert_eq!(tools[0].number, 1);
    assert_eq!(tools[0].name, "10MM ENDMILL");
}

#[test]
fn parse_heidenhain_multiple() {
    let lines = vec![
        "BEGIN PGM TEST MM".to_string(),
        "; FIRST TOOL".to_string(),
        "TOOL CALL 1 Z S1000".to_string(),
        "; SECOND TOOL".to_string(),
        "TOOL CALL 2 Z S2000".to_string(),
        "M30".to_string(),
    ];
    let tools = parse_heidenhain(&lines);
    assert_eq!(tools.len(), 2);
    assert_eq!(tools[0].number, 1);
    assert_eq!(tools[0].name, "FIRST TOOL");
    assert_eq!(tools[1].number, 2);
    assert_eq!(tools[1].name, "SECOND TOOL");
}

#[test]
fn format_with_numbers() {
    let cases = [
        (
            CncVariant::FanucMilling,
            ToolInfo { number: 1, name: "10MM ENDMILL".into(), h: 1, d: 1 },
            "(T01 H01 D01 - 10MM ENDMILL)",
        ),
        (
            CncVariant::FanucLathe,
            ToolInfo { number: 101, name: "ROUGH TURN".into(), h: 0, d: 0 },
            "(T0101 - ROUGH TURN)",
        ),
        (
            CncVariant::Sinumerik,
            ToolInfo { number: 25, name: "FR 6".into(), h: 0, d: 0 },
            ";T25 - FR 6",
        ),
        (
            CncVariant::Heidenhain,
            ToolInfo { number: 1, name: "10MM ENDMILL".into(), h: 0, d: 0 },
            ";T01 - 10MM ENDMILL",
        ),
    ];
    for (variant, tool, expected) in cases {
        assert_eq!(format_tool_table(&[tool], &variant, true), vec![expected]);
    }
}

#[test]
fn format_without_numbers() {
    let cases = [
        (
            CncVariant::FanucMilling,
            ToolInfo { number: 1, name: "10MM ENDMILL".into(), h: 1, d: 1 },
            "(10MM ENDMILL)",
        ),
        (
            CncVariant::FanucLathe,
            ToolInfo { number: 101, name: "ROUGH TURN".into(), h: 0, d: 0 },
            "(ROUGH TURN)",
        ),
        (
            CncVariant::Sinumerik,
            ToolInfo { number: 25, name: "FR 6".into(), h: 0, d: 0 },
            ";FR 6",
        ),
        (
            CncVariant::Heidenhain,
            ToolInfo { number: 1, name: "10MM ENDMILL".into(), h: 0, d: 0 },
            ";10MM ENDMILL",
        ),
    ];
    for (variant, tool, expected) in cases {
        assert_eq!(format_tool_table(&[tool], &variant, false), vec![expected]);
    }
}

#[test]
fn milling_tools_come_out_in_number_order_once_each() {
    let lines = vec![
        "%".to_string(),
        "T5 M6 (DRILL 5)".to_string(),
        "G43 H5".to_string(),
        "T2 M6 (ENDMILL 2)".to_string(),
        "G43 H2".to_string(),
        "T5 M6".to_string(),
        "M30".to_string(),
    ];
    let tools = parse_fanuc_milling(&lines);
    let numbers: Vec<u32> = tools.iter().map(|t| t.number).collect();
    assert_eq!(numbers, vec![2, 5]);
    assert_eq!(tools[1].name, "DRILL 5");
}

#[test]
fn variant_follows_extension_and_content() {
    let milling = vec!["%".to_string(), "T1 M6".to_string()];
    let lathe = vec!["%".to_string(), "T0101".to_string()];
    assert_eq!(detect_variant("part.nc", &milling), Some(CncVariant::FanucMilling));
    assert_eq!(detect_variant("part.nc", &lathe), Some(CncVariant::FanucLathe));
    assert_eq!(detect_variant("part.MPF", &lathe), Some(CncVariant::Sinumerik));
    assert_eq!(detect_variant("part.h", &lathe), Some(CncVariant::Heidenhain));
    assert_eq!(detect_variant("part.pbg", &lathe), None);
}

#[test]
fn parse_tools_follows_variant() {
    let lines = vec!["BEGIN PGM X MM".to_string(), "TOOL CALL 7 Z".to_string()];
    let tools = parse_tools(&lines, &CncVariant::Heidenhain);
    assert_eq!(tools.len(), 1);
    assert_eq!(tools[0].number, 7);
    assert_eq!(tools[0].name, UNNAMED_TOOL);
}

#[test]
fn words_of_a_milling_line() {
    assert!(line_has_m6("T12 M06 (FACE MILL)"));
    assert!(line_has_m6("T12M6"));
    assert!(line_has_m6("T12 M60"));
    assert!(!line_has_m6("T12 M30"));
    assert_eq!(extract_tool_number("T12 M06 (FACE MILL)"), Some(12));
    assert_eq!(extract_tool_number("M6"), None);
    assert_eq!(extract_comment("T12 M06 (FACE MILL)"), Some("FACE MILL".to_string()));
    assert_eq!(extract_h_number("G43 H07 Z50."), Some(7));
    assert_eq!(extract_h_number("G43 Z50."), None);
    assert_eq!(extract_d_number("G41 D12 X0"), Some(12));
}

#[test]
fn milling_reading_skips_comments_and_stops_at_m30() {
    let base = vec![
        "%".to_string(),
        "T3 M6 (CHAMFER)".to_string(),
        "G43 H3".to_string(),
        "M30".to_string(),
    ];
    let mut with_comments = base.clone();
    with_comments.insert(2, "  (T9 M6 (NOT A TOOL))".to_string());
    with_comments.insert(1, "<T8 M6>".to_string());
    let mut with_tail = base.clone();
    with_tail.push("T7 M6 (AFTER END)".to_string());
    with_tail.push("G43 H7".to_string());
    let expected = parse_fanuc_milling(&base);
    assert_eq!(expected.len(), 1);
    assert_eq!(parse_fanuc_milling(&with_comments), expected);
    assert_eq!(parse_fanuc_milling(&with_tail), expected);
}

#[test]
fn milling_reading_ignores_many_comment_lines() {
    let base = vec![
        "T1 M6 (DRILL)".to_string(),
        "G43 H1".to_string(),
        "T2 M6".to_string(),
        "G41 D2".to_string(),
        "M30".to_string(),
    ];
    let mut with_comments = base.clone();
    with_comments.insert(0, "(M30 IN A COMMENT)".to_string());
    with_comments.insert(3, "   <T5 M6 (HIDDEN)>".to_string());
    with_comments.insert(3, "(G43 H9)".to_string());
    with_comments.insert(6, "\t(G41 D8)".to_string());
    with_comments.insert(with_comments.len() - 1, "(T6 M6)".to_string());
    with_comments.push("(AFTER THE END)".to_string());
    let expected = parse_fanuc_milling(&base);
    assert_eq!(expected.len(), 2);
    assert_eq!(expected[0].number, 1);
    assert_eq!(expected[0].h, 1);
    assert_eq!(expected[1].number, 2);
    assert_eq!(expected[1].d, 2);
    assert_eq!(parse_fanuc_milling(&with_comments), expected);
}
