use shader_engine::diagnostics::map_diagnostics;
use shader_engine::logger::HTMLLogger;
use shader_engine::preprocess::{process_shader, LineOrigin, MergedUnit, SourceSet};

fn unit_with_42_lines() -> MergedUnit {
    // merged line 42 originates at lighting.glsl line 7; everything before
    // comes from main.glsl
    let mut lines = Vec::new();
    let mut line_map = Vec::new();
    for i in 0..41 {
        lines.push(format!("main line {}", i + 1));
        line_map.push(LineOrigin { file: "main.glsl".to_string(), line: i + 1 });
    }
    lines.push("vec3 color = lite;".to_string());
    line_map.push(LineOrigin { file: "lighting.glsl".to_string(), line: 7 });
    MergedUnit {
        lines,
        line_map,
        included_files: vec!["main.glsl".to_string(), "lighting.glsl".to_string()],
        uniforms: vec![],
    }
}

#[test]
fn a_merged_error_maps_to_its_file_and_line() {
    let unit = unit_with_42_lines();
    let diags = map_diagnostics("0(42) : error X1234: undefined symbol", &unit);
    assert_eq!(diags.len(), 1);
    assert_eq!(diags[0].file, "lighting.glsl");
    assert_eq!(diags[0].entries.len(), 1);
    assert_eq!(diags[0].entries[0].line, 7);
    assert_eq!(diags[0].entries[0].message, "undefined symbol");
}

#[test]
fn unmatched_log_lines_are_skipped() {
    let unit = unit_with_42_lines();
    let log = "warning: something odd\n0(42) : error X1234: undefined symbol\n\n\u{0}";
    let diags = map_diagnostics(log, &unit);
    assert_eq!(diags.len(), 1);
    assert_eq!(diags[0].entries.len(), 1);
}

#[test]
fn out_of_range_lines_are_skipped() {
    let unit = unit_with_42_lines();
    let diags = map_diagnostics("0(99) : error X0000: beyond the map", &unit);
    assert!(diags.is_empty());
    let diags = map_diagnostics("0(0) : error X0000: below the map", &unit);
    assert!(diags.is_empty());
}

#[test]
fn groups_follow_inclusion_order() {
    let unit = unit_with_42_lines();
    let log = "0(42) : error X0001: late error\n0(3) : error X0002: early error";
    let diags = map_diagnostics(log, &unit);
    // main.glsl entered the unit first, so its group comes first even though
    // its error came second in the log
    assert_eq!(diags.len(), 2);
    assert_eq!(diags[0].file, "main.glsl");
    assert_eq!(diags[0].entries[0].line, 3);
    assert_eq!(diags[0].entries[0].message, "early error");
    assert_eq!(diags[1].file, "lighting.glsl");
    assert_eq!(diags[1].entries[0].line, 7);
}

#[test]
fn mapping_composes_with_preprocessing() {
    let mut sources = SourceSet::new();
    sources.insert(
        "main.glsl".to_string(),
        "#include \"lib.glsl\"\nvoid main() {}\n".to_string(),
    );
    sources.insert("lib.glsl".to_string(), "float helper;\nbroken here\n".to_string());
    let mut logger = HTMLLogger::new("test");
    let unit = process_shader(&mut logger, &sources, "main.glsl").unwrap();
    // merged line 2 is lib.glsl's second line
    let diags = map_diagnostics("0(2) : error C0000: syntax error", &unit);
    assert_eq!(diags.len(), 1);
    assert_eq!(diags[0].file, "lib.glsl");
    assert_eq!(diags[0].entries[0].line, 2);
    assert_eq!(diags[0].entries[0].message, "syntax error");
}
