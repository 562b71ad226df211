use shader_engine::logger::HTMLLogger;
use shader_engine::preprocess::{process_shader, transpile_shader, PreprocessError, SourceSet};

fn set(files: &[(&str, &str)]) -> SourceSet {
    let mut s = SourceSet::new();
    for (name, content) in files {
        s.insert(name.to_string(), content.to_string());
    }
    s
}

#[test]
fn single_file_passthrough() {
    let sources = set(&[("main.comp", "#version 460\nvoid main() {}\n")]);
    let mut logger = HTMLLogger::new("test");
    let unit = process_shader(&mut logger, &sources, "main.comp").unwrap();
    assert_eq!(unit.lines, vec!["#version 460".to_string(), "void main() {}".to_string()]);
    assert_eq!(unit.line_map.len(), 2);
    assert_eq!(unit.line_map[0].file, "main.comp");
    assert_eq!(unit.line_map[0].line, 1);
    assert_eq!(unit.line_map[1].line, 2);
    assert_eq!(unit.included_files, vec!["main.comp".to_string()]);
    assert!(unit.uniforms.is_empty());
    assert_eq!(unit.merged_text(), "#version 460\nvoid main() {}\n");
}

#[test]
fn expansion_follows_the_naming_file() {
    let sources = set(&[
        ("sub/a.glsl", "top\n#include \"b.glsl\"\nbottom\n"),
        ("sub/b.glsl", "middle\n"),
    ]);
    let mut logger = HTMLLogger::new("test");
    let unit = process_shader(&mut logger, &sources, "sub/a.glsl").unwrap();
    assert_eq!(
        unit.lines,
        vec!["top".to_string(), "middle".to_string(), "bottom".to_string()]
    );
    // the directive line itself is not emitted and has no map entry
    assert_eq!(unit.line_map[0].file, "sub/a.glsl");
    assert_eq!(unit.line_map[0].line, 1);
    assert_eq!(unit.line_map[1].file, "sub/b.glsl");
    assert_eq!(unit.line_map[1].line, 1);
    assert_eq!(unit.line_map[2].file, "sub/a.glsl");
    assert_eq!(unit.line_map[2].line, 3);
    assert_eq!(
        unit.included_files,
        vec!["sub/a.glsl".to_string(), "sub/b.glsl".to_string()]
    );
}

#[test]
fn preprocessing_is_deterministic() {
    let sources = set(&[
        ("a.glsl", "#include \"b.glsl\"\nuniform float time;\n"),
        ("b.glsl", "one\ntwo\n"),
    ]);
    let mut logger = HTMLLogger::new("test");
    let first = process_shader(&mut logger, &sources, "a.glsl").unwrap();
    let second = process_shader(&mut logger, &sources, "a.glsl").unwrap();
    assert_eq!(first, second);
    assert_eq!(first.merged_text(), second.merged_text());
}

#[test]
fn diamond_reinclusion_is_rejected() {
    // A pulls in B, then C; C pulls in B again: rejected anywhere in the unit
    let sources = set(&[
        ("A", "#include \"B\"\n#include \"C\"\n"),
        ("B", "shared\n"),
        ("C", "#include \"B\"\n"),
    ]);
    let mut logger = HTMLLogger::new("test");
    let r = process_shader(&mut logger, &sources, "A");
    assert_eq!(r, Err(PreprocessError::DuplicateInclude("B".to_string())));
}

#[test]
fn direct_cycle_is_rejected() {
    let sources = set(&[("A", "#include \"A\"\n")]);
    let mut logger = HTMLLogger::new("test");
    let r = process_shader(&mut logger, &sources, "A");
    assert_eq!(r, Err(PreprocessError::DuplicateInclude("A".to_string())));
}

#[test]
fn missing_file_is_reported() {
    let sources = set(&[("A", "#include \"gone.glsl\"\n")]);
    let mut logger = HTMLLogger::new("test");
    let r = process_shader(&mut logger, &sources, "A");
    assert_eq!(r, Err(PreprocessError::NotFound("gone.glsl".to_string())));
}

#[test]
fn ignored_directive_is_emitted_verbatim() {
    // the named file is not even in the source set: success shows that no
    // expansion was attempted
    let sources = set(&[(
        "doc.glsl",
        "/* <ignore> */\n#include \"fallback.glsl\"\n/* </ignore> */\nreal\n",
    )]);
    let mut logger = HTMLLogger::new("test");
    let unit = process_shader(&mut logger, &sources, "doc.glsl").unwrap();
    assert_eq!(unit.lines[1], "#include \"fallback.glsl\"");
    assert_eq!(unit.line_map[1].file, "doc.glsl");
    assert_eq!(unit.line_map[1].line, 2);
    assert_eq!(unit.lines.len(), 4);
    assert_eq!(unit.line_map.len(), 4);
    assert_eq!(unit.included_files, vec!["doc.glsl".to_string()]);
}

#[test]
fn commented_directive_is_emitted_not_expanded() {
    let sources = set(&[("a.glsl", "// #include \"gone.glsl\"\nend\n")]);
    let mut logger = HTMLLogger::new("test");
    let unit = process_shader(&mut logger, &sources, "a.glsl").unwrap();
    assert_eq!(unit.lines[0], "// #include \"gone.glsl\"");
    assert_eq!(unit.lines.len(), 2);
}

#[test]
fn unterminated_ignore_region_runs_to_end() {
    let sources = set(&[("a.glsl", "/* <ignore> */\n#include \"x\"\n#include \"y\"\n")]);
    let mut logger = HTMLLogger::new("test");
    let unit = process_shader(&mut logger, &sources, "a.glsl").unwrap();
    assert_eq!(unit.lines.len(), 3);
    assert_eq!(unit.included_files.len(), 1);
}

#[test]
fn closing_marker_wins_on_a_shared_line() {
    // a line holding both markers leaves the region closed
    let sources = set(&[
        ("a.glsl", "/* <ignore> */ /* </ignore> */\n#include \"b.glsl\"\n"),
        ("b.glsl", "pulled\n"),
    ]);
    let mut logger = HTMLLogger::new("test");
    let unit = process_shader(&mut logger, &sources, "a.glsl").unwrap();
    assert_eq!(unit.lines, vec!["/* <ignore> */ /* </ignore> */".to_string(), "pulled".to_string()]);
}

#[test]
fn uniform_declarations_are_collected_in_order() {
    let sources = set(&[
        ("a.glsl", "uniform float time;\n#include \"b.glsl\"\n"),
        ("b.glsl", "uniform vec3 lightPos;\n"),
    ]);
    let mut logger = HTMLLogger::new("test");
    let unit = process_shader(&mut logger, &sources, "a.glsl").unwrap();
    assert_eq!(unit.uniforms.len(), 2);
    assert_eq!(unit.uniforms[0].name, "time");
    assert_eq!(unit.uniforms[0].ty, "float");
    assert_eq!(unit.uniforms[1].name, "lightPos");
    assert_eq!(unit.uniforms[1].ty, "vec3");
}

#[test]
fn commented_uniform_is_not_collected() {
    let sources = set(&[("a.glsl", "// uniform float time;\nuniform int count;\n")]);
    let mut logger = HTMLLogger::new("test");
    let unit = process_shader(&mut logger, &sources, "a.glsl").unwrap();
    assert_eq!(unit.uniforms.len(), 1);
    assert_eq!(unit.uniforms[0].name, "count");
}

#[test]
fn windows_line_endings_are_normalized() {
    let sources = set(&[("a.glsl", "one\r\ntwo\r\n")]);
    let mut logger = HTMLLogger::new("test");
    let unit = process_shader(&mut logger, &sources, "a.glsl").unwrap();
    assert_eq!(unit.lines, vec!["one".to_string(), "two".to_string()]);
}

#[test]
fn transpile_shader_matches_process_shader() {
    let sources = set(&[("a.glsl", "uniform vec2 resolution;\nbody\n")]);
    let mut logger = HTMLLogger::new("test");
    let a = process_shader(&mut logger, &sources, "a.glsl").unwrap();
    let b = transpile_shader(&mut logger, &sources, "a.glsl").unwrap();
    assert_eq!(a, b);
}

#[test]
fn indented_and_padded_directives_still_expand() {
    let sources = set(&[
        ("a.glsl", "    #include   \"b.glsl\"\n"),
        ("b.glsl", "pulled\n"),
    ]);
    let mut logger = HTMLLogger::new("test");
    let unit = process_shader(&mut logger, &sources, "a.glsl").unwrap();
    assert_eq!(unit.lines, vec!["pulled".to_string()]);
}

#[test]
fn a_qualified_uniform_keeps_its_full_type_token() {
    let sources = set(&[("a.glsl", "uniform highp vec3 pos;\n")]);
    let mut logger = HTMLLogger::new("test");
    let unit = process_shader(&mut logger, &sources, "a.glsl").unwrap();
    assert_eq!(unit.uniforms.len(), 1);
    assert_eq!(unit.uniforms[0].name, "pos");
    assert_eq!(unit.uniforms[0].ty, "highp vec3");
}

#[test]
fn a_plain_line_mentioning_markers_is_ordinary_text() {
    let sources = set(&[("a.glsl", "int uniforms = 3\nno directive here\n")]);
    let mut logger = HTMLLogger::new("test");
    let unit = process_shader(&mut logger, &sources, "a.glsl").unwrap();
    assert_eq!(unit.lines.len(), 2);
    assert!(unit.uniforms.is_empty());
}

#[test]
fn later_insert_shadows_earlier() {
    let mut sources = SourceSet::new();
    sources.insert("a".to_string(), "old\n".to_string());
    sources.insert("a".to_string(), "new\n".to_string());
    let mut logger = HTMLLogger::new("test");
    let unit = process_shader(&mut logger, &sources, "a").unwrap();
    assert_eq!(unit.lines, vec!["new".to_string()]);
}
