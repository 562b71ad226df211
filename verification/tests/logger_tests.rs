use shader_engine::color::{Colorize};
use shader_engine::console::NestedConsoleLogger;
use shader_engine::logger::{format_text, HTMLLogger};
use shader_engine::text::{quoted, repeat_str, resolve, split_lines, str_eq};

#[test]
fn colorize_wraps_in_escapes() {
    assert_eq!("hi".red().as_str(), "\u{1b}[31mhi\u{1b}[0m");
    assert_eq!("hi".cyan().as_str(), "\u{1b}[36mhi\u{1b}[0m");
    assert_eq!("x".yellow().plus(": ".white()).as_str(), "\u{1b}[33mx\u{1b}[0m\u{1b}[37m: \u{1b}[0m");
    let owned = String::from("deep");
    assert_eq!(owned.magenta().into_string(), "\u{1b}[35mdeep\u{1b}[0m");
}

#[test]
fn format_text_decodes_escapes_into_spans() {
    assert_eq!(
        format_text("\u{1b}[31mhi\u{1b}[0m"),
        "<span style=\"color: var(--color-31)\">hi</span>"
    );
    assert_eq!(
        format_text("a \u{1b}[32mok\u{1b}[0m b"),
        "a <span style=\"color: var(--color-32)\">ok</span> b"
    );
    // plain text passes through unchanged
    assert_eq!(format_text("plain"), "plain");
    // an unterminated escape is left as it stands
    assert_eq!(format_text("\u{1b}[31mboom"), "\u{1b}[31mboom");
}

#[test]
fn the_page_holds_the_logged_scopes() {
    let mut logger = HTMLLogger::new("Quad Shader");
    let h = logger.open_scope("Compiling".yellow().as_str());
    logger.info("Attaching".cyan().as_str());
    logger.close_scope();
    logger.append_to_summary(h, " Success".green().as_str());
    logger.log("done");
    let page = logger.to_html();
    assert!(page.starts_with("\n<!DOCTYPE html>"));
    assert!(page.ends_with("</body></html>"));
    assert!(page.contains("<h1 id=\"log_title\">Quad Shader</h1>"));
    assert!(page.contains("<summary><span style=\"color: var(--color-33)\">Compiling</span><span style=\"color: var(--color-32)\"> Success</span></summary>"));
    assert!(page.contains("<p>done</p>"));
    assert!(page.contains("<details>"));
    assert!(page.contains("</details>"));
}

#[test]
fn scopes_nest_and_panic_unwinds() {
    let mut logger = HTMLLogger::new("t");
    logger.open_scope("outer");
    logger.open_scope("inner");
    logger.log("deep");
    logger.panic();
    // after a panic everything lands at the top level again
    logger.log("shallow");
    let page = logger.to_html();
    let inner_at = page.find("<summary>inner</summary>").unwrap();
    let deep_at = page.find("<p>deep</p>").unwrap();
    assert!(inner_at < deep_at);
    assert!(page.contains("<p>shallow</p>"));
}

#[test]
fn console_lines_carry_indent_and_decorations() {
    let mut console = NestedConsoleLogger::new();
    assert_eq!(console.log("hello"), "hello");
    let header = console.open_scope("scope").unwrap();
    assert_eq!(header, "\u{1b}[34m<\u{1b}[0m scope \u{1b}[34m>\u{1b}[0m");
    assert_eq!(console.log("inside"), "  inside");
    assert_eq!(
        console.info("note"),
        "  \u{1b}[34m\u{1b}[34m-\u{1b}[0m\u{1b}[0m note"
    );
    assert_eq!(
        console.error("bad"),
        "  \u{1b}[31m! Error !\u{1b}[0m bad \u{1b}[31m! Error !\u{1b}[0m"
    );
    let footer = console.close_scope("scope").unwrap();
    assert_eq!(footer, "\u{1b}[34m<\u{1b}[0m scope \u{1b}[34m>\u{1b}[0m");
    assert_eq!(console.open_scope(""), None);
    assert_eq!(console.panic("stop"), "\u{1b}[34m<\u{1b}[0m stop \u{1b}[34m>\u{1b}[0m");
    assert_eq!(console.log("reset"), "reset");
}

#[test]
fn default_console_matches_new() {
    let mut a: NestedConsoleLogger = Default::default();
    let mut b = NestedConsoleLogger::new();
    assert_eq!(a.log("x"), b.log("x"));
}

#[test]
fn text_utilities_behave() {
    assert_eq!(quoted("file"), "\"file\"");
    assert_eq!(repeat_str("  ", 3), "      ");
    assert_eq!(resolve("sub/a.glsl", "b.glsl"), "sub/b.glsl");
    assert_eq!(resolve("main.comp", "lib.glsl"), "lib.glsl");
    assert_eq!(resolve("a/b/c.glsl", "d/e.glsl"), "a/b/d/e.glsl");
    assert!(str_eq("same", "same"));
    assert!(!str_eq("same", "other"));
    let lines = split_lines("a\nb\r\n\nc");
    assert_eq!(lines, vec!["a".to_string(), "b".to_string(), "".to_string(), "c".to_string()]);
    assert_eq!(split_lines("tail\n"), vec!["tail".to_string()]);
    assert_eq!(split_lines(""), Vec::<String>::new());
}
