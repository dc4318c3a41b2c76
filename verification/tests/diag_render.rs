use std::rc::Rc;

use bobtools::boblc::diag::{expand_tabs, paint, visual_column, Diag, Paint};
use bobtools::boblc::source::{SourceFile, Span};

fn file() -> Rc<SourceFile> {
    Rc::new(SourceFile::new("main.bob".to_string(), "func main() {\n\tlet x = y;\n}".to_string()))
}

fn plain(d: &Diag) -> String {
    d.segments().into_iter().map(|(_, t)| t).collect()
}

#[test]
fn tabs_expand_to_the_next_stop() {
    assert_eq!(expand_tabs("\tab\tc"), "    ab  c");
    assert_eq!(expand_tabs("abcd\te"), "abcd    e");
    assert_eq!(visual_column("\tlet x", 3), 5);
    assert_eq!(visual_column("ab", 9), 2);
}

#[test]
fn error_with_a_label_and_a_help() {
    let d = Diag::new(&file(), "unknown name y".to_string())
        .with_message_label("not found".to_string(), Span::new(23, 24), true)
        .with_text_help("declare it first".to_string());
    assert_eq!(
        plain(&d),
        "[main.bob:2:10] Error: unknown name y\n     |\n   2 |     let x = y;\n     |             ^ not found\nHelp: declare it first\n"
    );
    let segs = d.segments();
    assert_eq!(segs[1], (Paint::RedUnderline, "Error".to_string()));
    assert!(segs.iter().any(|s| s == &(Paint::Red, "not found".to_string())));
}

#[test]
fn warning_without_labels_names_only_the_file() {
    let d = Diag::warning(&file(), "unused".to_string());
    assert_eq!(plain(&d), "[main.bob] Warning: unused\n");
}

#[test]
fn primary_label_is_the_first_important_one() {
    let d = Diag::new(&file(), "m".to_string())
        .with_label(Span::new(0, 4), false)
        .with_label(Span::new(19, 20), true);
    let text = plain(&d);
    assert!(text.starts_with("[main.bob:2:6] Error: m\n"));
    // the unimportant label underlines its four characters with dashes
    assert!(text.contains("   1 | func main() {\n     | ---- \n"));
    assert!(text.contains("     |         ^ \n"));
}

#[test]
fn render_writes_every_piece_after_the_existing_text() {
    let d = Diag::new(&file(), "unknown name y".to_string()).with_label(Span::new(23, 24), true);
    let mut out = "> ".to_string();
    d.render(&mut out);
    assert!(out.starts_with("> [main.bob:2:10] "));
    assert!(out.contains(": unknown name y\n"));
    assert!(out.contains("let x = y;"));
    let shown = paint(Paint::Plain, "as is");
    assert_eq!(shown, "as is");
}
