use alacritty_themer::catalog::{get_themes, CatalogError};
use alacritty_themer::sources::{
    get_theme_map, is_theme_file, parse_theme_blocks, parse_theme_wiki_markdown, parse_theme_wiki_text,
    check_fences, theme_name_of, trim_details, Block, DocumentError, Span, ThemeFile,
};
use alacritty_themer::themes::ThemeError;

const BODY: &str = "colors:
  primary:
    background: '#111111'
    foreground: '#222222'
  normal:
    black: '#000001'
    red: '#000002'
    green: '#000003'
    yellow: '#000004'
    blue: '#000005'
    magenta: '#000006'
    cyan: '#000007'
    white: '#000008'
";

fn file(name: &str, contents: &str) -> ThemeFile {
    ThemeFile { file_name: name.to_string(), contents: contents.to_string() }
}

#[test]
fn theme_file_names() {
    assert!(is_theme_file("dracula.yml"));
    assert!(is_theme_file("nord.yaml"));
    assert!(!is_theme_file("README.md"));
    assert!(!is_theme_file("yml"));
    assert!(!is_theme_file(".yml"));
    assert!(!is_theme_file(".yaml"));
    assert!(is_theme_file("a.yml"));
    assert_eq!(theme_name_of("dracula.yml"), "dracula");
    assert_eq!(theme_name_of("nord.yaml"), "nord");
    assert_eq!(theme_name_of("a.b.yml"), "a.b");
}

#[test]
fn one_entry_per_valid_file_and_one_diagnostic_per_invalid() {
    let files = vec![
        file("one.yml", BODY),
        file("broken.yml", "colors: [x\n"),
        file("notes.txt", BODY),
        file("two.yaml", BODY),
        file("partial.yml", "colors:\n  normal: {}\n"),
    ];
    let (themes, diagnostics) = get_theme_map(&files);
    let names: Vec<&str> = themes.iter().map(|t| t.0.as_str()).collect();
    assert_eq!(names, vec!["one", "two"]);
    assert_eq!(themes[0].1.name, Some("one".to_string()));
    assert_eq!(themes[1].1.colors.normal.cyan, "#000007");
    assert_eq!(diagnostics.len(), 2);
    assert_eq!(diagnostics[0].source, "broken.yml");
    assert_eq!(diagnostics[0].error, ThemeError::NotYaml);
    assert_eq!(diagnostics[1].source, "partial.yml");
    assert_eq!(diagnostics[1].error, ThemeError::MalformedTheme);
}

#[test]
fn empty_directory_gives_nothing() {
    let (themes, diagnostics) = get_theme_map(&vec![]);
    assert!(themes.is_empty());
    assert!(diagnostics.is_empty());
}

#[test]
fn details_tags_are_trimmed() {
    assert_eq!(trim_details("<details><details>abc"), "abc");
    assert_eq!(trim_details("abc<details>"), "abc<details>");
    assert_eq!(trim_details("<details"), "<details");
}

#[test]
fn summary_gives_the_name() {
    assert_eq!(parse_theme_wiki_text("<details><summary>Tomorrow Night</summary>"), Some("Tomorrow Night".to_string()));
    assert_eq!(parse_theme_wiki_text("just prose"), None);
}

fn prose(text: &str) -> Block {
    Block::Paragraph(vec![Span::Other, Span::Text(text.to_string())])
}

fn code(lang: Option<&str>, body: &str) -> Block {
    Block::CodeBlock(lang.map(|l| l.to_string()), body.to_string())
}

#[test]
fn pairs_among_other_prose_give_one_entry_each() {
    let blocks = vec![
        prose("Introduction"),
        Block::Other,
        prose("<summary>First</summary>"),
        code(Some("yaml"), BODY),
        prose("Some commentary"),
        prose("<details><summary>Second</summary>"),
        code(Some("yaml"), &BODY.replace("#111111", "#333333")),
        prose("<summary>Shell</summary>"),
        code(Some("sh"), BODY),
        prose("no name here"),
        code(Some("yaml"), BODY),
        prose("<summary>Bad</summary>"),
        code(Some("yaml"), "colors: 3\n"),
    ];
    let (themes, diagnostics) = parse_theme_blocks(&blocks).unwrap();
    let names: Vec<&str> = themes.iter().map(|t| t.0.as_str()).collect();
    assert_eq!(names, vec!["First", "Second"]);
    assert_eq!(themes[1].1.name, Some("Second".to_string()));
    assert_eq!(themes[1].1.colors.primary.background, "#333333");
    assert_eq!(diagnostics.len(), 1);
    assert_eq!(diagnostics[0].source, "Bad");
    assert_eq!(diagnostics[0].error, ThemeError::MalformedTheme);
}

#[test]
fn document_name_replaces_embedded_name() {
    let body = format!("name: Embedded\n{}", BODY);
    let blocks = vec![prose("<summary>Outer</summary>"), code(Some("yaml"), &body)];
    let (themes, _) = parse_theme_blocks(&blocks).unwrap();
    assert_eq!(themes.len(), 1);
    assert_eq!(themes[0].0, "Outer");
    assert_eq!(themes[0].1.name, Some("Outer".to_string()));
}

#[test]
fn short_document_is_empty() {
    assert!(matches!(parse_theme_blocks(&vec![]), Err(DocumentError::EmptyDocument)));
    assert!(matches!(parse_theme_blocks(&vec![prose("x")]), Err(DocumentError::EmptyDocument)));
    assert!(matches!(parse_theme_wiki_markdown(""), Err(DocumentError::EmptyDocument)));
}

#[test]
fn markdown_document_is_read() {
    let text = format!(
        "# Color schemes\n\nPick one.\n\n<details><summary>Wiki Theme</summary>\n\n```yaml\n{}```\n\nTrailing prose.\n",
        BODY
    );
    let (themes, diagnostics) = parse_theme_wiki_markdown(&text).unwrap();
    assert_eq!(themes.len(), 1);
    assert_eq!(themes[0].0, "Wiki Theme");
    assert_eq!(themes[0].1.colors.normal.black, "#000001");
    assert!(diagnostics.is_empty());
}

#[test]
fn empty_directory_and_no_document_give_empty_catalog() {
    let (file_themes, diagnostics) = get_theme_map(&vec![file("notes.txt", "hello")]);
    assert!(diagnostics.is_empty());
    assert!(matches!(get_themes(vec![], file_themes), Err(CatalogError::EmptyCatalog)));
}

#[test]
fn fence_after_non_ascii_is_refused() {
    assert!(!check_fences("ab\u{20ac}```"));
    assert!(check_fences("\u{20ac}\n```yaml\n"));
    assert!(check_fences("plain ```yaml"));
    assert!(matches!(parse_theme_wiki_markdown("ab\u{20ac}```"), Err(DocumentError::UnsupportedFence)));
}

#[test]
fn empty_summary_is_no_name() {
    let blocks = vec![prose("<summary></summary>"), code(Some("yaml"), BODY)];
    let (themes, diagnostics) = parse_theme_blocks(&blocks).unwrap();
    assert!(themes.is_empty());
    assert!(diagnostics.is_empty());
}
