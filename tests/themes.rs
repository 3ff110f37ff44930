use alacritty_themer::catalog::{compare_names, get_themes, CatalogError};
use alacritty_themer::config::{get_config, transform_config, update_theme, ConfigError};
use alacritty_themer::node::{find_key, Node};
use alacritty_themer::themes::{parse_theme_wrapper, read_theme, Colors, Primary, Theme, ThemeError, ThemeWrapper};

const FULL: &str = "name: Ignored
colors:
  primary:
    background: '#1d1f21'
    foreground: '#c5c8c6'
  cursor:
    text: '#000000'
    cursor: '#ffffff'
  normal:
    black: '#000001'
    red: '#000002'
    green: '#000003'
    yellow: '#000004'
    blue: '#000005'
    magenta: '#000006'
    cyan: '#000007'
    white: '#000008'
  bright:
    black: '#100001'
    red: '#100002'
    green: '#100003'
    yellow: '#100004'
    blue: '#100005'
    magenta: '#100006'
    cyan: '#100007'
    white: '#100008'
  extra_field: 3
";

fn palette(p: &str) -> Colors {
    Colors {
        black: format!("{}1", p),
        red: format!("{}2", p),
        green: format!("{}3", p),
        yellow: format!("{}4", p),
        blue: format!("{}5", p),
        magenta: format!("{}6", p),
        cyan: format!("{}7", p),
        white: format!("{}8", p),
    }
}

fn sample_theme(p: &str) -> Theme {
    Theme {
        primary: Primary {
            background: format!("{}bg", p),
            foreground: format!("{}fg", p),
            dim_foreground: Some(format!("{}dfg", p)),
            bright_foreground: None,
            dim_background: None,
            bright_background: Some(format!("{}bbg", p)),
        },
        cursor: None,
        normal: palette(p),
        bright: None,
        dim: Some(palette(&format!("{}d", p))),
    }
}

#[test]
fn parses_a_full_theme_wrapper() {
    let w = parse_theme_wrapper(FULL).unwrap();
    assert_eq!(w.name, Some("Ignored".to_string()));
    assert_eq!(w.colors.primary.background, "#1d1f21");
    assert_eq!(w.colors.primary.foreground, "#c5c8c6");
    assert_eq!(w.colors.primary.dim_foreground, None);
    let cursor = w.colors.cursor.unwrap();
    assert_eq!(cursor.text, Some("#000000".to_string()));
    assert_eq!(cursor.cursor, Some("#ffffff".to_string()));
    assert_eq!(w.colors.normal.black, "#000001");
    assert_eq!(w.colors.normal.white, "#000008");
    assert_eq!(w.colors.bright.unwrap().magenta, "#100006");
    assert!(w.colors.dim.is_none());
}

#[test]
fn missing_required_color_is_malformed() {
    let text = FULL.replace("    cyan: '#000007'\n", "");
    assert_eq!(parse_theme_wrapper(&text), Err(ThemeError::MalformedTheme));
}

#[test]
fn non_string_color_is_malformed() {
    let text = FULL.replace("'#000007'", "[1, 2]");
    assert_eq!(parse_theme_wrapper(&text), Err(ThemeError::MalformedTheme));
}

#[test]
fn missing_colors_key_is_malformed() {
    assert_eq!(parse_theme_wrapper("name: x\n"), Err(ThemeError::MalformedTheme));
}

#[test]
fn broken_text_is_not_yaml() {
    assert_eq!(parse_theme_wrapper("colors: [unclosed\n"), Err(ThemeError::NotYaml));
}

#[test]
fn null_optional_parts_read_as_absent() {
    let text = FULL.replace("  bright:\n", "  dim: ~\n  bright:\n");
    let w = parse_theme_wrapper(&text).unwrap();
    assert!(w.colors.dim.is_none());
}

#[test]
fn compare_names_is_ordinal() {
    assert!(compare_names("Apple", "Banana") < 0);
    assert!(compare_names("b", "B") > 0);
    assert_eq!(compare_names("same", "same"), 0);
    assert!(compare_names("ab", "abc") < 0);
    assert!(compare_names("abc", "ab") > 0);
}

fn wrapper(name: &str, p: &str) -> (String, ThemeWrapper) {
    (name.to_string(), ThemeWrapper { name: Some(name.to_string()), colors: sample_theme(p) })
}

#[test]
fn later_source_wins_on_equal_names() {
    let doc = vec![wrapper("Shared", "#a"), wrapper("OnlyDoc", "#b")];
    let files = vec![wrapper("Shared", "#c"), wrapper("OnlyFile", "#d")];
    let catalog = get_themes(doc, files).unwrap();
    assert_eq!(catalog.len(), 3);
    assert_eq!(catalog.get("Shared").unwrap().colors, sample_theme("#c"));
    assert_eq!(catalog.get("OnlyDoc").unwrap().colors, sample_theme("#b"));
    assert_eq!(catalog.get("OnlyFile").unwrap().colors, sample_theme("#d"));
    assert!(catalog.get("Missing").is_none());
}

#[test]
fn catalog_names_ascend() {
    let doc = vec![wrapper("zeta", "#a"), wrapper("Alpha", "#b"), wrapper("beta", "#c")];
    let catalog = get_themes(doc, vec![]).unwrap();
    let names: Vec<String> = (0..catalog.len()).map(|i| catalog.name_at(i).clone()).collect();
    assert_eq!(names, vec!["Alpha".to_string(), "beta".to_string(), "zeta".to_string()]);
}

#[test]
fn empty_sources_give_empty_catalog() {
    assert!(matches!(get_themes(vec![], vec![]), Err(CatalogError::EmptyCatalog)));
}

#[test]
fn same_name_twice_in_one_source_keeps_the_last() {
    let doc = vec![wrapper("X", "#a"), wrapper("X", "#b")];
    let catalog = get_themes(doc, vec![]).unwrap();
    assert_eq!(catalog.len(), 1);
    assert_eq!(catalog.get("X").unwrap().colors, sample_theme("#b"));
}

fn dict(n: Node) -> Vec<(Node, Node)> {
    match n {
        Node::Dict(d) => d,
        _ => panic!("not a dictionary"),
    }
}

fn str_at(d: &Vec<(Node, Node)>, key: &str) -> Option<String> {
    let i = find_key(d, key)?;
    match &d[i].1 {
        Node::Str(s) => Some(s.clone()),
        _ => None,
    }
}

#[test]
fn update_theme_replaces_colors_only() {
    let config = "shell: zsh\ncolors:\n  old: 1\nfont:\n  family: mono\n";
    let theme = sample_theme("#e");
    let w = ThemeWrapper { name: Some("E".to_string()), colors: theme.clone() };
    let written = update_theme(config, &w).unwrap();
    assert_ne!(written, config);
    let d = dict(get_config(&written).unwrap());
    assert_eq!(d.len(), 3);
    assert_eq!(str_at(&d, "shell"), Some("zsh".to_string()));
    let font = find_key(&d, "font").unwrap();
    assert_eq!(str_at(&dict_ref(&d[font].1), "family"), Some("mono".to_string()));
    let colors = find_key(&d, "colors").unwrap();
    assert_eq!(colors, 1);
    assert_eq!(read_theme(&d[colors].1), Some(theme));
}

fn dict_ref(n: &Node) -> Vec<(Node, Node)> {
    match n {
        Node::Dict(d) => d.iter().map(|(k, v)| (copy(k), copy(v))).collect(),
        _ => panic!("not a dictionary"),
    }
}

fn copy(n: &Node) -> Node {
    match n {
        Node::Null => Node::Null,
        Node::Bool(b) => Node::Bool(*b),
        Node::Number(x) => Node::Number(x.clone()),
        Node::Str(s) => Node::Str(s.clone()),
        Node::List(l) => Node::List(l.iter().map(copy).collect()),
        Node::Dict(d) => Node::Dict(d.iter().map(|(k, v)| (copy(k), copy(v))).collect()),
    }
}

#[test]
fn update_theme_adds_colors_when_absent() {
    let theme = sample_theme("#f");
    let w = ThemeWrapper { name: None, colors: theme.clone() };
    let written = update_theme("window:\n  opacity: 1\n", &w).unwrap();
    let d = dict(get_config(&written).unwrap());
    assert_eq!(d.len(), 2);
    assert!(find_key(&d, "window").is_some());
    assert_eq!(find_key(&d, "colors"), Some(1));
    assert_eq!(read_theme(&d[1].1), Some(theme));
}

#[test]
fn transform_config_keeps_other_entries_in_place() {
    let d = dict(get_config("a: x\ncolors: 1\nb: y\n").unwrap());
    let theme = sample_theme("#g");
    let r = transform_config(d, &theme);
    assert_eq!(r.len(), 3);
    assert_eq!(str_at(&r, "a"), Some("x".to_string()));
    assert_eq!(str_at(&r, "b"), Some("y".to_string()));
    assert_eq!(find_key(&r, "colors"), Some(1));
    assert_eq!(read_theme(&r[1].1), Some(theme));
}

#[test]
fn invalid_config_is_reported() {
    let w = ThemeWrapper { name: None, colors: sample_theme("#h") };
    assert_eq!(update_theme("a: [b\n", &w), Err(ConfigError::ConfigInvalid));
    assert_eq!(update_theme("- a\n- b\n", &w), Err(ConfigError::ConfigInvalid));
    assert!(matches!(get_config("a: [b\n"), Err(ConfigError::ConfigInvalid)));
}

#[test]
fn update_theme_ignores_the_wrapper_name_and_is_idempotent() {
    let config = "shell: zsh\ncolors:\n  old: 1\n";
    let a = ThemeWrapper { name: Some("A".to_string()), colors: sample_theme("#k") };
    let b = ThemeWrapper { name: Some("B".to_string()), colors: sample_theme("#k") };
    let once = update_theme(config, &a).unwrap();
    assert_eq!(once, update_theme(config, &b).unwrap());
    assert_eq!(update_theme(&once, &a).unwrap(), once);
    assert!(!once.contains("null"));
    assert!(!once.contains("bright:"));
}

#[test]
fn later_theme_fully_replaces_earlier() {
    let config = "shell: zsh\n";
    let first = ThemeWrapper { name: None, colors: sample_theme("#m") };
    let second = ThemeWrapper { name: None, colors: sample_theme("#n") };
    let over = update_theme(&update_theme(config, &first).unwrap(), &second).unwrap();
    assert_eq!(over, update_theme(config, &second).unwrap());
    assert!(!over.contains("#m"));
}
