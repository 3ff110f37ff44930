use alacritty_themer::catalog::get_themes;
use alacritty_themer::session::{
    display_items, item_text, render_finish, render_signal, selected_theme, Finish, Item, Phase, Session, Signal,
};
use alacritty_themer::themes::{parse_theme_wrapper, ThemeWrapper};

const BODY: &str = "colors:
  primary:
    background: '#111111'
    foreground: '#222222'
  normal:
    black: '#000001'
    red: '#000002'
    green: '#000003'
    yellow: '#000004'
    blue: '#000005'
    magenta: '#000006'
    cyan: '#000007'
    white: '#000008'
";

fn named(name: &str) -> (String, ThemeWrapper) {
    let mut w = parse_theme_wrapper(BODY).unwrap();
    w.name = Some(name.to_string());
    (name.to_string(), w)
}

#[test]
fn highlights_send_previews_and_reverts() {
    let mut s = Session::start(3);
    assert_eq!(s.current(), Phase::Browsing);
    assert_eq!(s.highlight(Some(Item::Theme(2))), Signal::Preview(2));
    assert_eq!(s.current(), Phase::Previewing(2));
    assert_eq!(s.highlight(Some(Item::Original)), Signal::Revert);
    assert_eq!(s.current(), Phase::Browsing);
    assert_eq!(s.highlight(None), Signal::Revert);
}

#[test]
fn cancel_after_previews_restores() {
    let mut s = Session::start(2);
    s.highlight(Some(Item::Theme(0)));
    s.highlight(Some(Item::Theme(1)));
    assert_eq!(s.cancel(), Finish::Restore);
    assert_eq!(s.current(), Phase::Cancelled);
}

#[test]
fn confirm_applies_the_confirmed_theme() {
    let mut s = Session::start(2);
    s.highlight(Some(Item::Theme(0)));
    s.highlight(Some(Item::Theme(1)));
    assert_eq!(s.confirm(Item::Theme(1)), Finish::Apply(1));
    assert_eq!(s.current(), Phase::Confirmed(1));
}

#[test]
fn confirming_the_original_restores() {
    let mut s = Session::start(2);
    assert_eq!(s.confirm(Item::Original), Finish::Restore);
    assert_eq!(s.current(), Phase::Cancelled);
}

#[test]
fn display_list_puts_original_first() {
    let catalog = get_themes(vec![named("b"), named("a")], vec![]).unwrap();
    let items = display_items(&catalog);
    assert_eq!(items, vec![Item::Original, Item::Theme(0), Item::Theme(1)]);
    let label = item_text(&catalog, Item::Original);
    assert!(label.starts_with("<original>"));
    assert_ne!(label, "a");
    assert_ne!(label, "b");
    assert_eq!(item_text(&catalog, Item::Theme(0)), "a");
    assert_eq!(item_text(&catalog, Item::Theme(1)), "b");
}

#[test]
fn unnamed_theme_is_labelled_unknown() {
    let (name, mut w) = named("x");
    w.name = None;
    let catalog = get_themes(vec![(name, w)], vec![]).unwrap();
    assert_eq!(item_text(&catalog, Item::Theme(0)), "(unknown)");
}

#[test]
fn restore_writes_the_snapshot_verbatim() {
    let catalog = get_themes(vec![named("a")], vec![]).unwrap();
    let original = "# my comment\ncolors:   {}\n".to_string();
    let current = "colors:\n  whatever: 1\n";
    assert_eq!(render_finish(&catalog, current, &original, Finish::Restore).unwrap(), original);
    assert_eq!(render_signal(&catalog, current, &original, Signal::Revert).unwrap(), original);
    let applied = render_signal(&catalog, current, &original, Signal::Preview(0)).unwrap();
    assert!(applied.contains("#000007"));
    assert!(!applied.contains("whatever"));
}

#[test]
fn selected_theme_of_a_finish() {
    let catalog = get_themes(vec![named("a"), named("b")], vec![]).unwrap();
    let (name, w) = selected_theme(&catalog, Finish::Apply(1)).unwrap();
    assert_eq!(name, "b");
    assert_eq!(w.name, Some("b".to_string()));
    assert!(selected_theme(&catalog, Finish::Restore).is_none());
}

#[test]
fn original_label_differs_from_a_theme_called_original() {
    let catalog = get_themes(vec![named("<original>"), named("<original> ")], vec![]).unwrap();
    let label = item_text(&catalog, Item::Original);
    assert!(label.starts_with("<original>"));
    assert_ne!(label, "<original>");
    assert_ne!(label, "<original> ");
    assert_eq!(label.trim_end(), "<original>");
}
