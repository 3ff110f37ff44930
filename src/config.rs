//! The live configuration: its `colors` entry is replaced by a theme, and
//! every other entry is kept as it was.
use vstd::prelude::*;
use crate::node::{
    Node, NodeView, find_key, key_is, lemma_key_is_view, lemma_lookup_update, lemma_set_entry_twice,
    lemma_view_dict, lookup, parse_yaml, push_entry, render_yaml, set_entry, view_entries, view_node,
    yaml_of, yaml_text_of,
};
use crate::themes::{spec_theme, theme_node, theme_view, Theme, ThemeWrapper};

verus! {

/// Why the live configuration could not be read or written.
#[derive(Debug, PartialEq, Eq)]
pub enum ConfigError {
    /// The file cannot be located or read.
    ConfigUnreadable,
    /// The file is not a well-formed structured document with entries at
    /// its top.
    ConfigInvalid,
    /// The new content could not be written.
    ConfigWriteFailed,
}

/// The top-level entries of a configuration text, where it has them.
pub open spec fn config_entries(text: Seq<char>) -> Option<Seq<(Node, Node)>> {
    match yaml_of(text) {
        Some(Node::Dict(d)) => Some(d@),
        _ => None,
    }
}

/// Whether `r` is `d` with its `colors` entry holding the theme `t`: the
/// first `colors` entry has its value replaced in place, or one is added at
/// the end; every other entry stays as it was, where it was.
pub open spec fn colors_replaced(d: Seq<(Node, Node)>, r: Seq<(Node, Node)>, t: Theme) -> bool {
    &&& r.len() == d.len() + (if lookup(d, "colors"@) is Some { 0int } else { 1int })
    &&& forall|j: int| 0 <= j < d.len() && !key_is(d[j].0, "colors"@) ==> #[trigger] r[j] == d[j]
    &&& forall|j: int| 0 <= j < d.len() ==> (#[trigger] r[j]).0 == d[j].0
    &&& lookup(r, "colors"@) is Some
    &&& spec_theme(lookup(r, "colors"@)->0) == Some(t)
    &&& forall|k: Seq<char>| k != "colors"@ ==> #[trigger] lookup(r, k) == lookup(d, k)
}

/// The views of the top-level entries of a configuration text.
pub open spec fn config_view(text: Seq<char>) -> Option<Seq<(NodeView, NodeView)>> {
    match config_entries(text) {
        Some(d) => Some(view_entries(d)),
        None => None,
    }
}

/// The entries `d` with the theme `t` written under `colors`.
pub open spec fn with_theme(d: Seq<(NodeView, NodeView)>, t: Theme) -> Seq<(NodeView, NodeView)> {
    set_entry(d, "colors"@, theme_view(t))
}

/// Whether `r` is the outcome of writing the theme `t` into the
/// configuration text `contents`: `ConfigInvalid` exactly where the text is
/// not a document with entries at its top; otherwise the one text that
/// serde_yaml writes for its entries with the theme under `colors`, or
/// `ConfigWriteFailed` where serde_yaml writes none.
pub open spec fn theme_written(contents: Seq<char>, t: Theme, r: Result<String, ConfigError>) -> bool {
    match config_view(contents) {
        None => r == Err::<String, ConfigError>(ConfigError::ConfigInvalid),
        Some(d) => match yaml_text_of(NodeView::Dict(with_theme(d, t))) {
            Some(text) => r matches Ok(s) && s@ == text,
            None => r == Err::<String, ConfigError>(ConfigError::ConfigWriteFailed),
        },
    }
}

/// Parses the text of the live configuration.
pub fn get_config(contents: &str) -> (r: Result<Node, ConfigError>)
    ensures
        r == (match yaml_of(contents@) {
            Some(n) => Ok(n),
            None => Err(ConfigError::ConfigInvalid),
        }),
{
    match parse_yaml(contents) {
        Some(n) => Ok(n),
        None => Err(ConfigError::ConfigInvalid),
    }
}

/// Puts a theme under the `colors` entry of the configuration's entries.
pub fn transform_config(config: Vec<(Node, Node)>, theme: &Theme) -> (r: Vec<(Node, Node)>)
    ensures
        colors_replaced(config@, r@, *theme),
        view_entries(r@) == with_theme(view_entries(config@), *theme),
{
    let mut d = config;
    let v = theme_node(theme);
    match find_key(&d, "colors") {
        Some(i) => {
            let (k, _previous) = d.remove(i);
            let ghost e = (k, v);
            d.insert(i, (k, v));
            proof {
                assert(d@ =~= config@.update(i as int, e));
                lemma_lookup_update(config@, i as int, e, "colors"@);
                assert forall|k: Seq<char>| k != "colors"@ implies #[trigger] lookup(d@, k) == lookup(config@, k) by {
                    lemma_lookup_update(config@, i as int, e, k);
                }
                let ve = view_entries(config@);
                assert forall|m: int| 0 <= m < i implies #[trigger] ve[m].0 != NodeView::Str("colors"@) by {
                    lemma_key_is_view(config@[m].0, "colors"@);
                }
                lemma_key_is_view(config@[i as int].0, "colors"@);
                crate::node::lemma_set_entry_at(ve, "colors"@, theme_view(*theme), i as int);
                assert(view_entries(d@) =~= ve.update(i as int, (ve[i as int].0, theme_view(*theme))));
            }
        },
        None => {
            push_entry(&mut d, "colors", v);
            proof {
                let ve = view_entries(config@);
                assert forall|m: int| 0 <= m < ve.len() implies #[trigger] ve[m].0 != NodeView::Str("colors"@) by {
                    lemma_key_is_view(config@[m].0, "colors"@);
                }
                crate::node::lemma_set_entry_at(ve, "colors"@, theme_view(*theme), ve.len() as int);
                assert forall|j: int| 0 <= j < config@.len() implies #[trigger] d@[j] == config@[j] by {
                    assert(d@.drop_last()[j] == d@[j]);
                }
            }
        },
    }
    d
}

/// The configuration text with its `colors` entry set to a wrapper's theme.
/// Fails with `ConfigInvalid` where the text is not a document with entries
/// at its top, and with `ConfigWriteFailed` where the new document cannot be
/// written out.
pub fn update_theme(contents: &str, theme_wrapper: &ThemeWrapper) -> (r: Result<String, ConfigError>)
    ensures
        theme_written(contents@, theme_wrapper.colors, r),
{
    let config = match parse_yaml(contents) {
        Some(Node::Dict(d)) => d,
        _ => return Err(ConfigError::ConfigInvalid),
    };
    let updated = transform_config(config, &theme_wrapper.colors);
    proof {
        lemma_view_dict(updated);
    }
    match render_yaml(Node::Dict(updated)) {
        Some(s) => Ok(s),
        None => Err(ConfigError::ConfigWriteFailed),
    }
}

/// Writing a theme over one written before leaves no trace of the first:
/// the result is that of writing the second theme alone, and writing the
/// same theme twice changes nothing the second time.
pub proof fn lemma_later_theme_replaces(d: Seq<(NodeView, NodeView)>, t1: Theme, t2: Theme)
    ensures
        with_theme(with_theme(d, t1), t2) == with_theme(d, t2),
        with_theme(with_theme(d, t1), t1) == with_theme(d, t1),
{
    lemma_set_entry_twice(d, "colors"@, theme_view(t1), theme_view(t2));
}

/// Writing a theme into a configuration and reading the `colors` entry back
/// gives that theme; every other top-level key reads as before, and every
/// entry under another key is kept in place.
pub proof fn lemma_apply_then_read(d: Seq<(Node, Node)>, r: Seq<(Node, Node)>, t: Theme)
    requires
        colors_replaced(d, r, t),
    ensures
        lookup(r, "colors"@) matches Some(c) && spec_theme(c) == Some(t),
        forall|k: Seq<char>| k != "colors"@ ==> #[trigger] lookup(r, k) == lookup(d, k),
        forall|j: int| 0 <= j < d.len() && !key_is(d[j].0, "colors"@) ==> #[trigger] r[j] == d[j],
{
}

} // verus!
