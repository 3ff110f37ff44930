//! Theme records, and how they are read from and written to a structured
//! document.
use vstd::prelude::*;
use crate::node::{
    Node, NodeView, find_key, lemma_view_dict, lookup, opt_str, parse_yaml, push_entry, req_str,
    spec_opt, spec_req, view_entries, view_node, yaml_of,
};

verus! {

/// Background and foreground colors, with optional dim and bright variants.
#[derive(Clone, Debug, PartialEq, Eq)]
pub struct Primary {
    pub background: String,
    pub foreground: String,
    pub dim_foreground: Option<String>,
    pub bright_foreground: Option<String>,
    pub dim_background: Option<String>,
    pub bright_background: Option<String>,
}

/// The eight named colors of one palette.
#[derive(Clone, Debug, PartialEq, Eq)]
pub struct Colors {
    pub black: String,
    pub red: String,
    pub green: String,
    pub yellow: String,
    pub blue: String,
    pub magenta: String,
    pub cyan: String,
    pub white: String,
}

/// Colors of the cursor.
#[derive(Clone, Debug, PartialEq, Eq)]
pub struct Cursor {
    pub text: Option<String>,
    pub cursor: Option<String>,
}

/// A complete color assignment for a terminal.
#[derive(Clone, Debug, PartialEq, Eq)]
pub struct Theme {
    pub primary: Primary,
    pub cursor: Option<Cursor>,
    pub normal: Colors,
    pub bright: Option<Colors>,
    pub dim: Option<Colors>,
}

/// A theme nested under `colors`, with the name it may carry.
#[derive(Clone, Debug, PartialEq, Eq)]
pub struct ThemeWrapper {
    pub name: Option<String>,
    pub colors: Theme,
}

/// Why a record could not be read as a theme.
#[derive(Clone, Copy, Debug, PartialEq, Eq)]
pub enum ThemeError {
    /// The text is not a well-formed structured document.
    NotYaml,
    /// A required field is missing or not a string, or a field has the wrong shape.
    MalformedTheme,
}

// ---------------------------------------------------------------- reading

/// The palette that a node holds: a dictionary with the eight colors as
/// strings.
pub open spec fn spec_colors(n: Node) -> Option<Colors> {
    match n {
        Node::Dict(d) => {
            let d = d@;
            if spec_req(d, "black"@) is Some && spec_req(d, "red"@) is Some
                && spec_req(d, "green"@) is Some && spec_req(d, "yellow"@) is Some
                && spec_req(d, "blue"@) is Some && spec_req(d, "magenta"@) is Some
                && spec_req(d, "cyan"@) is Some && spec_req(d, "white"@) is Some {
                Some(Colors {
                    black: spec_req(d, "black"@)->0,
                    red: spec_req(d, "red"@)->0,
                    green: spec_req(d, "green"@)->0,
                    yellow: spec_req(d, "yellow"@)->0,
                    blue: spec_req(d, "blue"@)->0,
                    magenta: spec_req(d, "magenta"@)->0,
                    cyan: spec_req(d, "cyan"@)->0,
                    white: spec_req(d, "white"@)->0,
                })
            } else {
                None
            }
        },
        _ => None,
    }
}

/// The primary colors that a node holds: background and foreground as
/// strings, each variant a string, null or absent.
pub open spec fn spec_primary(n: Node) -> Option<Primary> {
    match n {
        Node::Dict(d) => {
            let d = d@;
            if spec_req(d, "background"@) is Some && spec_req(d, "foreground"@) is Some
                && spec_opt(d, "dim_foreground"@) is Some
                && spec_opt(d, "bright_foreground"@) is Some
                && spec_opt(d, "dim_background"@) is Some
                && spec_opt(d, "bright_background"@) is Some {
                Some(Primary {
                    background: spec_req(d, "background"@)->0,
                    foreground: spec_req(d, "foreground"@)->0,
                    dim_foreground: spec_opt(d, "dim_foreground"@)->0,
                    bright_foreground: spec_opt(d, "bright_foreground"@)->0,
                    dim_background: spec_opt(d, "dim_background"@)->0,
                    bright_background: spec_opt(d, "bright_background"@)->0,
                })
            } else {
                None
            }
        },
        _ => None,
    }
}

/// The cursor colors that a node holds: each a string, null or absent.
pub open spec fn spec_cursor(n: Node) -> Option<Cursor> {
    match n {
        Node::Dict(d) => {
            let d = d@;
            if spec_opt(d, "text"@) is Some && spec_opt(d, "cursor"@) is Some {
                Some(Cursor { text: spec_opt(d, "text"@)->0, cursor: spec_opt(d, "cursor"@)->0 })
            } else {
                None
            }
        },
        _ => None,
    }
}

/// An optional palette: absent or null is `Some(None)`.
pub open spec fn spec_opt_colors(o: Option<Node>) -> Option<Option<Colors>> {
    match o {
        None => Some(None),
        Some(Node::Null) => Some(None),
        Some(n) => match spec_colors(n) {
            Some(c) => Some(Some(c)),
            None => None,
        },
    }
}

/// An optional cursor: absent or null is `Some(None)`.
pub open spec fn spec_opt_cursor(o: Option<Node>) -> Option<Option<Cursor>> {
    match o {
        None => Some(None),
        Some(Node::Null) => Some(None),
        Some(n) => match spec_cursor(n) {
            Some(c) => Some(Some(c)),
            None => None,
        },
    }
}

/// The theme that a node holds: `None` where a required field is missing or
/// a field has the wrong shape. Unknown fields are ignored.
pub open spec fn spec_theme(n: Node) -> Option<Theme> {
    match n {
        Node::Dict(d) => {
            let d = d@;
            let p = lookup(d, "primary"@);
            let c = lookup(d, "normal"@);
            if p is Some && spec_primary(p->0) is Some
                && spec_opt_cursor(lookup(d, "cursor"@)) is Some
                && c is Some && spec_colors(c->0) is Some
                && spec_opt_colors(lookup(d, "bright"@)) is Some
                && spec_opt_colors(lookup(d, "dim"@)) is Some {
                Some(Theme {
                    primary: spec_primary(p->0)->0,
                    cursor: spec_opt_cursor(lookup(d, "cursor"@))->0,
                    normal: spec_colors(c->0)->0,
                    bright: spec_opt_colors(lookup(d, "bright"@))->0,
                    dim: spec_opt_colors(lookup(d, "dim"@))->0,
                })
            } else {
                None
            }
        },
        _ => None,
    }
}

/// The theme wrapper that a node holds: a dictionary with a theme under
/// `colors` and an optional string `name`.
pub open spec fn spec_wrapper(n: Node) -> Option<ThemeWrapper> {
    match n {
        Node::Dict(d) => {
            let c = lookup(d@, "colors"@);
            if spec_opt(d@, "name"@) is Some && c is Some && spec_theme(c->0) is Some {
                Some(ThemeWrapper { name: spec_opt(d@, "name"@)->0, colors: spec_theme(c->0)->0 })
            } else {
                None
            }
        },
        _ => None,
    }
}

/// The theme wrapper that a text holds, read as YAML.
pub open spec fn spec_wrapper_text(text: Seq<char>) -> Result<ThemeWrapper, ThemeError> {
    match yaml_of(text) {
        None => Err(ThemeError::NotYaml),
        Some(n) => match spec_wrapper(n) {
            Some(w) => Ok(w),
            None => Err(ThemeError::MalformedTheme),
        },
    }
}


/// Reads a palette out of a node; `None` where it is malformed.
pub fn read_colors(n: &Node) -> (r: Option<Colors>)
    ensures
        r == spec_colors(*n),
{
    match n {
        Node::Dict(d) => {
            let black = match req_str(d, "black") { Some(s) => s, None => return None };
            let red = match req_str(d, "red") { Some(s) => s, None => return None };
            let green = match req_str(d, "green") { Some(s) => s, None => return None };
            let yellow = match req_str(d, "yellow") { Some(s) => s, None => return None };
            let blue = match req_str(d, "blue") { Some(s) => s, None => return None };
            let magenta = match req_str(d, "magenta") { Some(s) => s, None => return None };
            let cyan = match req_str(d, "cyan") { Some(s) => s, None => return None };
            let white = match req_str(d, "white") { Some(s) => s, None => return None };
            Some(Colors { black, red, green, yellow, blue, magenta, cyan, white })
        },
        _ => None,
    }
}

/// Reads the primary colors out of a node; `None` where they are malformed.
pub fn read_primary(n: &Node) -> (r: Option<Primary>)
    ensures
        r == spec_primary(*n),
{
    match n {
        Node::Dict(d) => {
            let background = match req_str(d, "background") { Some(s) => s, None => return None };
            let foreground = match req_str(d, "foreground") { Some(s) => s, None => return None };
            let dim_foreground = match opt_str(d, "dim_foreground") {
                Some(s) => s,
                None => return None,
            };
            let bright_foreground = match opt_str(d, "bright_foreground") {
                Some(s) => s,
                None => return None,
            };
            let dim_background = match opt_str(d, "dim_background") {
                Some(s) => s,
                None => return None,
            };
            let bright_background = match opt_str(d, "bright_background") {
                Some(s) => s,
                None => return None,
            };
            Some(
                Primary {
                    background,
                    foreground,
                    dim_foreground,
                    bright_foreground,
                    dim_background,
                    bright_background,
                },
            )
        },
        _ => None,
    }
}

/// Reads the cursor colors out of a node; `None` where they are malformed.
pub fn read_cursor(n: &Node) -> (r: Option<Cursor>)
    ensures
        r == spec_cursor(*n),
{
    match n {
        Node::Dict(d) => {
            let text = match opt_str(d, "text") { Some(s) => s, None => return None };
            let cursor = match opt_str(d, "cursor") { Some(s) => s, None => return None };
            Some(Cursor { text, cursor })
        },
        _ => None,
    }
}

/// Reads the optional palette at `key`.
fn read_opt_colors(d: &Vec<(Node, Node)>, key: &str) -> (r: Option<Option<Colors>>)
    ensures
        r == spec_opt_colors(lookup(d@, key@)),
{
    match find_key(d, key) {
        None => Some(None),
        Some(i) => match &d[i].1 {
            Node::Null => Some(None),
            n => match read_colors(n) {
                Some(c) => Some(Some(c)),
                None => None,
            },
        },
    }
}

/// Reads the optional cursor colors at `key`.
fn read_opt_cursor(d: &Vec<(Node, Node)>, key: &str) -> (r: Option<Option<Cursor>>)
    ensures
        r == spec_opt_cursor(lookup(d@, key@)),
{
    match find_key(d, key) {
        None => Some(None),
        Some(i) => match &d[i].1 {
            Node::Null => Some(None),
            n => match read_cursor(n) {
                Some(c) => Some(Some(c)),
                None => None,
            },
        },
    }
}

/// Reads a theme out of a node; `None` where it is malformed.
pub fn read_theme(n: &Node) -> (r: Option<Theme>)
    ensures
        r == spec_theme(*n),
{
    match n {
        Node::Dict(d) => {
            let primary = match find_key(d, "primary") {
                Some(i) => match read_primary(&d[i].1) {
                    Some(p) => p,
                    None => return None,
                },
                None => return None,
            };
            let cursor = match read_opt_cursor(d, "cursor") { Some(c) => c, None => return None };
            let normal = match find_key(d, "normal") {
                Some(i) => match read_colors(&d[i].1) {
                    Some(c) => c,
                    None => return None,
                },
                None => return None,
            };
            let bright = match read_opt_colors(d, "bright") { Some(c) => c, None => return None };
            let dim = match read_opt_colors(d, "dim") { Some(c) => c, None => return None };
            Some(Theme { primary, cursor, normal, bright, dim })
        },
        _ => None,
    }
}

/// Reads a theme wrapper out of a node; `None` where it is malformed.
pub fn read_wrapper(n: &Node) -> (r: Option<ThemeWrapper>)
    ensures
        r == spec_wrapper(*n),
{
    match n {
        Node::Dict(d) => {
            let name = match opt_str(d, "name") { Some(s) => s, None => return None };
            match find_key(d, "colors") {
                Some(i) => match read_theme(&d[i].1) {
                    Some(colors) => Some(ThemeWrapper { name, colors }),
                    None => None,
                },
                None => None,
            }
        },
        _ => None,
    }
}

/// Reads a theme wrapper out of a YAML text.
pub fn parse_theme_wrapper(text: &str) -> (r: Result<ThemeWrapper, ThemeError>)
    ensures
        r == spec_wrapper_text(text@),
{
    match parse_yaml(text) {
        None => Err(ThemeError::NotYaml),
        Some(n) => match read_wrapper(&n) {
            Some(w) => Ok(w),
            None => Err(ThemeError::MalformedTheme),
        },
    }
}


// ---------------------------------------------------------------- writing

/// The entry `key: v` of a written record.
pub open spec fn str_entry(key: Seq<char>, v: String) -> (NodeView, NodeView) {
    (NodeView::Str(key), NodeView::Str(v@))
}

/// The entry `key: v` where there is a `v`; nothing where there is none.
pub open spec fn opt_entry(key: Seq<char>, v: Option<String>) -> Seq<(NodeView, NodeView)> {
    match v {
        Some(s) => seq![str_entry(key, s)],
        None => Seq::empty(),
    }
}

/// A palette as written: the eight colors, in order.
pub open spec fn colors_view(c: Colors) -> NodeView {
    NodeView::Dict(
        seq![
            str_entry("black"@, c.black),
            str_entry("red"@, c.red),
            str_entry("green"@, c.green),
            str_entry("yellow"@, c.yellow),
            str_entry("blue"@, c.blue),
            str_entry("magenta"@, c.magenta),
            str_entry("cyan"@, c.cyan),
            str_entry("white"@, c.white),
        ],
    )
}

/// The primary colors as written: background, foreground, then the
/// variants that are present.
pub open spec fn primary_view(p: Primary) -> NodeView {
    NodeView::Dict(
        seq![str_entry("background"@, p.background), str_entry("foreground"@, p.foreground)]
            + opt_entry("dim_foreground"@, p.dim_foreground) + opt_entry(
            "bright_foreground"@,
            p.bright_foreground,
        ) + opt_entry("dim_background"@, p.dim_background) + opt_entry(
            "bright_background"@,
            p.bright_background,
        ),
    )
}

/// The cursor colors as written: those that are present.
pub open spec fn cursor_view(c: Cursor) -> NodeView {
    NodeView::Dict(opt_entry("text"@, c.text) + opt_entry("cursor"@, c.cursor))
}

/// The entry `key: v` where there is a `v`, written by `f`.
pub open spec fn opt_part<T>(key: Seq<char>, v: Option<T>, f: spec_fn(T) -> NodeView) -> Seq<
    (NodeView, NodeView),
> {
    match v {
        Some(x) => seq![(NodeView::Str(key), f(x))],
        None => Seq::empty(),
    }
}

/// A theme as written: primary, cursor, normal, bright and dim, in that
/// order, leaving out the optional parts that are absent. No value is null.
pub open spec fn theme_view(t: Theme) -> NodeView {
    NodeView::Dict(
        seq![(NodeView::Str("primary"@), primary_view(t.primary))]
            + opt_part("cursor"@, t.cursor, |c: Cursor| cursor_view(c))
            + seq![(NodeView::Str("normal"@), colors_view(t.normal))]
            + opt_part("bright"@, t.bright, |c: Colors| colors_view(c))
            + opt_part("dim"@, t.dim, |c: Colors| colors_view(c)),
    )
}

/// Writes a palette as a dictionary of its eight colors.
#[verifier::rlimit(40)]
pub fn colors_node(c: &Colors) -> (r: Node)
    ensures
        spec_colors(r) == Some(*c),
        view_node(r) == colors_view(*c),
{
    let mut d: Vec<(Node, Node)> = Vec::new();
    push_entry(&mut d, "black", Node::Str(c.black.clone()));
    push_entry(&mut d, "red", Node::Str(c.red.clone()));
    push_entry(&mut d, "green", Node::Str(c.green.clone()));
    push_entry(&mut d, "yellow", Node::Str(c.yellow.clone()));
    push_entry(&mut d, "blue", Node::Str(c.blue.clone()));
    push_entry(&mut d, "magenta", Node::Str(c.magenta.clone()));
    push_entry(&mut d, "cyan", Node::Str(c.cyan.clone()));
    push_entry(&mut d, "white", Node::Str(c.white.clone()));
    proof {
        reveal_strlit("black");
        reveal_strlit("red");
        reveal_strlit("green");
        reveal_strlit("yellow");
        reveal_strlit("blue");
        reveal_strlit("magenta");
        reveal_strlit("cyan");
        reveal_strlit("white");
        assert("black"@[0] == 'b' && "red"@[0] == 'r' && "green"@[0] == 'g');
        assert("yellow"@[0] == 'y' && "magenta"@[0] == 'm' && "white"@[0] == 'w');
        assert("blue"@[0] == 'b' && "cyan"@[0] == 'c');
        assert("black"@.len() == 5 && "blue"@.len() == 4);
        assert(spec_req(d@, "black"@) == Some(c.black));
        assert(spec_req(d@, "red"@) == Some(c.red));
        assert(spec_req(d@, "green"@) == Some(c.green));
        assert(spec_req(d@, "yellow"@) == Some(c.yellow));
        assert(spec_req(d@, "blue"@) == Some(c.blue));
        assert(spec_req(d@, "magenta"@) == Some(c.magenta));
        assert(spec_req(d@, "cyan"@) == Some(c.cyan));
        assert(spec_req(d@, "white"@) == Some(c.white));
        lemma_view_dict(d);
        assert(view_entries(d@) =~= colors_view(*c)->Dict_0);
    }
    Node::Dict(d)
}


/// Writes the primary colors, leaving out the variants that are absent.
#[verifier::rlimit(40)]
pub fn primary_node(p: &Primary) -> (r: Node)
    ensures
        spec_primary(r) == Some(*p),
        view_node(r) == primary_view(*p),
{
    let mut d: Vec<(Node, Node)> = Vec::new();
    push_entry(&mut d, "background", Node::Str(p.background.clone()));
    push_entry(&mut d, "foreground", Node::Str(p.foreground.clone()));
    if let Some(s) = &p.dim_foreground {
        push_entry(&mut d, "dim_foreground", Node::Str(s.clone()));
    }
    if let Some(s) = &p.bright_foreground {
        push_entry(&mut d, "bright_foreground", Node::Str(s.clone()));
    }
    if let Some(s) = &p.dim_background {
        push_entry(&mut d, "dim_background", Node::Str(s.clone()));
    }
    if let Some(s) = &p.bright_background {
        push_entry(&mut d, "bright_background", Node::Str(s.clone()));
    }
    proof {
        reveal_strlit("background");
        reveal_strlit("foreground");
        reveal_strlit("dim_foreground");
        reveal_strlit("bright_foreground");
        reveal_strlit("dim_background");
        reveal_strlit("bright_background");
        assert("background"@[0] == 'b' && "foreground"@[0] == 'f');
        assert("background"@.len() == 10 && "dim_foreground"@.len() == 14);
        assert("dim_background"@.len() == 14 && "bright_foreground"@.len() == 17);
        assert("bright_background"@.len() == 17);
        assert("dim_foreground"@[4] == 'f' && "dim_background"@[4] == 'b');
        assert("bright_foreground"@[7] == 'f' && "bright_background"@[7] == 'b');
        assert(spec_req(d@, "background"@) == Some(p.background));
        assert(spec_req(d@, "foreground"@) == Some(p.foreground));
        assert(spec_opt(d@, "dim_foreground"@) == Some(p.dim_foreground));
        assert(spec_opt(d@, "bright_foreground"@) == Some(p.bright_foreground));
        assert(spec_opt(d@, "dim_background"@) == Some(p.dim_background));
        assert(spec_opt(d@, "bright_background"@) == Some(p.bright_background));
        lemma_view_dict(d);
        assert(view_entries(d@) =~= primary_view(*p)->Dict_0);
    }
    Node::Dict(d)
}

/// Writes the cursor colors, leaving out those that are absent.
pub fn cursor_node(c: &Cursor) -> (r: Node)
    ensures
        spec_cursor(r) == Some(*c),
        view_node(r) == cursor_view(*c),
{
    let mut d: Vec<(Node, Node)> = Vec::new();
    if let Some(s) = &c.text {
        push_entry(&mut d, "text", Node::Str(s.clone()));
    }
    if let Some(s) = &c.cursor {
        push_entry(&mut d, "cursor", Node::Str(s.clone()));
    }
    proof {
        reveal_strlit("text");
        reveal_strlit("cursor");
        assert("text"@[0] == 't' && "cursor"@[0] == 'c');
        assert(spec_opt(d@, "text"@) == Some(c.text));
        assert(spec_opt(d@, "cursor"@) == Some(c.cursor));
        lemma_view_dict(d);
        assert(view_entries(d@) =~= cursor_view(*c)->Dict_0);
    }
    Node::Dict(d)
}

/// Writes a theme, leaving out the optional parts that are absent.
#[verifier::rlimit(40)]
pub fn theme_node(t: &Theme) -> (r: Node)
    ensures
        spec_theme(r) == Some(*t),
        r is Dict,
        view_node(r) == theme_view(*t),
{
    let mut d: Vec<(Node, Node)> = Vec::new();
    push_entry(&mut d, "primary", primary_node(&t.primary));
    if let Some(c) = &t.cursor {
        push_entry(&mut d, "cursor", cursor_node(c));
    }
    push_entry(&mut d, "normal", colors_node(&t.normal));
    if let Some(c) = &t.bright {
        push_entry(&mut d, "bright", colors_node(c));
    }
    if let Some(c) = &t.dim {
        push_entry(&mut d, "dim", colors_node(c));
    }
    proof {
        reveal_strlit("primary");
        reveal_strlit("cursor");
        reveal_strlit("normal");
        reveal_strlit("bright");
        reveal_strlit("dim");
        assert("primary"@[0] == 'p' && "cursor"@[0] == 'c' && "normal"@[0] == 'n');
        assert("bright"@[0] == 'b' && "dim"@[0] == 'd');
        assert(spec_opt_cursor(lookup(d@, "cursor"@)) == Some(t.cursor));
        assert(spec_opt_colors(lookup(d@, "bright"@)) == Some(t.bright));
        assert(spec_opt_colors(lookup(d@, "dim"@)) == Some(t.dim));
        lemma_view_dict(d);
        assert(view_entries(d@) =~= theme_view(*t)->Dict_0);
    }
    Node::Dict(d)
}

/// Writes a theme wrapper: its theme under `colors`, and its name where it
/// has one.
pub fn wrapper_node(w: &ThemeWrapper) -> (r: Node)
    ensures
        spec_wrapper(r) == Some(*w),
{
    let mut d: Vec<(Node, Node)> = Vec::new();
    if let Some(s) = &w.name {
        push_entry(&mut d, "name", Node::Str(s.clone()));
    }
    push_entry(&mut d, "colors", theme_node(&w.colors));
    proof {
        reveal_strlit("name");
        reveal_strlit("colors");
        assert("name"@[0] == 'n' && "colors"@[0] == 'c');
        assert(spec_opt(d@, "name"@) == Some(w.name));
    }
    Node::Dict(d)
}

} // verus!
