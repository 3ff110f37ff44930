//! A structured document as a tree of plain values, with the YAML text
//! format read and written by serde_yaml.
use vstd::prelude::*;
use vstd::string::*;

verus! {

#[verifier::external_type_specification]
#[verifier::external_body]
pub struct ExYamlValue(serde_yaml::Value);

#[verifier::external_type_specification]
#[verifier::external_body]
pub struct ExYamlNumber(serde_yaml::Number);

/// One value of a structured document. A `Dict` keeps its entries in
/// document order.
pub enum Node {
    Null,
    Bool(bool),
    Number(serde_yaml::Number),
    Str(String),
    List(Vec<Node>),
    Dict(Vec<(Node, Node)>),
}

/// A node with its strings seen as character sequences.
pub enum NodeView {
    Null,
    Bool(bool),
    Number(serde_yaml::Number),
    Str(Seq<char>),
    List(Seq<NodeView>),
    Dict(Seq<(NodeView, NodeView)>),
}

/// The view of a node.
pub open spec fn view_node(n: Node) -> NodeView
    decreases n,
{
    match n {
        Node::Null => NodeView::Null,
        Node::Bool(b) => NodeView::Bool(b),
        Node::Number(x) => NodeView::Number(x),
        Node::Str(s) => NodeView::Str(s@),
        Node::List(v) => NodeView::List(
            Seq::new(v@.len(), |i: int| if 0 <= i < v@.len() { view_node(v@[i]) } else { NodeView::Null }),
        ),
        Node::Dict(v) => NodeView::Dict(
            Seq::new(
                v@.len(),
                |i: int| if 0 <= i < v@.len() {
                    (view_node(v@[i].0), view_node(v@[i].1))
                } else {
                    (NodeView::Null, NodeView::Null)
                },
            ),
        ),
    }
}

/// The views of the entries of a dictionary.
pub open spec fn view_entries(d: Seq<(Node, Node)>) -> Seq<(NodeView, NodeView)> {
    Seq::new(d.len(), |i: int| (view_node(d[i].0), view_node(d[i].1)))
}

/// A dictionary's view is the dictionary of its entries' views.
pub proof fn lemma_view_dict(v: Vec<(Node, Node)>)
    ensures
        view_node(Node::Dict(v)) == NodeView::Dict(view_entries(v@)),
{
    assert(view_entries(v@) =~= match view_node(Node::Dict(v)) {
        NodeView::Dict(e) => e,
        _ => Seq::empty(),
    });
}

/// A key is `key` exactly where its view is the string `key`.
pub proof fn lemma_key_is_view(n: Node, key: Seq<char>)
    ensures
        key_is(n, key) <==> view_node(n) == NodeView::Str(key),
{
}

/// `d` with the value of its first entry under `key` at or after `i` set to
/// `v`, or with `key: v` added at the end where there is none.
pub open spec fn set_entry_from(
    d: Seq<(NodeView, NodeView)>,
    key: Seq<char>,
    v: NodeView,
    i: int,
) -> Seq<(NodeView, NodeView)>
    decreases d.len() - i,
{
    if i < 0 || i >= d.len() {
        d.push((NodeView::Str(key), v))
    } else if d[i].0 == NodeView::Str(key) {
        d.update(i, (d[i].0, v))
    } else {
        set_entry_from(d, key, v, i + 1)
    }
}

/// `d` with the value of its first entry under `key` set to `v`, or with
/// `key: v` added at the end where there is none.
pub open spec fn set_entry(d: Seq<(NodeView, NodeView)>, key: Seq<char>, v: NodeView) -> Seq<
    (NodeView, NodeView),
> {
    set_entry_from(d, key, v, 0)
}

proof fn lemma_set_entry_from_prefix(d: Seq<(NodeView, NodeView)>, key: Seq<char>, v: NodeView, i: int)
    requires
        0 <= i <= d.len(),
    ensures
        set_entry_from(d, key, v, i).len() >= d.len(),
        forall|j: int| 0 <= j < i ==> #[trigger] set_entry_from(d, key, v, i)[j] == d[j],
    decreases d.len() - i,
{
    if i < d.len() && d[i].0 != NodeView::Str(key) {
        lemma_set_entry_from_prefix(d, key, v, i + 1);
    }
}

proof fn lemma_set_entry_from_twice(
    d: Seq<(NodeView, NodeView)>,
    key: Seq<char>,
    v1: NodeView,
    v2: NodeView,
    i: int,
)
    requires
        0 <= i <= d.len(),
    ensures
        set_entry_from(set_entry_from(d, key, v1, i), key, v2, i) == set_entry_from(d, key, v2, i),
    decreases d.len() - i,
{
    let s1 = set_entry_from(d, key, v1, i);
    if i >= d.len() {
        assert(s1[i].0 == NodeView::Str(key));
        assert(s1.update(i, (s1[i].0, v2)) =~= d.push((NodeView::Str(key), v2)));
    } else if d[i].0 == NodeView::Str(key) {
        assert(s1.update(i, (s1[i].0, v2)) =~= d.update(i, (d[i].0, v2)));
    } else {
        lemma_set_entry_from_prefix(d, key, v1, i + 1);
        assert(s1[i] == d[i]);
        lemma_set_entry_from_twice(d, key, v1, v2, i + 1);
    }
}

/// Setting an entry twice is setting it to the second value: the first
/// value leaves no trace, and setting the same value again changes nothing.
pub proof fn lemma_set_entry_twice(
    d: Seq<(NodeView, NodeView)>,
    key: Seq<char>,
    v1: NodeView,
    v2: NodeView,
)
    ensures
        set_entry(set_entry(d, key, v1), key, v2) == set_entry(d, key, v2),
        set_entry(set_entry(d, key, v1), key, v1) == set_entry(d, key, v1),
{
    lemma_set_entry_from_twice(d, key, v1, v2, 0);
    lemma_set_entry_from_twice(d, key, v1, v1, 0);
}

proof fn lemma_set_entry_from_at(
    d: Seq<(NodeView, NodeView)>,
    key: Seq<char>,
    v: NodeView,
    j: int,
    i: int,
)
    requires
        0 <= j <= i <= d.len(),
        forall|m: int| j <= m < i ==> #[trigger] d[m].0 != NodeView::Str(key),
        i < d.len() ==> d[i].0 == NodeView::Str(key),
    ensures
        set_entry_from(d, key, v, j) == if i < d.len() {
            d.update(i, (d[i].0, v))
        } else {
            d.push((NodeView::Str(key), v))
        },
    decreases i - j,
{
    if j < i {
        lemma_set_entry_from_at(d, key, v, j + 1, i);
    }
}

/// Setting `key` in entries whose first entry under `key` is at `i` (or that
/// have none, `i == d.len()`) replaces that entry's value, or appends one.
pub proof fn lemma_set_entry_at(d: Seq<(NodeView, NodeView)>, key: Seq<char>, v: NodeView, i: int)
    requires
        0 <= i <= d.len(),
        forall|m: int| 0 <= m < i ==> #[trigger] d[m].0 != NodeView::Str(key),
        i < d.len() ==> d[i].0 == NodeView::Str(key),
    ensures
        set_entry(d, key, v) == if i < d.len() {
            d.update(i, (d[i].0, v))
        } else {
            d.push((NodeView::Str(key), v))
        },
{
    lemma_set_entry_from_at(d, key, v, 0, i);
}

/// The tree that serde_yaml reads from a text, or `None` where the text is
/// not well-formed YAML.
pub uninterp spec fn yaml_of(text: Seq<char>) -> Option<Node>;

/// The YAML text that serde_yaml writes for a tree, or `None` where it
/// refuses to write one.
pub uninterp spec fn yaml_text_of(n: NodeView) -> Option<Seq<char>>;

/// Relies on the variants of serde_yaml::Value: each becomes the node of the
/// same shape, its fields moved over.
#[verifier::external_body]
fn node_of(v: serde_yaml::Value) -> Node {
    match v {
        serde_yaml::Value::Null => Node::Null,
        serde_yaml::Value::Bool(b) => Node::Bool(b),
        serde_yaml::Value::Number(n) => Node::Number(n),
        serde_yaml::Value::String(s) => Node::Str(s),
        serde_yaml::Value::Sequence(s) => Node::List(s.into_iter().map(node_of).collect()),
        serde_yaml::Value::Mapping(m) => Node::Dict(
            m.into_iter().map(|(k, v)| (node_of(k), node_of(v))).collect(),
        ),
    }
}

/// Relies on the variants of serde_yaml::Value: each node becomes the value
/// of the same shape, its fields moved over.
#[verifier::external_body]
fn value_of(n: Node) -> serde_yaml::Value {
    match n {
        Node::Null => serde_yaml::Value::Null,
        Node::Bool(b) => serde_yaml::Value::Bool(b),
        Node::Number(n) => serde_yaml::Value::Number(n),
        Node::Str(s) => serde_yaml::Value::String(s),
        Node::List(s) => serde_yaml::Value::Sequence(s.into_iter().map(value_of).collect()),
        Node::Dict(m) => serde_yaml::Value::Mapping(
            m.into_iter().map(|(k, v)| (value_of(k), value_of(v))).collect(),
        ),
    }
}

/// Relies on serde_yaml::from_str into a generic Value: the outcome depends
/// on the text alone.
#[verifier::external_body]
pub(crate) fn parse_yaml(text: &str) -> (r: Option<Node>)
    ensures
        r == yaml_of(text@),
{
    serde_yaml::from_str::<serde_yaml::Value>(text).ok().map(node_of)
}

/// Relies on serde_yaml::to_string of a generic Value: the outcome depends
/// on the tree alone.
#[verifier::external_body]
pub(crate) fn render_yaml(n: Node) -> (r: Option<String>)
    ensures
        r is Some <==> yaml_text_of(view_node(n)) is Some,
        r matches Some(s) ==> yaml_text_of(view_node(n)) == Some(s@),
{
    serde_yaml::to_string(&value_of(n)).ok()
}

/// Whether a node is the string `key`.
pub open spec fn key_is(n: Node, key: Seq<char>) -> bool {
    n matches Node::Str(s) && s@ == key
}

/// The value of the first entry at or after `i` whose key is `key`.
pub open spec fn lookup_from(d: Seq<(Node, Node)>, key: Seq<char>, i: int) -> Option<Node>
    decreases d.len() - i,
{
    if i < 0 || i >= d.len() {
        None
    } else if key_is(d[i].0, key) {
        Some(d[i].1)
    } else {
        lookup_from(d, key, i + 1)
    }
}

/// The value of the first entry of a dictionary whose key is `key`.
pub open spec fn lookup(d: Seq<(Node, Node)>, key: Seq<char>) -> Option<Node> {
    lookup_from(d, key, 0)
}

/// Whether two texts hold the same characters.
pub fn text_is(s: &str, t: &str) -> (r: bool)
    ensures
        r == (s@ == t@),
{
    let n = s.unicode_len();
    if n != t.unicode_len() {
        return false;
    }
    let mut i: usize = 0;
    while i < n
        invariant
            n == s@.len(),
            n == t@.len(),
            i <= n,
            forall|j: int| 0 <= j < i ==> s@[j] == t@[j],
        decreases n - i,
    {
        if s.get_char(i) != t.get_char(i) {
            return false;
        }
        i = i + 1;
    }
    assert(s@ =~= t@);
    true
}

/// The position of the first entry of `d` whose key is `key`.
pub fn find_key(d: &Vec<(Node, Node)>, key: &str) -> (r: Option<usize>)
    ensures
        r matches Some(i) ==> i < d@.len() && key_is(d@[i as int].0, key@)
            && lookup(d@, key@) == Some(d@[i as int].1)
            && forall|j: int| 0 <= j < i ==> !key_is(#[trigger] d@[j].0, key@),
        r is None ==> lookup(d@, key@) is None,
        r is None ==> forall|j: int| 0 <= j < d@.len() ==> !key_is(#[trigger] d@[j].0, key@),
{
    let mut i: usize = 0;
    while i < d.len()
        invariant
            i <= d@.len(),
            lookup(d@, key@) == lookup_from(d@, key@, i as int),
            forall|j: int| 0 <= j < i ==> !key_is(#[trigger] d@[j].0, key@),
        decreases d@.len() - i,
    {
        let hit = match &d[i].0 {
            Node::Str(s) => text_is(s.as_str(), key),
            _ => false,
        };
        if hit {
            return Some(i);
        }
        i = i + 1;
    }
    None
}

/// The string at `key`, where there is one. Only a string scalar counts: an
/// unquoted number such as `0x1d1f21` is read by serde_yaml as a number and
/// is not taken as a color.
pub open spec fn spec_req(d: Seq<(Node, Node)>, key: Seq<char>) -> Option<String> {
    match lookup(d, key) {
        Some(Node::Str(s)) => Some(s),
        _ => None,
    }
}

/// An optional string at `key`: absent or null is `Some(None)`; anything but
/// a string or null there is `None`.
pub open spec fn spec_opt(d: Seq<(Node, Node)>, key: Seq<char>) -> Option<Option<String>> {
    match lookup(d, key) {
        None => Some(None),
        Some(Node::Null) => Some(None),
        Some(Node::Str(s)) => Some(Some(s)),
        _ => None,
    }
}

/// Reads the string that a dictionary holds at `key`.
pub fn req_str(d: &Vec<(Node, Node)>, key: &str) -> (r: Option<String>)
    ensures
        r == spec_req(d@, key@),
{
    match find_key(d, key) {
        Some(i) => match &d[i].1 {
            Node::Str(s) => Some(s.clone()),
            _ => None,
        },
        None => None,
    }
}

/// Reads an optional string that a dictionary holds at `key`.
pub fn opt_str(d: &Vec<(Node, Node)>, key: &str) -> (r: Option<Option<String>>)
    ensures
        r == spec_opt(d@, key@),
{
    match find_key(d, key) {
        Some(i) => match &d[i].1 {
            Node::Null => Some(None),
            Node::Str(s) => Some(Some(s.clone())),
            _ => None,
        },
        None => Some(None),
    }
}

proof fn lemma_lookup_from_push(d: Seq<(Node, Node)>, p: (Node, Node), key: Seq<char>, i: int)
    requires
        0 <= i <= d.len(),
    ensures
        lookup_from(d.push(p), key, i) == (if lookup_from(d, key, i) is Some {
            lookup_from(d, key, i)
        } else if key_is(p.0, key) {
            Some(p.1)
        } else {
            None
        }),
    decreases d.len() - i,
{
    let e = d.push(p);
    if i < d.len() {
        assert(e[i] == d[i]);
        lemma_lookup_from_push(d, p, key, i + 1);
    } else {
        assert(e[i] == p);
        assert(lookup_from(e, key, i + 1) is None);
    }
}

/// Adding an entry at the end of a dictionary changes a lookup only where
/// the key was not there before.
pub proof fn lemma_lookup_push(d: Seq<(Node, Node)>, p: (Node, Node))
    ensures
        forall|key: Seq<char>| #[trigger]
            lookup(d.push(p), key) == (if lookup(d, key) is Some {
                lookup(d, key)
            } else if key_is(p.0, key) {
                Some(p.1)
            } else {
                None
            }),
{
    assert forall|key: Seq<char>| #[trigger]
        lookup(d.push(p), key) == (if lookup(d, key) is Some {
            lookup(d, key)
        } else if key_is(p.0, key) {
            Some(p.1)
        } else {
            None
        }) by {
        lemma_lookup_from_push(d, p, key, 0);
    }
}

proof fn lemma_lookup_from_update(
    d: Seq<(Node, Node)>,
    i: int,
    e: (Node, Node),
    key: Seq<char>,
    j: int,
)
    requires
        0 <= j <= i < d.len(),
    ensures
        key_is(e.0, key) && (forall|m: int| j <= m < i ==> !key_is(#[trigger] d[m].0, key))
            ==> lookup_from(d.update(i, e), key, j) == Some(e.1),
        !key_is(e.0, key) && !key_is(d[i].0, key) ==> lookup_from(d.update(i, e), key, j)
            == lookup_from(d, key, j),
    decreases d.len() - j,
{
    let u = d.update(i, e);
    if j < i {
        assert(u[j] == d[j]);
        lemma_lookup_from_update(d, i, e, key, j + 1);
    } else if !key_is(e.0, key) && !key_is(d[i].0, key) {
        lemma_lookup_from_tail(d, u, key, i + 1);
    }
}

proof fn lemma_lookup_from_tail(d: Seq<(Node, Node)>, u: Seq<(Node, Node)>, key: Seq<char>, j: int)
    requires
        0 <= j,
        d.len() == u.len(),
        forall|m: int| j <= m < d.len() ==> #[trigger] u[m] == d[m],
    ensures
        lookup_from(u, key, j) == lookup_from(d, key, j),
    decreases d.len() - j,
{
    if j < d.len() {
        lemma_lookup_from_tail(d, u, key, j + 1);
    }
}

/// Replacing the value of the first entry under `key` changes the lookup
/// of `key` only; the lookup of a key that neither the old nor the new
/// entry has is unchanged.
pub proof fn lemma_lookup_update(d: Seq<(Node, Node)>, i: int, e: (Node, Node), key: Seq<char>)
    requires
        0 <= i < d.len(),
    ensures
        key_is(e.0, key) && (forall|m: int| 0 <= m < i ==> !key_is(#[trigger] d[m].0, key))
            ==> lookup(d.update(i, e), key) == Some(e.1),
        !key_is(e.0, key) && !key_is(d[i].0, key) ==> lookup(d.update(i, e), key) == lookup(d, key),
{
    lemma_lookup_from_update(d, i, e, key, 0);
}

/// Appends the entry `key: v` to a dictionary.
pub fn push_entry(d: &mut Vec<(Node, Node)>, key: &str, v: Node)
    ensures
        final(d)@.len() == old(d)@.len() + 1,
        final(d)@.drop_last() == old(d)@,
        key_is(final(d)@.last().0, key@),
        final(d)@.last().1 == v,
        view_entries(final(d)@) == view_entries(old(d)@).push((NodeView::Str(key@), view_node(v))),
        forall|k: Seq<char>| #[trigger]
            lookup(final(d)@, k) == (if lookup(old(d)@, k) is Some {
                lookup(old(d)@, k)
            } else if k == key@ {
                Some(v)
            } else {
                None
            }),
{
    let k = str_node(key);
    proof {
        lemma_lookup_push(d@, (k, v));
    }
    d.push((k, v));
    proof {
        assert(d@.drop_last() =~= old(d)@);
        assert(view_entries(d@) =~= view_entries(old(d)@).push((NodeView::Str(key@), view_node(v))));
    }
}

/// A string node holding the characters of `s`.
pub fn str_node(s: &str) -> (r: Node)
    ensures
        r matches Node::Str(t) && t@ == s@,
{
    Node::Str(String::from_str(s))
}

} // verus!
