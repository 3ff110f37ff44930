//! The decisions of a live-preview session: which preview signal each
//! highlight sends to the writer, and which final write ends the session.
use vstd::prelude::*;
use crate::catalog::Catalog;
use crate::config::{lemma_later_theme_replaces, theme_written, update_theme, with_theme, ConfigError};
use crate::node::NodeView;
use crate::themes::Theme;
use crate::themes::ThemeWrapper;

verus! {

/// An item of the selection list: the original configuration, or the
/// catalog's theme at a position of its ascending order.
#[derive(Clone, Copy, Debug, PartialEq, Eq, Structural)]
pub enum Item {
    Original,
    Theme(usize),
}

/// Where a session stands.
#[derive(Clone, Copy, Debug, PartialEq, Eq, Structural)]
pub enum Phase {
    Browsing,
    Previewing(usize),
    Confirmed(usize),
    Cancelled,
}

/// What the writer is asked to render while the user browses.
#[derive(Clone, Copy, Debug, PartialEq, Eq, Structural)]
pub enum Signal {
    /// Render the catalog's theme at this position.
    Preview(usize),
    /// Put back the original configuration.
    Revert,
}

/// The one write that ends a session, once the writer has drained.
#[derive(Clone, Copy, Debug, PartialEq, Eq, Structural)]
pub enum Finish {
    /// Write the confirmed theme again.
    Apply(usize),
    /// Put back the original configuration, byte for byte.
    Restore,
}

/// What the live configuration holds, as far as a session is concerned.
pub enum Live {
    /// The text captured when the session started.
    Original,
    /// The configuration with the catalog's theme at this position.
    Themed(usize),
}

/// Whether a session has ended.
pub open spec fn is_terminal(p: Phase) -> bool {
    p is Confirmed || p is Cancelled
}

/// The phase and signal that a highlight gives; no selection counts as the
/// original.
pub open spec fn spec_highlight(selected: Option<Item>) -> (Phase, Signal) {
    match selected {
        Some(Item::Theme(i)) => (Phase::Previewing(i), Signal::Preview(i)),
        _ => (Phase::Browsing, Signal::Revert),
    }
}

/// The phase and final write that confirming an item gives: confirming the
/// original puts it back.
pub open spec fn spec_confirm(item: Item) -> (Phase, Finish) {
    match item {
        Item::Theme(i) => (Phase::Confirmed(i), Finish::Apply(i)),
        Item::Original => (Phase::Cancelled, Finish::Restore),
    }
}

/// The signals that a run of highlights sends, in order.
pub open spec fn signals_of(selections: Seq<Option<Item>>) -> Seq<Signal> {
    selections.map_values(|s: Option<Item>| spec_highlight(s).1)
}

/// What the live configuration holds after the writer has rendered a
/// signal.
pub open spec fn live_after_signal(l: Live, s: Signal) -> Live {
    match s {
        Signal::Preview(i) => Live::Themed(i),
        Signal::Revert => Live::Original,
    }
}

/// What the live configuration holds after the writer has rendered some
/// signals, in order.
pub open spec fn live_after_signals(l: Live, ss: Seq<Signal>) -> Live
    decreases ss.len(),
{
    if ss.len() == 0 {
        l
    } else {
        live_after_signal(live_after_signals(l, ss.drop_last()), ss.last())
    }
}

/// What the live configuration holds after the final write.
pub open spec fn live_after_finish(l: Live, f: Finish) -> Live {
    match f {
        Finish::Apply(i) => Live::Themed(i),
        Finish::Restore => Live::Original,
    }
}

/// One interactive session over a catalog of `n` themes.
pub struct Session {
    phase: Phase,
    n: usize,
}

impl Session {
    pub closed spec fn phase(&self) -> Phase {
        self.phase
    }

    /// The number of themes that the list offers after the original.
    pub closed spec fn size(&self) -> nat {
        self.n as nat
    }

    /// Whether an item is on the session's list.
    pub open spec fn valid_item(&self, item: Item) -> bool {
        item matches Item::Theme(i) ==> i < self.size()
    }

    /// Starts a session over a catalog of `n` themes.
    pub fn start(n: usize) -> (r: Session)
        ensures
            r.phase() == Phase::Browsing,
            r.size() == n,
    {
        Session { phase: Phase::Browsing, n }
    }

    /// Where the session stands.
    pub fn current(&self) -> (r: Phase)
        ensures
            r == self.phase(),
    {
        self.phase
    }

    /// The user highlighted an item, or none: the signal to send to the
    /// writer.
    pub fn highlight(&mut self, selected: Option<Item>) -> (r: Signal)
        requires
            !is_terminal(old(self).phase()),
            selected matches Some(item) ==> old(self).valid_item(item),
        ensures
            (final(self).phase(), r) == spec_highlight(selected),
            final(self).size() == old(self).size(),
    {
        match selected {
            Some(Item::Theme(i)) => {
                self.phase = Phase::Previewing(i);
                Signal::Preview(i)
            },
            _ => {
                self.phase = Phase::Browsing;
                Signal::Revert
            },
        }
    }

    /// The user accepted an item: the final write, made once the writer has
    /// drained.
    pub fn confirm(&mut self, item: Item) -> (r: Finish)
        requires
            !is_terminal(old(self).phase()),
            old(self).valid_item(item),
        ensures
            (final(self).phase(), r) == spec_confirm(item),
            final(self).size() == old(self).size(),
    {
        match item {
            Item::Theme(i) => {
                self.phase = Phase::Confirmed(i);
                Finish::Apply(i)
            },
            Item::Original => {
                self.phase = Phase::Cancelled;
                Finish::Restore
            },
        }
    }

    /// The user aborted, or the session failed: the original is put back.
    pub fn cancel(&mut self) -> (r: Finish)
        ensures
            final(self).phase() == Phase::Cancelled,
            r == Finish::Restore,
            final(self).size() == old(self).size(),
    {
        self.phase = Phase::Cancelled;
        Finish::Restore
    }
}

/// The items of the selection list: the original first, then the catalog's
/// themes in ascending order of name.
pub fn display_items(catalog: &Catalog) -> (r: Vec<Item>)
    requires
        catalog.wf(),
    ensures
        r@.len() == catalog.entries().len() + 1,
        r@[0] == Item::Original,
        forall|i: int| 0 <= i < catalog.entries().len() ==> #[trigger] r@[i + 1] == Item::Theme(i as usize),
{
    let n = catalog.len();
    let mut items: Vec<Item> = Vec::new();
    items.push(Item::Original);
    let mut i: usize = 0;
    while i < n
        invariant
            n == catalog.entries().len(),
            i <= n,
            items@.len() == i + 1,
            items@[0] == Item::Original,
            forall|j: int| 0 <= j < i ==> #[trigger] items@[j + 1] == Item::Theme(j as usize),
        decreases n - i,
    {
        items.push(Item::Theme(i));
        i = i + 1;
    }
    items
}

/// The label of the original: `<original>`, padded with spaces to be longer
/// than every name and label of the catalog, so that it is none of them.
pub fn original_label(catalog: &Catalog) -> (r: String)
    requires
        catalog.wf(),
    ensures
        r@.len() >= "<original>"@.len(),
        r@.subrange(0, "<original>"@.len() as int) == "<original>"@,
        forall|k: int| "<original>"@.len() <= k < r@.len() ==> r@[k] == ' ',
        forall|i: int| 0 <= i < catalog.entries().len() ==> r@ != (#[trigger] catalog.entries()[i]).0@
            && (catalog.entries()[i].1.name matches Some(n) ==> r@ != n@),
        r@ != "(unknown)"@,
{
    let n = catalog.len();
    let mut longest: usize = 0;
    let mut i: usize = 0;
    while i < n
        invariant
            catalog.wf(),
            n == catalog.entries().len(),
            i <= n,
            forall|j: int| 0 <= j < i ==> (#[trigger] catalog.entries()[j]).0@.len() <= longest
                && (catalog.entries()[j].1.name matches Some(m) ==> m@.len() <= longest),
        decreases n - i,
    {
        let l = catalog.name_at(i).as_str().unicode_len();
        if l > longest {
            longest = l;
        }
        if let Some(m) = &catalog.theme_at(i).name {
            let l2 = m.as_str().unicode_len();
            if l2 > longest {
                longest = l2;
            }
        }
        i = i + 1;
    }
    proof {
        reveal_strlit("<original>");
        reveal_strlit("(unknown)");
    }
    let mut label = String::from_str("<original>");
    while label.as_str().unicode_len() <= longest
        invariant
            label@.len() >= "<original>"@.len(),
            label@.subrange(0, "<original>"@.len() as int) == "<original>"@,
            forall|k: int| "<original>"@.len() <= k < label@.len() ==> label@[k] == ' ',
            "<original>"@.len() == 10,
        decreases longest + 1 - label@.len(),
    {
        proof {
            reveal_strlit(" ");
        }
        let ghost before = label@;
        label.append(" ");
        proof {
            assert(label@.subrange(0, 10) =~= before.subrange(0, 10));
        }
    }
    proof {
        assert("<original>"@[0] == '<');
        assert(label@.subrange(0, 10)[0] == label@[0]);
        assert("(unknown)"@[0] == '(');
    }
    label
}

/// The label that the selection list shows for an item: the theme's own
/// name, `(unknown)` for a theme without one, and for the original a label
/// that no theme has (see `original_label`).
pub fn item_text(catalog: &Catalog, item: Item) -> (r: String)
    requires
        catalog.wf(),
        item matches Item::Theme(i) ==> i < catalog.entries().len(),
    ensures
        item is Original ==> forall|i: int| 0 <= i < catalog.entries().len()
            ==> r@ != (#[trigger] catalog.entries()[i]).0@
            && (catalog.entries()[i].1.name matches Some(n) ==> r@ != n@),
        item is Original ==> r@ != "(unknown)"@,
        item matches Item::Theme(i) ==> match catalog.entries()[i as int].1.name {
            Some(n) => r@ == n@,
            None => r@ == "(unknown)"@,
        },
{
    match item {
        Item::Original => original_label(catalog),
        Item::Theme(i) => match &catalog.theme_at(i).name {
            Some(name) => name.clone(),
            None => String::from_str("(unknown)"),
        },
    }
}

/// The theme that ends a session, with its name; `None` where the session
/// put the original back.
pub fn selected_theme(catalog: &Catalog, f: Finish) -> (r: Option<(&String, &ThemeWrapper)>)
    requires
        catalog.wf(),
        f matches Finish::Apply(i) ==> i < catalog.entries().len(),
    ensures
        f is Restore ==> r is None,
        f matches Finish::Apply(i) ==> (r matches Some(p) && *p.0 == catalog.entries()[i as int].0
            && *p.1 == catalog.entries()[i as int].1),
{
    match f {
        Finish::Apply(i) => Some((catalog.name_at(i), catalog.theme_at(i))),
        Finish::Restore => None,
    }
}

/// The text the writer puts in the live configuration for a signal: the
/// current text with the theme's colors, or the original text unchanged.
pub fn render_signal(catalog: &Catalog, current: &str, original: &String, s: Signal) -> (r: Result<String, ConfigError>)
    requires
        catalog.wf(),
        s matches Signal::Preview(i) ==> i < catalog.entries().len(),
    ensures
        s is Revert ==> (r matches Ok(t) && t@ == original@),
        s matches Signal::Preview(i) ==> theme_written(current@, catalog.entries()[i as int].1.colors, r),
{
    match s {
        Signal::Revert => Ok(original.clone()),
        Signal::Preview(i) => update_theme(current, catalog.theme_at(i)),
    }
}

/// The text of the final write of a session: the current text with the
/// confirmed theme's colors, or the original text unchanged.
pub fn render_finish(catalog: &Catalog, current: &str, original: &String, f: Finish) -> (r: Result<String, ConfigError>)
    requires
        catalog.wf(),
        f matches Finish::Apply(i) ==> i < catalog.entries().len(),
    ensures
        f is Restore ==> (r matches Ok(t) && t@ == original@),
        f matches Finish::Apply(i) ==> theme_written(current@, catalog.entries()[i as int].1.colors, r),
{
    match f {
        Finish::Restore => Ok(original.clone()),
        Finish::Apply(i) => update_theme(current, catalog.theme_at(i)),
    }
}


/// The phase after a run of highlights from the start of a session.
pub open spec fn browse(selections: Seq<Option<Item>>) -> Phase {
    if selections.len() == 0 {
        Phase::Browsing
    } else {
        spec_highlight(selections.last()).0
    }
}

/// However many themes were previewed, in whatever order, and whichever of
/// their signals the writer had rendered when the user cancelled, the
/// session ends cancelled with the original configuration back in place.
pub proof fn lemma_cancel_restores(selections: Seq<Option<Item>>, rendered: Seq<Signal>)
    ensures
        !is_terminal(browse(selections)),
        live_after_finish(live_after_signals(Live::Original, rendered), Finish::Restore)
            == Live::Original,
        live_after_finish(live_after_signals(Live::Original, rendered), spec_confirm(Item::Original).1)
            == Live::Original,
{
}

/// Previewing A and then B and confirming B leaves B's theme in the live
/// configuration, however many signals for A the writer was still
/// rendering when the user confirmed.
/// The entries the writer renders a preview of A from may be the original
/// ones or the outcome of earlier previews; the confirmed write of B over
/// any of them is the same as writing B over the original entries.
pub proof fn lemma_confirm_final(
    a: usize,
    b: usize,
    rendered: Seq<Signal>,
    d: Seq<(NodeView, NodeView)>,
    ta: Theme,
    tb: Theme,
)
    ensures
        with_theme(with_theme(d, ta), tb) == with_theme(d, tb),
        browse(seq![Some(Item::Theme(a)), Some(Item::Theme(b))]) == Phase::Previewing(b),
        signals_of(seq![Some(Item::Theme(a)), Some(Item::Theme(b))])
            == seq![Signal::Preview(a), Signal::Preview(b)],
        spec_confirm(Item::Theme(b)) == (Phase::Confirmed(b), Finish::Apply(b)),
        live_after_finish(live_after_signals(Live::Original, rendered), spec_confirm(Item::Theme(b)).1)
            == Live::Themed(b),
{
    lemma_later_theme_replaces(d, ta, tb);
    let sels = seq![Some(Item::Theme(a)), Some(Item::Theme(b))];
    assert(signals_of(sels) =~= seq![Signal::Preview(a), Signal::Preview(b)]);
}

} // verus!
