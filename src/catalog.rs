//! The catalog of themes: one theme per name, kept in ascending order of
//! name.
use vstd::prelude::*;
use crate::themes::ThemeWrapper;

verus! {

/// Whether `a` comes before `b`, comparing characters from position `i` on
/// by their code points; a proper prefix comes first.
pub open spec fn lt_from(a: Seq<char>, b: Seq<char>, i: int) -> bool
    decreases a.len() - i,
{
    if i < 0 || i >= a.len() {
        0 <= i < b.len()
    } else if i >= b.len() {
        false
    } else if a[i] != b[i] {
        (a[i] as u32) < (b[i] as u32)
    } else {
        lt_from(a, b, i + 1)
    }
}

/// The ordinal order of names.
pub open spec fn name_lt(a: Seq<char>, b: Seq<char>) -> bool {
    lt_from(a, b, 0)
}

proof fn lemma_lt_from_irrefl(a: Seq<char>, i: int)
    requires
        0 <= i,
    ensures
        !lt_from(a, a, i),
    decreases a.len() - i,
{
    if i < a.len() {
        lemma_lt_from_irrefl(a, i + 1);
    }
}

proof fn lemma_lt_from_trans(a: Seq<char>, b: Seq<char>, c: Seq<char>, i: int)
    requires
        0 <= i,
        lt_from(a, b, i),
        lt_from(b, c, i),
    ensures
        lt_from(a, c, i),
    decreases a.len() - i,
{
    if i < a.len() && i < b.len() && i < c.len() && a[i] == b[i] && b[i] == c[i] {
        lemma_lt_from_trans(a, b, c, i + 1);
    }
}

/// The ordinal order is a strict order.
pub proof fn lemma_name_lt_strict(a: Seq<char>, b: Seq<char>, c: Seq<char>)
    ensures
        !name_lt(a, a),
        name_lt(a, b) && name_lt(b, c) ==> name_lt(a, c),
{
    lemma_lt_from_irrefl(a, 0);
    if name_lt(a, b) && name_lt(b, c) {
        lemma_lt_from_trans(a, b, c, 0);
    }
}

/// Compares two names in the ordinal order: negative where `a` comes first,
/// zero where they are equal, positive where `b` comes first.
pub fn compare_names(a: &str, b: &str) -> (r: i8)
    ensures
        r < 0 <==> name_lt(a@, b@),
        r == 0 <==> a@ == b@,
        r > 0 <==> name_lt(b@, a@),
{
    let la = a.unicode_len();
    let lb = b.unicode_len();
    let mut i: usize = 0;
    while i < la && i < lb
        invariant
            la == a@.len(),
            lb == b@.len(),
            i <= la,
            i <= lb,
            forall|j: int| 0 <= j < i ==> a@[j] == b@[j],
            name_lt(a@, b@) == lt_from(a@, b@, i as int),
            name_lt(b@, a@) == lt_from(b@, a@, i as int),
        decreases la - i,
    {
        let ca = a.get_char(i);
        let cb = b.get_char(i);
        if ca != cb {
            proof {
                lemma_lt_from_irrefl(a@, 0);
                lemma_lt_from_irrefl(b@, 0);
            }
            if (ca as u32) < (cb as u32) {
                return -1;
            } else {
                return 1;
            }
        }
        i = i + 1;
    }
    proof {
        lemma_lt_from_irrefl(a@, 0);
    }
    if la == lb {
        assert(a@ =~= b@);
        0
    } else if la < lb {
        -1
    } else {
        1
    }
}

/// The map that a list of entries with distinct names stands for.
pub open spec fn to_map(es: Seq<(String, ThemeWrapper)>) -> Map<Seq<char>, ThemeWrapper>
    decreases es.len(),
{
    if es.len() == 0 {
        Map::empty()
    } else {
        to_map(es.drop_last()).insert(es.last().0@, es.last().1)
    }
}

/// Whether the names of a list of entries ascend strictly.
pub open spec fn ascending(es: Seq<(String, ThemeWrapper)>) -> bool {
    forall|i: int, j: int| 0 <= i < j < es.len() ==> name_lt(es[i].0@, es[j].0@)
}

proof fn lemma_ascending_distinct(es: Seq<(String, ThemeWrapper)>, i: int, j: int)
    requires
        ascending(es),
        0 <= i < es.len(),
        0 <= j < es.len(),
        i != j,
    ensures
        es[i].0@ != es[j].0@,
{
    lemma_name_lt_strict(es[i].0@, es[j].0@, es[j].0@);
    lemma_name_lt_strict(es[j].0@, es[i].0@, es[i].0@);
}

proof fn lemma_to_map_has(es: Seq<(String, ThemeWrapper)>, k: Seq<char>)
    requires
        ascending(es),
    ensures
        to_map(es).contains_key(k) <==> exists|i: int| 0 <= i < es.len() && es[i].0@ == k,
        forall|i: int| 0 <= i < es.len() && es[i].0@ == k ==> to_map(es)[k] == es[i].1,
    decreases es.len(),
{
    if es.len() > 0 {
        let dl = es.drop_last();
        assert(ascending(dl));
        lemma_to_map_has(dl, k);
        assert forall|i: int| 0 <= i < es.len() && es[i].0@ == k implies to_map(es)[k] == es[i].1 by {
            if i < es.len() - 1 {
                lemma_ascending_distinct(es, i, es.len() - 1);
                assert(dl[i] == es[i]);
            }
        }
        if exists|i: int| 0 <= i < es.len() && es[i].0@ == k {
            let i = choose|i: int| 0 <= i < es.len() && es[i].0@ == k;
            if i < es.len() - 1 {
                assert(dl[i] == es[i]);
            }
        }
        if exists|i: int| 0 <= i < dl.len() && dl[i].0@ == k {
            let i = choose|i: int| 0 <= i < dl.len() && dl[i].0@ == k;
            assert(es[i] == dl[i]);
        }
    }
}

proof fn lemma_to_map_update(es: Seq<(String, ThemeWrapper)>, i: int, e: (String, ThemeWrapper))
    requires
        ascending(es),
        0 <= i < es.len(),
        e.0@ == es[i].0@,
    ensures
        to_map(es.update(i, e)) == to_map(es).insert(e.0@, e.1),
    decreases es.len(),
{
    let ne = es.update(i, e);
    if i == es.len() - 1 {
        assert(ne.drop_last() =~= es.drop_last());
    } else {
        let dl = es.drop_last();
        assert(ne.drop_last() =~= dl.update(i, e));
        assert(ascending(dl));
        lemma_to_map_update(dl, i, e);
        lemma_ascending_distinct(es, i, es.len() - 1);
    }
    assert(to_map(ne) =~= to_map(es).insert(e.0@, e.1));
}

proof fn lemma_to_map_insert(es: Seq<(String, ThemeWrapper)>, p: int, e: (String, ThemeWrapper))
    requires
        0 <= p <= es.len(),
        forall|j: int| 0 <= j < es.len() ==> es[j].0@ != e.0@,
    ensures
        to_map(es.insert(p, e)) == to_map(es).insert(e.0@, e.1),
    decreases es.len(),
{
    let ne = es.insert(p, e);
    if p == es.len() {
        assert(ne.drop_last() =~= es);
    } else {
        let dl = es.drop_last();
        assert(ne.drop_last() =~= dl.insert(p, e));
        lemma_to_map_insert(dl, p, e);
        assert(to_map(ne) =~= to_map(es).insert(e.0@, e.1));
    }
}

/// The catalog of themes, one per name.
pub struct Catalog {
    entries: Vec<(String, ThemeWrapper)>,
}

impl View for Catalog {
    type V = Map<Seq<char>, ThemeWrapper>;

    /// The themes of the catalog, by name.
    open spec fn view(&self) -> Map<Seq<char>, ThemeWrapper> {
        to_map(self.entries())
    }
}

impl Catalog {
    /// The entries, in ascending order of name.
    pub closed spec fn entries(&self) -> Seq<(String, ThemeWrapper)> {
        self.entries@
    }

    /// The names of the catalog, in ascending order.
    pub open spec fn names(&self) -> Seq<Seq<char>> {
        self.entries().map_values(|e: (String, ThemeWrapper)| e.0@)
    }

    pub open spec fn wf(&self) -> bool {
        ascending(self.entries())
    }

    /// An empty catalog.
    pub fn new() -> (r: Catalog)
        ensures
            r.wf(),
            r@ == Map::<Seq<char>, ThemeWrapper>::empty(),
            r.entries().len() == 0,
    {
        Catalog { entries: Vec::new() }
    }

    /// The number of themes.
    pub fn len(&self) -> (r: usize)
        requires
            self.wf(),
        ensures
            r == self.entries().len(),
            r == self@.len(),
    {
        proof {
            self.lemma_len();
        }
        self.entries.len()
    }

    proof fn lemma_len(&self)
        requires
            self.wf(),
        ensures
            self@.len() == self.entries().len(),
        decreases self.entries().len(),
    {
        lemma_to_map_len(self.entries());
    }

    /// Whether the catalog has no theme.
    pub fn is_empty(&self) -> (r: bool)
        requires
            self.wf(),
        ensures
            r == (self@.len() == 0),
            r == (self.entries().len() == 0),
    {
        self.len() == 0
    }

    /// The name of the theme at a position of the ascending order.
    pub fn name_at(&self, i: usize) -> (r: &String)
        requires
            i < self.entries().len(),
        ensures
            r@ == self.names()[i as int],
            *r == self.entries()[i as int].0,
    {
        &self.entries[i].0
    }

    /// The theme at a position of the ascending order.
    pub fn theme_at(&self, i: usize) -> (r: &ThemeWrapper)
        requires
            self.wf(),
            i < self.entries().len(),
        ensures
            self@.contains_key(self.names()[i as int]),
            *r == self@[self.names()[i as int]],
            *r == self.entries()[i as int].1,
    {
        proof {
            lemma_to_map_has(self.entries(), self.entries()[i as int].0@);
        }
        &self.entries[i].1
    }

    /// The theme of a name, where the catalog has one.
    pub fn get(&self, name: &str) -> (r: Option<&ThemeWrapper>)
        requires
            self.wf(),
        ensures
            r is Some <==> self@.contains_key(name@),
            r matches Some(w) ==> *w == self@[name@],
    {
        proof {
            lemma_to_map_has(self.entries(), name@);
        }
        let mut i: usize = 0;
        while i < self.entries.len()
            invariant
                self.wf(),
                i <= self.entries().len(),
                forall|j: int| 0 <= j < i ==> self.entries()[j].0@ != name@,
            decreases self.entries().len() - i,
        {
            if compare_names(self.entries[i].0.as_str(), name) == 0 {
                proof {
                    assert(self.entries()[i as int].0@ == name@);
                    lemma_to_map_has(self.entries(), name@);
                    assert(to_map(self.entries()).contains_key(name@));
                    assert(self@.contains_key(name@));
                }
                return Some(&self.entries[i].1);
            }
            i = i + 1;
        }
        None
    }

    /// Puts a theme under a name; a theme already under that name is
    /// replaced.
    pub fn insert(&mut self, name: String, theme: ThemeWrapper)
        requires
            old(self).wf(),
        ensures
            final(self).wf(),
            final(self)@ == old(self)@.insert(name@, theme),
    {
        let ghost es = old(self).entries();
        let mut i: usize = 0;
        while i < self.entries.len()
            invariant
                self.entries() == es,
                old(self).entries() == es,
                ascending(es),
                i <= es.len(),
                forall|j: int| 0 <= j < i ==> name_lt(es[j].0@, name@),
            ensures
                i <= es.len(),
                forall|j: int| 0 <= j < i ==> name_lt(es[j].0@, name@),
                i < es.len() ==> name_lt(name@, es[i as int].0@),
            decreases es.len() - i,
        {
            let c = compare_names(self.entries[i].0.as_str(), name.as_str());
            if c == 0 {
                let ghost e = (name, theme);
                proof {
                    assert(es[i as int].0@ == name@);
                    lemma_to_map_update(es, i as int, e);
                }
                let _old = self.entries.remove(i);
                self.entries.insert(i, (name, theme));
                proof {
                    assert(self.entries() =~= es.update(i as int, e));
                    lemma_to_map_update(es, i as int, e);
                    assert forall|a: int, b: int| 0 <= a < b < self.entries().len()
                        implies name_lt(self.entries()[a].0@, self.entries()[b].0@) by {
                        assert(es[a].0@ == self.entries()[a].0@);
                        assert(es[b].0@ == self.entries()[b].0@);
                    }
                }
                return;
            } else if c > 0 {
                break;
            }
            i = i + 1;
        }
        proof {
            assert forall|j: int| i <= j < es.len() implies name_lt(name@, es[j].0@) by {
                if j > i {
                    lemma_name_lt_strict(name@, es[i as int].0@, es[j].0@);
                }
            }
            assert forall|j: int| 0 <= j < es.len() implies es[j].0@ != name@ by {
                lemma_name_lt_strict(name@, name@, name@);
            }
            let e = (name, theme);
            lemma_to_map_insert(es, i as int, e);
        }
        self.entries.insert(i, (name, theme));
        proof {
            let ne = self.entries();
            assert forall|a: int, b: int| 0 <= a < b < ne.len()
                implies name_lt(ne[a].0@, ne[b].0@) by {
                if b < i {
                } else if a < i && b == i {
                } else if a < i {
                    assert(ne[b] == es[b - 1]);
                } else if a == i {
                    assert(ne[b] == es[b - 1]);
                } else {
                    assert(ne[a] == es[a - 1]);
                    assert(ne[b] == es[b - 1]);
                }
            }
        }
    }
}

proof fn lemma_to_map_len(es: Seq<(String, ThemeWrapper)>)
    requires
        ascending(es),
    ensures
        to_map(es).len() == es.len(),
        to_map(es).dom().finite(),
    decreases es.len(),
{
    if es.len() > 0 {
        let dl = es.drop_last();
        assert(ascending(dl));
        lemma_to_map_len(dl);
        lemma_to_map_has(dl, es.last().0@);
        assert forall|j: int| 0 <= j < dl.len() implies dl[j].0@ != es.last().0@ by {
            lemma_ascending_distinct(es, j, es.len() - 1);
        }
    }
}


/// The catalog could not offer anything.
#[derive(Debug, PartialEq, Eq)]
pub enum CatalogError {
    /// Neither source gave a theme.
    EmptyCatalog,
}

/// `m` with each entry of `es` put in, in order: a later entry under a name
/// replaces an earlier one.
pub open spec fn merge_all(
    m: Map<Seq<char>, ThemeWrapper>,
    es: Seq<(String, ThemeWrapper)>,
) -> Map<Seq<char>, ThemeWrapper>
    decreases es.len(),
{
    if es.len() == 0 {
        m
    } else {
        merge_all(m, es.drop_last()).insert(es.last().0@, es.last().1)
    }
}

/// The theme of the last entry of `es` named `k`, if any.
pub open spec fn last_for(es: Seq<(String, ThemeWrapper)>, k: Seq<char>) -> Option<ThemeWrapper>
    decreases es.len(),
{
    if es.len() == 0 {
        None
    } else if es.last().0@ == k {
        Some(es.last().1)
    } else {
        last_for(es.drop_last(), k)
    }
}

/// The catalog merged from two lists of named themes, the second put in
/// after the first.
pub open spec fn merged(
    first: Seq<(String, ThemeWrapper)>,
    second: Seq<(String, ThemeWrapper)>,
) -> Map<Seq<char>, ThemeWrapper> {
    merge_all(merge_all(Map::empty(), first), second)
}

proof fn lemma_merge_all_get(m: Map<Seq<char>, ThemeWrapper>, es: Seq<(String, ThemeWrapper)>, k: Seq<char>)
    ensures
        last_for(es, k) matches Some(w) ==> merge_all(m, es).contains_key(k)
            && merge_all(m, es)[k] == w,
        last_for(es, k) is None ==> (merge_all(m, es).contains_key(k) <==> m.contains_key(k)),
        last_for(es, k) is None && m.contains_key(k) ==> merge_all(m, es)[k] == m[k],
    decreases es.len(),
{
    if es.len() > 0 {
        lemma_merge_all_get(m, es.drop_last(), k);
    }
}

proof fn lemma_merge_all_empty(m: Map<Seq<char>, ThemeWrapper>, es: Seq<(String, ThemeWrapper)>)
    ensures
        merge_all(m, es).len() == 0 && m.dom().finite() ==> m.len() == 0 && es.len() == 0,
        m.dom().finite() ==> merge_all(m, es).dom().finite(),
    decreases es.len(),
{
    if es.len() > 0 {
        lemma_merge_all_empty(m, es.drop_last());
        let mm = merge_all(m, es.drop_last());
        if mm.dom().finite() {
            assert(merge_all(m, es).dom().contains(es.last().0@));
            vstd::set_lib::lemma_set_empty_equivalency_len(merge_all(m, es).dom());
        }
    }
}

/// Where two sources name the same theme, the merged catalog holds the
/// theme of the source merged last, whatever the first one held; a name
/// that only the first source gives keeps that source's theme.
pub proof fn lemma_merge_last_wins(
    first: Seq<(String, ThemeWrapper)>,
    second: Seq<(String, ThemeWrapper)>,
    k: Seq<char>,
)
    ensures
        last_for(second, k) matches Some(w) ==> merged(first, second).contains_key(k)
            && merged(first, second)[k] == w,
        last_for(second, k) is None ==> (merged(first, second).contains_key(k)
            <==> last_for(first, k) is Some),
        last_for(second, k) is None && last_for(first, k) is Some
            ==> merged(first, second)[k] == last_for(first, k)->0,
{
    lemma_merge_all_get(Map::empty(), first, k);
    lemma_merge_all_get(merge_all(Map::empty(), first), second, k);
}

/// A name is in the catalog merged from a list of entries exactly where
/// some entry of the list carries it; with a second list, where either
/// carries it.
pub proof fn lemma_merged_keys(
    first: Seq<(String, ThemeWrapper)>,
    second: Seq<(String, ThemeWrapper)>,
    k: Seq<char>,
)
    ensures
        merged(first, second).contains_key(k) <==> (exists|i: int| 0 <= i < first.len() && #[trigger] first[i].0@ == k)
            || (exists|i: int| 0 <= i < second.len() && #[trigger] second[i].0@ == k),
{
    lemma_last_for_some(first, k);
    lemma_last_for_some(second, k);
    lemma_merge_all_get(Map::empty(), first, k);
    lemma_merge_all_get(merge_all(Map::empty(), first), second, k);
}

proof fn lemma_last_for_some(es: Seq<(String, ThemeWrapper)>, k: Seq<char>)
    ensures
        last_for(es, k) is Some <==> exists|i: int| 0 <= i < es.len() && #[trigger] es[i].0@ == k,
    decreases es.len(),
{
    if es.len() > 0 {
        let dl = es.drop_last();
        lemma_last_for_some(dl, k);
        if exists|i: int| 0 <= i < dl.len() && #[trigger] dl[i].0@ == k {
            let i = choose|i: int| 0 <= i < dl.len() && #[trigger] dl[i].0@ == k;
            assert(es[i] == dl[i]);
        }
        if exists|i: int| 0 <= i < es.len() && #[trigger] es[i].0@ == k {
            let i = choose|i: int| 0 <= i < es.len() && #[trigger] es[i].0@ == k;
            if i < es.len() - 1 {
                assert(es[i] == dl[i]);
            }
        }
        assert(es[es.len() - 1] == es.last());
    }
}

/// Entries with pairwise distinct names give a catalog of as many themes.
pub proof fn lemma_distinct_names_count(es: Seq<(String, ThemeWrapper)>)
    requires
        forall|i: int, j: int| 0 <= i < j < es.len() ==> (#[trigger] es[i]).0@ != (#[trigger] es[j]).0@,
    ensures
        merge_all(Map::empty(), es).len() == es.len(),
        merge_all(Map::empty(), es).dom().finite(),
    decreases es.len(),
{
    lemma_merge_all_empty(Map::empty(), es);
    if es.len() > 0 {
        let dl = es.drop_last();
        assert forall|i: int, j: int| 0 <= i < j < dl.len() implies (#[trigger] dl[i]).0@ != (#[trigger] dl[j]).0@ by {
            assert(dl[i] == es[i] && dl[j] == es[j]);
        }
        lemma_distinct_names_count(dl);
        let k = es.last().0@;
        lemma_last_for_some(dl, k);
        lemma_merge_all_get(Map::empty(), dl, k);
        if exists|i: int| 0 <= i < dl.len() && #[trigger] dl[i].0@ == k {
            let i = choose|i: int| 0 <= i < dl.len() && #[trigger] dl[i].0@ == k;
            assert(es[i] == dl[i]);
            assert(es[es.len() - 1] == es.last());
        }
        assert(!merge_all(Map::empty(), dl).contains_key(k));
    }
}

/// Puts each of `es` into the catalog, in order.
fn insert_all(c: &mut Catalog, es: Vec<(String, ThemeWrapper)>)
    requires
        old(c).wf(),
    ensures
        final(c).wf(),
        final(c)@ == merge_all(old(c)@, es@),
{
    let ghost orig = es@;
    let mut es = es;
    let ghost mut k: int = 0;
    while es.len() > 0
        invariant
            c.wf(),
            0 <= k,
            k + es@.len() == orig.len(),
            es@ == orig.subrange(k, orig.len() as int),
            c@ == merge_all(old(c)@, orig.subrange(0, k)),
        decreases es@.len(),
    {
        let (name, theme) = es.remove(0);
        proof {
            assert(orig[k] == (name, theme));
            assert(orig.subrange(0, k + 1).drop_last() =~= orig.subrange(0, k));
        }
        c.insert(name, theme);
        proof {
            k = k + 1;
        }
        proof {
            assert(es@ =~= orig.subrange(k, orig.len() as int));
        }
    }
    proof {
        assert(orig.subrange(0, k) =~= orig);
    }
}

/// Builds the catalog from the themes of the community document and those
/// of the theme files. The files are merged last: where both name a theme,
/// the file's theme is kept. Fails where neither source gave a theme.
pub fn get_themes(
    document_themes: Vec<(String, ThemeWrapper)>,
    file_themes: Vec<(String, ThemeWrapper)>,
) -> (r: Result<Catalog, CatalogError>)
    ensures
        r is Err <==> document_themes@.len() == 0 && file_themes@.len() == 0,
        r matches Ok(c) ==> c.wf() && c@ == merged(document_themes@, file_themes@),
{
    let ghost d = document_themes@;
    let ghost f = file_themes@;
    let mut c = Catalog::new();
    insert_all(&mut c, document_themes);
    insert_all(&mut c, file_themes);
    proof {
        lemma_merge_all_empty(Map::empty(), d);
        lemma_merge_all_empty(merge_all(Map::empty(), d), f);
    }
    if c.is_empty() {
        Err(CatalogError::EmptyCatalog)
    } else {
        Ok(c)
    }
}

} // verus!
