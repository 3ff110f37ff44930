//! The two sources of themes: theme files, one theme each, and the
//! community document, which names its themes in prose before each code
//! fence.
use vstd::prelude::*;
use crate::node::text_is;
use vstd::std_specs::iter::IteratorSpec;
use crate::themes::{parse_theme_wrapper, spec_wrapper_text, Theme, ThemeError, ThemeWrapper};

verus! {

// ---------------------------------------------------------------- theme files

/// A candidate file of the theme directory, with what it holds.
#[derive(Clone, Debug)]
pub struct ThemeFile {
    pub file_name: String,
    pub contents: String,
}

/// A candidate that could not be read as a theme, and why.
#[derive(Clone, Debug, PartialEq, Eq)]
pub struct Diagnostic {
    /// The file name, or the name that the document gave the candidate.
    pub source: String,
    pub error: ThemeError,
}

/// Whether `s` ends with `suffix`.
pub open spec fn ends_with(s: Seq<char>, suffix: Seq<char>) -> bool {
    suffix.len() <= s.len() && s.subrange(s.len() - suffix.len(), s.len() as int) == suffix
}

/// Whether a file name follows the theme-file convention.
/// A name must remain once the extension is taken off.
pub open spec fn is_theme_file_name(n: Seq<char>) -> bool {
    (ends_with(n, ".yml"@) && n.len() > 4) || (ends_with(n, ".yaml"@) && n.len() > 5)
}

/// A file name without its theme-file extension.
pub open spec fn theme_stem(n: Seq<char>) -> Seq<char> {
    if ends_with(n, ".yaml"@) {
        n.subrange(0, n.len() - ".yaml"@.len())
    } else if ends_with(n, ".yml"@) {
        n.subrange(0, n.len() - ".yml"@.len())
    } else {
        n
    }
}

/// The named themes that a list of files gives, in order: one for each
/// theme file that holds a well-formed theme.
pub open spec fn file_themes(fs: Seq<ThemeFile>) -> Seq<(Seq<char>, Theme)>
    decreases fs.len(),
{
    if fs.len() == 0 {
        Seq::empty()
    } else {
        let prev = file_themes(fs.drop_last());
        let f = fs.last();
        if is_theme_file_name(f.file_name@) && spec_wrapper_text(f.contents@) is Ok {
            prev.push((theme_stem(f.file_name@), spec_wrapper_text(f.contents@)->Ok_0.colors))
        } else {
            prev
        }
    }
}

/// The theme files of a list that do not hold a well-formed theme, with why.
pub open spec fn file_failures(fs: Seq<ThemeFile>) -> Seq<(Seq<char>, ThemeError)>
    decreases fs.len(),
{
    if fs.len() == 0 {
        Seq::empty()
    } else {
        let prev = file_failures(fs.drop_last());
        let f = fs.last();
        if is_theme_file_name(f.file_name@) && spec_wrapper_text(f.contents@) is Err {
            prev.push((f.file_name@, spec_wrapper_text(f.contents@)->Err_0))
        } else {
            prev
        }
    }
}

proof fn lemma_file_themes_named(fs: Seq<ThemeFile>)
    ensures
        forall|i: int| 0 <= i < file_themes(fs).len() ==> (#[trigger] file_themes(fs)[i]).0.len() > 0,
    decreases fs.len(),
{
    if fs.len() > 0 {
        lemma_file_themes_named(fs.drop_last());
        reveal_strlit(".yml");
        reveal_strlit(".yaml");
        let n = fs.last().file_name@;
        if is_theme_file_name(n) {
            assert(".yml"@.len() == 4 && ".yaml"@.len() == 5);
            if ends_with(n, ".yaml"@) && ends_with(n, ".yml"@) {
                assert(n.subrange(n.len() - 4, n.len() as int)[0] == n[n.len() - 4]);
                assert(n.subrange(n.len() - 5, n.len() as int)[1] == n[n.len() - 4]);
                assert(".yml"@[0] == '.' && ".yaml"@[1] == 'y');
            }
            assert(theme_stem(n).len() > 0);
        }
        let prev = file_themes(fs.drop_last());
        assert forall|i: int| 0 <= i < file_themes(fs).len() implies (#[trigger] file_themes(fs)[i]).0.len() > 0 by {
            if i < prev.len() {
                assert(file_themes(fs)[i] == prev[i]);
            }
        }
    }
}

/// Whether `es` are the named themes `spec` describes, each wrapper carrying
/// its entry's name.
pub open spec fn entries_match(
    es: Seq<(String, ThemeWrapper)>,
    spec: Seq<(Seq<char>, Theme)>,
) -> bool {
    &&& es.len() == spec.len()
    &&& forall|i: int| #![trigger es[i]] 0 <= i < es.len() ==> es[i].0@ == spec[i].0
        && es[i].1.colors == spec[i].1 && es[i].1.name == Some(es[i].0)
}

/// Whether `ds` are the failures `spec` describes.
pub open spec fn diagnostics_match(ds: Seq<Diagnostic>, spec: Seq<(Seq<char>, ThemeError)>) -> bool {
    &&& ds.len() == spec.len()
    &&& forall|i: int| #![trigger ds[i]] 0 <= i < ds.len() ==> ds[i].source@ == spec[i].0
        && ds[i].error == spec[i].1
}

/// A file that is not a theme file, or does not hold a well-formed theme,
/// adds no theme to those of its siblings; a theme file that does not hold
/// one adds exactly one failure, with its name and why.
pub proof fn lemma_bad_file_adds_nothing(fs: Seq<ThemeFile>, f: ThemeFile)
    requires
        !(is_theme_file_name(f.file_name@) && spec_wrapper_text(f.contents@) is Ok),
    ensures
        file_themes(fs.push(f)) == file_themes(fs),
        is_theme_file_name(f.file_name@) ==> file_failures(fs.push(f)) == file_failures(fs).push(
            (f.file_name@, spec_wrapper_text(f.contents@)->Err_0),
        ),
        !is_theme_file_name(f.file_name@) ==> file_failures(fs.push(f)) == file_failures(fs),
{
    assert(fs.push(f).drop_last() =~= fs);
}

/// A good theme file adds exactly its theme, named after the file, to those
/// of its siblings, and no failure.
pub proof fn lemma_good_file_adds_one(fs: Seq<ThemeFile>, f: ThemeFile)
    requires
        is_theme_file_name(f.file_name@),
        spec_wrapper_text(f.contents@) is Ok,
    ensures
        file_themes(fs.push(f)) == file_themes(fs).push(
            (theme_stem(f.file_name@), spec_wrapper_text(f.contents@)->Ok_0.colors),
        ),
        file_failures(fs.push(f)) == file_failures(fs),
{
    assert(fs.push(f).drop_last() =~= fs);
}

/// Whether `s` ends with `suffix`.
pub fn ends_with_text(s: &str, suffix: &str) -> (r: bool)
    ensures
        r == ends_with(s@, suffix@),
{
    let n = s.unicode_len();
    let m = suffix.unicode_len();
    if m > n {
        return false;
    }
    text_is(s.substring_char(n - m, n), suffix)
}

/// Whether a file name follows the theme-file convention (`.yml` or `.yaml`
/// after a non-empty name).
pub fn is_theme_file(file_name: &str) -> (r: bool)
    ensures
        r == is_theme_file_name(file_name@),
{
    let n = file_name.unicode_len();
    (ends_with_text(file_name, ".yml") && n > 4) || (ends_with_text(file_name, ".yaml") && n > 5)
}

/// The catalog name of a theme file: its name without the extension.
pub fn theme_name_of(file_name: &str) -> (r: String)
    ensures
        r@ == theme_stem(file_name@),
{
    let n = file_name.unicode_len();
    if ends_with_text(file_name, ".yaml") {
        proof {
            reveal_strlit(".yaml");
        }
        String::from_str(file_name.substring_char(0, n - 5))
    } else if ends_with_text(file_name, ".yml") {
        proof {
            reveal_strlit(".yml");
        }
        String::from_str(file_name.substring_char(0, n - 4))
    } else {
        String::from_str(file_name)
    }
}

/// Reads each theme file of a list as a theme named after the file. Files
/// that do not follow the theme-file convention are passed over; a theme
/// file that does not hold a well-formed theme gives a diagnostic and no
/// theme, and does not affect the others.
pub fn get_theme_map(files: &Vec<ThemeFile>) -> (r: (Vec<(String, ThemeWrapper)>, Vec<Diagnostic>))
    ensures
        entries_match(r.0@, file_themes(files@)),
        diagnostics_match(r.1@, file_failures(files@)),
        forall|i: int| 0 <= i < r.0@.len() ==> (#[trigger] r.0@[i]).0@.len() > 0,
{
    let mut themes: Vec<(String, ThemeWrapper)> = Vec::new();
    let mut diagnostics: Vec<Diagnostic> = Vec::new();
    let mut i: usize = 0;
    while i < files.len()
        invariant
            i <= files@.len(),
            entries_match(themes@, file_themes(files@.subrange(0, i as int))),
            diagnostics_match(diagnostics@, file_failures(files@.subrange(0, i as int))),
        decreases files@.len() - i,
    {
        let f = &files[i];
        proof {
            assert(files@.subrange(0, i + 1).drop_last() =~= files@.subrange(0, i as int));
            assert(files@.subrange(0, i + 1).last() == files@[i as int]);
        }
        if is_theme_file(f.file_name.as_str()) {
            match parse_theme_wrapper(f.contents.as_str()) {
                Ok(parsed) => {
                    let name = theme_name_of(f.file_name.as_str());
                    let wrapper = ThemeWrapper { name: Some(name.clone()), colors: parsed.colors };
                    themes.push((name, wrapper));
                },
                Err(error) => {
                    diagnostics.push(Diagnostic { source: f.file_name.clone(), error });
                },
            }
        }
        i = i + 1;
    }
    proof {
        assert(files@.subrange(0, i as int) =~= files@);
        lemma_file_themes_named(files@);
    }
    (themes, diagnostics)
}


// ---------------------------------------------------------------- community document

/// An inline run of a paragraph: only text runs matter here.
pub enum Span {
    Text(String),
    Other,
}

/// A block of the community document, in document order.
pub enum Block {
    /// Prose.
    Paragraph(Vec<Span>),
    /// A code fence, with its declared language tag and its content.
    CodeBlock(Option<String>, String),
    /// Any other block.
    Other,
}

/// Why the community document gave nothing.
#[derive(Debug, PartialEq, Eq)]
pub enum DocumentError {
    /// The document has fewer than two blocks.
    EmptyDocument,
    /// A line holds three backticks after a character that is not ASCII,
    /// which the markdown reader cannot take.
    UnsupportedFence,
}

/// The blocks that the markdown crate reads from a text.
pub uninterp spec fn blocks_of(text: Seq<char>) -> Seq<Block>;

/// The first text of a `summary` element that the scraper crate finds in an
/// HTML fragment.
pub uninterp spec fn summary_of(html: Seq<char>) -> Option<Seq<char>>;

/// Whether three backticks start at position `i`.
pub open spec fn fence_at(t: Seq<char>, i: int) -> bool {
    0 <= i && i + 3 <= t.len() && t[i] == '`' && t[i + 1] == '`' && t[i + 2] == '`'
}

/// Whether no line break lies in `[j, i)`.
pub open spec fn same_line(t: Seq<char>, j: int, i: int) -> bool {
    forall|m: int| j <= m < i ==> t[m] != '\n'
}

/// Whether every character that stands before three backticks on their
/// line is ASCII: the markdown crate cuts such a line at its third byte.
pub open spec fn fences_safe(t: Seq<char>) -> bool {
    forall|i: int, j: int| 0 <= j < i && fence_at(t, i) && same_line(t, j, i) ==> (t[j] as u32) < 128
}

/// Checks `fences_safe` in one pass over the characters.
pub fn check_fences(text: &str) -> (r: bool)
    ensures
        r == fences_safe(text@),
{
    broadcast use vstd::string::axiom_spec_iter, vstd::string::next_postcondition;
    let ghost t = text@;
    let mut it = text.chars();
    let ghost mut i: int = 0;
    let ghost mut ls: int = 0;
    let mut line_ascii = true;
    let mut p1: char = ' ';
    let mut p2: char = ' ';
    loop
        invariant
            t == text@,
            0 <= ls <= i <= t.len(),
            it.remaining() == t.skip(i),
            it.obeys_prophetic_iter_laws(),
            same_line(t, ls, i),
            ls == 0 || t[ls - 1] == '\n',
            line_ascii <==> forall|j: int| ls <= j < i ==> (t[j] as u32) < 128,
            i >= 1 ==> p1 == t[i - 1],
            i < 1 ==> p1 != '`',
            i >= 2 ==> p2 == t[i - 2],
            i < 2 ==> p2 != '`',
            forall|f: int, j: int| 0 <= j < f && f + 3 <= i && fence_at(t, f) && same_line(t, j, f)
                ==> (t[j] as u32) < 128,
        decreases t.len() - i,
    {
        match it.next() {
            None => {
                assert(i == t.len()) by {
                    assert(t.skip(i).len() == 0);
                }
                assert forall|f: int, j: int| 0 <= j < f && fence_at(t, f) && same_line(t, j, f)
                    implies (t[j] as u32) < 128 by {
                    assert(f + 3 <= i);
                }
                return true;
            },
            Some(c) => {
                assert(c == t[i]) by {
                    assert(t.skip(i)[0] == t[i]);
                }
                if c == '`' && p1 == '`' && p2 == '`' && !line_ascii {
                    proof {
                        let j = choose|j: int| ls <= j < i && !((t[j] as u32) < 128);
                        assert(fence_at(t, i - 2));
                        assert(j < i - 2);
                        assert(same_line(t, j, i - 2));
                        assert(!fences_safe(t));
                    }
                    return false;
                }
                proof {
                    assert forall|f: int, j: int| 0 <= j < f && f + 3 <= i + 1 && fence_at(t, f)
                        && same_line(t, j, f) implies (t[j] as u32) < 128 by {
                        if f + 3 == i + 1 {
                            if ls > 0 && j < ls {
                                assert(t[ls - 1] == '\n');
                            }
                        }
                    }
                    assert(t.skip(i).drop_first() =~= t.skip(i + 1));
                }
                if c == '\n' {
                    line_ascii = true;
                    proof {
                        ls = i + 1;
                    }
                } else if (c as u32) >= 128 {
                    line_ascii = false;
                }
                p2 = p1;
                p1 = c;
                proof {
                    i = i + 1;
                }
            },
        }
    }
}

/// Relies on markdown::tokenize: the blocks depend on the text alone. Each
/// block and text run is carried over; the other kinds are marked as such.
/// The crate slices a line holding three backticks at its third byte, which
/// `fences_safe` keeps on a character boundary.
#[verifier::external_body]
fn tokenize_markdown(text: &str) -> (r: Vec<Block>)
    requires
        fences_safe(text@),
    ensures
        r@ == blocks_of(text@),
{
    markdown::tokenize(text).into_iter().map(|b| match b {
        markdown::Block::Paragraph(spans) => Block::Paragraph(spans.into_iter().map(|s| match s {
            markdown::Span::Text(t) => Span::Text(t),
            _ => Span::Other,
        }).collect()),
        markdown::Block::CodeBlock(lang, code) => Block::CodeBlock(lang, code),
        _ => Block::Other,
    }).collect()
}

/// Relies on scraper's Html::parse_fragment and the `summary` selector: the
/// first text run of the first `summary` element, which depends on the
/// fragment alone.
#[verifier::external_body]
fn summary_text(html: &str) -> (r: Option<String>)
    ensures
        r is Some <==> summary_of(html@) is Some,
        r matches Some(s) ==> summary_of(html@) == Some(s@),
{
    let selector = scraper::Selector::parse("summary").ok()?;
    let fragment = scraper::Html::parse_fragment(html);
    let summary = fragment.select(&selector).next()?;
    summary.text().next().map(|t| t.to_owned())
}

/// The opening tag of a disclosure block.
pub open spec fn details_tag() -> Seq<char> {
    seq!['<', 'd', 'e', 't', 'a', 'i', 'l', 's', '>']
}

/// A text without the opening `<details>` tags it starts with.
pub open spec fn strip_details(s: Seq<char>) -> Seq<char>
    decreases s.len(),
{
    if s.len() >= 9 && s.subrange(0, 9) == details_tag() {
        strip_details(s.subrange(9, s.len() as int))
    } else {
        s
    }
}

/// Removes the opening `<details>` tags that a text starts with.
pub fn trim_details(s: &str) -> (r: &str)
    ensures
        r@ == strip_details(s@),
{
    proof {
        reveal_strlit("<details>");
        assert("<details>"@ =~= details_tag());
    }
    let n = s.unicode_len();
    let mut i: usize = 0;
    proof {
        assert(s@.subrange(0, n as int) =~= s@);
    }
    while n - i >= 9 && text_is(s.substring_char(i, i + 9), "<details>")
        invariant
            n == s@.len(),
            i <= n,
            "<details>"@ == details_tag(),
            strip_details(s@) == strip_details(s@.subrange(i as int, n as int)),
        decreases n - i,
    {
        proof {
            let t = s@.subrange(i as int, n as int);
            assert(t.subrange(0, 9) =~= s@.subrange(i as int, i + 9));
            assert(t.subrange(9, t.len() as int) =~= s@.subrange(i + 9, n as int));
        }
        i = i + 9;
    }
    proof {
        let t = s@.subrange(i as int, n as int);
        if t.len() >= 9 {
            assert(t.subrange(0, 9) =~= s@.subrange(i as int, i + 9));
        }
    }
    s.substring_char(i, n)
}

/// The name that a prose text gives: the first text of its `summary`.
pub open spec fn text_name(text: Seq<char>) -> Option<Seq<char>> {
    summary_of(strip_details(text))
}

/// Reads the name that a prose text gives, if any.
pub fn parse_theme_wiki_text(text: &str) -> (r: Option<String>)
    ensures
        r is Some <==> text_name(text@) is Some,
        r matches Some(s) ==> text_name(text@) == Some(s@),
{
    summary_text(trim_details(text))
}

/// The name that the first naming text run from position `i` on gives.
pub open spec fn spans_name(spans: Seq<Span>, i: int) -> Option<Seq<char>>
    decreases spans.len() - i,
{
    if i < 0 || i >= spans.len() {
        None
    } else {
        match spans[i] {
            Span::Text(t) => if text_name(t@) is Some && text_name(t@)->0.len() > 0 {
                text_name(t@)
            } else {
                spans_name(spans, i + 1)
            },
            Span::Other => spans_name(spans, i + 1),
        }
    }
}

/// Reads the name that a paragraph gives: that of its first text run that
/// gives a non-empty one.
pub fn paragraph_name(spans: &Vec<Span>) -> (r: Option<String>)
    ensures
        r is Some <==> spans_name(spans@, 0) is Some,
        r matches Some(s) ==> spans_name(spans@, 0) == Some(s@),
{
    let mut i: usize = 0;
    while i < spans.len()
        invariant
            i <= spans@.len(),
            spans_name(spans@, 0) == spans_name(spans@, i as int),
        decreases spans@.len() - i,
    {
        if let Span::Text(t) = &spans[i] {
            if let Some(name) = parse_theme_wiki_text(t.as_str()) {
                if name.as_str().unicode_len() > 0 {
                    return Some(name);
                }
            }
        }
        i = i + 1;
    }
    None
}

/// The name of a theme candidate: prose immediately followed by a `yaml`
/// code fence, where the prose gives a name.
pub open spec fn candidate_name(prose: Block, code: Block) -> Option<Seq<char>> {
    match (prose, code) {
        (Block::Paragraph(spans), Block::CodeBlock(Some(lang), _)) => if lang@ == "yaml"@ {
            spans_name(spans@, 0)
        } else {
            None
        },
        _ => None,
    }
}

/// The content of a code fence.
pub open spec fn code_of(b: Block) -> Seq<char> {
    match b {
        Block::CodeBlock(_, c) => c@,
        _ => Seq::empty(),
    }
}

/// The named themes of a block sequence, in document order: one for each
/// candidate whose code holds a well-formed theme wrapper.
pub open spec fn document_themes(bs: Seq<Block>) -> Seq<(Seq<char>, Theme)>
    decreases bs.len(),
{
    if bs.len() < 2 {
        Seq::empty()
    } else {
        let prev = document_themes(bs.drop_last());
        let p = bs[bs.len() - 2];
        let c = bs.last();
        if candidate_name(p, c) is Some && spec_wrapper_text(code_of(c)) is Ok {
            prev.push((candidate_name(p, c)->0, spec_wrapper_text(code_of(c))->Ok_0.colors))
        } else {
            prev
        }
    }
}

/// The candidates of a block sequence whose code is not a well-formed theme
/// wrapper, by name, with why.
pub open spec fn document_failures(bs: Seq<Block>) -> Seq<(Seq<char>, ThemeError)>
    decreases bs.len(),
{
    if bs.len() < 2 {
        Seq::empty()
    } else {
        let prev = document_failures(bs.drop_last());
        let p = bs[bs.len() - 2];
        let c = bs.last();
        if candidate_name(p, c) is Some && spec_wrapper_text(code_of(c)) is Err {
            prev.push((candidate_name(p, c)->0, spec_wrapper_text(code_of(c))->Err_0))
        } else {
            prev
        }
    }
}

proof fn lemma_spans_name_nonempty(spans: Seq<Span>, i: int)
    ensures
        spans_name(spans, i) matches Some(n) ==> n.len() > 0,
    decreases spans.len() - i,
{
    if 0 <= i < spans.len() {
        lemma_spans_name_nonempty(spans, i + 1);
    }
}

proof fn lemma_document_themes_named(bs: Seq<Block>)
    ensures
        forall|i: int| 0 <= i < document_themes(bs).len() ==> (#[trigger] document_themes(bs)[i]).0.len() > 0,
    decreases bs.len(),
{
    if bs.len() >= 2 {
        lemma_document_themes_named(bs.drop_last());
        if let Block::Paragraph(spans) = bs[bs.len() - 2] {
            lemma_spans_name_nonempty(spans@, 0);
        }
        let prev = document_themes(bs.drop_last());
        assert forall|i: int| 0 <= i < document_themes(bs).len() implies (#[trigger] document_themes(bs)[i]).0.len() > 0 by {
            if i < prev.len() {
                assert(document_themes(bs)[i] == prev[i]);
            }
        }
    }
}

/// Whether a language tag is `yaml`.
fn is_yaml_tag(lang: &Option<String>) -> (r: bool)
    ensures
        r == (lang matches Some(l) && l@ == "yaml"@),
{
    match lang {
        Some(l) => text_is(l.as_str(), "yaml"),
        None => false,
    }
}

/// Reads the named themes of a block sequence: each prose block followed
/// at once by a `yaml` code fence is a candidate; a candidate whose prose
/// gives no name is passed over; one whose code is not a well-formed theme
/// wrapper gives a diagnostic. The name from the prose replaces any name
/// the code carries. Fails where there are fewer than two blocks.
pub fn parse_theme_blocks(bs: &Vec<Block>) -> (r: Result<(Vec<(String, ThemeWrapper)>, Vec<Diagnostic>), DocumentError>)
    ensures
        r is Err <==> bs@.len() < 2,
        r matches Err(e) ==> e == DocumentError::EmptyDocument,
        r matches Ok(out) ==> entries_match(out.0@, document_themes(bs@))
            && diagnostics_match(out.1@, document_failures(bs@))
            && forall|i: int| 0 <= i < out.0@.len() ==> (#[trigger] out.0@[i]).0@.len() > 0,
{
    if bs.len() < 2 {
        return Err(DocumentError::EmptyDocument);
    }
    let mut themes: Vec<(String, ThemeWrapper)> = Vec::new();
    let mut diagnostics: Vec<Diagnostic> = Vec::new();
    let mut i: usize = 1;
    while i < bs.len()
        invariant
            1 <= i <= bs@.len(),
            entries_match(themes@, document_themes(bs@.subrange(0, i as int))),
            diagnostics_match(diagnostics@, document_failures(bs@.subrange(0, i as int))),
        decreases bs@.len() - i,
    {
        proof {
            let s = bs@.subrange(0, i + 1);
            assert(s.drop_last() =~= bs@.subrange(0, i as int));
            assert(s.last() == bs@[i as int]);
            assert(s[s.len() - 2] == bs@[i - 1]);
        }
        if let (Block::Paragraph(spans), Block::CodeBlock(lang, code)) = (&bs[i - 1], &bs[i]) {
            if is_yaml_tag(lang) {
                if let Some(name) = paragraph_name(spans) {
                    match parse_theme_wrapper(code.as_str()) {
                        Ok(parsed) => {
                            let wrapper = ThemeWrapper {
                                name: Some(name.clone()),
                                colors: parsed.colors,
                            };
                            themes.push((name, wrapper));
                        },
                        Err(error) => {
                            diagnostics.push(Diagnostic { source: name, error });
                        },
                    }
                }
            }
        }
        i = i + 1;
    }
    proof {
        assert(bs@.subrange(0, i as int) =~= bs@);
        lemma_document_themes_named(bs@);
    }
    Ok((themes, diagnostics))
}

/// Reads the named themes of the community document's text (see
/// `parse_theme_blocks`).
pub fn parse_theme_wiki_markdown(contents: &str) -> (r: Result<(Vec<(String, ThemeWrapper)>, Vec<Diagnostic>), DocumentError>)
    ensures
        r matches Err(DocumentError::UnsupportedFence) <==> !fences_safe(contents@),
        r matches Err(DocumentError::EmptyDocument) <==> fences_safe(contents@)
            && blocks_of(contents@).len() < 2,
        r matches Ok(out) ==> entries_match(out.0@, document_themes(blocks_of(contents@)))
            && diagnostics_match(out.1@, document_failures(blocks_of(contents@))),
{
    if !check_fences(contents) {
        return Err(DocumentError::UnsupportedFence);
    }
    let blocks = tokenize_markdown(contents);
    parse_theme_blocks(&blocks)
}


/// Whether no block of a sequence is a code fence.
pub open spec fn no_code(bs: Seq<Block>) -> bool {
    forall|i: int| 0 <= i < bs.len() ==> !(#[trigger] bs[i] is CodeBlock)
}

/// Whether prose and a code fence form a named theme whose code is well-formed.
pub open spec fn well_formed_pair(prose: Block, code: Block) -> bool {
    candidate_name(prose, code) is Some && spec_wrapper_text(code_of(code)) is Ok
}

/// A document made of groups, each some blocks that are no code fence
/// followed by prose and a code fence.
pub open spec fn assemble(groups: Seq<(Seq<Block>, Block, Block)>) -> Seq<Block>
    decreases groups.len(),
{
    if groups.len() == 0 {
        Seq::empty()
    } else {
        let g = groups.last();
        assemble(groups.drop_last()) + g.0 + seq![g.1, g.2]
    }
}

proof fn lemma_append_no_code(bs: Seq<Block>, others: Seq<Block>)
    requires
        no_code(others),
    ensures
        document_themes(bs + others) == document_themes(bs),
    decreases others.len(),
{
    if others.len() > 0 {
        let dl = others.drop_last();
        assert((bs + others).drop_last() =~= bs + dl);
        assert((bs + others).last() == others.last());
        assert(!(others[others.len() - 1] is CodeBlock));
        lemma_append_no_code(bs, dl);
    } else {
        assert(bs + others =~= bs);
    }
}

proof fn lemma_append_pair(bs: Seq<Block>, prose: Block, code: Block)
    requires
        well_formed_pair(prose, code),
    ensures
        document_themes(bs + seq![prose, code]) == document_themes(bs).push(
            (candidate_name(prose, code)->0, spec_wrapper_text(code_of(code))->Ok_0.colors),
        ),
{
    let s = bs + seq![prose, code];
    assert(s.drop_last() =~= bs + seq![prose]);
    assert(s[s.len() - 2] == prose);
    assert(s.last() == code);
    assert(!(seq![prose][0] is CodeBlock));
    lemma_append_no_code(bs, seq![prose]);
}

/// A document made of N groups, each a well-formed named theme after other
/// blocks that hold no code fence, gives exactly N named themes, the k-th
/// carrying the name of the k-th group's prose.
pub proof fn lemma_document_pairs(groups: Seq<(Seq<Block>, Block, Block)>)
    requires
        forall|k: int| 0 <= k < groups.len() ==> no_code(#[trigger] groups[k].0)
            && well_formed_pair(groups[k].1, groups[k].2),
    ensures
        document_themes(assemble(groups)).len() == groups.len(),
        forall|k: int| 0 <= k < groups.len() ==> (#[trigger] document_themes(assemble(groups))[k]).0
            == candidate_name(groups[k].1, groups[k].2)->0,
    decreases groups.len(),
{
    if groups.len() > 0 {
        let dl = groups.drop_last();
        let g = groups.last();
        assert forall|k: int| 0 <= k < dl.len() implies no_code(#[trigger] dl[k].0)
            && well_formed_pair(dl[k].1, dl[k].2) by {
            assert(dl[k] == groups[k]);
        }
        lemma_document_pairs(dl);
        assert(no_code(groups[groups.len() - 1].0));
        let a = assemble(dl);
        lemma_append_no_code(a, g.0);
        lemma_append_pair(a + g.0, g.1, g.2);
        assert forall|k: int| 0 <= k < groups.len() implies (#[trigger] document_themes(assemble(groups))[k]).0
            == candidate_name(groups[k].1, groups[k].2)->0 by {
            if k < dl.len() {
                assert(dl[k] == groups[k]);
            }
        }
    }
}

} // verus!
