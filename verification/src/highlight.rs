//! Syntax highlighting, one line at a time.

use syntect::easy::HighlightLines;
use syntect::highlighting::{Theme, ThemeSet};
use syntect::parsing::{SyntaxReference, SyntaxSet};
use vstd::prelude::*;

use crate::text::{glued, is_empty};

verus! {

/// `syntect::parsing::SyntaxSet`, a collection of syntaxes.
#[verifier::external_type_specification]
#[verifier::external_body]
pub struct ExSyntaxSet(SyntaxSet);

/// `syntect::parsing::SyntaxReference`, a syntax of a set.
#[verifier::external_type_specification]
#[verifier::external_body]
pub struct ExSyntaxReference(SyntaxReference);

/// `syntect::highlighting::ThemeSet`, a collection of themes.
#[verifier::external_type_specification]
#[verifier::external_body]
pub struct ExThemeSet(ThemeSet);

/// `syntect::highlighting::Theme`.
#[verifier::external_type_specification]
#[verifier::external_body]
pub struct ExTheme(Theme);

/// The syntaxes in a set.
pub uninterp spec fn syntaxes_in(set: SyntaxSet) -> Set<SyntaxReference>;

/// The syntax of a set for a file extension: what
/// `SyntaxSet::find_syntax_by_extension` finds.
pub uninterp spec fn by_extension(set: SyntaxSet, extension: Seq<char>) -> Option<SyntaxReference>;

/// The syntax of a set with a name: what `SyntaxSet::find_syntax_by_name` finds.
pub uninterp spec fn by_name(set: SyntaxSet, name: Seq<char>) -> Option<SyntaxReference>;

/// The themes in a set, by name.
pub uninterp spec fn themes_in(set: ThemeSet) -> Map<Seq<char>, Theme>;

/// The coloured runs of a line: what `HighlightLines::highlight_line` returns
/// for it, on a fresh `HighlightLines`; `None` where it fails. A run is its text
/// and its foreground colour.
pub uninterp spec fn coloured_runs(
    set: SyntaxSet,
    syntax: SyntaxReference,
    theme: Theme,
    line: Seq<char>,
) -> Option<Seq<(Seq<char>, Seq<u8>)>>;

/// The syntax for a file extension among those that come with syntect.
pub uninterp spec fn default_by_extension(extension: Seq<char>) -> Option<SyntaxReference>;

/// The syntax with a name among those that come with syntect.
pub uninterp spec fn default_by_name(name: Seq<char>) -> Option<SyntaxReference>;

/// The coloured runs of a line, with the syntaxes that come with syntect.
pub uninterp spec fn default_runs(
    syntax: SyntaxReference,
    theme: Theme,
    line: Seq<char>,
) -> Option<Seq<(Seq<char>, Seq<u8>)>>;

/// `SyntaxSet::load_defaults_newlines` returns the syntaxes that come with
/// syntect, for lines that keep their line feed: the same ones on each call, so
/// that the same syntax is found each time, and the same runs in the same line.
/// Which syntaxes these are is not stated.
pub assume_specification[ SyntaxSet::load_defaults_newlines ]() -> (res: SyntaxSet)
    ensures
        forall|extension: Seq<char>| #[trigger]
            by_extension(res, extension) == default_by_extension(extension),
        forall|name: Seq<char>| #[trigger] by_name(res, name) == default_by_name(name),
        forall|syntax: SyntaxReference, theme: Theme, line: Seq<char>| #[trigger]
            coloured_runs(res, syntax, theme, line) == default_runs(syntax, theme, line),
;

/// The theme of this name among those that come with syntect.
pub uninterp spec fn default_theme(name: Seq<char>) -> Option<Theme>;

/// `ThemeSet::load_defaults` returns the themes that come with syntect, the dark
/// one named here among them.
pub assume_specification[ ThemeSet::load_defaults ]() -> (res: ThemeSet)
    ensures
        forall|name: Seq<char>| #[trigger] theme_in(themes_in(res), name) == default_theme(name),
        theme_in(themes_in(res), "base16-mocha.dark"@) is Some,
;

/// Calls `SyntaxSet::find_syntax_by_extension`. Claimed: what it finds is a
/// syntax of the set, and depends on the set and the extension alone.
#[verifier::external_body]
fn syntax_by_extension(set: &SyntaxSet, extension: &str) -> (res: Option<SyntaxReference>)
    ensures
        res == by_extension(*set, extension@),
        res matches Some(syntax) ==> syntaxes_in(*set).contains(syntax),
{
    set.find_syntax_by_extension(extension).cloned()
}

/// Calls `SyntaxSet::find_syntax_by_name`. Claimed: what it finds is a syntax of
/// the set, and depends on the set and the name alone.
#[verifier::external_body]
fn syntax_by_name(set: &SyntaxSet, name: &str) -> (res: Option<SyntaxReference>)
    ensures
        res == by_name(*set, name@),
        res matches Some(syntax) ==> syntaxes_in(*set).contains(syntax),
{
    set.find_syntax_by_name(name).cloned()
}

/// The theme of this name, where there is one.
pub open spec fn theme_in(themes: Map<Seq<char>, Theme>, name: Seq<char>) -> Option<Theme> {
    if themes.dom().contains(name) {
        Some(themes[name])
    } else {
        None
    }
}

/// Calls `BTreeMap::get` on the themes of a `ThemeSet`: the theme of this name.
#[verifier::external_body]
fn theme_by_name(set: &ThemeSet, name: &str) -> (res: Option<Theme>)
    ensures
        res == theme_in(themes_in(*set), name@),
{
    set.themes.get(name).cloned()
}

/// Calls `HighlightLines::highlight_line` on a fresh `HighlightLines`. Claimed:
/// the runs depend on the syntaxes, the syntax, the theme and the line alone.
/// That the texts of the runs make up the line is left unsaid: a syntax whose
/// scopes do not match up ends them early.
#[verifier::external_body]
fn highlight(set: &SyntaxSet, syntax: &SyntaxReference, theme: &Theme, line: &str) -> (res: Option<
    Vec<HighlightSpan>,
>)
    requires
        syntaxes_in(*set).contains(*syntax),
    ensures
        runs_of(res) == coloured_runs(*set, *syntax, *theme, line@),
{
    let regions = HighlightLines::new(syntax, theme).highlight_line(line, set).ok()?;
    let mut spans = Vec::new();
    for (style, text) in regions {
        let color = [style.foreground.r, style.foreground.g, style.foreground.b];
        spans.push(HighlightSpan { text: text.to_string(), color });
    }
    Some(spans)
}

/// A contiguous run of text that is drawn in a single colour.
#[derive(Debug, Clone)]
pub struct HighlightSpan {
    pub text: String,
    pub color: [u8; 3],
}

/// Text and colour of each span.
pub open spec fn runs(spans: Seq<HighlightSpan>) -> Seq<(Seq<char>, Seq<u8>)> {
    spans.map_values(|s: HighlightSpan| (s.text@, s.color@))
}

/// Text and colour of each span, where there are spans.
pub open spec fn runs_of(spans: Option<Vec<HighlightSpan>>) -> Option<Seq<(Seq<char>, Seq<u8>)>> {
    match spans {
        Some(spans) => Some(runs(spans@)),
        None => None,
    }
}

/// A line in light grey.
pub open spec fn plain_run(line: Seq<char>) -> (Seq<char>, Seq<u8>) {
    (line, seq![220u8, 220u8, 220u8])
}

/// The spans for a line: its coloured runs, or the whole line in light grey
/// where it could not be highlighted, or has no runs though it is not empty.
pub open spec fn spans_for(line: Seq<char>, found: Option<Seq<(Seq<char>, Seq<u8>)>>) -> Seq<
    (Seq<char>, Seq<u8>),
> {
    match found {
        Some(runs) => if runs.len() == 0 && line.len() > 0 {
            seq![plain_run(line)]
        } else {
            runs
        },
        None => seq![plain_run(line)],
    }
}

fn plain_span(line: &str) -> (res: Vec<HighlightSpan>)
    ensures
        runs(res@) == seq![plain_run(line@)],
        res@.len() == 1,
{
    let res = vec![HighlightSpan { text: line.to_string(), color: [220, 220, 220] }];
    proof {
        assert(res@[0].color@ =~= seq![220u8, 220u8, 220u8]);
        assert(runs(res@) =~= seq![plain_run(line@)]);
    }
    res
}

/// The spans for a line, given its coloured runs if there are any.
pub fn spans_or_plain(line: &str, found: Option<Vec<HighlightSpan>>) -> (res: Vec<HighlightSpan>)
    ensures
        runs(res@) == spans_for(line@, runs_of(found)),
        line@.len() > 0 ==> res@.len() > 0,
{
    match found {
        Some(spans) => if spans.len() == 0 && !is_empty(line) {
            plain_span(line)
        } else {
            assert(runs(spans@).len() == spans@.len());
            spans
        },
        None => plain_span(line),
    }
}

/// The syntax for SQL among those that come with syntect: by extension, else by
/// name, else plain text.
pub open spec fn sql_syntax() -> Option<SyntaxReference> {
    match default_by_extension("sql"@) {
        Some(syntax) => Some(syntax),
        None => match default_by_name("SQL"@) {
            Some(syntax) => Some(syntax),
            None => default_by_name("Plain Text"@),
        },
    }
}

/// The coloured runs of a line of SQL on a dark surface.
pub open spec fn dark_sql_runs(line: Seq<char>) -> Option<Seq<(Seq<char>, Seq<u8>)>> {
    match (sql_syntax(), default_theme("base16-mocha.dark"@)) {
        (Some(syntax), Some(theme)) => default_runs(syntax, theme, line),
        _ => None,
    }
}

/// Highlights SQL.
pub struct Highlighter {
    syntax_set: SyntaxSet,
    syntax: Option<SyntaxReference>,
    theme: Option<Theme>,
}

impl Highlighter {
    /// The syntax is one of the set.
    pub closed spec fn wf(self) -> bool {
        self.syntax matches Some(syntax) ==> syntaxes_in(self.syntax_set).contains(syntax)
    }

    /// The syntaxes that this highlighter knows.
    pub closed spec fn known_syntaxes(self) -> SyntaxSet {
        self.syntax_set
    }

    /// The syntax that lines are read with.
    pub closed spec fn chosen_syntax(self) -> Option<SyntaxReference> {
        self.syntax
    }

    /// The theme that lines are coloured with.
    pub closed spec fn chosen_theme(self) -> Option<Theme> {
        self.theme
    }

    /// The coloured runs that this highlighter finds in a line.
    pub open spec fn runs_in(self, line: Seq<char>) -> Option<Seq<(Seq<char>, Seq<u8>)>> {
        match (self.chosen_syntax(), self.chosen_theme()) {
            (Some(syntax), Some(theme)) => coloured_runs(
                self.known_syntaxes(),
                syntax,
                theme,
                line,
            ),
            _ => None,
        }
    }

    /// A highlighter for SQL, tuned for dark surfaces. Falls back on plain text
    /// where there is no syntax for SQL.
    pub fn new_dark() -> (res: Highlighter)
        ensures
            res.wf(),
            res.chosen_syntax() == sql_syntax(),
            res.chosen_theme() is Some,
            res.chosen_theme() == default_theme("base16-mocha.dark"@),
            forall|line: Seq<char>| #[trigger] res.runs_in(line) == dark_sql_runs(line),
    {
        let syntax_set = SyntaxSet::load_defaults_newlines();
        let theme_set = ThemeSet::load_defaults();
        let syntax = match syntax_by_extension(&syntax_set, "sql") {
            Some(syntax) => Some(syntax),
            None => match syntax_by_name(&syntax_set, "SQL") {
                Some(syntax) => Some(syntax),
                None => syntax_by_name(&syntax_set, "Plain Text"),
            },
        };
        let theme = match theme_by_name(&theme_set, "base16-mocha.dark") {
            Some(theme) => Some(theme),
            None => theme_by_name(&theme_set, "base16-ocean.dark"),
        };
        Highlighter { syntax_set, syntax, theme }
    }

    /// Highlight a single line, with its line feed if it has one. Returns one
    /// span per coloured run, and at least one for a line that is not empty.
    pub fn highlight_line(&mut self, line: &str) -> (res: Vec<HighlightSpan>)
        requires
            old(self).wf(),
        ensures
            *final(self) == *old(self),
            runs(res@) == spans_for(line@, old(self).runs_in(line@)),
            line@.len() > 0 ==> res@.len() > 0,
    {
        let found = match (&self.syntax, &self.theme) {
            (Some(syntax), Some(theme)) => highlight(&self.syntax_set, syntax, theme, line),
            _ => None,
        };
        spans_or_plain(line, found)
    }
}

/// The text of all runs.
pub open spec fn text_of(runs: Seq<(Seq<char>, Seq<u8>)>) -> Seq<char> {
    glued(runs.map_values(|r: (Seq<char>, Seq<u8>)| r.0))
}

/// A line is drawn in full: where the coloured runs make up the line, or there
/// are none, what is drawn makes up the line. Coloured runs keep their colours.
pub proof fn law_lines_are_drawn_in_full(
    line: Seq<char>,
    found: Option<Seq<(Seq<char>, Seq<u8>)>>,
)
    requires
        found matches Some(runs) ==> text_of(runs) == line || runs.len() == 0,
    ensures
        text_of(spans_for(line, found)) == line,
        found matches Some(runs) ==> (runs.len() > 0 ==> spans_for(line, found) == runs),
{
    let plain = seq![plain_run(line)];
    let texts = plain.map_values(|r: (Seq<char>, Seq<u8>)| r.0);
    reveal_with_fuel(glued, 2);
    assert(texts.drop_last() =~= Seq::<Seq<char>>::empty());
    assert(texts.last() == line);
    assert(glued(texts) =~= line);
    if let Some(runs) = found {
        if runs.len() == 0 && line.len() == 0 {
            assert(runs.map_values(|r: (Seq<char>, Seq<u8>)| r.0) =~= Seq::<Seq<char>>::empty());
            assert(text_of(runs) =~= line);
        }
    }
}

} // verus!
