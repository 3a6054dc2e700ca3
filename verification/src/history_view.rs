//! The browser of the query history: what a search finds, and how an entry is
//! shown.

use vstd::prelude::*;

use crate::history::HistoryEntry;
use crate::text::{
    before_char, contains, decimal, first_chars, has_text, index_of_char, is_empty, law_before_char,
    law_has_text_in_any_case, lowercase, lowered, shorten, sub_text, to_chars, trim, trimmed,
    uppered, usize_text,
};

verus! {

/// The browser: whether it is open, the entries with the newest last, and what
/// is searched for.
#[derive(Debug)]
pub struct HistoryView {
    pub open: bool,
    pub entries: Vec<HistoryEntry>,
    pub query: String,
}

impl Default for HistoryView {
    fn default() -> (res: HistoryView)
        ensures
            !res.open,
            res.entries@.len() == 0,
            res.query@.len() == 0,
    {
        HistoryView { open: false, entries: Vec::new(), query: String::new() }
    }
}

/// What the user wants the browser to do.
#[derive(Debug, Clone)]
pub enum HistoryAction {
    Nothing,
    Close,
    LoadIntoEditor(String),
    Clear,
}

/// The search finds the entry: what is searched for stands in its SQL, its
/// profile or its summary, whatever the case of ASCII letters.
pub open spec fn finds(query: Seq<char>, e: HistoryEntry) -> bool {
    ||| query.len() == 0
    ||| has_text(lowered(e.sql@), lowered(query))
    ||| has_text(lowered(e.profile@), lowered(query))
    ||| has_text(lowered(e.summary@), lowered(query))
}

/// The places below `n` of the entries that the search finds, newest first.
pub open spec fn found_below(query: Seq<char>, entries: Seq<HistoryEntry>, n: int) -> Seq<usize>
    decreases n,
{
    if n <= 0 {
        seq![]
    } else if finds(query, entries[n - 1]) {
        seq![(n - 1) as usize] + found_below(query, entries, n - 1)
    } else {
        found_below(query, entries, n - 1)
    }
}

/// The places of the entries that the search finds, newest first.
pub open spec fn found(query: Seq<char>, entries: Seq<HistoryEntry>) -> Seq<usize> {
    found_below(query, entries, entries.len() as int)
}

fn entry_matches(needle: &str, e: &HistoryEntry) -> (res: bool)
    ensures
        res == (has_text(lowered(e.sql@), needle@) || has_text(lowered(e.profile@), needle@)
            || has_text(lowered(e.summary@), needle@)),
{
    contains(lowercase(e.sql.as_str()).as_str(), needle) || contains(
        lowercase(e.profile.as_str()).as_str(),
        needle,
    ) || contains(lowercase(e.summary.as_str()).as_str(), needle)
}

impl HistoryView {
    /// The places of the entries that the search finds, newest first.
    pub fn filtered(&self) -> (res: Vec<usize>)
        ensures
            res@ == found(self.query@, self.entries@),
    {
        let all = is_empty(self.query.as_str());
        let needle = lowercase(self.query.as_str());
        let mut out: Vec<usize> = Vec::new();
        let mut n: usize = self.entries.len();
        while n > 0
            invariant
                n <= self.entries@.len(),
                all == (self.query@.len() == 0),
                needle@ == lowered(self.query@),
                out@ + found_below(self.query@, self.entries@, n as int) == found(
                    self.query@,
                    self.entries@,
                ),
            decreases n,
        {
            let ghost before = out@;
            n = n - 1;
            if all || entry_matches(needle.as_str(), &self.entries[n]) {
                out.push(n);
                assert(out@ + found_below(self.query@, self.entries@, n as int) =~= before + (seq![
                    n,
                ] + found_below(self.query@, self.entries@, n as int)));
            }
        }
        assert(out@ + Seq::<usize>::empty() =~= out@);
        out
    }

    /// What the user wants, given the buttons that were clicked and the place of
    /// the entry whose Load was. A closed browser asks for nothing; loading an
    /// entry wins over clearing, and clearing over closing.
    pub fn action(&self, close: bool, clear: bool, load: Option<usize>) -> (res: HistoryAction)
        ensures
            match res {
                HistoryAction::LoadIntoEditor(sql) => self.open && load is Some && load->0
                    < self.entries@.len() && sql@ == self.entries@[load->0 as int].sql@,
                HistoryAction::Clear => self.open && clear && !(load is Some && load->0
                    < self.entries@.len()),
                HistoryAction::Close => self.open && close && !clear && !(load is Some && load->0
                    < self.entries@.len()),
                HistoryAction::Nothing => !self.open || (!close && !clear && !(load is Some
                    && load->0 < self.entries@.len())),
            },
    {
        if !self.open {
            return HistoryAction::Nothing;
        }
        if let Some(i) = load {
            if i < self.entries.len() {
                return HistoryAction::LoadIntoEditor(self.entries[i].sql.clone());
            }
        }
        if clear {
            HistoryAction::Clear
        } else if close {
            HistoryAction::Close
        } else {
            HistoryAction::Nothing
        }
    }

    /// The line that counts the entries.
    pub fn count_label(&self) -> (res: String)
        ensures
            res@ == decimal(self.entries@.len()) + " entries"@,
    {
        let mut out = usize_text(self.entries.len());
        out.append(" entries");
        out
    }
}

/// Something stands after the first line end of `s`.
pub open spec fn has_more_lines(s: Seq<char>) -> bool {
    before_char(s, '\n').len() + 1 < s.len()
}

/// The one line that stands for a statement: at most two hundred characters of
/// its first line, and an ellipsis where there is more.
pub open spec fn line_for(sql: Seq<char>) -> Seq<char> {
    let one_line = trimmed(before_char(sql, '\n'));
    first_chars(one_line, 200) + (if one_line.len() > 200 || has_more_lines(sql) {
        "…"@
    } else {
        seq![]
    })
}

/// The one line that stands for a statement.
pub fn history_line(entry: &HistoryEntry) -> (res: String)
    ensures
        res@ == line_for(entry.sql@),
{
    let chars = to_chars(entry.sql.as_str());
    let end: usize = index_of_char(&chars, '\n');
    let first = sub_text(&chars, 0, end);
    assert(first@ =~= before_char(entry.sql@, '\n'));
    assert(before_char(entry.sql@, '\n').len() == end);
    let one_line = trim(first.as_str());
    let mut out = shorten(one_line.as_str(), 200);
    let size: usize = chars.len();
    let more = end < size && size - end > 1;
    if one_line.as_str().unicode_len() > 200 || more {
        out.append("…");
    } else {
        assert(out@ + Seq::<char>::empty() =~= out@);
    }
    out
}

/// The label of the profile that a statement was run against.
pub fn profile_label(entry: &HistoryEntry) -> (res: String)
    ensures
        res@ == "· "@ + entry.profile@,
{
    let mut out = "· ".to_string();
    out.append(entry.profile.as_str());
    out
}

proof fn lemma_found(query: Seq<char>, entries: Seq<HistoryEntry>, n: int)
    requires
        0 <= n <= entries.len(),
        entries.len() <= usize::MAX,
    ensures
        forall|k: int|
            0 <= k < found_below(query, entries, n).len() ==> (#[trigger] found_below(
                query,
                entries,
                n,
            )[k]) < n && finds(query, entries[found_below(query, entries, n)[k] as int]),
        forall|j: int, k: int|
            0 <= j < k < found_below(query, entries, n).len() ==> #[trigger] found_below(
                query,
                entries,
                n,
            )[j] > #[trigger] found_below(query, entries, n)[k],
        forall|i: int|
            0 <= i < n && finds(query, #[trigger] entries[i]) ==> found_below(
                query,
                entries,
                n,
            ).contains(i as usize),
    decreases n,
{
    if n > 0 {
        lemma_found(query, entries, n - 1);
        let rest = found_below(query, entries, n - 1);
        let all = found_below(query, entries, n);
        if finds(query, entries[n - 1]) {
            assert(all == seq![(n - 1) as usize] + rest);
            assert forall|k: int| 0 <= k < all.len() implies (#[trigger] all[k]) < n && finds(
                query,
                entries[all[k] as int],
            ) by {
                if k > 0 {
                    assert(all[k] == rest[k - 1]);
                }
            }
            assert forall|j: int, k: int| 0 <= j < k < all.len() implies #[trigger] all[j]
                > #[trigger] all[k] by {
                assert(all[k] == rest[k - 1]);
                if j > 0 {
                    assert(all[j] == rest[j - 1]);
                }
            }
            assert forall|i: int| 0 <= i < n && finds(query, #[trigger] entries[i]) implies
                all.contains(i as usize) by {
                if i == n - 1 {
                    assert(all[0] == i as usize);
                } else {
                    let k = rest.index_of(i as usize);
                    assert(rest.contains(i as usize));
                    assert(all[k + 1] == i as usize);
                }
            }
        } else {
            assert(all == rest);
        }
    }
}

/// The search lists exactly the entries that it finds, each once, and newer
/// ones before older ones. An empty search finds every entry.
pub proof fn law_search(query: Seq<char>, entries: Seq<HistoryEntry>)
    requires
        entries.len() <= usize::MAX,
    ensures
        forall|i: int|
            0 <= i < entries.len() ==> (found(query, entries).contains(i as usize) <==> finds(
                query,
                #[trigger] entries[i],
            )),
        forall|j: int, k: int|
            0 <= j < k < found(query, entries).len() ==> #[trigger] found(query, entries)[j]
                > #[trigger] found(query, entries)[k],
        query.len() == 0 ==> forall|i: int|
            0 <= i < entries.len() ==> found(query, entries).contains(#[trigger] (i as usize)),
{
    lemma_found(query, entries, entries.len() as int);
    assert forall|i: int| 0 <= i < entries.len() && found(query, entries).contains(i as usize)
        implies finds(query, #[trigger] entries[i]) by {
        let k = found(query, entries).index_of(i as usize);
        assert(found(query, entries)[k] == i as usize);
    }
    if query.len() == 0 {
        assert forall|i: int| 0 <= i < entries.len() implies found(query, entries).contains(
            #[trigger] (i as usize),
        ) by {
            assert(finds(query, entries[i]));
        }
    }
}

/// The search finds a statement by any part of it, by any part of the name of
/// its profile and by any part of its summary, and the case of ASCII letters
/// makes no difference.
pub proof fn law_search_finds_parts(a: Seq<char>, query: Seq<char>, c: Seq<char>, e: HistoryEntry)
    requires
        e.sql@ == a + query + c || e.profile@ == a + query + c || e.summary@ == a + query + c,
    ensures
        finds(query, e),
        finds(uppered(query), e),
{
    law_has_text_in_any_case(a, query, c);
}

/// The search finds nothing else: what is searched for stands, in any ASCII
/// case, in one of the three texts of each entry that is found.
pub proof fn law_search_finds_nothing_else(query: Seq<char>, e: HistoryEntry)
    requires
        finds(query, e),
    ensures
        has_text(lowered(e.sql@), lowered(query)) || has_text(lowered(e.profile@), lowered(query))
            || has_text(lowered(e.summary@), lowered(query)),
{
    if query.len() == 0 {
        law_has_text_in_any_case(seq![], query, e.sql@);
        assert(Seq::<char>::empty() + query + e.sql@ =~= e.sql@);
    }
}

/// A statement is listed by its first line, without white space around it. Where
/// that is not all of the statement, an ellipsis says so.
pub proof fn law_first_line_stands_for_all(line: Seq<char>, more: Seq<char>)
    requires
        forall|i: int| 0 <= i < line.len() ==> #[trigger] line[i] != '\n',
        trimmed(line).len() <= 200,
    ensures
        line_for(line) == trimmed(line),
        line_for(line + seq!['\n']) == trimmed(line),
        more.len() > 0 ==> line_for(line + seq!['\n'] + more) == trimmed(line) + seq!['…'],
{
    reveal_strlit("…");
    assert("…"@ =~= seq!['…']);
    law_before_char(line, '\n', more);
    law_before_char(line, '\n', seq![]);
    assert(line + seq!['\n'] + Seq::<char>::empty() =~= line + seq!['\n']);
    assert(trimmed(line) + Seq::<char>::empty() =~= trimmed(line));
}

/// A long first line is cut off after two hundred characters, with an ellipsis.
pub proof fn law_long_lines_are_cut(line: Seq<char>)
    requires
        forall|i: int| 0 <= i < line.len() ==> #[trigger] line[i] != '\n',
        trimmed(line).len() > 200,
    ensures
        line_for(line) == trimmed(line).take(200) + seq!['…'],
{
    reveal_strlit("…");
    assert("…"@ =~= seq!['…']);
    law_before_char(line, '\n', seq![]);
}

} // verus!
