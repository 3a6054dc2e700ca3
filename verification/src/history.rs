//! Persistent query history, newest entry last.

use vstd::prelude::*;

use crate::text::text_eq;

verus! {

/// A statement that was run.
#[derive(Debug, Clone, PartialEq, Eq)]
pub struct HistoryEntry {
    /// ISO-8601 timestamp in UTC.
    pub timestamp: String,
    /// Name of the connection profile that the statement was run against.
    pub profile: String,
    /// The SQL as the user wrote it.
    pub sql: String,
    pub success: bool,
    /// What came of it.
    pub summary: String,
}

/// Where the history is kept, and how much of it.
#[derive(Debug, Clone)]
pub struct HistoryStore {
    path: String,
    limit: usize,
}

/// The history after a statement was run, and whether it has changed.
#[derive(Debug)]
pub struct Pushed {
    pub entries: Vec<HistoryEntry>,
    pub changed: bool,
}

/// The entry repeats the last one: the same SQL against the same profile.
pub open spec fn repeats_last(entries: Seq<HistoryEntry>, entry: HistoryEntry) -> bool {
    entries.len() > 0 && entries.last().sql@ == entry.sql@ && entries.last().profile@
        == entry.profile@
}

/// The last `limit` entries.
pub open spec fn newest(entries: Seq<HistoryEntry>, limit: int) -> Seq<HistoryEntry> {
    if entries.len() > limit {
        entries.skip(entries.len() - limit)
    } else {
        entries
    }
}

/// The history after a statement was run.
pub open spec fn history_with(
    entries: Seq<HistoryEntry>,
    entry: HistoryEntry,
    limit: int,
) -> Seq<HistoryEntry> {
    if repeats_last(entries, entry) {
        entries
    } else {
        newest(entries.push(entry), limit)
    }
}

impl HistoryStore {
    /// The path of the file.
    pub closed spec fn location(self) -> Seq<char> {
        self.path@
    }

    /// How many entries are kept.
    pub closed spec fn capacity(self) -> int {
        self.limit as int
    }

    /// A store in the file at `path`.
    pub fn at(path: String, limit: usize) -> (res: HistoryStore)
        ensures
            res.location() == path@,
            res.capacity() == limit,
    {
        HistoryStore { path, limit }
    }

    /// The path of the file.
    pub fn path(&self) -> (res: &str)
        ensures
            res@ == self.location(),
    {
        self.path.as_str()
    }

    /// The entries, given what the file holds: none where there is no file, or
    /// where it cannot be parsed.
    pub fn load(&self, file: Option<Result<Vec<HistoryEntry>, String>>) -> (res: Vec<HistoryEntry>)
        ensures
            match file {
                Some(Ok(entries)) => res == entries,
                _ => res@.len() == 0,
            },
    {
        match file {
            Some(Ok(entries)) => entries,
            _ => Vec::new(),
        }
    }

    /// Append an entry and keep the newest ones. An entry that repeats the last
    /// one is left out.
    pub fn push(&self, entries: Vec<HistoryEntry>, entry: HistoryEntry) -> (res: Pushed)
        ensures
            res.entries@ == history_with(entries@, entry, self.capacity()),
            res.changed == !repeats_last(entries@, entry),
    {
        let mut entries = entries;
        let count: usize = entries.len();
        if count > 0 && text_eq(entries[count - 1].sql.as_str(), entry.sql.as_str()) && text_eq(
            entries[count - 1].profile.as_str(),
            entry.profile.as_str(),
        ) {
            return Pushed { entries, changed: false };
        }
        entries.push(entry);
        if entries.len() > self.limit {
            let drop: usize = entries.len() - self.limit;
            let kept = entries.split_off(drop);
            return Pushed { entries: kept, changed: true };
        }
        Pushed { entries, changed: true }
    }
}

/// The history never outgrows its limit: it is within it after a statement was
/// run, if it was before. A statement that is no repeat comes last, if anything
/// is kept at all, and what came before it is kept in order.
pub proof fn law_history_capped(entries: Seq<HistoryEntry>, entry: HistoryEntry, limit: int)
    requires
        0 <= limit,
    ensures
        entries.len() <= limit ==> history_with(entries, entry, limit).len() <= limit,
        !repeats_last(entries, entry) ==> history_with(entries, entry, limit).len() <= limit,
        !repeats_last(entries, entry) && limit > 0 ==> history_with(entries, entry, limit).last()
            == entry,
        forall|k: int|
            0 <= k < history_with(entries, entry, limit).len() - 1 && !repeats_last(entries, entry)
                ==> #[trigger] history_with(entries, entry, limit)[k] == entries[entries.len() + 1
                - history_with(entries, entry, limit).len() + k],
{
}

/// Running the same statement against the same profile again changes nothing.
pub proof fn law_repeat_is_left_out(
    entries: Seq<HistoryEntry>,
    entry: HistoryEntry,
    again: HistoryEntry,
    limit: int,
)
    requires
        limit > 0,
        again.sql@ == entry.sql@,
        again.profile@ == entry.profile@,
    ensures
        history_with(history_with(entries, entry, limit), again, limit) == history_with(
            entries,
            entry,
            limit,
        ),
{
}

} // verus!
