//! The dialog that exports a whole database.

use vstd::prelude::*;

use crate::export::SqlDumpOptions;

verus! {

/// Kind of output.
#[derive(Debug, Clone, Copy, PartialEq, Eq, Structural)]
pub enum OutputFormat {
    /// One `.sql` dump that can be imported again.
    Sql,
    /// One `<table>.csv` file per table, in a folder.
    Csv,
}

/// What the user has chosen.
#[derive(Debug, Clone)]
pub struct ExportState {
    pub db: String,
    pub format: OutputFormat,
    pub opts: SqlDumpOptions,
}

impl ExportState {
    /// An SQL dump with the usual options.
    pub fn new(db: String) -> (res: ExportState)
        ensures
            res.db == db,
            res.format == OutputFormat::Sql,
            res.opts.tables && res.opts.views && res.opts.procedures && res.opts.functions
                && res.opts.triggers && res.opts.events,
            res.opts.data && res.opts.drop_if_exists && res.opts.portability_header,
            res.opts.extended_insert && res.opts.omit_definer && res.opts.comment_header,
            !res.opts.create_database,
    {
        ExportState { db, format: OutputFormat::Sql, opts: SqlDumpOptions::default() }
    }
}

/// What the user wants the dialog to do.
#[derive(Debug, Clone, Copy, PartialEq, Eq, Structural)]
pub enum ExportChoice {
    Nothing,
    Cancel,
    Run,
}

/// Some kind of object is in the dump.
pub open spec fn selects_objects(opts: SqlDumpOptions) -> bool {
    opts.tables || opts.views || opts.procedures || opts.functions || opts.triggers || opts.events
}

/// Whether some kind of object is in the dump, which would be empty otherwise.
pub fn any_object_selected(opts: &SqlDumpOptions) -> (res: bool)
    ensures
        res == selects_objects(*opts),
{
    opts.tables || opts.views || opts.procedures || opts.functions || opts.triggers || opts.events
}

/// Whether the export can be run.
pub fn run_enabled(state: &ExportState) -> (res: bool)
    ensures
        res == (state.format == OutputFormat::Csv || selects_objects(state.opts)),
{
    match state.format {
        OutputFormat::Sql => any_object_selected(&state.opts),
        OutputFormat::Csv => true,
    }
}

/// Title of the dialog.
pub fn export_title(state: &ExportState) -> (res: String)
    ensures
        res@ == "Export database `"@ + state.db@ + "`"@,
{
    let mut out = "Export database `".to_string();
    out.append(state.db.as_str());
    out.append("`");
    out
}

/// What the user wants, given the buttons that were clicked. Running, where it
/// is possible, wins over cancelling.
pub fn export_choice(state: &ExportState, cancel: bool, run: bool) -> (res: ExportChoice)
    ensures
        res == (if run && (state.format == OutputFormat::Csv || selects_objects(state.opts)) {
            ExportChoice::Run
        } else if cancel {
            ExportChoice::Cancel
        } else {
            ExportChoice::Nothing
        }),
{
    if run && run_enabled(state) {
        ExportChoice::Run
    } else if cancel {
        ExportChoice::Cancel
    } else {
        ExportChoice::Nothing
    }
}

} // verus!
