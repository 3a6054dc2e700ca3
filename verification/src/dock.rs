//! The tabs of the central area: their titles and tooltips, and what closing
//! them or working in them asks for.

use vstd::prelude::*;

use crate::editor::Buffer;
use crate::object_view::{kind_label, kind_name, object_intents, ObjectAction, ObjectIntent};
use crate::results::{tab_label, tab_title, ExportFormat, ResultTab, ResultsAction};
use crate::schema::ObjectKind;
use crate::state::ObjectKey;
use crate::text::{decimal, ends_with, opt_text, u64_text};

verus! {

/// A tab. It only says what it shows; the state is kept elsewhere.
#[derive(Debug, Clone, PartialEq, Eq, Hash)]
pub enum DockTab {
    /// The editor of the buffer with this id.
    SqlEditor { buffer_id: u64 },
    /// The result set with this id.
    Results { tab_id: u64 },
    /// The inspector of an object.
    Object { key: ObjectKey },
}

/// What the tabs ask for.
#[derive(Debug, Clone)]
pub enum DockAction {
    CloseEditorBuffer(u64),
    CloseResultsTab(u64),
    CloseObjectView(ObjectKey),
    /// What the inspector of an object asks for.
    ObjectRequest { key: ObjectKey, action: ObjectAction },
    /// The editor of this buffer has the keyboard focus.
    FocusedEditor(u64),
}

/// What a [`DockAction`] says.
#[verifier::ext_equal]
pub enum DockIntent {
    CloseEditorBuffer(u64),
    CloseResultsTab(u64),
    CloseObjectView(Seq<char>, ObjectKind, Seq<char>),
    ObjectRequest(Seq<char>, ObjectKind, Seq<char>, ObjectIntent),
    FocusedEditor(u64),
}

impl View for DockAction {
    type V = DockIntent;

    open spec fn view(&self) -> DockIntent {
        match *self {
            DockAction::CloseEditorBuffer(id) => DockIntent::CloseEditorBuffer(id),
            DockAction::CloseResultsTab(id) => DockIntent::CloseResultsTab(id),
            DockAction::CloseObjectView(key) => DockIntent::CloseObjectView(
                key.db@,
                key.kind,
                key.name@,
            ),
            DockAction::ObjectRequest { key, action } => DockIntent::ObjectRequest(
                key.db@,
                key.kind,
                key.name@,
                action@,
            ),
            DockAction::FocusedEditor(id) => DockIntent::FocusedEditor(id),
        }
    }
}

/// The title of an editor tab: the name of its buffer, with a dot while there
/// are changes to save. A buffer that is gone is named by its id.
pub open spec fn editor_title_text(buffer: Option<&Buffer>, buffer_id: u64) -> Seq<char> {
    match buffer {
        Some(b) => if b.dirty {
            "● "@ + b.name@
        } else {
            b.name@
        },
        None => "query-"@ + decimal(buffer_id as nat),
    }
}

/// The title of an editor tab.
pub fn editor_title(buffer: Option<&Buffer>, buffer_id: u64) -> (res: String)
    ensures
        res@ == editor_title_text(buffer, buffer_id),
{
    match buffer {
        Some(b) => if b.dirty {
            let mut out = "● ".to_string();
            out.append(b.name.as_str());
            out
        } else {
            b.name.clone()
        },
        None => {
            let mut out = "query-".to_string();
            out.append(u64_text(buffer_id).as_str());
            out
        },
    }
}

/// The title of a result tab, or its number where the result set is gone.
pub fn results_title(tab: Option<&ResultTab>, tab_id: u64) -> (res: String)
    ensures
        res@ == (match tab {
            Some(tab) => tab_label(tab.label@, tab.rows().len()),
            None => "results #"@ + decimal(tab_id as nat),
        }),
{
    match tab {
        Some(tab) => tab_title(tab),
        None => {
            let mut out = "results #".to_string();
            out.append(u64_text(tab_id).as_str());
            out
        },
    }
}

/// The title of an inspector.
pub fn object_title(key: &ObjectKey) -> (res: String)
    ensures
        res@ == key.db@ + "."@ + key.name@,
{
    let mut out = key.db.clone();
    out.append(".");
    out.append(key.name.as_str());
    out
}

/// The tooltip of an inspector.
pub fn object_hover(key: &ObjectKey) -> (res: String)
    ensures
        res@ == kind_name(key.kind) + " · `"@ + key.db@ + "`.`"@ + key.name@ + "`"@,
{
    let mut out = kind_label(key.kind).to_string();
    out.append(" · `");
    out.append(key.db.as_str());
    out.append("`.`");
    out.append(key.name.as_str());
    out.append("`");
    out
}

/// The tooltip of an editor tab: the file of its buffer, where it has one.
pub fn editor_hover(buffer: Option<&Buffer>) -> (res: Option<String>)
    ensures
        opt_text(res) == (match buffer {
            Some(b) => opt_text(b.path),
            None => None,
        }),
{
    match buffer {
        Some(b) => match &b.path {
            Some(path) => Some(path.clone()),
            None => None,
        },
        None => None,
    }
}

/// What is shown for an object whose inspector is gone.
pub fn missing_object(key: &ObjectKey) -> (res: String)
    ensures
        res@ == "Object `"@ + key.db@ + "."@ + key.name@ + "` is no longer available."@,
{
    let mut out = "Object `".to_string();
    out.append(key.db.as_str());
    out.append(".");
    out.append(key.name.as_str());
    out.append("` is no longer available.");
    out
}

/// What closing a tab asks for: freeing what it shows.
pub fn close_action(tab: &DockTab) -> (res: DockAction)
    ensures
        res@ == (match *tab {
            DockTab::SqlEditor { buffer_id } => DockIntent::CloseEditorBuffer(buffer_id),
            DockTab::Results { tab_id } => DockIntent::CloseResultsTab(tab_id),
            DockTab::Object { key } => DockIntent::CloseObjectView(key.db@, key.kind, key.name@),
        }),
{
    match tab {
        DockTab::SqlEditor { buffer_id } => DockAction::CloseEditorBuffer(*buffer_id),
        DockTab::Results { tab_id } => DockAction::CloseResultsTab(*tab_id),
        DockTab::Object { key } => DockAction::CloseObjectView(key.copy()),
    }
}

/// What each action says.
pub open spec fn dock_intents(actions: Seq<DockAction>) -> Seq<DockIntent> {
    actions.map_values(|a: DockAction| a@)
}

/// Hand on what the inspector of an object asks for.
pub fn forward(key: &ObjectKey, actions: Vec<ObjectAction>) -> (res: Vec<DockAction>)
    ensures
        dock_intents(res@) == object_intents(actions@).map_values(
            |a: ObjectIntent| DockIntent::ObjectRequest(key.db@, key.kind, key.name@, a),
        ),
{
    let ghost given = actions@;
    let ghost request = |a: ObjectIntent|
        DockIntent::ObjectRequest(key.db@, key.kind, key.name@, a);
    let mut out: Vec<DockAction> = Vec::new();
    for action in it: actions
        invariant
            it.seq() == given,
            out@.len() == it.index(),
            forall|k: int|
                0 <= k < out@.len() ==> (#[trigger] out@[k])@ == DockIntent::ObjectRequest(
                    key.db@,
                    key.kind,
                    key.name@,
                    given[k]@,
                ),
    {
        out.push(DockAction::ObjectRequest { key: key.copy(), action });
    }
    assert(dock_intents(out@) =~= object_intents(given).map_values(request));
    out
}

/// The ways to copy a result set, with their labels.
pub fn export_menu() -> (res: Vec<(&'static str, ExportFormat)>)
    ensures
        res@ == seq![
            ("Copy as CSV", ExportFormat::Csv),
            ("Copy as TSV", ExportFormat::Tsv),
            ("Copy as INSERT", ExportFormat::Insert),
        ],
{
    vec![
        ("Copy as CSV", ExportFormat::Csv),
        ("Copy as TSV", ExportFormat::Tsv),
        ("Copy as INSERT", ExportFormat::Insert),
    ]
}

/// What a click in that menu asks for; only a result tab has it.
pub fn export_action(tab: &DockTab, format: ExportFormat) -> (res: Option<ResultsAction>)
    ensures
        res == (match *tab {
            DockTab::Results { tab_id } => Some(ResultsAction::Export { tab_id, format }),
            _ => None,
        }),
{
    match tab {
        DockTab::Results { tab_id } => Some(ResultsAction::Export { tab_id: *tab_id, format }),
        _ => None,
    }
}

/// The title of an editor tab shows the name of its buffer, and whether there is
/// something to save.
pub proof fn law_title_shows_changes(b: &Buffer, id: u64)
    ensures
        ends_with(editor_title_text(Some(b), id), b.name@),
        editor_title_text(Some(b), id) == b.name@ <==> !b.dirty,
{
    reveal_strlit("● ");
    let title = editor_title_text(Some(b), id);
    assert(title.skip(title.len() - b.name@.len()) =~= b.name@);
}

} // verus!
