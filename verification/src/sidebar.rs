//! The sidebar: the list of connections, and the tree of the databases of the
//! open one with its filter.

use vstd::prelude::*;

use crate::dialog::{choice_for, ConfirmChoice};
use crate::object_view::kind_name;
use crate::profile::ConnectionProfile;
use crate::quote::{ident, qualified, qualified_name, quoted_ident};
use crate::schema::{kind_keyword, kind_short_label, ObjectKind, SchemaNames, SchemaObjects};
use crate::state::{
    ConfirmAction, ConfirmView, LoadState, PendingExec, PendingView, SchemaState,
};
use crate::text::{
    contains, decimal, has_text, is_empty, law_ascii_case, law_has_text_in_any_case, lowercase,
    lowered, occurs_at, texts, trim, trimmed, u64_text, uppered, usize_text,
};

verus! {

/// What the sidebar asks for.
#[derive(Debug, Clone)]
pub enum SidebarAction {
    NewConnection,
    Connect(String),
    Disconnect,
    DeleteProfile(String),
    RefreshDatabases,
    RefreshDatabase(String),
    CopyText(String),
    /// Copy the statement that creates an object.
    ShowCreate { db: String, kind: ObjectKind, name: String },
    /// Open the inspector of an object.
    OpenObject { db: String, kind: ObjectKind, name: String },
    /// Open the export dialog for a database.
    ExportDatabase(String),
    Confirm(ConfirmAction),
}

/// What a [`SidebarAction`] says.
#[verifier::ext_equal]
pub enum SidebarIntent {
    NewConnection,
    Connect(Seq<char>),
    Disconnect,
    DeleteProfile(Seq<char>),
    RefreshDatabases,
    RefreshDatabase(Seq<char>),
    CopyText(Seq<char>),
    ShowCreate(Seq<char>, ObjectKind, Seq<char>),
    OpenObject(Seq<char>, ObjectKind, Seq<char>),
    ExportDatabase(Seq<char>),
    Confirm(ConfirmView),
}

impl View for SidebarAction {
    type V = SidebarIntent;

    open spec fn view(&self) -> SidebarIntent {
        match *self {
            SidebarAction::NewConnection => SidebarIntent::NewConnection,
            SidebarAction::Connect(name) => SidebarIntent::Connect(name@),
            SidebarAction::Disconnect => SidebarIntent::Disconnect,
            SidebarAction::DeleteProfile(name) => SidebarIntent::DeleteProfile(name@),
            SidebarAction::RefreshDatabases => SidebarIntent::RefreshDatabases,
            SidebarAction::RefreshDatabase(db) => SidebarIntent::RefreshDatabase(db@),
            SidebarAction::CopyText(text) => SidebarIntent::CopyText(text@),
            SidebarAction::ShowCreate { db, kind, name } => SidebarIntent::ShowCreate(
                db@,
                kind,
                name@,
            ),
            SidebarAction::OpenObject { db, kind, name } => SidebarIntent::OpenObject(
                db@,
                kind,
                name@,
            ),
            SidebarAction::ExportDatabase(db) => SidebarIntent::ExportDatabase(db@),
            SidebarAction::Confirm(c) => SidebarIntent::Confirm(c@),
        }
    }
}

/// What each action says.
pub open spec fn sidebar_intents(actions: Seq<SidebarAction>) -> Seq<SidebarIntent> {
    actions.map_values(|a: SidebarAction| a@)
}

/// One intent, where it was clicked.
pub open spec fn clicked(on: bool, intent: SidebarIntent) -> Seq<SidebarIntent> {
    if on {
        seq![intent]
    } else {
        seq![]
    }
}

fn push_clicked(out: &mut Vec<SidebarAction>, on: bool, action: SidebarAction)
    ensures
        sidebar_intents(final(out)@) == sidebar_intents(old(out)@) + clicked(on, action@),
{
    let ghost before = sidebar_intents(out@);
    if on {
        out.push(action);
    }
    assert(sidebar_intents(out@) =~= before + clicked(on, action@));
}

/// The line under a connection: user, host, port and database.
pub open spec fn endpoint_text(profile: ConnectionProfile) -> Seq<char> {
    profile.user@ + "@"@ + profile.host@ + ":"@ + decimal(profile.port as nat) + (
    match profile.database {
        Some(db) => "/"@ + db@,
        None => seq![],
    })
}

/// The line under a connection: `user@host:port`, and `/database` where there is
/// one.
pub fn endpoint_label(profile: &ConnectionProfile) -> (res: String)
    ensures
        res@ == endpoint_text(*profile),
{
    let mut out = profile.user.clone();
    out.append("@");
    out.append(profile.host.as_str());
    out.append(":");
    out.append(u64_text(profile.port as u64).as_str());
    match &profile.database {
        Some(db) => {
            let mut part = "/".to_string();
            part.append(db.as_str());
            out.append(part.as_str());
        },
        None => {
            assert(out@ + Seq::<char>::empty() =~= out@);
        },
    }
    out
}

/// The label of a connection: a full dot for the open one, an empty one for the
/// others.
pub fn connection_label(profile: &ConnectionProfile, is_active: bool) -> (res: String)
    ensures
        res@ == (if is_active {
            "● "@
        } else {
            "○ "@
        }) + profile.name@,
{
    let mut out = if is_active {
        "● ".to_string()
    } else {
        "○ ".to_string()
    };
    out.append(profile.name.as_str());
    out
}

/// What was clicked on a connection.
#[derive(Debug, Clone, Copy)]
pub struct ConnectionClicks {
    pub double_click: bool,
    pub connect: bool,
    pub disconnect: bool,
    pub refresh: bool,
    pub delete: bool,
}

/// What clicks on a connection ask for. Only a connection that is neither open
/// nor being opened can be opened; only an open one can be closed or refreshed.
pub open spec fn connection_intents(
    name: Seq<char>,
    is_active: bool,
    is_busy: bool,
    clicks: ConnectionClicks,
) -> Seq<SidebarIntent> {
    let idle = !is_active && !is_busy;
    clicked(idle && clicks.double_click, SidebarIntent::Connect(name)) + clicked(
        idle && clicks.connect,
        SidebarIntent::Connect(name),
    ) + clicked(is_active && clicks.disconnect, SidebarIntent::Disconnect) + clicked(
        is_active && clicks.refresh,
        SidebarIntent::RefreshDatabases,
    ) + clicked(clicks.delete, SidebarIntent::DeleteProfile(name))
}

/// What clicks on a connection ask for.
pub fn connection_actions(name: &str, is_active: bool, is_busy: bool, clicks: ConnectionClicks) -> (
    res: Vec<SidebarAction>)
    ensures
        sidebar_intents(res@) == connection_intents(name@, is_active, is_busy, clicks),
{
    let idle = !is_active && !is_busy;
    let mut out: Vec<SidebarAction> = Vec::new();
    push_clicked(
        &mut out,
        idle && clicks.double_click,
        SidebarAction::Connect(name.to_string()),
    );
    assert(sidebar_intents(out@) =~= clicked(
        idle && clicks.double_click,
        SidebarIntent::Connect(name@),
    ));
    push_clicked(&mut out, idle && clicks.connect, SidebarAction::Connect(name.to_string()));
    push_clicked(&mut out, is_active && clicks.disconnect, SidebarAction::Disconnect);
    push_clicked(&mut out, is_active && clicks.refresh, SidebarAction::RefreshDatabases);
    push_clicked(&mut out, clicks.delete, SidebarAction::DeleteProfile(name.to_string()));
    out
}

/// The confirmation that emptying a table waits for.
pub open spec fn truncate_confirmation(db: Seq<char>, name: Seq<char>) -> ConfirmView {
    ConfirmView {
        title: "Truncate `"@ + name + "`"@,
        message: "This will remove ALL rows from `"@ + db + "`.`"@ + name + "`."@,
        sql: "TRUNCATE TABLE "@ + qualified_name(db, name),
        kind: PendingView::Truncate { db, name },
    }
}

fn truncate_action(db: &str, name: &str) -> (res: ConfirmAction)
    ensures
        res@ == truncate_confirmation(db@, name@),
{
    let mut title = "Truncate `".to_string();
    title.append(name);
    title.append("`");
    let mut message = "This will remove ALL rows from `".to_string();
    message.append(db);
    message.append("`.`");
    message.append(name);
    message.append("`.");
    let mut sql = "TRUNCATE TABLE ".to_string();
    sql.append(qualified(db, name).as_str());
    let kind = PendingExec::Truncate { db: db.to_string(), name: name.to_string() };
    ConfirmAction { title, message, sql, kind }
}

/// The confirmation that dropping an object waits for.
pub open spec fn drop_confirmation(db: Seq<char>, kind: ObjectKind, name: Seq<char>) -> ConfirmView {
    ConfirmView {
        title: "Drop "@ + lowered(kind_keyword(kind)) + " `"@ + name + "`"@,
        message: "This will permanently delete `"@ + db + "`.`"@ + name + "`."@,
        sql: "DROP "@ + kind_keyword(kind) + " "@ + qualified_name(db, name),
        kind: PendingView::DropObject { db, name },
    }
}

fn drop_action(db: &str, kind: ObjectKind, name: &str) -> (res: ConfirmAction)
    ensures
        res@ == drop_confirmation(db@, kind, name@),
{
    let mut title = "Drop ".to_string();
    title.append(lowercase(kind.keyword()).as_str());
    title.append(" `");
    title.append(name);
    title.append("`");
    let mut message = "This will permanently delete `".to_string();
    message.append(db);
    message.append("`.`");
    message.append(name);
    message.append("`.");
    let mut sql = "DROP ".to_string();
    sql.append(kind.keyword());
    sql.append(" ");
    sql.append(qualified(db, name).as_str());
    let kind = PendingExec::DropObject { db: db.to_string(), name: name.to_string() };
    ConfirmAction { title, message, sql, kind }
}

/// The confirmation that dropping a database waits for.
pub open spec fn drop_database_confirmation(db: Seq<char>) -> ConfirmView {
    ConfirmView {
        title: "Drop database `"@ + db + "`"@,
        message: "This will permanently delete the database `"@ + db + "` and ALL its objects."@,
        sql: "DROP DATABASE "@ + quoted_ident(db),
        kind: PendingView::DropDatabase { db },
    }
}

fn drop_database_action(db: &str) -> (res: ConfirmAction)
    ensures
        res@ == drop_database_confirmation(db@),
{
    let mut title = "Drop database `".to_string();
    title.append(db);
    title.append("`");
    let mut message = "This will permanently delete the database `".to_string();
    message.append(db);
    message.append("` and ALL its objects.");
    let mut sql = "DROP DATABASE ".to_string();
    sql.append(ident(db).as_str());
    ConfirmAction { title, message, sql, kind: PendingExec::DropDatabase { db: db.to_string() } }
}

/// Nothing is destroyed from the sidebar unless the user types the name of what
/// goes: emptying a table, dropping an object and dropping a database all wait
/// for a confirmation that is given only then.
pub proof fn law_destruction_needs_the_name(
    db: Seq<char>,
    kind: ObjectKind,
    name: Seq<char>,
    typed: Seq<char>,
    confirm: bool,
    cancel: bool,
)
    ensures
        choice_for(truncate_confirmation(db, name).kind, typed, confirm, cancel)
            == ConfirmChoice::Confirm ==> trimmed(typed) == name,
        choice_for(drop_confirmation(db, kind, name).kind, typed, confirm, cancel)
            == ConfirmChoice::Confirm ==> trimmed(typed) == name,
        choice_for(drop_database_confirmation(db).kind, typed, confirm, cancel)
            == ConfirmChoice::Confirm ==> trimmed(typed) == db,
{
}

/// What was clicked on an object.
#[derive(Debug, Clone, Copy)]
pub struct ObjectClicks {
    pub double_click: bool,
    pub open: bool,
    pub copy_name: bool,
    pub copy_create: bool,
    pub truncate: bool,
    pub drop: bool,
}

/// What clicks on an object ask for. Only a table can be emptied.
pub open spec fn object_clicks_ask(
    db: Seq<char>,
    kind: ObjectKind,
    name: Seq<char>,
    clicks: ObjectClicks,
) -> Seq<SidebarIntent> {
    clicked(clicks.double_click, SidebarIntent::OpenObject(db, kind, name)) + clicked(
        clicks.open,
        SidebarIntent::OpenObject(db, kind, name),
    ) + clicked(clicks.copy_name, SidebarIntent::CopyText(name)) + clicked(
        clicks.copy_create,
        SidebarIntent::ShowCreate(db, kind, name),
    ) + clicked(
        kind == ObjectKind::Table && clicks.truncate,
        SidebarIntent::Confirm(truncate_confirmation(db, name)),
    ) + clicked(clicks.drop, SidebarIntent::Confirm(drop_confirmation(db, kind, name)))
}

/// What clicks on an object ask for.
pub fn object_actions(db: &str, kind: ObjectKind, name: &str, clicks: ObjectClicks) -> (res: Vec<
    SidebarAction,
>)
    ensures
        sidebar_intents(res@) == object_clicks_ask(db@, kind, name@, clicks),
{
    let mut out: Vec<SidebarAction> = Vec::new();
    push_clicked(
        &mut out,
        clicks.double_click,
        SidebarAction::OpenObject { db: db.to_string(), kind, name: name.to_string() },
    );
    assert(sidebar_intents(out@) =~= clicked(
        clicks.double_click,
        SidebarIntent::OpenObject(db@, kind, name@),
    ));
    push_clicked(
        &mut out,
        clicks.open,
        SidebarAction::OpenObject { db: db.to_string(), kind, name: name.to_string() },
    );
    push_clicked(&mut out, clicks.copy_name, SidebarAction::CopyText(name.to_string()));
    push_clicked(
        &mut out,
        clicks.copy_create,
        SidebarAction::ShowCreate { db: db.to_string(), kind, name: name.to_string() },
    );
    let is_table = match kind {
        ObjectKind::Table => true,
        _ => false,
    };
    push_clicked(
        &mut out,
        is_table && clicks.truncate,
        SidebarAction::Confirm(truncate_action(db, name)),
    );
    push_clicked(&mut out, clicks.drop, SidebarAction::Confirm(drop_action(db, kind, name)));
    out
}

/// What was clicked on a database, and whether its node is open.
#[derive(Debug, Clone, Copy)]
pub struct DatabaseClicks {
    /// The node is open, so that what is in it is shown.
    pub expanded: bool,
    pub retry: bool,
    pub refresh: bool,
    pub copy_name: bool,
    pub export: bool,
    pub drop: bool,
}

/// Nothing was loaded yet, or asked for.
pub open spec fn unasked(state: Option<LoadState<SchemaObjects>>) -> bool {
    state is None || state->0 is NotLoaded
}

/// What a database node asks for: its objects once it is open, and what the user
/// clicked.
pub open spec fn database_intents(
    schema: SchemaState,
    db: Seq<char>,
    clicks: DatabaseClicks,
) -> Seq<SidebarIntent> {
    let state = schema.objects_of(db);
    clicked(clicks.expanded && unasked(state), SidebarIntent::RefreshDatabase(db)) + clicked(
        clicks.expanded && clicks.retry && state is Some && state->0 is Error,
        SidebarIntent::RefreshDatabase(db),
    ) + clicked(clicks.refresh, SidebarIntent::RefreshDatabase(db)) + clicked(
        clicks.copy_name,
        SidebarIntent::CopyText(db),
    ) + clicked(clicks.export, SidebarIntent::ExportDatabase(db)) + clicked(
        clicks.drop,
        SidebarIntent::Confirm(drop_database_confirmation(db)),
    )
}

/// What a database node asks for.
pub fn database_actions(schema: &SchemaState, db: &str, clicks: DatabaseClicks) -> (res: Vec<
    SidebarAction,
>)
    ensures
        sidebar_intents(res@) == database_intents(*schema, db@, clicks),
{
    let state = schema.get(db);
    let load = match state {
        None => true,
        Some(LoadState::NotLoaded) => true,
        _ => false,
    };
    let failed = match state {
        Some(LoadState::Error(_)) => true,
        _ => false,
    };
    let mut out: Vec<SidebarAction> = Vec::new();
    push_clicked(
        &mut out,
        clicks.expanded && load,
        SidebarAction::RefreshDatabase(db.to_string()),
    );
    assert(sidebar_intents(out@) =~= clicked(
        clicks.expanded && load,
        SidebarIntent::RefreshDatabase(db@),
    ));
    push_clicked(
        &mut out,
        clicks.expanded && clicks.retry && failed,
        SidebarAction::RefreshDatabase(db.to_string()),
    );
    push_clicked(&mut out, clicks.refresh, SidebarAction::RefreshDatabase(db.to_string()));
    push_clicked(&mut out, clicks.copy_name, SidebarAction::CopyText(db.to_string()));
    push_clicked(&mut out, clicks.export, SidebarAction::ExportDatabase(db.to_string()));
    push_clicked(&mut out, clicks.drop, SidebarAction::Confirm(drop_database_action(db)));
    out
}

/// The objects of a database are asked for once: a node that stays open, with
/// nothing clicked, asks for nothing more once they are under way, there, or
/// failed, and a node that is closed asks for nothing at all.
pub proof fn law_objects_are_asked_for_once(
    schema: SchemaState,
    db: Seq<char>,
    expanded: bool,
)
    requires
        !expanded || !unasked(schema.objects_of(db)),
    ensures
        database_intents(
            schema,
            db,
            DatabaseClicks {
                expanded,
                retry: false,
                refresh: false,
                copy_name: false,
                export: false,
                drop: false,
            },
        ).len() == 0,
{
}

/// The label of a database.
pub fn database_label(db: &str) -> (res: String)
    ensures
        res@ == "🗄 "@ + db@,
{
    let mut out = "🗄 ".to_string();
    out.append(db);
    out
}

/// The label of an object.
pub fn object_label(kind: ObjectKind, name: &str) -> (res: String)
    ensures
        res@ == "   "@ + kind_short_label(kind) + "  "@ + name@,
{
    let mut out = "   ".to_string();
    out.append(kind.short_label());
    out.append("  ");
    out.append(name);
    out
}

/// The label of the menu item that drops an object.
pub fn drop_label(kind: ObjectKind) -> (res: String)
    ensures
        res@ == "Drop "@ + lowered(kind_keyword(kind)) + "…"@,
{
    let mut out = "Drop ".to_string();
    out.append(lowercase(kind.keyword()).as_str());
    out.append("…");
    out
}

/// Name of a category of objects.
pub open spec fn category_name(kind: ObjectKind) -> Seq<char> {
    match kind {
        ObjectKind::Table => "Tables"@,
        ObjectKind::View => "Views"@,
        ObjectKind::Procedure => "Procedures"@,
        ObjectKind::Function => "Functions"@,
        ObjectKind::Trigger => "Triggers"@,
        ObjectKind::Event => "Events"@,
    }
}

fn category_word(kind: ObjectKind) -> (res: &'static str)
    ensures
        res@ == category_name(kind),
{
    match kind {
        ObjectKind::Table => "Tables",
        ObjectKind::View => "Views",
        ObjectKind::Procedure => "Procedures",
        ObjectKind::Function => "Functions",
        ObjectKind::Trigger => "Triggers",
        ObjectKind::Event => "Events",
    }
}

/// The objects of one kind that are shown.
#[derive(Debug)]
pub struct Category {
    pub kind: ObjectKind,
    pub names: Vec<String>,
}

/// The label of a category: its name and how many objects are in it.
pub fn category_label(category: &Category) -> (res: String)
    ensures
        res@ == category_name(category.kind) + " ("@ + decimal(category.names@.len()) + ")"@,
{
    let mut out = category_word(category.kind).to_string();
    out.append(" (");
    out.append(usize_text(category.names.len()).as_str());
    out.append(")");
    out
}

/// The label of a category under a filter, which stands below its database.
pub fn hits_label(category: &Category) -> (res: String)
    ensures
        res@ == "  "@ + category_name(category.kind) + " ("@ + decimal(category.names@.len())
            + ")"@,
{
    let mut out = "  ".to_string();
    out.append(category_label(category).as_str());
    assert(out@ =~= "  "@ + category_name(category.kind) + " ("@ + decimal(category.names@.len())
        + ")"@);
    out
}

/// What is searched for stands in the name, whatever the case of ASCII letters.
pub open spec fn name_hit(name: Seq<char>, needle: Seq<char>) -> bool {
    has_text(lowered(name), needle)
}

/// The names in which the needle stands, in order.
pub open spec fn hits(names: Seq<Seq<char>>, needle: Seq<char>) -> Seq<Seq<char>>
    decreases names.len(),
{
    if names.len() == 0 {
        seq![]
    } else if name_hit(names.last(), needle) {
        hits(names.drop_last(), needle).push(names.last())
    } else {
        hits(names.drop_last(), needle)
    }
}

fn find_hits(names: &Vec<String>, needle: &str) -> (res: Vec<String>)
    ensures
        texts(res@) == hits(texts(names@), needle@),
{
    let mut out: Vec<String> = Vec::new();
    let mut i: usize = 0;
    assert(texts(names@).take(0) =~= Seq::<Seq<char>>::empty());
    assert(texts(out@) =~= Seq::<Seq<char>>::empty());
    while i < names.len()
        invariant
            i <= names@.len(),
            texts(out@) == hits(texts(names@).take(i as int), needle@),
        decreases names@.len() - i,
    {
        let ghost before = texts(out@);
        proof {
            assert(texts(names@).take(i + 1).drop_last() =~= texts(names@).take(i as int));
            assert(texts(names@).take(i + 1).last() == names@[i as int]@);
        }
        if contains(lowercase(names[i].as_str()).as_str(), needle) {
            out.push(names[i].clone());
            assert(texts(out@) =~= before.push(names@[i as int]@));
        }
        i = i + 1;
    }
    assert(texts(names@).take(i as int) =~= texts(names@));
    out
}

/// What a [`Category`] holds.
pub open spec fn category_views(categories: Seq<Category>) -> Seq<(ObjectKind, Seq<Seq<char>>)> {
    categories.map_values(|c: Category| (c.kind, texts(c.names@)))
}

/// The category of one kind, where it has hits.
pub open spec fn category_of(names: SchemaNames, kind: ObjectKind, needle: Seq<char>) -> Seq<
    (ObjectKind, Seq<Seq<char>>),
> {
    let found = hits(names.of_kind(kind), needle);
    if found.len() == 0 {
        seq![]
    } else {
        seq![(kind, found)]
    }
}

/// The categories that have hits, in the order of the tree.
pub open spec fn categories_of(names: SchemaNames, needle: Seq<char>) -> Seq<
    (ObjectKind, Seq<Seq<char>>),
> {
    category_of(names, ObjectKind::Table, needle) + category_of(names, ObjectKind::View, needle)
        + category_of(names, ObjectKind::Procedure, needle) + category_of(
        names,
        ObjectKind::Function,
        needle,
    ) + category_of(names, ObjectKind::Trigger, needle) + category_of(
        names,
        ObjectKind::Event,
        needle,
    )
}

fn push_category(
    out: &mut Vec<Category>,
    objects: &SchemaObjects,
    kind: ObjectKind,
    needle: &str,
)
    ensures
        category_views(final(out)@) == category_views(old(out)@) + category_of(
            objects@,
            kind,
            needle@,
        ),
{
    let ghost before = category_views(out@);
    let names = find_hits(objects.names(kind), needle);
    assert(texts(names@) == hits(objects@.of_kind(kind), needle@));
    assert(texts(names@).len() == names@.len());
    if names.len() > 0 {
        out.push(Category { kind, names });
    }
    assert(category_views(out@) =~= before + category_of(objects@, kind, needle@));
}

/// The categories of the objects in whose names the needle stands, each with at
/// least one. An empty needle stands in every name.
pub fn categories(objects: &SchemaObjects, needle: &str) -> (res: Vec<Category>)
    ensures
        category_views(res@) == categories_of(objects@, needle@),
{
    let mut out: Vec<Category> = Vec::new();
    push_category(&mut out, objects, ObjectKind::Table, needle);
    assert(category_views(out@) =~= category_of(objects@, ObjectKind::Table, needle@));
    push_category(&mut out, objects, ObjectKind::View, needle);
    push_category(&mut out, objects, ObjectKind::Procedure, needle);
    push_category(&mut out, objects, ObjectKind::Function, needle);
    push_category(&mut out, objects, ObjectKind::Trigger, needle);
    push_category(&mut out, objects, ObjectKind::Event, needle);
    out
}

/// A database in the tree.
#[derive(Debug)]
pub enum TreeNode {
    /// With all that is in it.
    Full { db: String },
    /// With the objects that the filter finds.
    Hits { db: String, categories: Vec<Category> },
}

/// What a [`TreeNode`] shows.
#[verifier::ext_equal]
pub enum NodeView {
    Full(Seq<char>),
    Hits(Seq<char>, Seq<(ObjectKind, Seq<Seq<char>>)>),
}

impl View for TreeNode {
    type V = NodeView;

    open spec fn view(&self) -> NodeView {
        match *self {
            TreeNode::Full { db } => NodeView::Full(db@),
            TreeNode::Hits { db, categories } => NodeView::Hits(
                db@,
                category_views(categories@),
            ),
        }
    }
}

/// What each node shows.
pub open spec fn node_views(nodes: Seq<TreeNode>) -> Seq<NodeView> {
    nodes.map_values(|n: TreeNode| n@)
}

/// The node of a database under the filter: the whole database where its name
/// matches, and otherwise those of its objects that do, as far as they are
/// loaded. `None` where nothing does.
pub open spec fn filtered_node(schema: SchemaState, db: Seq<char>, needle: Seq<char>) -> Option<
    NodeView,
> {
    if name_hit(db, needle) {
        Some(NodeView::Full(db))
    } else {
        match schema.objects_of(db) {
            Some(LoadState::Loaded(objects)) => if categories_of(objects@, needle).len() == 0 {
                None
            } else {
                Some(NodeView::Hits(db, categories_of(objects@, needle)))
            },
            _ => None,
        }
    }
}

fn filter_database(schema: &SchemaState, db: &str, needle: &str) -> (res: Option<TreeNode>)
    ensures
        match res {
            Some(node) => filtered_node(*schema, db@, needle@) == Some(node@),
            None => filtered_node(*schema, db@, needle@) is None,
        },
{
    if contains(lowercase(db).as_str(), needle) {
        return Some(TreeNode::Full { db: db.to_string() });
    }
    match schema.get(db) {
        Some(LoadState::Loaded(objects)) => {
            let found = categories(objects, needle);
            assert(category_views(found@).len() == found@.len());
            if found.len() == 0 {
                None
            } else {
                Some(TreeNode::Hits { db: db.to_string(), categories: found })
            }
        },
        _ => None,
    }
}

/// The needle that a filter stands for.
pub open spec fn needle_of(filter: Seq<char>) -> Seq<char> {
    lowered(trimmed(filter))
}

/// The nodes of the databases under a filter, in order. An empty filter shows
/// every database with all that is in it.
pub open spec fn tree_of(schema: SchemaState, dbs: Seq<Seq<char>>, filter: Seq<char>) -> Seq<NodeView>
    decreases dbs.len(),
{
    if dbs.len() == 0 {
        seq![]
    } else {
        let rest = tree_of(schema, dbs.drop_last(), filter);
        if needle_of(filter).len() == 0 {
            rest.push(NodeView::Full(dbs.last()))
        } else {
            match filtered_node(schema, dbs.last(), needle_of(filter)) {
                Some(node) => rest.push(node),
                None => rest,
            }
        }
    }
}

/// Whether to say that a filter found nothing: there is a filter, and the tree
/// under it is empty.
pub fn nothing_found(tree: &Vec<TreeNode>, filter: &str) -> (res: bool)
    ensures
        res == (tree@.len() == 0 && trimmed(filter@).len() > 0),
{
    tree.len() == 0 && !is_empty(trim(filter).as_str())
}

/// The nodes of the databases under a filter, in order.
pub fn visible_tree(schema: &SchemaState, dbs: &Vec<String>, filter: &str) -> (res: Vec<TreeNode>)
    ensures
        node_views(res@) == tree_of(*schema, texts(dbs@), filter@),
{
    let needle = lowercase(trim(filter).as_str());
    let all = is_empty(needle.as_str());
    let mut out: Vec<TreeNode> = Vec::new();
    let mut i: usize = 0;
    assert(texts(dbs@).take(0) =~= Seq::<Seq<char>>::empty());
    assert(node_views(out@) =~= Seq::<NodeView>::empty());
    while i < dbs.len()
        invariant
            i <= dbs@.len(),
            needle@ == needle_of(filter@),
            all == (needle@.len() == 0),
            node_views(out@) == tree_of(*schema, texts(dbs@).take(i as int), filter@),
        decreases dbs@.len() - i,
    {
        let ghost before = node_views(out@);
        proof {
            assert(texts(dbs@).take(i + 1).drop_last() =~= texts(dbs@).take(i as int));
            assert(texts(dbs@).take(i + 1).last() == dbs@[i as int]@);
        }
        if all {
            let node = TreeNode::Full { db: dbs[i].clone() };
            let ghost shown = node@;
            out.push(node);
            assert(node_views(out@) =~= before.push(shown));
        } else if let Some(node) = filter_database(schema, dbs[i].as_str(), needle.as_str()) {
            let ghost shown = node@;
            out.push(node);
            assert(node_views(out@) =~= before.push(shown));
        }
        i = i + 1;
    }
    assert(texts(dbs@).take(i as int) =~= texts(dbs@));
    out
}

/// Without a filter the tree lists every database, each with all that is in it.
pub proof fn law_no_filter_shows_all(schema: SchemaState, dbs: Seq<Seq<char>>, filter: Seq<char>)
    requires
        trimmed(filter).len() == 0,
    ensures
        tree_of(schema, dbs, filter) == dbs.map_values(|db: Seq<char>| NodeView::Full(db)),
    decreases dbs.len(),
{
    if dbs.len() > 0 {
        law_no_filter_shows_all(schema, dbs.drop_last(), filter);
    }
    assert(tree_of(schema, dbs, filter) =~= dbs.map_values(|db: Seq<char>| NodeView::Full(db)));
}

proof fn lemma_hits(names: Seq<Seq<char>>, needle: Seq<char>)
    ensures
        hits(names, needle).len() > 0 <==> exists|i: int|
            0 <= i < names.len() && name_hit(#[trigger] names[i], needle),
    decreases names.len(),
{
    if names.len() > 0 {
        let before = names.drop_last();
        lemma_hits(before, needle);
        if name_hit(names.last(), needle) {
            assert(names[names.len() - 1] == names.last());
        } else {
            if hits(before, needle).len() > 0 {
                let i = choose|i: int| 0 <= i < before.len() && name_hit(#[trigger] before[i], needle);
                assert(names[i] == before[i]);
            }
            if exists|i: int| 0 <= i < names.len() && name_hit(#[trigger] names[i], needle) {
                let i = choose|i: int| 0 <= i < names.len() && name_hit(#[trigger] names[i], needle);
                assert(before[i] == names[i]);
            }
        }
    }
}

/// A database is shown under a filter exactly where its name matches, or its
/// objects are loaded and the name of one of them does.
pub proof fn law_filter_finds(schema: SchemaState, db: Seq<char>, needle: Seq<char>)
    ensures
        filtered_node(schema, db, needle) is Some <==> name_hit(db, needle) || (
        schema.objects_of(db) matches Some(LoadState::Loaded(objects)) && exists|
            kind: ObjectKind,
            i: int,
        |
            #![trigger objects@.of_kind(kind)[i]]
            0 <= i < objects@.of_kind(kind).len() && name_hit(objects@.of_kind(kind)[i], needle)),
{
    if !name_hit(db, needle) {
        if let Some(LoadState::Loaded(objects)) = schema.objects_of(db) {
            let names = objects@;
            lemma_hits(names.of_kind(ObjectKind::Table), needle);
            lemma_hits(names.of_kind(ObjectKind::View), needle);
            lemma_hits(names.of_kind(ObjectKind::Procedure), needle);
            lemma_hits(names.of_kind(ObjectKind::Function), needle);
            lemma_hits(names.of_kind(ObjectKind::Trigger), needle);
            lemma_hits(names.of_kind(ObjectKind::Event), needle);
            assert forall|kind: ObjectKind|
                (exists|i: int|
                    #![trigger names.of_kind(kind)[i]]
                    0 <= i < names.of_kind(kind).len() && name_hit(
                        names.of_kind(kind)[i],
                        needle,
                    )) implies #[trigger] category_of(names, kind, needle).len() > 0 by {
                lemma_hits(names.of_kind(kind), needle);
            }
            if exists|kind: ObjectKind, i: int|
                #![trigger names.of_kind(kind)[i]]
                0 <= i < names.of_kind(kind).len() && name_hit(names.of_kind(kind)[i], needle) {
                let (kind, i) = choose|kind: ObjectKind, i: int|
                    #![trigger names.of_kind(kind)[i]]
                    0 <= i < names.of_kind(kind).len() && name_hit(
                        names.of_kind(kind)[i],
                        needle,
                    );
                assert(category_of(names, kind, needle).len() > 0);
                match kind {
                    ObjectKind::Table => {},
                    ObjectKind::View => {},
                    ObjectKind::Procedure => {},
                    ObjectKind::Function => {},
                    ObjectKind::Trigger => {},
                    ObjectKind::Event => {},
                }
            }
        }
    }
}

/// An empty needle stands in every name.
pub proof fn law_empty_needle_keeps_all(names: Seq<Seq<char>>)
    ensures
        hits(names, seq![]) == names,
    decreases names.len(),
{
    if names.len() > 0 {
        law_empty_needle_keeps_all(names.drop_last());
        assert(lowered(names.last()).subrange(0, 0) =~= Seq::<char>::empty());
        assert(occurs_at(lowered(names.last()), seq![], 0));
    }
    assert(hits(names, seq![]) =~= names);
}

/// The line above the tree.
pub fn schema_label(version: &str) -> (res: String)
    ensures
        res@ == "Schema · "@ + version@,
{
    let mut out = "Schema · ".to_string();
    out.append(version);
    out
}

proof fn lemma_clicked(a: Seq<SidebarIntent>, on: bool, x: SidebarIntent)
    ensures
        forall|y: SidebarIntent| #[trigger] (a + clicked(on, x)).contains(y) <==> a.contains(y) || (
        on && x == y),
        forall|y: SidebarIntent| #[trigger] clicked(on, x).contains(y) <==> on && x == y,
{
    let c = clicked(on, x);
    let all = a + c;
    if on {
        assert(c[0] == x);
        assert(all[a.len() as int] == x);
    }
    assert forall|y: SidebarIntent| #[trigger] all.contains(y) <==> a.contains(y) || (on && x
        == y) by {
        if all.contains(y) {
            let k = choose|k: int| 0 <= k < all.len() && all[k] == y;
            if k < a.len() {
                assert(a[k] == y);
            }
        }
        if a.contains(y) {
            let k = choose|k: int| 0 <= k < a.len() && a[k] == y;
            assert(all[k] == y);
        }
    }
}

/// A connection is asked to open, close, refresh or go away exactly where it was
/// clicked for and can be: only one that is neither open nor being opened can be
/// opened, and only an open one can be closed or refreshed.
pub proof fn law_clicks_on_a_connection(
    name: Seq<char>,
    is_active: bool,
    is_busy: bool,
    clicks: ConnectionClicks,
    intent: SidebarIntent,
)
    ensures
        connection_intents(name, is_active, is_busy, clicks).contains(intent) <==> match intent {
            SidebarIntent::Connect(n) => n == name && !is_active && !is_busy && (clicks.connect
                || clicks.double_click),
            SidebarIntent::Disconnect => is_active && clicks.disconnect,
            SidebarIntent::RefreshDatabases => is_active && clicks.refresh,
            SidebarIntent::DeleteProfile(n) => n == name && clicks.delete,
            _ => false,
        },
{
    let idle = !is_active && !is_busy;
    let a = clicked(idle && clicks.double_click, SidebarIntent::Connect(name));
    let b = a + clicked(idle && clicks.connect, SidebarIntent::Connect(name));
    let c = b + clicked(is_active && clicks.disconnect, SidebarIntent::Disconnect);
    let d = c + clicked(is_active && clicks.refresh, SidebarIntent::RefreshDatabases);
    lemma_clicked(seq![], idle && clicks.double_click, SidebarIntent::Connect(name));
    lemma_clicked(a, idle && clicks.connect, SidebarIntent::Connect(name));
    lemma_clicked(b, is_active && clicks.disconnect, SidebarIntent::Disconnect);
    lemma_clicked(c, is_active && clicks.refresh, SidebarIntent::RefreshDatabases);
    lemma_clicked(d, clicks.delete, SidebarIntent::DeleteProfile(name));
}

/// What the user confirms is what runs, on the object that is named: the
/// statement empties or drops it by its quoted name.
pub proof fn law_confirmed_statements(db: Seq<char>, kind: ObjectKind, name: Seq<char>)
    ensures
        truncate_confirmation(db, name).sql == "TRUNCATE TABLE "@ + quoted_ident(db) + "."@
            + quoted_ident(name),
        drop_confirmation(db, kind, name).sql == "DROP "@ + kind_keyword(kind) + " "@
            + quoted_ident(db) + "."@ + quoted_ident(name),
        drop_database_confirmation(db).sql == "DROP DATABASE "@ + quoted_ident(db),
        has_text(truncate_confirmation(db, name).message, name),
        has_text(drop_confirmation(db, kind, name).message, name),
        has_text(drop_database_confirmation(db).message, db),
        truncate_confirmation(db, name).kind == (PendingView::Truncate { db, name }),
        drop_confirmation(db, kind, name).kind == (PendingView::DropObject { db, name }),
        drop_database_confirmation(db).kind == (PendingView::DropDatabase { db }),
{
    let object = quoted_ident(db) + "."@ + quoted_ident(name);
    assert("TRUNCATE TABLE "@ + object =~= "TRUNCATE TABLE "@ + quoted_ident(db) + "."@
        + quoted_ident(name));
    assert("DROP "@ + kind_keyword(kind) + " "@ + object =~= "DROP "@ + kind_keyword(kind) + " "@
        + quoted_ident(db) + "."@ + quoted_ident(name));
    let a = "This will remove ALL rows from `"@ + db + "`.`"@;
    let b = "This will permanently delete `"@ + db + "`.`"@;
    let c = "This will permanently delete the database `"@;
    lemma_stands_in(a, name, "`."@);
    lemma_stands_in(b, name, "`."@);
    lemma_stands_in(c, db, "` and ALL its objects."@);
}

proof fn lemma_stands_in(a: Seq<char>, b: Seq<char>, c: Seq<char>)
    ensures
        has_text(a + b + c, b),
{
    let s = a + b + c;
    assert(s.subrange(a.len() as int, (a.len() + b.len()) as int) =~= b);
    assert(occurs_at(s, b, a.len() as int));
}

/// An object is opened, copied, shown, emptied or dropped exactly where it was
/// clicked for; only a table can be emptied.
pub proof fn law_clicks_on_an_object(
    db: Seq<char>,
    kind: ObjectKind,
    name: Seq<char>,
    clicks: ObjectClicks,
    intent: SidebarIntent,
)
    ensures
        object_clicks_ask(db, kind, name, clicks).contains(intent) <==> match intent {
            SidebarIntent::OpenObject(d, k, n) => d == db && k == kind && n == name && (clicks.open
                || clicks.double_click),
            SidebarIntent::CopyText(n) => n == name && clicks.copy_name,
            SidebarIntent::ShowCreate(d, k, n) => d == db && k == kind && n == name
                && clicks.copy_create,
            SidebarIntent::Confirm(c) => {
                ||| clicks.truncate && kind == ObjectKind::Table && c == truncate_confirmation(
                    db,
                    name,
                )
                ||| clicks.drop && c == drop_confirmation(db, kind, name)
            },
            _ => false,
        },
{
    let open = SidebarIntent::OpenObject(db, kind, name);
    let empty = SidebarIntent::Confirm(truncate_confirmation(db, name));
    let is_table = kind == ObjectKind::Table;
    let a = clicked(clicks.double_click, open);
    let b = a + clicked(clicks.open, open);
    let c = b + clicked(clicks.copy_name, SidebarIntent::CopyText(name));
    let d = c + clicked(clicks.copy_create, SidebarIntent::ShowCreate(db, kind, name));
    let e = d + clicked(is_table && clicks.truncate, empty);
    lemma_clicked(seq![], clicks.double_click, open);
    lemma_clicked(a, clicks.open, open);
    lemma_clicked(b, clicks.copy_name, SidebarIntent::CopyText(name));
    lemma_clicked(c, clicks.copy_create, SidebarIntent::ShowCreate(db, kind, name));
    lemma_clicked(d, is_table && clicks.truncate, empty);
    lemma_clicked(e, clicks.drop, SidebarIntent::Confirm(drop_confirmation(db, kind, name)));
}

/// A database is read once its node is open, after a failure where the user
/// retries, and whenever the user refreshes it; it is copied, exported or dropped
/// exactly where it was clicked for.
pub proof fn law_clicks_on_a_database(
    schema: SchemaState,
    db: Seq<char>,
    clicks: DatabaseClicks,
    intent: SidebarIntent,
)
    ensures
        database_intents(schema, db, clicks).contains(intent) <==> match intent {
            SidebarIntent::RefreshDatabase(d) => d == db && (clicks.refresh || (clicks.expanded
                && match schema.objects_of(db) {
                None => true,
                Some(LoadState::NotLoaded) => true,
                Some(LoadState::Error(_)) => clicks.retry,
                _ => false,
            })),
            SidebarIntent::CopyText(d) => d == db && clicks.copy_name,
            SidebarIntent::ExportDatabase(d) => d == db && clicks.export,
            SidebarIntent::Confirm(c) => clicks.drop && c == drop_database_confirmation(db),
            _ => false,
        },
{
    let state = schema.objects_of(db);
    let again = SidebarIntent::RefreshDatabase(db);
    let drop = SidebarIntent::Confirm(drop_database_confirmation(db));
    let first = clicks.expanded && unasked(state);
    let retry = clicks.expanded && clicks.retry && state is Some && state->0 is Error;
    let a = clicked(first, again);
    let b = a + clicked(retry, again);
    let c = b + clicked(clicks.refresh, again);
    let d = c + clicked(clicks.copy_name, SidebarIntent::CopyText(db));
    let e = d + clicked(clicks.export, SidebarIntent::ExportDatabase(db));
    lemma_clicked(seq![], first, again);
    lemma_clicked(a, retry, again);
    lemma_clicked(b, clicks.refresh, again);
    lemma_clicked(c, clicks.copy_name, SidebarIntent::CopyText(db));
    lemma_clicked(d, clicks.export, SidebarIntent::ExportDatabase(db));
    lemma_clicked(e, clicks.drop, drop);
}

/// A filter finds a name by any part of it, in any ASCII case and with white
/// space around it.
pub proof fn law_filter_finds_parts(a: Seq<char>, part: Seq<char>, c: Seq<char>, filter: Seq<char>)
    requires
        trimmed(filter) == part || trimmed(filter) == uppered(part),
    ensures
        name_hit(a + part + c, needle_of(filter)),
        name_hit(uppered(a + part + c), needle_of(filter)),
{
    law_has_text_in_any_case(a, part, c);
    let s = a + part + c;
    assert(lowered(uppered(s)) =~= lowered(s)) by {
        assert forall|i: int| 0 <= i < s.len() implies lowered(uppered(s))[i]
            == #[trigger] lowered(s)[i] by {
            law_ascii_case(s[i]);
        }
    }
}

/// Names are filtered part by part: those that are found stay, in order, and the
/// others go.
pub proof fn law_names_are_filtered(
    a: Seq<Seq<char>>,
    b: Seq<Seq<char>>,
    name: Seq<char>,
    needle: Seq<char>,
)
    ensures
        hits(a + b, needle) == hits(a, needle) + hits(b, needle),
        hits(seq![name], needle) == if has_text(lowered(name), needle) {
            seq![name]
        } else {
            Seq::<Seq<char>>::empty()
        },
    decreases b.len(),
{
    reveal_with_fuel(hits, 2);
    assert(seq![name].drop_last() =~= Seq::<Seq<char>>::empty());
    assert(hits(seq![name], needle) =~= if has_text(lowered(name), needle) {
        seq![name]
    } else {
        Seq::<Seq<char>>::empty()
    });
    if b.len() == 0 {
        assert(a + b =~= a);
        assert(hits(a, needle) + hits(b, needle) =~= hits(a, needle));
    } else {
        assert((a + b).drop_last() =~= a + b.drop_last());
        law_names_are_filtered(a, b.drop_last(), name, needle);
        assert(hits(a + b, needle) =~= hits(a, needle) + hits(b, needle));
    }
}

/// Where a category stands in the tree.
pub open spec fn tree_place(kind: ObjectKind) -> int {
    match kind {
        ObjectKind::Table => 0,
        ObjectKind::View => 1,
        ObjectKind::Procedure => 2,
        ObjectKind::Function => 3,
        ObjectKind::Trigger => 4,
        ObjectKind::Event => 5,
    }
}

/// The categories come in the order of the tree, one for each kind of which a
/// name is found, with the names of that kind that are.
pub proof fn law_categories(names: SchemaNames, needle: Seq<char>, kind: ObjectKind)
    ensures
        forall|i: int, j: int|
            0 <= i < j < categories_of(names, needle).len() ==> tree_place(
                (#[trigger] categories_of(names, needle)[i]).0,
            ) < tree_place((#[trigger] categories_of(names, needle)[j]).0),
        forall|i: int|
            0 <= i < categories_of(names, needle).len() ==> (#[trigger] categories_of(
                names,
                needle,
            )[i]).1.len() > 0,
        hits(names.of_kind(kind), needle).len() > 0 ==> categories_of(names, needle).contains(
            (kind, hits(names.of_kind(kind), needle)),
        ),
        forall|i: int|
            0 <= i < categories_of(names, needle).len() && (#[trigger] categories_of(
                names,
                needle,
            )[i]).0 == kind ==> categories_of(names, needle)[i].1 == hits(
                names.of_kind(kind),
                needle,
            ),
{
    let a = category_of(names, ObjectKind::Table, needle);
    let b = category_of(names, ObjectKind::View, needle);
    let c = category_of(names, ObjectKind::Procedure, needle);
    let d = category_of(names, ObjectKind::Function, needle);
    let e = category_of(names, ObjectKind::Trigger, needle);
    let f = category_of(names, ObjectKind::Event, needle);
    lemma_placed(a, b, 1, names, needle);
    lemma_placed(a + b, c, 2, names, needle);
    lemma_placed(a + b + c, d, 3, names, needle);
    lemma_placed(a + b + c + d, e, 4, names, needle);
    lemma_placed(a + b + c + d + e, f, 5, names, needle);
    let all = categories_of(names, needle);
    let found = hits(names.of_kind(kind), needle);
    if found.len() > 0 {
        let before = match kind {
            ObjectKind::Table => Seq::<(ObjectKind, Seq<Seq<char>>)>::empty(),
            ObjectKind::View => a,
            ObjectKind::Procedure => a + b,
            ObjectKind::Function => a + b + c,
            ObjectKind::Trigger => a + b + c + d,
            ObjectKind::Event => a + b + c + d + e,
        };
        assert(all[before.len() as int] == (kind, found));
    }
}

spec fn placed(
    list: Seq<(ObjectKind, Seq<Seq<char>>)>,
    below: int,
    names: SchemaNames,
    needle: Seq<char>,
) -> bool {
    &&& forall|i: int|
        0 <= i < list.len() ==> tree_place((#[trigger] list[i]).0) < below && list[i].1.len() > 0
            && list[i].1 == hits(names.of_kind(list[i].0), needle)
    &&& forall|i: int, j: int|
        0 <= i < j < list.len() ==> tree_place((#[trigger] list[i]).0) < tree_place(
            (#[trigger] list[j]).0,
        )
}

proof fn lemma_placed(
    a: Seq<(ObjectKind, Seq<Seq<char>>)>,
    b: Seq<(ObjectKind, Seq<Seq<char>>)>,
    below: int,
    names: SchemaNames,
    needle: Seq<char>,
)
    requires
        placed(a, below, names, needle),
        b.len() <= 1,
        b.len() == 1 ==> tree_place(b[0].0) == below && b[0].1.len() > 0 && b[0].1 == hits(
            names.of_kind(b[0].0),
            needle,
        ),
    ensures
        placed(a + b, below + 1, names, needle),
{
    let c = a + b;
    assert forall|i: int| 0 <= i < c.len() implies tree_place((#[trigger] c[i]).0) < below + 1
        && c[i].1.len() > 0 && c[i].1 == hits(names.of_kind(c[i].0), needle) by {
        if i < a.len() {
            assert(c[i] == a[i]);
        } else {
            assert(c[i] == b[0]);
        }
    }
    assert forall|i: int, j: int| 0 <= i < j < c.len() implies tree_place((#[trigger] c[i]).0)
        < tree_place((#[trigger] c[j]).0) by {
        assert(c[i] == a[i]);
        if j < a.len() {
            assert(c[j] == a[j]);
        } else {
            assert(c[j] == b[0]);
        }
    }
}

/// Under a filter, the databases are shown part by part, in order.
pub proof fn law_tree_keeps_the_order(
    schema: SchemaState,
    a: Seq<Seq<char>>,
    b: Seq<Seq<char>>,
    filter: Seq<char>,
)
    ensures
        tree_of(schema, a + b, filter) == tree_of(schema, a, filter) + tree_of(schema, b, filter),
    decreases b.len(),
{
    if b.len() == 0 {
        assert(a + b =~= a);
        assert(tree_of(schema, a, filter) + tree_of(schema, b, filter) =~= tree_of(
            schema,
            a,
            filter,
        ));
    } else {
        assert((a + b).drop_last() =~= a + b.drop_last());
        law_tree_keeps_the_order(schema, a, b.drop_last(), filter);
        assert(tree_of(schema, a + b, filter) =~= tree_of(schema, a, filter) + tree_of(
            schema,
            b,
            filter,
        ));
    }
}

/// One database under a filter is shown whole where its name is found, else with
/// the objects that are found in it, and is left out where nothing is.
pub proof fn law_tree_of_one(schema: SchemaState, db: Seq<char>, filter: Seq<char>)
    requires
        trimmed(filter).len() > 0,
    ensures
        name_hit(db, needle_of(filter)) ==> tree_of(schema, seq![db], filter) == seq![
            NodeView::Full(db),
        ],
        !name_hit(db, needle_of(filter)) ==> match schema.objects_of(db) {
            Some(LoadState::Loaded(objects)) => if categories_of(
                objects@,
                needle_of(filter),
            ).len() > 0 {
                tree_of(schema, seq![db], filter) == seq![
                    NodeView::Hits(db, categories_of(objects@, needle_of(filter))),
                ]
            } else {
                tree_of(schema, seq![db], filter).len() == 0
            },
            _ => tree_of(schema, seq![db], filter).len() == 0,
        },
{
    reveal_with_fuel(tree_of, 2);
    assert(seq![db].drop_last() =~= Seq::<Seq<char>>::empty());
    let rest = tree_of(schema, seq![db].drop_last(), filter);
    assert(rest =~= Seq::<NodeView>::empty());
    assert(needle_of(filter).len() == trimmed(filter).len());
}

/// The name of a category is that of its kind, for more than one.
pub proof fn law_category_names(kind: ObjectKind)
    ensures
        category_name(kind) == kind_name(kind) + "s"@,
        uppered(kind_name(kind)) == kind_keyword(kind),
{
    reveal_strlit("s");
    reveal_strlit("Table");
    reveal_strlit("Tables");
    reveal_strlit("TABLE");
    reveal_strlit("View");
    reveal_strlit("Views");
    reveal_strlit("VIEW");
    reveal_strlit("Procedure");
    reveal_strlit("Procedures");
    reveal_strlit("PROCEDURE");
    reveal_strlit("Function");
    reveal_strlit("Functions");
    reveal_strlit("FUNCTION");
    reveal_strlit("Trigger");
    reveal_strlit("Triggers");
    reveal_strlit("TRIGGER");
    reveal_strlit("Event");
    reveal_strlit("Events");
    reveal_strlit("EVENT");
    assert(category_name(kind) =~= kind_name(kind) + "s"@);
    assert(uppered(kind_name(kind)) =~= kind_keyword(kind));
}

} // verus!
