//! What a dump and a CSV export hold of a database.

use vstd::prelude::*;

use crate::csv::{field_text, law_record_round_trip, read_record, record_text, row_record};
use crate::csv_export::{rows_text, TableServer};
use crate::dump::{
    data_text, foot_text, head_text, insertable, object_text, select_text, wanted, worklist,
    DumpState, Server,
};
use crate::export::{
    account_token_end, bare_token_end, body_text, delimiter_for, file_stem, ident_list,
    inserts_text, law_delimiter_absent, lemma_first_ci_is, marks_generated, occurs_ci,
    quoted_token_end, safe_char, stripped, SqlDumpOptions,
};
use crate::export_dialog::selects_objects;
use crate::query::CellValue;
use crate::quote::{law_hex_round_trip, quoted_ident, read_hex};
use crate::reader::{all_rows, law_inserts_read_back, numbers_are_written, read_inserts, table_of};
use crate::schema::{show_create_text, ObjectKind, SchemaNames};
use crate::text::{
    flat_map, glued, has_text, integer_read, is_white_space, joined, law_decimal_reads_back,
    law_signed_decimal_reads_back, lemma_flat_map_front, lemma_glued_front, lowered, occurs_at,
    replaced, swap_char, uppered,
};

verus! {

/// A kind of object is wanted in a dump.
pub open spec fn is_wanted(opts: SqlDumpOptions, kind: ObjectKind) -> bool {
    match kind {
        ObjectKind::Table => opts.tables,
        ObjectKind::View => opts.views,
        ObjectKind::Procedure => opts.procedures,
        ObjectKind::Function => opts.functions,
        ObjectKind::Trigger => opts.triggers,
        ObjectKind::Event => opts.events,
    }
}

/// The names of the objects of one kind.
pub open spec fn names_of(objs: SchemaNames, kind: ObjectKind) -> Seq<Seq<char>> {
    match kind {
        ObjectKind::Table => objs.tables,
        ObjectKind::View => objs.views,
        ObjectKind::Procedure => objs.procedures,
        ObjectKind::Function => objs.functions,
        ObjectKind::Trigger => objs.triggers,
        ObjectKind::Event => objs.events,
    }
}

/// The names of one kind in a worklist, in order.
pub open spec fn kept(work: Seq<(ObjectKind, Seq<char>)>, kind: ObjectKind) -> Seq<Seq<char>>
    decreases work.len(),
{
    if work.len() == 0 {
        seq![]
    } else if work.last().0 == kind {
        kept(work.drop_last(), kind).push(work.last().1)
    } else {
        kept(work.drop_last(), kind)
    }
}

/// What can only be created after what it may refer to comes later: tables,
/// functions, procedures, views, triggers, events.
pub open spec fn rank(kind: ObjectKind) -> int {
    match kind {
        ObjectKind::Table => 0,
        ObjectKind::Function => 1,
        ObjectKind::Procedure => 2,
        ObjectKind::View => 3,
        ObjectKind::Trigger => 4,
        ObjectKind::Event => 5,
    }
}

proof fn lemma_kept_concat(
    a: Seq<(ObjectKind, Seq<char>)>,
    b: Seq<(ObjectKind, Seq<char>)>,
    kind: ObjectKind,
)
    ensures
        kept(a + b, kind) == kept(a, kind) + kept(b, kind),
    decreases b.len(),
{
    if b.len() == 0 {
        assert(a + b =~= a);
        assert(kept(a, kind) + kept(b, kind) =~= kept(a, kind));
    } else {
        assert((a + b).drop_last() =~= a + b.drop_last());
        lemma_kept_concat(a, b.drop_last(), kind);
        assert(kept(a + b, kind) =~= kept(a, kind) + kept(b, kind));
    }
}

proof fn lemma_kept_wanted(on: bool, own: ObjectKind, names: Seq<Seq<char>>, kind: ObjectKind)
    ensures
        kept(wanted(on, own, names), kind) == if on && own == kind {
            names
        } else {
            seq![]
        },
    decreases names.len(),
{
    let work = wanted(on, own, names);
    if on && names.len() > 0 {
        assert(work.drop_last() =~= wanted(on, own, names.drop_last()));
        lemma_kept_wanted(on, own, names.drop_last(), kind);
        assert(names.drop_last().push(names.last()) =~= names);
    } else if names.len() == 0 {
        assert(names =~= seq![]);
    }
}

spec fn ranked(work: Seq<(ObjectKind, Seq<char>)>, lo: int, hi: int) -> bool {
    &&& forall|i: int| 0 <= i < work.len() ==> lo <= rank((#[trigger] work[i]).0) <= hi
    &&& forall|i: int, j: int|
        0 <= i < j < work.len() ==> rank((#[trigger] work[i]).0) <= rank((#[trigger] work[j]).0)
}

proof fn lemma_ranked(
    a: Seq<(ObjectKind, Seq<char>)>,
    b: Seq<(ObjectKind, Seq<char>)>,
    mid: int,
)
    requires
        ranked(a, 0, mid - 1),
        ranked(b, mid, mid),
        0 <= mid,
    ensures
        ranked(a + b, 0, mid),
{
    let c = a + b;
    assert forall|i: int| 0 <= i < c.len() implies 0 <= rank((#[trigger] c[i]).0) <= mid by {
        if i < a.len() {
            assert(c[i] == a[i]);
        } else {
            assert(c[i] == b[i - a.len()]);
        }
    }
    assert forall|i: int, j: int| 0 <= i < j < c.len() implies rank((#[trigger] c[i]).0) <= rank(
        (#[trigger] c[j]).0,
    ) by {
        if j < a.len() {
            assert(c[i] == a[i] && c[j] == a[j]);
        } else {
            assert(c[j] == b[j - a.len()]);
            if i < a.len() {
                assert(c[i] == a[i]);
            } else {
                assert(c[i] == b[i - a.len()]);
            }
        }
    }
}

/// A dump takes every object of each wanted kind, in the order of the list, and
/// none of the other kinds. What others may refer to comes first.
pub proof fn law_worklist_is_complete(
    objs: SchemaNames,
    opts: SqlDumpOptions,
    kind: ObjectKind,
    i: int,
    j: int,
)
    ensures
        kept(worklist(objs, opts), kind) == if is_wanted(opts, kind) {
            names_of(objs, kind)
        } else {
            seq![]
        },
        0 <= i < j < worklist(objs, opts).len() ==> rank(worklist(objs, opts)[i].0) <= rank(
            worklist(objs, opts)[j].0,
        ),
{
    let a = wanted(opts.tables, ObjectKind::Table, objs.tables);
    let b = wanted(opts.functions, ObjectKind::Function, objs.functions);
    let c = wanted(opts.procedures, ObjectKind::Procedure, objs.procedures);
    let d = wanted(opts.views, ObjectKind::View, objs.views);
    let e = wanted(opts.triggers, ObjectKind::Trigger, objs.triggers);
    let f = wanted(opts.events, ObjectKind::Event, objs.events);
    lemma_kept_concat(a, b, kind);
    lemma_kept_concat(a + b, c, kind);
    lemma_kept_concat(a + b + c, d, kind);
    lemma_kept_concat(a + b + c + d, e, kind);
    lemma_kept_concat(a + b + c + d + e, f, kind);
    lemma_kept_wanted(opts.tables, ObjectKind::Table, objs.tables, kind);
    lemma_kept_wanted(opts.functions, ObjectKind::Function, objs.functions, kind);
    lemma_kept_wanted(opts.procedures, ObjectKind::Procedure, objs.procedures, kind);
    lemma_kept_wanted(opts.views, ObjectKind::View, objs.views, kind);
    lemma_kept_wanted(opts.triggers, ObjectKind::Trigger, objs.triggers, kind);
    lemma_kept_wanted(opts.events, ObjectKind::Event, objs.events, kind);
    assert(kept(worklist(objs, opts), kind) =~= if is_wanted(opts, kind) {
        names_of(objs, kind)
    } else {
        seq![]
    });
    assert(ranked(a, 0, 0));
    lemma_ranked(a, b, 1);
    lemma_ranked(a + b, c, 2);
    lemma_ranked(a + b + c, d, 3);
    lemma_ranked(a + b + c + d, e, 4);
    lemma_ranked(a + b + c + d + e, f, 5);
}

/// The keyword of each kind of object.
pub open spec fn keyword_of(kind: ObjectKind) -> Seq<char> {
    match kind {
        ObjectKind::Table => "TABLE"@,
        ObjectKind::View => "VIEW"@,
        ObjectKind::Procedure => "PROCEDURE"@,
        ObjectKind::Function => "FUNCTION"@,
        ObjectKind::Trigger => "TRIGGER"@,
        ObjectKind::Event => "EVENT"@,
    }
}

/// The part of a dump for a table or a view is a comment line, then, where it is
/// wanted, the statement that drops the object by its name, and then the
/// definition as a statement. A view's definition loses its `DEFINER` where that
/// is wanted; a table's is kept as it is.
pub proof fn law_table_or_view_is_recreated(
    kind: ObjectKind,
    name: Seq<char>,
    ddl: Seq<char>,
    opts: SqlDumpOptions,
)
    requires
        kind == ObjectKind::Table || kind == ObjectKind::View,
    ensures
        exists|comment: Seq<char>|
            {
                let drop = if opts.drop_if_exists {
                    "DROP "@ + keyword_of(kind) + " IF EXISTS "@ + quoted_ident(name) + ";\n"@
                } else {
                    seq![]
                };
                let body = if kind == ObjectKind::View && opts.omit_definer {
                    stripped(ddl)
                } else {
                    ddl
                };
                object_text(kind, name, ddl, opts) == #[trigger] ("\n-- "@ + comment + "\n"@) + drop
                    + body + ";\n"@
            },
{
    reveal_strlit("DROP ");
    reveal_strlit("TABLE");
    reveal_strlit("VIEW");
    reveal_strlit(" IF EXISTS ");
    reveal_strlit("DROP TABLE IF EXISTS ");
    reveal_strlit("DROP VIEW IF EXISTS ");
    reveal_strlit("\n-- ");
    reveal_strlit("\n");
    reveal_strlit(" `");
    reveal_strlit("`\n");
    assert("DROP "@ + "TABLE"@ + " IF EXISTS "@ =~= "DROP TABLE IF EXISTS "@);
    assert("DROP "@ + "VIEW"@ + " IF EXISTS "@ =~= "DROP VIEW IF EXISTS "@);
    let label = if kind == ObjectKind::Table {
        "Table structure for"@
    } else {
        "View structure for"@
    };
    let comment = label + " `"@ + name + seq!['`'];
    let line = "\n-- "@ + comment + "\n"@;
    assert("\n-- "@ + label + " `"@ + name + "`\n"@ =~= line);
    let drop = if opts.drop_if_exists {
        "DROP "@ + keyword_of(kind) + " IF EXISTS "@ + quoted_ident(name) + ";\n"@
    } else {
        seq![]
    };
    let body = if kind == ObjectKind::View && opts.omit_definer {
        stripped(ddl)
    } else {
        ddl
    };
    assert(object_text(kind, name, ddl, opts) =~= line + drop + body + ";\n"@);
}

/// The part of a dump for a routine, a trigger or an event sets a delimiter that
/// does not occur in its body, drops the object by its name where that is
/// wanted, creates it, and sets the delimiter back. Both statements end with the
/// delimiter. The body loses its `DEFINER` where that is wanted.
pub proof fn law_routine_is_recreated(
    kind: ObjectKind,
    name: Seq<char>,
    ddl: Seq<char>,
    opts: SqlDumpOptions,
)
    requires
        kind != ObjectKind::Table && kind != ObjectKind::View,
    ensures
        exists|comment: Seq<char>, delim: Seq<char>|
            {
                let drop = if opts.drop_if_exists {
                    "DROP "@ + keyword_of(kind) + " IF EXISTS "@ + quoted_ident(name) + delim
                        + "\n"@
                } else {
                    seq![]
                };
                let body = if opts.omit_definer {
                    stripped(ddl)
                } else {
                    ddl
                };
                &&& !has_text(body, delim)
                &&& delim.len() > 0
                &&& object_text(kind, name, ddl, opts) == #[trigger] ("\n-- "@ + comment + "\n"@)
                    + #[trigger] ("DELIMITER "@ + delim + "\n"@) + drop + body + delim
                    + "\nDELIMITER ;\n"@
            },
{
    reveal_strlit("\n-- ");
    reveal_strlit("\n");
    reveal_strlit(" `");
    reveal_strlit("`\n");
    let body = if opts.omit_definer {
        stripped(ddl)
    } else {
        ddl
    };
    assert(body == body_text(ddl, opts.omit_definer));
    let delim = delimiter_for(body);
    law_delimiter_absent(body);
    assert(delim.len() > 0) by {
        if delim.len() == 0 {
            assert(body.subrange(0, 0) =~= delim);
            assert(occurs_at(body, delim, 0));
        }
    }
    let label = crate::export::routine_label(kind);
    let comment = label + " `"@ + name + seq!['`'];
    let line = "\n-- "@ + comment + "\n"@;
    assert("\n-- "@ + label + " `"@ + name + "`\n"@ =~= line);
    let drop = if opts.drop_if_exists {
        "DROP "@ + keyword_of(kind) + " IF EXISTS "@ + quoted_ident(name) + delim + "\n"@
    } else {
        seq![]
    };
    assert(object_text(kind, name, ddl, opts) =~= line + ("DELIMITER "@ + delim + "\n"@) + drop
        + body + delim + "\nDELIMITER ;\n"@);
}

/// The data of a table that has rows is a comment line and `INSERT` statements
/// from which a server reads every row; a table without rows has none.
pub proof fn law_table_data_reads_back(
    table: Seq<char>,
    columns: Seq<Seq<char>>,
    rows: Seq<Seq<CellValue>>,
    extended: bool,
)
    requires
        columns.len() > 0,
        numbers_are_written(rows),
    ensures
        rows.len() == 0 ==> data_text(table, columns, rows, extended).len() == 0,
        rows.len() > 0 ==> exists|script: Seq<char>|
            {
                &&& data_text(table, columns, rows, extended) == #[trigger] ("\n-- Data for `"@
                    + table + "`\n"@ + script)
                &&& read_inserts(script) matches Some(found) && all_rows(found) == table_of(rows)
                    && forall|k: int|
                    0 <= k < found.len() ==> (#[trigger] found[k]).table == table
                        && found[k].columns == columns
            },
{
    law_inserts_read_back(table, columns, rows, extended);
    let script = inserts_text(table, columns, rows, extended);
    assert(rows.len() > 0 ==> data_text(table, columns, rows, extended) == ("\n-- Data for `"@
        + table + "`\n"@ + script));
}

/// The part of a dump for one object: its definition and, for a table whose data
/// is wanted and that has columns which take values, its rows as the server
/// gives them for these columns.
pub open spec fn part_for(
    server: Server,
    db: Seq<char>,
    opts: SqlDumpOptions,
    kind: ObjectKind,
    name: Seq<char>,
) -> Seq<char> {
    let created = object_text(kind, name, (server.definition)(kind, name), opts);
    let columns = insertable((server.columns)(name));
    if kind == ObjectKind::Table && opts.data && columns.len() > 0 {
        created + data_text(
            name,
            columns,
            (server.rows)(select_text(db, name, columns)),
            opts.extended_insert,
        )
    } else {
        created
    }
}

/// A dump is its header, the parts of all its objects in the order of the
/// worklist, and its footer.
pub proof fn law_dump_holds_every_object(server: Server, db: Seq<char>, opts: SqlDumpOptions)
    ensures
        ({
            let work = worklist(server.names, opts);
            let version = match server.version {
                Some(version) => version,
                None => seq![],
            };
            server.dump_text(db, opts) == head_text(db, opts, version) + glued(
                Seq::new(
                    work.len(),
                    |k: int| part_for(server, db, opts, work[k].0, work[k].1),
                ),
            ) + foot_text(opts)
        }),
{
    let work = worklist(server.names, opts);
    lemma_items_glued(server, db, opts, work, 0);
    assert(Seq::new(
        (work.len() - 0) as nat,
        |k: int| part_for(server, db, opts, work[0 + k].0, work[0 + k].1),
    ) =~= Seq::new(work.len(), |k: int| part_for(server, db, opts, work[k].0, work[k].1)));
}

proof fn lemma_items_glued(
    server: Server,
    db: Seq<char>,
    opts: SqlDumpOptions,
    work: Seq<(ObjectKind, Seq<char>)>,
    i: int,
)
    requires
        0 <= i <= work.len(),
    ensures
        server.items_text(db, opts, work, i) == glued(
            Seq::new(
                (work.len() - i) as nat,
                |k: int| part_for(server, db, opts, work[i + k].0, work[i + k].1),
            ),
        ),
    decreases work.len() - i,
{
    let parts = Seq::new(
        (work.len() - i) as nat,
        |k: int| part_for(server, db, opts, work[i + k].0, work[i + k].1),
    );
    if i < work.len() {
        lemma_items_glued(server, db, opts, work, i + 1);
        lemma_glued_front(parts);
        assert(parts.drop_first() =~= Seq::new(
            (work.len() - (i + 1)) as nat,
            |k: int| part_for(server, db, opts, work[i + 1 + k].0, work[i + 1 + k].1),
        ));
        assert(parts[0] =~= server.item_text(db, opts, work[i]));
    } else {
        assert(parts =~= seq![]);
    }
}

/// The header holds what is wanted and nothing else: a comment block that names
/// the database and the server's version where it is known, the statements that
/// switch the foreign-key checks off, and those that create and choose the
/// database. The footer switches the checks on again where the header switched
/// them off.
pub proof fn law_head_and_foot(db: Seq<char>, opts: SqlDumpOptions, version: Seq<char>)
    ensures
        ({
            let known = if version.len() > 0 {
                "-- Server version: "@ + version + "\n"@
            } else {
                seq![]
            };
            let comment = if opts.comment_header {
                "-- RySQL database export\n-- Database: "@ + db + "\n"@ + known + "\n"@
            } else {
                seq![]
            };
            let prepare = if opts.portability_header {
                "SET NAMES utf8mb4;\nSET FOREIGN_KEY_CHECKS=0;\nSET @OLD_SQL_MODE=@@SQL_MODE, SQL_MODE='NO_AUTO_VALUE_ON_ZERO';\n\n"@
            } else {
                seq![]
            };
            let create = if opts.create_database {
                "CREATE DATABASE IF NOT EXISTS "@ + quoted_ident(db) + ";\nUSE "@ + quoted_ident(
                    db,
                ) + ";\n\n"@
            } else {
                seq![]
            };
            head_text(db, opts, version) == comment + prepare + create
        }),
        foot_text(opts) == if opts.portability_header {
            "\nSET FOREIGN_KEY_CHECKS=1;\nSET SQL_MODE=@OLD_SQL_MODE;\n"@
        } else {
            seq![]
        },
{
    reveal_strlit("-- RySQL database export\n-- Database: ");
    reveal_strlit("-- RySQL database export\n");
    reveal_strlit("-- Database: ");
    assert("-- RySQL database export\n-- Database: "@ =~= "-- RySQL database export\n"@
        + "-- Database: "@);
}

/// The query for a table reads the given columns, in order, from that table of
/// that database.
pub proof fn law_select_names_everything(db: Seq<char>, table: Seq<char>, columns: Seq<Seq<char>>)
    ensures
        select_text(db, table, columns) == "SELECT "@ + joined(
            columns.map_values(|n: Seq<char>| quoted_ident(n)),
            ", "@,
        ) + " FROM "@ + quoted_ident(db) + "."@ + quoted_ident(table),
{
    let lead = "SELECT "@ + ident_list(columns) + " FROM "@;
    assert(select_text(db, table, columns) =~= lead + quoted_ident(db) + "."@ + quoted_ident(
        table,
    ));
}

/// Progress counts the objects one by one, up to their number, and names each by
/// its kind and name.
pub proof fn law_ticks_count(s: DumpState, k: int)
    ensures
        s.tick_for(k).done == k + 1,
        s.tick_for(k).total == s.work.len(),
        s.tick_for(k).label == lowered(keyword_of(s.work[k].0)) + " `"@ + s.work[k].1 + "`"@,
{
}

/// The columns of a table are taken in order, without those that the server
/// generates: a list is taken part by part, and one column is taken or left.
pub proof fn law_insertable_columns(
    a: Seq<(Seq<char>, Seq<char>)>,
    b: Seq<(Seq<char>, Seq<char>)>,
    name: Seq<char>,
    extra: Seq<char>,
)
    ensures
        insertable(a + b) == insertable(a) + insertable(b),
        insertable(seq![(name, extra)]) == if marks_generated(extra) {
            Seq::<Seq<char>>::empty()
        } else {
            seq![name]
        },
    decreases b.len(),
{
    reveal_with_fuel(insertable, 2);
    let one = seq![(name, extra)];
    assert(one.drop_last() =~= seq![]);
    assert(insertable(one) =~= if marks_generated(extra) {
        Seq::<Seq<char>>::empty()
    } else {
        seq![name]
    });
    if b.len() == 0 {
        assert(a + b =~= a);
        assert(insertable(a) + insertable(b) =~= insertable(a));
    } else {
        assert((a + b).drop_last() =~= a + b.drop_last());
        law_insertable_columns(a, b.drop_last(), name, extra);
        assert(insertable(a + b) =~= insertable(a) + insertable(b));
    }
}

/// A column is generated in any case of its `EXTRA`; it is where that says
/// `VIRTUAL GENERATED` or `STORED GENERATED` somewhere, or is `VIRTUAL`,
/// `STORED` or `PERSISTENT`; and it is not where none of these words occurs, such
/// as for a generated default.
pub proof fn law_generated_columns(extra: Seq<char>)
    ensures
        marks_generated(uppered(extra)) == marks_generated(extra),
        has_text(uppered(extra), "VIRTUAL GENERATED"@) ==> marks_generated(extra),
        has_text(uppered(extra), "STORED GENERATED"@) ==> marks_generated(extra),
        uppered(extra) == "VIRTUAL"@ || uppered(extra) == "STORED"@ || uppered(extra)
            == "PERSISTENT"@ ==> marks_generated(extra),
        !has_text(uppered(extra), "VIRTUAL"@) && !has_text(uppered(extra), "STORED"@) && !has_text(
            uppered(extra),
            "PERSISTENT"@,
        ) ==> !marks_generated(extra),
{
    let e = uppered(extra);
    assert(uppered(e) =~= e);
    reveal_strlit("VIRTUAL GENERATED");
    reveal_strlit("STORED GENERATED");
    reveal_strlit("VIRTUAL");
    reveal_strlit("STORED");
    reveal_strlit("PERSISTENT");
    if has_text(e, "VIRTUAL GENERATED"@) {
        let i = choose|i: int| occurs_at(e, "VIRTUAL GENERATED"@, i);
        assert(e.subrange(i, i + 7) =~= e.subrange(i, i + 17).subrange(0, 7));
        assert("VIRTUAL GENERATED"@.subrange(0, 7) =~= "VIRTUAL"@);
        assert(occurs_at(e, "VIRTUAL"@, i));
    }
    if has_text(e, "STORED GENERATED"@) {
        let i = choose|i: int| occurs_at(e, "STORED GENERATED"@, i);
        assert(e.subrange(i, i + 6) =~= e.subrange(i, i + 16).subrange(0, 6));
        assert("STORED GENERATED"@.subrange(0, 6) =~= "STORED"@);
        assert(occurs_at(e, "STORED"@, i));
    }
    if e == "VIRTUAL"@ || e == "STORED"@ || e == "PERSISTENT"@ {
        assert(e.subrange(0, e.len() as int) =~= e);
        assert(occurs_at(e, e, 0));
        assert(has_text(e, e));
    }
}

/// A user or a host as a `DEFINER` clause writes it: bare, or between quotes, in
/// which a quote is doubled.
pub open spec fn account_text(quote: Option<char>, name: Seq<char>) -> Seq<char> {
    match quote {
        Some(q) => seq![q] + replaced(name, q, seq![q, q]) + seq![q],
        None => name,
    }
}

/// What may stand in a user or a host: anything between quotes; without them, no
/// `@`, no white space and no quote at the start.
pub open spec fn is_account(quote: Option<char>, name: Seq<char>) -> bool {
    match quote {
        Some(q) => q == '`' || q == '\'',
        None => name.len() > 0 && name[0] != '`' && name[0] != '\'' && forall|i: int|
            0 <= i < name.len() ==> (#[trigger] name[i]) != '@' && name[i] != ' ' && name[i] != '\t'
                && name[i] != '\n' && name[i] != '\u{c}' && name[i] != '\r',
    }
}

proof fn lemma_account_quoted(s: Seq<char>, i: int, q: char, name: Seq<char>, body: Seq<char>)
    requires
        body == replaced(name, q, seq![q, q]),
        0 <= i,
        i + body.len() < s.len(),
        forall|k: int| 0 <= k < body.len() ==> s[i + k] == #[trigger] body[k],
        s[i + body.len()] == q,
        i + body.len() + 1 < s.len() ==> s[i + body.len() + 1] != q,
    ensures
        quoted_token_end(s, i, q) == i + body.len() + 1,
    decreases name.len(),
{
    let f = swap_char(q, seq![q, q]);
    if name.len() > 0 {
        lemma_flat_map_front(name, f);
        let rest = flat_map(name.drop_first(), f);
        let head = f(name[0]);
        assert(body == head + rest);
        assert(s[i + 0] == body[0]);
        assert(body[0] == head[0]);
        if head.len() == 2 {
            assert(s[i + 1] == body[1]);
            assert(body[1] == head[1]);
        }
        assert forall|k: int| 0 <= k < rest.len() implies s[i + head.len() + k]
            == #[trigger] rest[k] by {
            assert(body[head.len() + k] == rest[k]);
            assert(s[i + (head.len() + k)] == body[head.len() + k]);
        }
        lemma_account_quoted(s, i + head.len(), q, name.drop_first(), rest);
    }
}

proof fn lemma_account_bare(s: Seq<char>, i: int, j: int)
    requires
        0 <= i <= j <= s.len(),
        forall|k: int|
            i <= k < j ==> (#[trigger] s[k]) != '@' && s[k] != ' ' && s[k] != '\t' && s[k] != '\n'
                && s[k] != '\u{c}' && s[k] != '\r',
        j < s.len() ==> s[j] == '@' || s[j] == ' ',
    ensures
        bare_token_end(s, i) == j,
    decreases j - i,
{
    if i < j {
        lemma_account_bare(s, i + 1, j);
    }
}

proof fn lemma_account(s: Seq<char>, i: int, quote: Option<char>, name: Seq<char>)
    requires
        is_account(quote, name),
        0 <= i,
        i + account_text(quote, name).len() < s.len(),
        forall|k: int|
            0 <= k < account_text(quote, name).len() ==> s[i + k] == #[trigger] account_text(
                quote,
                name,
            )[k],
        s[i + account_text(quote, name).len()] == '@' || s[i + account_text(quote, name).len()]
            == ' ',
    ensures
        account_token_end(s, i) == i + account_text(quote, name).len(),
{
    let a = account_text(quote, name);
    match quote {
        Some(q) => {
            let body = replaced(name, q, seq![q, q]);
            assert(s[i + 0] == a[0]);
            assert forall|k: int| 0 <= k < body.len() implies s[i + 1 + k] == #[trigger] body[k] by {
                assert(a[1 + k] == body[k]);
                assert(s[i + (1 + k)] == a[1 + k]);
            }
            assert(a[1 + body.len() as int] == q);
            assert(s[i + (1 + body.len())] == a[1 + body.len() as int]);
            lemma_account_quoted(s, i + 1, q, name, body);
        },
        None => {
            assert(s[i + 0] == a[0]);
            assert forall|k: int| i <= k < i + a.len() implies (#[trigger] s[k]) != '@' && s[k]
                != ' ' && s[k] != '\t' && s[k] != '\n' && s[k] != '\u{c}' && s[k] != '\r' by {
                assert(s[i + (k - i)] == a[k - i]);
            }
            lemma_account_bare(s, i, i + a.len());
        },
    }
}

/// A `DEFINER` clause goes away with the space after it, whatever user and host
/// it names and however they are written, and nothing else goes.
pub proof fn law_definer_goes_away(
    before: Seq<char>,
    word: Seq<char>,
    user_quote: Option<char>,
    user: Seq<char>,
    host_quote: Option<char>,
    host: Seq<char>,
    after: Seq<char>,
)
    requires
        is_account(user_quote, user),
        is_account(host_quote, host),
        uppered(word) == "DEFINER="@,
        ({
            let s = before + word + account_text(user_quote, user) + seq!['@'] + account_text(
                host_quote,
                host,
            ) + seq![' '] + after;
            forall|k: int| 0 <= k < before.len() ==> !#[trigger] occurs_ci(s, "DEFINER="@, k)
        }),
    ensures
        stripped(
            before + word + account_text(user_quote, user) + seq!['@'] + account_text(
                host_quote,
                host,
            ) + seq![' '] + after,
        ) == before + after,
{
    reveal_strlit("DEFINER=");
    let u = account_text(user_quote, user);
    let h = account_text(host_quote, host);
    let s = before + word + u + seq!['@'] + h + seq![' '] + after;
    let n = before.len() as int;
    assert(word.len() == uppered(word).len());
    assert(occurs_ci(s, "DEFINER="@, n)) by {
        let hay = lowered(s);
        let needle = lowered("DEFINER="@);
        assert forall|k: int| 0 <= k < 8 implies hay.subrange(n, n + 8)[k] == #[trigger] needle[k] by {
            assert(s[n + k] == word[k]);
            assert(uppered(word)[k] == "DEFINER="@[k]);
            crate::text::law_ascii_case(word[k]);
        }
        assert(hay.subrange(n, n + 8) =~= needle);
    }
    lemma_first_ci_is(s, "DEFINER="@, 0, n);
    let at = n + 8;
    assert forall|k: int| 0 <= k < u.len() implies s[at + k] == #[trigger] u[k] by {}
    assert(s[at + u.len()] == '@');
    lemma_account(s, at, user_quote, user);
    let mid = at + u.len() + 1;
    assert forall|k: int| 0 <= k < h.len() implies s[mid + k] == #[trigger] h[k] by {}
    assert(s[mid + h.len()] == ' ');
    lemma_account(s, mid, host_quote, host);
    assert(s.take(n) =~= before);
    assert(s.skip(mid + h.len() + 1) =~= after);
}

/// The records of a file of nothing else.
pub open spec fn read_file(t: Seq<char>) -> Option<Seq<Seq<Seq<char>>>>
    decreases t.len(),
{
    if t.len() == 0 {
        Some(seq![])
    } else {
        match read_record(t, 0) {
            Some((fields, end)) => if 0 < end <= t.len() {
                match read_file(t.skip(end)) {
                    Some(rest) => Some(seq![fields] + rest),
                    None => None,
                }
            } else {
                None
            },
            None => None,
        }
    }
}

/// The fields of a row.
pub open spec fn fields_of(row: Seq<CellValue>) -> Seq<Seq<char>> {
    row.map_values(|v: CellValue| field_text(v))
}

/// The fields of several rows.
pub open spec fn records_of(rows: Seq<Seq<CellValue>>) -> Seq<Seq<Seq<char>>> {
    rows.map_values(|row: Seq<CellValue>| fields_of(row))
}

/// The records of the rows from `i` on.
spec fn records_from(rows: Seq<Seq<CellValue>>, i: int) -> Seq<char>
    decreases rows.len() - i,
{
    if i < 0 || i >= rows.len() {
        seq![]
    } else {
        record_text(fields_of(rows[i])) + records_from(rows, i + 1)
    }
}

proof fn lemma_records(rows: Seq<Seq<CellValue>>, n: int)
    requires
        0 <= n <= rows.len(),
    ensures
        rows_text(rows, n) + records_from(rows, n) == records_from(rows, 0),
    decreases n,
{
    if n == 0 {
        assert(rows_text(rows, 0) + records_from(rows, 0) =~= records_from(rows, 0));
    } else {
        lemma_records(rows, n - 1);
        let row = rows[n - 1];
        assert(row_record(row) == record_text(fields_of(row)));
        let before = rows_text(rows, n - 1);
        let later = records_from(rows, n);
        assert(before + row_record(row) + later =~= before + (row_record(row) + later));
    }
}

proof fn lemma_read_records(rows: Seq<Seq<CellValue>>, i: int)
    requires
        0 <= i <= rows.len(),
        forall|k: int| 0 <= k < rows.len() ==> (#[trigger] rows[k]).len() > 0,
    ensures
        read_file(records_from(rows, i)) == Some(records_of(rows).skip(i)),
    decreases rows.len() - i,
{
    if i < rows.len() {
        let fields = fields_of(rows[i]);
        assert(rows[i].len() > 0);
        let rest = records_from(rows, i + 1);
        lemma_read_first(fields, rest);
        lemma_read_records(rows, i + 1);
        assert(seq![fields] + records_of(rows).skip(i + 1) =~= records_of(rows).skip(i));
    } else {
        assert(records_of(rows).skip(i) =~= seq![]);
    }
}

proof fn lemma_read_first(fields: Seq<Seq<char>>, rest: Seq<char>)
    requires
        fields.len() > 0,
    ensures
        read_file(rest) matches Some(more) ==> read_file(record_text(fields) + rest) == Some(
            seq![fields] + more,
        ),
{
    law_record_round_trip(fields, rest);
    let t = record_text(fields) + rest;
    assert(t.skip(record_text(fields).len() as int) =~= rest);
}

/// A file of a CSV export reads back as a record of the column names and one
/// record for each row, in order, with a field for each cell.
pub proof fn law_csv_file_reads_back(server: TableServer, db: Seq<char>, table: Seq<char>)
    requires
        (server.columns)(table).len() > 0,
        ({
            let rows = (server.rows)(select_text(db, table, (server.columns)(table)));
            forall|k: int| 0 <= k < rows.len() ==> (#[trigger] rows[k]).len() > 0
        }),
    ensures
        ({
            let rows = (server.rows)(select_text(db, table, (server.columns)(table)));
            &&& read_file(server.file_for(db, table).content) == Some(
                seq![(server.columns)(table)] + records_of(rows),
            )
            &&& server.file_for(db, table).name == file_stem(table) + ".csv"@
        }),
{
    let columns = (server.columns)(table);
    let rows = (server.rows)(select_text(db, table, columns));
    let n = rows.len() as int;
    lemma_records(rows, n);
    assert(rows_text(rows, n) + records_from(rows, n) =~= rows_text(rows, n));
    lemma_read_records(rows, 0);
    assert(records_of(rows).skip(0) =~= records_of(rows));
    lemma_read_first(columns, records_from(rows, 0));
}

/// A field keeps the value of its cell: integers and truth values read back as
/// numbers, bytes from their hexadecimal digits, and texts as they are. Only a
/// missing value, an empty text and empty bytes give an empty field.
pub proof fn law_fields_keep_values(v: CellValue)
    ensures
        match v {
            CellValue::Null => field_text(v).len() == 0,
            CellValue::Int(n) => integer_read(field_text(v)) == Some(n as int),
            CellValue::UInt(n) => integer_read(field_text(v)) == Some(n as int),
            CellValue::Float { bits: _, text } => field_text(v) == text,
            CellValue::Bool(b) => integer_read(field_text(v)) == Some(
                if b {
                    1int
                } else {
                    0int
                },
            ),
            CellValue::Text(s) => field_text(v) == s,
            CellValue::Json(s) => field_text(v) == s,
            CellValue::Blob(b) => read_hex(field_text(v)) == b,
        },
{
    match v {
        CellValue::Int(n) => {
            law_signed_decimal_reads_back(n as int);
        },
        CellValue::UInt(n) => {
            law_decimal_reads_back(n as nat);
            law_signed_decimal_reads_back(n as int);
        },
        CellValue::Bool(b) => {
            reveal_strlit("0");
            reveal_strlit("1");
        },
        CellValue::Blob(b) => {
            law_hex_round_trip(b);
            reveal_strlit("0x");
            assert(crate::quote::hex_text(b).skip(2) =~= crate::quote::hex_digits(b));
        },
        _ => {},
    }
}

/// A name that is safe already is kept as the file stem: one without characters
/// that some platform does not allow, and with neither white space nor dots at
/// its ends.
pub proof fn law_safe_names_are_kept(name: Seq<char>)
    requires
        name.len() > 0,
        forall|i: int|
            0 <= i < name.len() ==> !((#[trigger] name[i]) == '/' || name[i] == '\\' || name[i]
                == ':' || name[i] == '*' || name[i] == '?' || name[i] == '"' || name[i] == '<'
                || name[i] == '>' || name[i] == '|' || (name[i] as u32) < 0x20 || 0x7f <= (
            name[i] as u32) < 0xa0),
        !is_white_space(name[0]),
        !is_white_space(name.last()),
        name[0] != '.',
        name.last() != '.',
    ensures
        file_stem(name) == name,
{
    let clean = name.map_values(|c: char| safe_char(c));
    assert(clean =~= name);
}

/// An export can be run where some kind of object is wanted; otherwise the dump
/// would hold none.
pub proof fn law_nothing_selected(objs: SchemaNames, opts: SqlDumpOptions, kind: ObjectKind)
    ensures
        is_wanted(opts, kind) ==> selects_objects(opts),
        !selects_objects(opts) ==> worklist(objs, opts).len() == 0,
        selects_objects(opts) ==> exists|k: ObjectKind| #[trigger] is_wanted(opts, k),
{
    if selects_objects(opts) {
        let k = if opts.tables {
            ObjectKind::Table
        } else if opts.views {
            ObjectKind::View
        } else if opts.procedures {
            ObjectKind::Procedure
        } else if opts.functions {
            ObjectKind::Function
        } else if opts.triggers {
            ObjectKind::Trigger
        } else {
            ObjectKind::Event
        };
        assert(is_wanted(opts, k));
    }
}

/// The statement that shows how an object is created names its kind and, quoted,
/// its database and itself.
pub proof fn law_show_create(db: Seq<char>, kind: ObjectKind, name: Seq<char>)
    ensures
        show_create_text(db, kind, name) == "SHOW CREATE "@ + keyword_of(kind) + " "@
            + quoted_ident(db) + "."@ + quoted_ident(name),
{
    assert("SHOW CREATE "@ + keyword_of(kind) + " "@ + (quoted_ident(db) + "."@ + quoted_ident(
        name,
    )) =~= "SHOW CREATE "@ + keyword_of(kind) + " "@ + quoted_ident(db) + "."@ + quoted_ident(
        name,
    ));
}

} // verus!
