//! The dialog that adds a column to a table, and the statements that add and
//! drop columns.

use vstd::prelude::*;

use crate::quote::{
    ident, law_plain_round_trip, plain_literal, plain_quoted, qualified, qualified_name,
    quoted_ident, read_literal,
};
use crate::state::ObjectKey;
use crate::text::{is_empty, trim, trimmed};

verus! {

/// What the dialog does.
#[derive(Debug, Clone, Copy, PartialEq, Eq, Structural)]
pub enum ColumnEditMode {
    /// `ALTER TABLE ... ADD COLUMN ...`.
    Add,
}

/// The `DEFAULT` of a column. A column that counts up has none.
#[derive(Debug, Clone, Copy, PartialEq, Eq, Structural)]
pub enum ColumnDefault {
    /// No `DEFAULT`: the server picks its own.
    Unset,
    /// `DEFAULT NULL`, where the column allows it.
    Null,
    /// The value as a literal.
    Value,
}

/// What the user has filled in.
#[derive(Debug, Clone)]
pub struct ColumnEditState {
    pub key: ObjectKey,
    pub mode: ColumnEditMode,
    pub name: String,
    pub data_type: String,
    pub nullable: bool,
    pub default_mode: ColumnDefault,
    pub default_value: String,
    pub auto_increment: bool,
    pub comment: String,
}

impl ColumnEditState {
    /// An empty form for a new column.
    pub fn new_add(key: ObjectKey) -> (res: ColumnEditState)
        ensures
            res.key == key,
            res.mode == ColumnEditMode::Add,
            res.name@ == Seq::<char>::empty(),
            res.data_type@ == Seq::<char>::empty(),
            res.nullable,
            res.default_mode == ColumnDefault::Unset,
            res.default_value@ == Seq::<char>::empty(),
            !res.auto_increment,
            res.comment@ == Seq::<char>::empty(),
    {
        ColumnEditState {
            key,
            mode: ColumnEditMode::Add,
            name: String::new(),
            data_type: String::new(),
            nullable: true,
            default_mode: ColumnDefault::Unset,
            default_value: String::new(),
            auto_increment: false,
            comment: String::new(),
        }
    }
}

/// What the user wants the dialog to do.
#[derive(Debug, Clone)]
pub enum ColumnEditChoice {
    Nothing,
    Cancel,
    Submit { sql: String },
}

/// The clause for the default of a column. Counting up wins over a default.
pub open spec fn default_clause(s: ColumnEditState) -> Seq<char> {
    if s.auto_increment {
        " AUTO_INCREMENT"@
    } else {
        match s.default_mode {
            ColumnDefault::Unset => seq![],
            ColumnDefault::Null => if s.nullable {
                " DEFAULT NULL"@
            } else {
                seq![]
            },
            ColumnDefault::Value => " DEFAULT "@ + plain_quoted(s.default_value@),
        }
    }
}

/// The clause for the comment of a column.
pub open spec fn comment_clause(s: ColumnEditState) -> Seq<char> {
    if trimmed(s.comment@).len() == 0 {
        seq![]
    } else {
        " COMMENT "@ + plain_quoted(trimmed(s.comment@))
    }
}

/// The statement that adds the column.
pub open spec fn add_column_text(s: ColumnEditState) -> Seq<char> {
    "ALTER TABLE "@ + qualified_name(s.key.db@, s.key.name@) + " ADD COLUMN "@ + quoted_ident(
        trimmed(s.name@),
    ) + " "@ + trimmed(s.data_type@) + (if s.nullable {
        " NULL"@
    } else {
        " NOT NULL"@
    }) + default_clause(s) + comment_clause(s)
}

/// The statement that adds the column. A column needs a name and a type.
pub fn build_add_column_sql(state: &ColumnEditState) -> (res: Result<String, String>)
    ensures
        if trimmed(state.name@).len() == 0 {
            res matches Err(m) && m@ == "Column name is required"@
        } else if trimmed(state.data_type@).len() == 0 {
            res matches Err(m) && m@ == "Type is required"@
        } else {
            res matches Ok(sql) && sql@ == add_column_text(*state)
        },
{
    let name = trim(state.name.as_str());
    let data_type = trim(state.data_type.as_str());
    if is_empty(name.as_str()) {
        return Err("Column name is required".to_string());
    }
    if is_empty(data_type.as_str()) {
        return Err("Type is required".to_string());
    }
    let mut sql = "ALTER TABLE ".to_string();
    sql.append(qualified(state.key.db.as_str(), state.key.name.as_str()).as_str());
    sql.append(" ADD COLUMN ");
    sql.append(ident(name.as_str()).as_str());
    sql.append(" ");
    sql.append(data_type.as_str());
    if state.nullable {
        sql.append(" NULL");
    } else {
        sql.append(" NOT NULL");
    }
    let ghost head = sql@;
    if state.auto_increment {
        sql.append(" AUTO_INCREMENT");
    } else {
        match state.default_mode {
            ColumnDefault::Unset => {},
            ColumnDefault::Null => {
                if state.nullable {
                    sql.append(" DEFAULT NULL");
                }
            },
            ColumnDefault::Value => {
                let mut clause = " DEFAULT ".to_string();
                clause.append(plain_literal(state.default_value.as_str()).as_str());
                sql.append(clause.as_str());
            },
        }
    }
    assert(sql@ =~= head + default_clause(*state));
    let ghost body = sql@;
    let comment = trim(state.comment.as_str());
    if !is_empty(comment.as_str()) {
        let mut clause = " COMMENT ".to_string();
        clause.append(plain_literal(comment.as_str()).as_str());
        sql.append(clause.as_str());
    }
    assert(sql@ =~= body + comment_clause(*state));
    Ok(sql)
}

/// The statement that drops a column.
pub fn build_drop_column_sql(key: &ObjectKey, col_name: &str) -> (res: String)
    ensures
        res@ == "ALTER TABLE "@ + qualified_name(key.db@, key.name@) + " DROP COLUMN "@
            + quoted_ident(col_name@),
{
    let mut sql = "ALTER TABLE ".to_string();
    sql.append(qualified(key.db.as_str(), key.name.as_str()).as_str());
    sql.append(" DROP COLUMN ");
    sql.append(ident(col_name).as_str());
    sql
}

/// Title of the dialog.
pub fn dialog_title(state: &ColumnEditState) -> (res: String)
    ensures
        res@ == "Add column to `"@ + state.key.db@ + "`.`"@ + state.key.name@ + "`"@,
{
    let mut out = "Add column to `".to_string();
    out.append(state.key.db.as_str());
    out.append("`.`");
    out.append(state.key.name.as_str());
    out.append("`");
    out
}

/// What the preview shows: the statement, or in parentheses what is missing.
pub fn preview_text(preview: &Result<String, String>) -> (res: String)
    ensures
        res@ == (match *preview {
            Ok(sql) => sql@,
            Err(m) => "("@ + m@ + ")"@,
        }),
{
    match preview {
        Ok(sql) => sql.clone(),
        Err(m) => {
            let mut out = "(".to_string();
            out.append(m.as_str());
            out.append(")");
            out
        },
    }
}

/// What the user wants, given the buttons that were clicked. Submitting needs a
/// statement, and wins over cancelling.
pub fn edit_choice(preview: Result<String, String>, cancel: bool, submit: bool) -> (res:
    ColumnEditChoice)
    ensures
        res == (match preview {
            Ok(sql) => if submit {
                ColumnEditChoice::Submit { sql }
            } else if cancel {
                ColumnEditChoice::Cancel
            } else {
                ColumnEditChoice::Nothing
            },
            Err(_) => if cancel {
                ColumnEditChoice::Cancel
            } else {
                ColumnEditChoice::Nothing
            },
        }),
{
    if submit {
        if let Ok(sql) = preview {
            return ColumnEditChoice::Submit { sql };
        }
    }
    if cancel {
        ColumnEditChoice::Cancel
    } else {
        ColumnEditChoice::Nothing
    }
}

/// A new column is as it was filled in: the statement alters the table by its
/// name, adds a column by the name and type that were given, and says whether it
/// may be `NULL`. A column that counts up has no default; a default of `NULL` is
/// set only where the column allows it; another default and a comment are
/// literals that read back as the texts that were given.
pub proof fn law_new_column_is_as_filled_in(s: ColumnEditState)
    ensures
        exists|default: Seq<char>, comment: Seq<char>|
            {
                &&& add_column_text(s) == "ALTER TABLE "@ + quoted_ident(s.key.db@) + "."@
                    + quoted_ident(s.key.name@) + " ADD COLUMN "@ + quoted_ident(trimmed(s.name@))
                    + " "@ + trimmed(s.data_type@) + (if s.nullable {
                    " NULL"@
                } else {
                    " NOT NULL"@
                }) + #[trigger] (default + comment)
                &&& s.auto_increment <==> default == " AUTO_INCREMENT"@
                &&& !s.auto_increment && s.default_mode == ColumnDefault::Null && s.nullable
                    <==> default == " DEFAULT NULL"@
                &&& !s.auto_increment && s.default_mode == ColumnDefault::Value ==> reads_back(
                    default,
                    " DEFAULT '"@,
                    s.default_value@,
                )
                &&& !s.auto_increment && s.default_mode == ColumnDefault::Unset ==> default.len()
                    == 0
                &&& !s.auto_increment && s.default_mode == ColumnDefault::Null && !s.nullable
                    ==> default.len() == 0
                &&& trimmed(s.comment@).len() == 0 ==> comment.len() == 0
                &&& trimmed(s.comment@).len() > 0 ==> reads_back(
                    comment,
                    " COMMENT '"@,
                    trimmed(s.comment@),
                )
            },
{
    let default = default_clause(s);
    let comment = comment_clause(s);
    law_plain_round_trip(s.default_value@, seq![]);
    law_plain_round_trip(trimmed(s.comment@), seq![]);
    reveal_strlit(" DEFAULT ");
    reveal_strlit(" DEFAULT '");
    reveal_strlit(" COMMENT ");
    reveal_strlit(" COMMENT '");
    reveal_strlit(" AUTO_INCREMENT");
    reveal_strlit(" DEFAULT NULL");
    let a = plain_quoted(s.default_value@);
    let b = plain_quoted(trimmed(s.comment@));
    assert(a + Seq::<char>::empty() =~= a);
    assert(b + Seq::<char>::empty() =~= b);
    assert(a[0] == '\'' && b[0] == '\'');
    assert((" DEFAULT "@ + a).take(10) =~= " DEFAULT '"@);
    assert((" DEFAULT "@ + a).skip(9) =~= a);
    assert((" DEFAULT "@ + a)[9] == '\'');
    assert(" DEFAULT NULL"@[9] == 'N');
    assert(" AUTO_INCREMENT"@[1] == 'A');
    assert((" DEFAULT "@ + a)[1] == 'D');
    assert((" COMMENT "@ + b).take(10) =~= " COMMENT '"@);
    assert((" COMMENT "@ + b).skip(9) =~= b);
    assert(add_column_text(s) =~= "ALTER TABLE "@ + quoted_ident(s.key.db@) + "."@ + quoted_ident(
        s.key.name@,
    ) + " ADD COLUMN "@ + quoted_ident(trimmed(s.name@)) + " "@ + trimmed(s.data_type@) + (
    if s.nullable {
        " NULL"@
    } else {
        " NOT NULL"@
    }) + (default + comment));
}

/// A clause is its keyword and a literal, to its end, that reads back as the
/// text. `head` ends with the opening quote.
pub open spec fn reads_back(clause: Seq<char>, head: Seq<char>, text: Seq<char>) -> bool {
    &&& clause.len() >= head.len()
    &&& clause.take(head.len() as int) == head
    &&& read_literal(clause.skip(head.len() - 1), 1) == Some(
        (text, clause.len() - (head.len() - 1)),
    )
}

} // verus!
