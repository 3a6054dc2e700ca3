//! Short, human-readable messages for driver errors. The full driver message
//! is kept beside them for logs and tooltips.

use vstd::prelude::*;

use crate::text::{
    begins_with, decimal, digits_read, ends_with, has_text, is_empty, law_decimal_reads_back,
    occurs_at, opt_text, u64_text, usize_text,
};

verus! {

/// What went wrong in the driver.
#[derive(Debug, Clone, PartialEq, Eq)]
pub enum DriverErrorKind {
    /// The server answered with an error. `number` is the MySQL error number,
    /// where the error is one of MySQL's.
    Database { code: Option<String>, number: Option<u16>, message: String },
    PoolTimedOut,
    PoolClosed,
    Io(String),
    Tls(String),
    Protocol(String),
    RowNotFound,
    ColumnNotFound(String),
    ColumnIndexOutOfBounds { index: usize, len: usize },
    Decode(String),
    Configuration(String),
    Other,
}

/// An error of the driver, with its full message.
#[derive(Debug, Clone, PartialEq, Eq)]
pub struct DriverError {
    pub kind: DriverErrorKind,
    pub message: String,
}

/// The short message for a MySQL error number; `None` where there is none.
pub open spec fn mysql_message(number: u16, raw: Seq<char>) -> Option<Seq<char>> {
    match number {
        // Connection
        1045 => Some("Access denied (check user / password)"@),
        1130 => Some("Host not allowed to connect"@),
        2002 => Some("Can't connect to MySQL through socket"@),
        2003 => Some("Can't connect to MySQL on TCP"@),
        2006 => Some("MySQL server has gone away (connection lost)"@),
        2013 => Some("Lost connection to MySQL during query"@),
        // Schema or object missing
        1044 => Some("Access denied to that database"@),
        1046 => Some("No database selected (run `USE <db>;` first)"@),
        1049 => Some("Unknown database — "@ + raw),
        1051 => Some("Unknown table — "@ + raw),
        1054 => Some("Unknown column — "@ + raw),
        1146 => Some("Table doesn't exist — "@ + raw),
        1305 => Some("Routine doesn't exist — "@ + raw),
        1364 => Some("Field has no default value — "@ + raw),
        // Constraints
        1062 => Some("Duplicate entry — "@ + raw),
        1216 => Some("Cannot add or update child row: foreign key constraint fails"@),
        1217 => Some("Cannot delete/update parent row: child rows exist"@),
        1451 => Some("Cannot delete/update parent row: foreign key constraint fails"@),
        1452 => Some("Cannot add child row: foreign key constraint fails"@),
        1048 => Some("Column cannot be NULL — "@ + raw),
        // Locking
        1205 => Some("Lock wait timeout exceeded — try again"@),
        1213 => Some("Deadlock detected — transaction was rolled back, retry"@),
        // Syntax and privileges
        1064 => Some("Syntax error — "@ + raw),
        1142 => Some("Command denied (privileges) — "@ + raw),
        1149 => Some("SQL syntax error"@),
        1227 => Some("Access denied — "@ + raw),
        _ => None,
    }
}

fn followed(head: &str, raw: &str) -> (res: String)
    ensures
        res@ == head@ + raw@,
{
    let mut out = head.to_string();
    out.append(raw);
    out
}

/// The short message for a MySQL error number; `None` where there is none.
pub fn friendly_mysql(number: u16, raw: &str) -> (res: Option<String>)
    ensures
        opt_text(res) == mysql_message(number, raw@),
{
    match number {
        // Connection
        1045 => Some("Access denied (check user / password)".to_string()),
        1130 => Some("Host not allowed to connect".to_string()),
        2002 => Some("Can't connect to MySQL through socket".to_string()),
        2003 => Some("Can't connect to MySQL on TCP".to_string()),
        2006 => Some("MySQL server has gone away (connection lost)".to_string()),
        2013 => Some("Lost connection to MySQL during query".to_string()),
        // Schema or object missing
        1044 => Some("Access denied to that database".to_string()),
        1046 => Some("No database selected (run `USE <db>;` first)".to_string()),
        1049 => Some(followed("Unknown database — ", raw)),
        1051 => Some(followed("Unknown table — ", raw)),
        1054 => Some(followed("Unknown column — ", raw)),
        1146 => Some(followed("Table doesn't exist — ", raw)),
        1305 => Some(followed("Routine doesn't exist — ", raw)),
        1364 => Some(followed("Field has no default value — ", raw)),
        // Constraints
        1062 => Some(followed("Duplicate entry — ", raw)),
        1216 => Some("Cannot add or update child row: foreign key constraint fails".to_string()),
        1217 => Some("Cannot delete/update parent row: child rows exist".to_string()),
        1451 => Some("Cannot delete/update parent row: foreign key constraint fails".to_string()),
        1452 => Some("Cannot add child row: foreign key constraint fails".to_string()),
        1048 => Some(followed("Column cannot be NULL — ", raw)),
        // Locking
        1205 => Some("Lock wait timeout exceeded — try again".to_string()),
        1213 => Some("Deadlock detected — transaction was rolled back, retry".to_string()),
        // Syntax and privileges
        1064 => Some(followed("Syntax error — ", raw)),
        1142 => Some(followed("Command denied (privileges) — ", raw)),
        1149 => Some("SQL syntax error".to_string()),
        1227 => Some(followed("Access denied — ", raw)),
        _ => None,
    }
}

/// The short message for a driver error.
pub open spec fn friendly_text(err: DriverError) -> Seq<char> {
    match err.kind {
        DriverErrorKind::Database { code, number, message } => {
            let code_text = match code {
                Some(c) => c@,
                None => seq![],
            };
            match number {
                Some(n) => match mysql_message(n, message@) {
                    Some(short) => short,
                    None => "["@ + code_text + "/"@ + decimal(n as nat) + "] "@ + message@,
                },
                None => if code_text.len() == 0 {
                    message@
                } else {
                    "["@ + code_text + "] "@ + message@
                },
            }
        },
        DriverErrorKind::PoolTimedOut => "Connection pool timed out"@,
        DriverErrorKind::PoolClosed => "Connection pool is closed"@,
        DriverErrorKind::Io(e) => "I/O: "@ + e@,
        DriverErrorKind::Tls(e) => "TLS: "@ + e@,
        DriverErrorKind::Protocol(e) => "Protocol error: "@ + e@,
        DriverErrorKind::RowNotFound => "No row returned"@,
        DriverErrorKind::ColumnNotFound(c) => "Column not found: "@ + c@,
        DriverErrorKind::ColumnIndexOutOfBounds { index, len } => "Column index "@ + decimal(
            index as nat,
        ) + " out of bounds (have "@ + decimal(len as nat) + ")"@,
        DriverErrorKind::Decode(e) => "Decode error: "@ + e@,
        DriverErrorKind::Configuration(e) => "Configuration: "@ + e@,
        DriverErrorKind::Other => err.message@,
    }
}

/// The short message for a driver error.
pub fn friendly(err: &DriverError) -> (res: String)
    ensures
        res@ == friendly_text(*err),
{
    match &err.kind {
        DriverErrorKind::Database { code, number, message } => {
            let code_text = match code {
                Some(c) => c.clone(),
                None => String::new(),
            };
            match number {
                Some(n) => match friendly_mysql(*n, message.as_str()) {
                    Some(short) => short,
                    None => {
                        let mut out = "[".to_string();
                        out.append(code_text.as_str());
                        out.append("/");
                        out.append(u64_text(*n as u64).as_str());
                        out.append("] ");
                        out.append(message.as_str());
                        out
                    },
                },
                None => if is_empty(code_text.as_str()) {
                    message.clone()
                } else {
                    let mut out = "[".to_string();
                    out.append(code_text.as_str());
                    out.append("] ");
                    out.append(message.as_str());
                    out
                },
            }
        },
        DriverErrorKind::PoolTimedOut => "Connection pool timed out".to_string(),
        DriverErrorKind::PoolClosed => "Connection pool is closed".to_string(),
        DriverErrorKind::Io(e) => followed("I/O: ", e.as_str()),
        DriverErrorKind::Tls(e) => followed("TLS: ", e.as_str()),
        DriverErrorKind::Protocol(e) => followed("Protocol error: ", e.as_str()),
        DriverErrorKind::RowNotFound => "No row returned".to_string(),
        DriverErrorKind::ColumnNotFound(c) => followed("Column not found: ", c.as_str()),
        DriverErrorKind::ColumnIndexOutOfBounds { index, len } => {
            let mut out = "Column index ".to_string();
            out.append(usize_text(*index).as_str());
            out.append(" out of bounds (have ");
            out.append(usize_text(*len).as_str());
            out.append(")");
            out
        },
        DriverErrorKind::Decode(e) => followed("Decode error: ", e.as_str()),
        DriverErrorKind::Configuration(e) => followed("Configuration: ", e.as_str()),
        DriverErrorKind::Other => err.message.clone(),
    }
}

/// Failure of a request to a connection.
#[derive(Debug, Clone, PartialEq, Eq)]
pub enum ActorError {
    /// The connection has been shut down.
    Closed,
    Sqlx(DriverError),
}

/// The short message for a failed request.
pub open spec fn actor_error_text(err: ActorError) -> Seq<char> {
    match err {
        ActorError::Closed => "Connection was closed"@,
        ActorError::Sqlx(e) => friendly_text(e),
    }
}

impl ActorError {
    /// Short, human-readable form for the status bar.
    pub fn friendly(&self) -> (res: String)
        ensures
            res@ == actor_error_text(*self),
    {
        match self {
            ActorError::Closed => "Connection was closed".to_string(),
            ActorError::Sqlx(e) => friendly(e),
        }
    }

    /// Full message for logs and tooltips.
    pub fn message(&self) -> (res: String)
        ensures
            res@ == (match *self {
                ActorError::Closed => "actor has been shut down"@,
                ActorError::Sqlx(e) => e.message@,
            }),
    {
        match self {
            ActorError::Closed => "actor has been shut down".to_string(),
            ActorError::Sqlx(e) => e.message.clone(),
        }
    }
}

/// Failure of a CSV export: a failed request, or a file that could not be
/// written.
#[derive(Debug, Clone, PartialEq, Eq)]
pub enum ExportError {
    Db(ActorError),
    Io(String),
}

/// The short message for a failed export.
pub open spec fn export_error_text(err: ExportError) -> Seq<char> {
    match err {
        ExportError::Db(e) => actor_error_text(e),
        ExportError::Io(s) => s@,
    }
}

impl ExportError {
    /// Short, human-readable form for the status bar.
    pub fn friendly(&self) -> (res: String)
        ensures
            res@ == export_error_text(*self),
    {
        match self {
            ExportError::Db(e) => e.friendly(),
            ExportError::Io(s) => s.clone(),
        }
    }
}

/// A short message keeps the detail of the error at its end, and says before it
/// what kind of error it is.
pub proof fn law_messages_keep_details(err: DriverError)
    ensures
        match err.kind {
            DriverErrorKind::Io(e) => friendly_text(err) == "I/O: "@ + e@,
            DriverErrorKind::Tls(e) => friendly_text(err) == "TLS: "@ + e@,
            DriverErrorKind::Protocol(e) => friendly_text(err) == "Protocol error: "@ + e@,
            DriverErrorKind::Decode(e) => friendly_text(err) == "Decode error: "@ + e@,
            DriverErrorKind::Configuration(e) => friendly_text(err) == "Configuration: "@ + e@,
            DriverErrorKind::ColumnNotFound(c) => friendly_text(err) == "Column not found: "@ + c@,
            DriverErrorKind::ColumnIndexOutOfBounds { index, len } => exists|
                i: Seq<char>,
                n: Seq<char>,
            |
                friendly_text(err) == #[trigger] ("Column index "@ + i + " out of bounds (have "@
                    + n + ")"@) && digits_read(i) == Some(index as nat) && digits_read(n) == Some(
                    len as nat,
                ),
            DriverErrorKind::Other => friendly_text(err) == err.message@,
            DriverErrorKind::PoolTimedOut => has_text(friendly_text(err), "timed out"@),
            DriverErrorKind::PoolClosed => has_text(friendly_text(err), "closed"@),
            DriverErrorKind::RowNotFound => has_text(friendly_text(err), "No row"@),
            DriverErrorKind::Database { code, number, message } => true,
        },
{
    match err.kind {
        DriverErrorKind::ColumnIndexOutOfBounds { index, len } => {
            law_decimal_reads_back(index as nat);
            law_decimal_reads_back(len as nat);
            assert(friendly_text(err) == ("Column index "@ + decimal(index as nat)
                + " out of bounds (have "@ + decimal(len as nat) + ")"@));
        },
        DriverErrorKind::PoolTimedOut => {
            reveal_strlit("Connection pool timed out");
            reveal_strlit("timed out");
            assert("Connection pool timed out"@.subrange(16, 25) =~= "timed out"@);
            assert(occurs_at(friendly_text(err), "timed out"@, 16));
        },
        DriverErrorKind::PoolClosed => {
            reveal_strlit("Connection pool is closed");
            reveal_strlit("closed");
            assert("Connection pool is closed"@.subrange(19, 25) =~= "closed"@);
            assert(occurs_at(friendly_text(err), "closed"@, 19));
        },
        DriverErrorKind::RowNotFound => {
            reveal_strlit("No row returned");
            reveal_strlit("No row");
            assert("No row returned"@.subrange(0, 6) =~= "No row"@);
            assert(occurs_at(friendly_text(err), "No row"@, 0));
        },
        _ => {},
    }
}

/// An error of the server that has no message of its own here is shown with the
/// server's own words, and before them in brackets what code and number it has.
/// One that has is shown by that message, whatever its code.
pub proof fn law_server_errors(
    err: DriverError,
    code: Option<String>,
    number: Option<u16>,
    message: String,
)
    requires
        err.kind == (DriverErrorKind::Database { code, number, message }),
    ensures
        number is None && (code is Some ==> code->0@.len() == 0) ==> friendly_text(err) == message@,
        number is None && code is Some && code->0@.len() > 0 ==> friendly_text(err) == "["@
            + code->0@ + "] "@ + message@,
        number is Some && mysql_message(number->0, message@) is None ==> exists|n: Seq<char>|
            friendly_text(err) == "["@ + (if code is Some {
                code->0@
            } else {
                seq![]
            }) + "/"@ + n + "] "@ + message@ && #[trigger] digits_read(n) == Some(number->0 as nat),
        number is Some && mysql_message(number->0, message@) is Some ==> Some(friendly_text(err))
            == mysql_message(number->0, message@),
{
    if number is Some {
        law_decimal_reads_back(number->0 as nat);
        let n = decimal(number->0 as nat);
        assert(mysql_message(number->0, message@) is None ==> friendly_text(err) == ("["@ + (
        if code is Some {
            code->0@
        } else {
            seq![]
        }) + "/"@ + n + "] "@ + message@));
    }
}

/// Numbers of errors that name what they are about: the short message ends with
/// the server's own words.
pub open spec fn names_its_object(number: u16) -> bool {
    ||| number == 1048
    ||| number == 1049
    ||| number == 1051
    ||| number == 1054
    ||| number == 1062
    ||| number == 1064
    ||| number == 1142
    ||| number == 1146
    ||| number == 1227
    ||| number == 1305
    ||| number == 1364
}

/// Numbers of errors whose short message says it all.
pub open spec fn says_it_all(number: u16) -> bool {
    ||| number == 1044
    ||| number == 1045
    ||| number == 1046
    ||| number == 1130
    ||| number == 1149
    ||| number == 1205
    ||| number == 1213
    ||| number == 1216
    ||| number == 1217
    ||| number == 1451
    ||| number == 1452
    ||| number == 2002
    ||| number == 2003
    ||| number == 2006
    ||| number == 2013
}

/// The errors that have a short message: those whose message ends with the
/// server's own words, so that the object is named, and those whose message is
/// the same whatever the server says.
pub proof fn law_known_errors(number: u16, raw: Seq<char>, other: Seq<char>)
    ensures
        mysql_message(number, raw) is Some <==> names_its_object(number) || says_it_all(number),
        names_its_object(number) ==> ends_with(mysql_message(number, raw)->0, raw),
        names_its_object(number) ==> exists|head: Seq<char>|
            head.len() > 0 && mysql_message(number, raw)->0 == #[trigger] (head + raw)
                && mysql_message(number, other)->0 == head + other,
        says_it_all(number) ==> mysql_message(number, raw) == mysql_message(number, other),
{
    if names_its_object(number) {
        reveal_strlit("Unknown database — ");
        reveal_strlit("Unknown table — ");
        reveal_strlit("Unknown column — ");
        reveal_strlit("Table doesn't exist — ");
        reveal_strlit("Routine doesn't exist — ");
        reveal_strlit("Field has no default value — ");
        reveal_strlit("Duplicate entry — ");
        reveal_strlit("Column cannot be NULL — ");
        reveal_strlit("Syntax error — ");
        reveal_strlit("Command denied (privileges) — ");
        reveal_strlit("Access denied — ");
        let head = mysql_message(number, seq![])->0;
        assert(mysql_message(number, raw)->0 =~= head + raw);
        assert(mysql_message(number, other)->0 =~= head + other);
        assert((head + raw).skip(head.len() as int) =~= raw);
    }
}

proof fn lemma_begins(a: Seq<char>, b: Seq<char>, prefix: Seq<char>)
    requires
        a.len() >= prefix.len(),
        a.take(prefix.len() as int) == prefix,
    ensures
        begins_with(a + b, prefix),
{
    assert((a + b).subrange(0, prefix.len() as int) =~= prefix);
}

/// What the short messages say: what was denied, what is unknown or missing,
/// which constraint failed, what kept the server from answering.
pub proof fn law_what_errors_say(raw: Seq<char>)
    ensures
        begins_with(mysql_message(1044, raw)->0, "Access denied"@),
        begins_with(mysql_message(1045, raw)->0, "Access denied"@),
        begins_with(mysql_message(1227, raw)->0, "Access denied"@),
        begins_with(mysql_message(1142, raw)->0, "Command denied"@),
        begins_with(mysql_message(1049, raw)->0, "Unknown database"@),
        begins_with(mysql_message(1051, raw)->0, "Unknown table"@),
        begins_with(mysql_message(1054, raw)->0, "Unknown column"@),
        begins_with(mysql_message(1146, raw)->0, "Table doesn't exist"@),
        begins_with(mysql_message(1305, raw)->0, "Routine doesn't exist"@),
        begins_with(mysql_message(1062, raw)->0, "Duplicate"@),
        begins_with(mysql_message(1064, raw)->0, "Syntax error"@),
        begins_with(mysql_message(1213, raw)->0, "Deadlock"@),
        begins_with(mysql_message(1205, raw)->0, "Lock wait timeout"@),
        begins_with(mysql_message(1046, raw)->0, "No database selected"@),
        ends_with(mysql_message(1216, raw)->0, "foreign key constraint fails"@),
        ends_with(mysql_message(1451, raw)->0, "foreign key constraint fails"@),
        ends_with(mysql_message(1452, raw)->0, "foreign key constraint fails"@),
        begins_with(mysql_message(1217, raw)->0, "Cannot delete/update parent row"@),
        begins_with(mysql_message(1451, raw)->0, "Cannot delete/update parent row"@),
        begins_with(mysql_message(1452, raw)->0, "Cannot add child row"@),
{
    lemma_denied(raw);
    lemma_unknown(raw);
    lemma_missing(raw);
    lemma_constraints(raw);
}

proof fn lemma_denied(raw: Seq<char>)
    ensures
        begins_with(mysql_message(1044, raw)->0, "Access denied"@),
        begins_with(mysql_message(1045, raw)->0, "Access denied"@),
        begins_with(mysql_message(1227, raw)->0, "Access denied"@),
        begins_with(mysql_message(1142, raw)->0, "Command denied"@),
{
    reveal_strlit("Access denied");
    reveal_strlit("Command denied");
    reveal_strlit("Access denied to that database");
    reveal_strlit("Access denied (check user / password)");
    reveal_strlit("Access denied — ");
    reveal_strlit("Command denied (privileges) — ");
    assert("Access denied to that database"@.subrange(0, 13) =~= "Access denied"@);
    assert("Access denied (check user / password)"@.subrange(0, 13) =~= "Access denied"@);
    assert("Access denied — "@.take(13) =~= "Access denied"@);
    lemma_begins("Access denied — "@, raw, "Access denied"@);
    assert("Command denied (privileges) — "@.take(14) =~= "Command denied"@);
    lemma_begins("Command denied (privileges) — "@, raw, "Command denied"@);
}

proof fn lemma_unknown(raw: Seq<char>)
    ensures
        begins_with(mysql_message(1049, raw)->0, "Unknown database"@),
        begins_with(mysql_message(1051, raw)->0, "Unknown table"@),
        begins_with(mysql_message(1054, raw)->0, "Unknown column"@),
        begins_with(mysql_message(1146, raw)->0, "Table doesn't exist"@),
        begins_with(mysql_message(1305, raw)->0, "Routine doesn't exist"@),
{
    reveal_strlit("Unknown database");
    reveal_strlit("Unknown database — ");
    assert("Unknown database — "@.take(16) =~= "Unknown database"@);
    lemma_begins("Unknown database — "@, raw, "Unknown database"@);
    reveal_strlit("Unknown table");
    reveal_strlit("Unknown table — ");
    assert("Unknown table — "@.take(13) =~= "Unknown table"@);
    lemma_begins("Unknown table — "@, raw, "Unknown table"@);
    reveal_strlit("Unknown column");
    reveal_strlit("Unknown column — ");
    assert("Unknown column — "@.take(14) =~= "Unknown column"@);
    lemma_begins("Unknown column — "@, raw, "Unknown column"@);
    reveal_strlit("Table doesn't exist");
    reveal_strlit("Table doesn't exist — ");
    assert("Table doesn't exist — "@.take(19) =~= "Table doesn't exist"@);
    lemma_begins("Table doesn't exist — "@, raw, "Table doesn't exist"@);
    reveal_strlit("Routine doesn't exist");
    reveal_strlit("Routine doesn't exist — ");
    assert("Routine doesn't exist — "@.take(21) =~= "Routine doesn't exist"@);
    lemma_begins("Routine doesn't exist — "@, raw, "Routine doesn't exist"@);
}

proof fn lemma_missing(raw: Seq<char>)
    ensures
        begins_with(mysql_message(1062, raw)->0, "Duplicate"@),
        begins_with(mysql_message(1064, raw)->0, "Syntax error"@),
        begins_with(mysql_message(1213, raw)->0, "Deadlock"@),
        begins_with(mysql_message(1205, raw)->0, "Lock wait timeout"@),
        begins_with(mysql_message(1046, raw)->0, "No database selected"@),
{
    reveal_strlit("Duplicate");
    reveal_strlit("Duplicate entry — ");
    assert("Duplicate entry — "@.take(9) =~= "Duplicate"@);
    lemma_begins("Duplicate entry — "@, raw, "Duplicate"@);
    reveal_strlit("Syntax error");
    reveal_strlit("Syntax error — ");
    assert("Syntax error — "@.take(12) =~= "Syntax error"@);
    lemma_begins("Syntax error — "@, raw, "Syntax error"@);
    reveal_strlit("Deadlock");
    reveal_strlit("Deadlock detected — transaction was rolled back, retry");
    assert("Deadlock detected — transaction was rolled back, retry"@.subrange(0, 8)
        =~= "Deadlock"@);
    reveal_strlit("Lock wait timeout");
    reveal_strlit("Lock wait timeout exceeded — try again");
    assert("Lock wait timeout exceeded — try again"@.subrange(0, 17) =~= "Lock wait timeout"@);
    reveal_strlit("No database selected");
    reveal_strlit("No database selected (run `USE <db>;` first)");
    assert("No database selected (run `USE <db>;` first)"@.subrange(0, 20)
        =~= "No database selected"@);
}

proof fn lemma_constraints(raw: Seq<char>)
    ensures
        ends_with(mysql_message(1216, raw)->0, "foreign key constraint fails"@),
        ends_with(mysql_message(1451, raw)->0, "foreign key constraint fails"@),
        ends_with(mysql_message(1452, raw)->0, "foreign key constraint fails"@),
        begins_with(mysql_message(1217, raw)->0, "Cannot delete/update parent row"@),
        begins_with(mysql_message(1451, raw)->0, "Cannot delete/update parent row"@),
        begins_with(mysql_message(1452, raw)->0, "Cannot add child row"@),
{
    reveal_strlit("foreign key constraint fails");
    reveal_strlit("Cannot delete/update parent row");
    reveal_strlit("Cannot add child row");
    reveal_strlit("Cannot add or update child row: foreign key constraint fails");
    reveal_strlit("Cannot delete/update parent row: child rows exist");
    reveal_strlit("Cannot delete/update parent row: foreign key constraint fails");
    reveal_strlit("Cannot add child row: foreign key constraint fails");
    assert("Cannot add or update child row: foreign key constraint fails"@.skip(32)
        =~= "foreign key constraint fails"@);
    assert("Cannot delete/update parent row: foreign key constraint fails"@.skip(33)
        =~= "foreign key constraint fails"@);
    assert("Cannot add child row: foreign key constraint fails"@.skip(22)
        =~= "foreign key constraint fails"@);
    assert("Cannot delete/update parent row: child rows exist"@.subrange(0, 31)
        =~= "Cannot delete/update parent row"@);
    assert("Cannot delete/update parent row: foreign key constraint fails"@.subrange(0, 31)
        =~= "Cannot delete/update parent row"@);
    assert("Cannot add child row: foreign key constraint fails"@.subrange(0, 20)
        =~= "Cannot add child row"@);
}

} // verus!
