//! The dialogs "New connection" and "Confirm".

use vstd::prelude::*;

use crate::profile::{ConnectionProfile, ProfileView, TlsMode};
use crate::state::{ConfirmAction, PendingExec, PendingView};
use crate::text::{
    decimal, is_empty, law_decimal_reads_back, opt_text, text_eq, to_chars, trim, trimmed,
};

verus! {

/// What a test of a connection came to.
#[derive(Debug, Clone)]
pub enum TestOutcome {
    Pending,
    Passed(String),
    Failed(String),
}

/// What the user has filled in for a new connection.
#[derive(Debug, Clone)]
pub struct NewConnectionDialog {
    pub name: String,
    pub host: String,
    pub port: String,
    pub user: String,
    pub password: String,
    pub database: String,
    pub socket: String,
    pub tls: TlsMode,
    pub last_test: Option<TestOutcome>,
}

impl Default for NewConnectionDialog {
    /// The form for a local server.
    fn default() -> (res: NewConnectionDialog)
        ensures
            res.name@ == "local"@,
            res.host@ == "127.0.0.1"@,
            res.port@ == "3306"@,
            res.user@ == "root"@,
            res.password@.len() == 0,
            res.database@.len() == 0,
            res.socket@.len() == 0,
            res.tls == TlsMode::Disabled,
            res.last_test is None,
    {
        let d = ConnectionProfile::default();
        NewConnectionDialog {
            name: d.name,
            host: d.host,
            port: "3306".to_string(),
            user: d.user,
            password: String::new(),
            database: String::new(),
            socket: String::new(),
            tls: d.tls,
            last_test: None,
        }
    }
}

/// A decimal digit.
pub open spec fn ascii_digit(c: char) -> bool {
    '0' <= c <= '9'
}

/// Every character is a decimal digit.
pub open spec fn all_digits(s: Seq<char>) -> bool {
    forall|i: int| 0 <= i < s.len() ==> ascii_digit(#[trigger] s[i])
}

/// The number that decimal digits stand for.
pub open spec fn digits_value(s: Seq<char>) -> nat
    decreases s.len(),
{
    if s.len() == 0 {
        0
    } else {
        digits_value(s.drop_last()) * 10 + (s.last() as nat - '0' as nat) as nat
    }
}

/// `s` without a leading plus sign.
pub open spec fn unsigned_part(s: Seq<char>) -> Seq<char> {
    if s.len() > 0 && s[0] == '+' {
        s.skip(1)
    } else {
        s
    }
}

/// The port that a text stands for: decimal digits, with or without a plus
/// sign, for a number from 1 to 65535.
pub open spec fn port_of(s: Seq<char>) -> Option<u16> {
    let digits = unsigned_part(s);
    if digits.len() == 0 || !all_digits(digits) || !(1 <= digits_value(digits) <= 65535) {
        None
    } else {
        Some(digits_value(digits) as u16)
    }
}

/// More digits do not make a number smaller.
proof fn lemma_digits_grow(s: Seq<char>, n: int)
    requires
        0 <= n <= s.len(),
    ensures
        digits_value(s.take(n)) <= digits_value(s),
    decreases s.len() - n,
{
    if n < s.len() {
        assert(s.take(n + 1).drop_last() =~= s.take(n));
        lemma_digits_grow(s, n + 1);
    } else {
        assert(s.take(n) =~= s);
    }
}

fn parse_port(s: &str) -> (res: Option<u16>)
    ensures
        res == port_of(s@),
{
    let chars = to_chars(s);
    let start: usize = if chars.len() > 0 && chars[0] == '+' {
        1
    } else {
        0
    };
    let ghost digits = unsigned_part(s@);
    assert(digits =~= chars@.skip(start as int));
    if chars.len() == start {
        return None;
    }
    let mut value: u32 = 0;
    let mut i: usize = start;
    assert(digits.take(0) =~= Seq::<char>::empty());
    while i < chars.len()
        invariant
            start <= i <= chars@.len(),
            digits == chars@.skip(start as int),
            digits == unsigned_part(s@),
            value == digits_value(digits.take(i - start)),
            value <= 65535,
            all_digits(digits.take(i - start)),
        decreases chars@.len() - i,
    {
        let c = chars[i];
        proof {
            assert(digits[i - start] == c);
            assert(digits.take(i - start + 1).drop_last() =~= digits.take(i - start));
        }
        if c < '0' || c > '9' {
            assert(!ascii_digit(digits[i - start]));
            return None;
        }
        value = value * 10 + (c as u32 - '0' as u32);
        i = i + 1;
        if value > 65535 {
            proof {
                lemma_digits_grow(digits, i - start);
            }
            return None;
        }
        assert(all_digits(digits.take(i - start))) by {
            assert forall|k: int| 0 <= k < i - start implies ascii_digit(
                #[trigger] digits.take(i - start)[k],
            ) by {
                if k < i - start - 1 {
                    assert(ascii_digit(digits.take(i - start - 1)[k]));
                }
            }
        }
    }
    assert(digits.take(i - start) =~= digits);
    if value == 0 {
        return None;
    }
    Some(value as u16)
}

/// A text without white space around it; `None` where nothing is left.
pub open spec fn optional_text(s: Seq<char>) -> Option<Seq<char>> {
    if trimmed(s).len() == 0 {
        None
    } else {
        Some(trimmed(s))
    }
}

fn opt_str(s: &str) -> (res: Option<String>)
    ensures
        opt_text(res) == optional_text(s@),
{
    let s = trim(s);
    if is_empty(s.as_str()) {
        None
    } else {
        Some(s)
    }
}

/// What keeps a form from being a profile.
pub open spec fn form_fault(d: NewConnectionDialog) -> Option<Seq<char>> {
    if port_of(d.port@) is None {
        Some("Port must be 1..=65535"@)
    } else if trimmed(d.name@).len() == 0 {
        Some("Name is required"@)
    } else if trimmed(d.host@).len() == 0 {
        Some("Host is required"@)
    } else if trimmed(d.user@).len() == 0 {
        Some("User is required"@)
    } else {
        None
    }
}

/// The profile of a form.
pub open spec fn form_profile(d: NewConnectionDialog) -> ProfileView {
    ProfileView {
        name: trimmed(d.name@),
        host: trimmed(d.host@),
        port: port_of(d.port@)->0,
        user: trimmed(d.user@),
        database: optional_text(d.database@),
        socket: optional_text(d.socket@),
        tls: d.tls,
    }
}

impl NewConnectionDialog {
    /// The profile that the form describes, or what is wrong with it.
    pub fn to_profile(&self) -> (res: Result<ConnectionProfile, String>)
        ensures
            match form_fault(*self) {
                Some(fault) => res matches Err(m) && m@ == fault,
                None => res matches Ok(p) && p@ == form_profile(*self),
            },
    {
        let port: u16 = match parse_port(self.port.as_str()) {
            Some(port) => port,
            None => {
                return Err("Port must be 1..=65535".to_string());
            },
        };
        let name = trim(self.name.as_str());
        if is_empty(name.as_str()) {
            return Err("Name is required".to_string());
        }
        let host = trim(self.host.as_str());
        if is_empty(host.as_str()) {
            return Err("Host is required".to_string());
        }
        let user = trim(self.user.as_str());
        if is_empty(user.as_str()) {
            return Err("User is required".to_string());
        }
        let profile = ConnectionProfile {
            name,
            host,
            port,
            user,
            database: opt_str(self.database.as_str()),
            socket: opt_str(self.socket.as_str()),
            tls: self.tls,
        };
        assert(profile@ =~= form_profile(*self));
        Ok(profile)
    }

    /// Whether a test of the connection is under way.
    pub fn testing(&self) -> (res: bool)
        ensures
            res == (self.last_test == Some(TestOutcome::Pending)),
    {
        match &self.last_test {
            Some(TestOutcome::Pending) => true,
            _ => false,
        }
    }
}

/// What the user wants the dialog to do.
#[derive(Debug, Clone, Copy, PartialEq, Eq, Structural)]
pub enum DialogAction {
    Nothing,
    Test,
    Save,
    Cancel,
}

/// What the user wants, given the buttons that were clicked and whether a test
/// is under way. Cancelling wins over saving, and saving over testing.
pub fn dialog_action(test: bool, save: bool, cancel: bool, testing: bool) -> (res: DialogAction)
    ensures
        res == (if cancel {
            DialogAction::Cancel
        } else if save {
            DialogAction::Save
        } else if test && !testing {
            DialogAction::Test
        } else {
            DialogAction::Nothing
        }),
{
    if cancel {
        DialogAction::Cancel
    } else if save {
        DialogAction::Save
    } else if test && !testing {
        DialogAction::Test
    } else {
        DialogAction::Nothing
    }
}

/// What the user makes of a statement that waits for confirmation.
#[derive(Debug, Clone, Copy, PartialEq, Eq, Structural)]
pub enum ConfirmChoice {
    Nothing,
    Confirm,
    Cancel,
}

/// The name that the user has to type to confirm; `None` where no typing is
/// asked for.
pub open spec fn target_of(kind: PendingView) -> Option<Seq<char>> {
    match kind {
        PendingView::DropObject { db: _, name } => Some(name),
        PendingView::Truncate { db: _, name } => Some(name),
        PendingView::DropDatabase { db } => Some(db),
        PendingView::EditCell { tab_id: _, row: _, col: _, new_value: _ } => None,
        PendingView::ReplaceSource { key: _ } => None,
        PendingView::InsertRow { tab_id: _ } => None,
    }
}

/// The name that the user has to type to confirm; `None` where no typing is
/// asked for: cell edits and inserted rows destroy nothing, and a replaced
/// source is in full view.
pub fn confirm_target(action: &ConfirmAction) -> (res: Option<String>)
    ensures
        opt_text(res) == target_of(action.kind@),
{
    match &action.kind {
        PendingExec::DropObject { db: _, name } => Some(name.clone()),
        PendingExec::Truncate { db: _, name } => Some(name.clone()),
        PendingExec::DropDatabase { db } => Some(db.clone()),
        PendingExec::EditCell(_) => None,
        PendingExec::ReplaceSource { key: _ } => None,
        PendingExec::InsertRow { tab_id: _ } => None,
    }
}

/// What the name belongs to.
pub open spec fn target_label(kind: PendingExec) -> Seq<char> {
    match kind {
        PendingExec::DropObject { db: _, name: _ } => "object"@,
        PendingExec::Truncate { db: _, name: _ } => "table"@,
        PendingExec::DropDatabase { db: _ } => "database"@,
        PendingExec::EditCell(_) => "cell"@,
        PendingExec::ReplaceSource { key: _ } => "routine"@,
        PendingExec::InsertRow { tab_id: _ } => "row"@,
    }
}

/// What the name belongs to.
pub fn confirm_target_label(action: &ConfirmAction) -> (res: &'static str)
    ensures
        res@ == target_label(action.kind),
{
    match &action.kind {
        PendingExec::DropObject { db: _, name: _ } => "object",
        PendingExec::Truncate { db: _, name: _ } => "table",
        PendingExec::DropDatabase { db: _ } => "database",
        PendingExec::EditCell(_) => "cell",
        PendingExec::ReplaceSource { key: _ } => "routine",
        PendingExec::InsertRow { tab_id: _ } => "row",
    }
}

/// The line that asks for the name.
pub fn confirm_prompt(action: &ConfirmAction) -> (res: String)
    ensures
        res@ == "Type the "@ + target_label(action.kind) + " name to confirm:"@,
{
    let mut out = "Type the ".to_string();
    out.append(confirm_target_label(action));
    out.append(" name to confirm:");
    out
}

/// Whether what was typed lets the user confirm.
pub open spec fn may_confirm(kind: PendingView, typed: Seq<char>) -> bool {
    match target_of(kind) {
        Some(target) => trimmed(typed) == target,
        None => true,
    }
}

/// Whether what was typed lets the user confirm.
pub fn confirm_enabled(action: &ConfirmAction, typed: &str) -> (res: bool)
    ensures
        res == may_confirm(action.kind@, typed@),
{
    match confirm_target(action) {
        Some(target) => text_eq(trim(typed).as_str(), target.as_str()),
        None => true,
    }
}

/// What the user wants, given the buttons that were clicked and what was typed.
pub open spec fn choice_for(
    kind: PendingView,
    typed: Seq<char>,
    confirm: bool,
    cancel: bool,
) -> ConfirmChoice {
    if confirm && may_confirm(kind, typed) {
        ConfirmChoice::Confirm
    } else if cancel {
        ConfirmChoice::Cancel
    } else {
        ConfirmChoice::Nothing
    }
}

/// What the user wants, given the buttons that were clicked and what was typed.
/// Confirming, where it is possible, wins over cancelling.
pub fn confirm_choice(action: &ConfirmAction, typed: &str, confirm: bool, cancel: bool) -> (res:
    ConfirmChoice)
    ensures
        res == choice_for(action.kind@, typed@, confirm, cancel),
{
    if confirm && confirm_enabled(action, typed) {
        ConfirmChoice::Confirm
    } else if cancel {
        ConfirmChoice::Cancel
    } else {
        ConfirmChoice::Nothing
    }
}

/// A number in decimal notation, with or without a plus sign, is a port where it
/// is from 1 to 65535, and no port otherwise.
pub proof fn law_port_numbers(n: nat)
    ensures
        1 <= n <= 65535 ==> port_of(decimal(n)) == Some(n as u16),
        1 <= n <= 65535 ==> port_of(seq!['+'] + decimal(n)) == Some(n as u16),
        !(1 <= n <= 65535) ==> port_of(decimal(n)) is None,
{
    law_decimal_reads_back(n);
    lemma_decimal_value(n);
    assert('0' <= decimal(n)[0] <= '9');
    assert((seq!['+'] + decimal(n)).skip(1) =~= decimal(n));
}

proof fn lemma_decimal_value(n: nat)
    ensures
        digits_value(decimal(n)) == n,
        all_digits(decimal(n)),
    decreases n,
{
    reveal_with_fuel(digits_value, 2);
    law_decimal_reads_back(n);
    if n >= 10 {
        lemma_decimal_value(n / 10);
        assert(decimal(n).drop_last() =~= decimal(n / 10));
    } else {
        assert(decimal(n).drop_last() =~= Seq::<char>::empty());
    }
}

/// A text with anything but digits after an optional plus sign is no port.
pub proof fn law_port_is_digits(s: Seq<char>, i: int)
    requires
        0 <= i < s.len(),
        !('0' <= s[i] <= '9'),
        i == 0 ==> s[0] != '+',
    ensures
        port_of(s) is None,
{
    let digits = unsigned_part(s);
    if s[0] == '+' {
        assert(digits[i - 1] == s[i]);
        assert(!ascii_digit(digits[i - 1]));
    } else {
        assert(!ascii_digit(digits[i]));
    }
}

/// White space around the fields of a form makes no difference, and a form is
/// accepted where its port is one and its name, host and user are not blank.
pub proof fn law_forms(a: NewConnectionDialog, b: NewConnectionDialog)
    requires
        trimmed(a.name@) == trimmed(b.name@),
        trimmed(a.host@) == trimmed(b.host@),
        trimmed(a.user@) == trimmed(b.user@),
        trimmed(a.database@) == trimmed(b.database@),
        trimmed(a.socket@) == trimmed(b.socket@),
        a.port@ == b.port@,
        a.tls == b.tls,
    ensures
        form_fault(a) == form_fault(b),
        form_fault(a) is None ==> form_profile(a) == form_profile(b),
        form_fault(a) is None <==> port_of(a.port@) is Some && trimmed(a.name@).len() > 0
            && trimmed(a.host@).len() > 0 && trimmed(a.user@).len() > 0,
        form_profile(a).name == trimmed(a.name@),
        form_profile(a).host == trimmed(a.host@),
        form_profile(a).user == trimmed(a.user@),
        form_profile(a).tls == a.tls,
        port_of(a.port@) is Some ==> Some(form_profile(a).port) == port_of(a.port@),
        form_profile(a).database is None <==> trimmed(a.database@).len() == 0,
        form_profile(a).socket is None <==> trimmed(a.socket@).len() == 0,
        form_profile(a).database matches Some(d) ==> d == trimmed(a.database@),
        form_profile(a).socket matches Some(d) ==> d == trimmed(a.socket@),
{
}

} // verus!
