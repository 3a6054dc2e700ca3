//! What the application knows of its connections, and how events and clicks
//! change it.

use vstd::prelude::*;

use crate::connect::ServerInfo;
use crate::dialog::{form_fault, form_profile, DialogAction, NewConnectionDialog, TestOutcome};
use crate::elapsed::{shown_duration, Elapsed};
use crate::profile::{core_message, profile_views, ConnectionProfile, CoreError, ProfileView, TlsMode};
use crate::state::{ActiveConnection, SchemaState};
use crate::text::{begins_with, ends_with, opt_text, text_eq, texts};

verus! {

/// The profiles, the open dialog, the profiles that are being tested or
/// connected to, the open connection, and the last failure.
#[derive(Debug)]
pub struct Session {
    pub profiles: Vec<ConnectionProfile>,
    pub dialog: Option<NewConnectionDialog>,
    pub in_flight: Vec<String>,
    pub active: Option<ActiveConnection>,
    pub last_error: Option<String>,
}

/// Name and server version of an open connection.
pub open spec fn active_names(active: Option<ActiveConnection>) -> Option<(Seq<char>, Seq<char>)> {
    match active {
        Some(a) => Some((a.profile_name@, a.info.version@)),
        None => None,
    }
}

/// What came of work that was under way.
#[derive(Debug)]
pub enum SessionEvent {
    TestResult { profile: String, result: Result<Elapsed, String> },
    Connected { profile: String, info: ServerInfo },
    ConnectFailed { profile: String, error: String },
}

impl SessionEvent {
    /// Spans of time are normalised.
    pub open spec fn wf(self) -> bool {
        match self {
            SessionEvent::TestResult { profile: _, result: Ok(elapsed) } => elapsed.wf(),
            _ => true,
        }
    }

    /// The profile that the event is about.
    pub open spec fn about(self) -> Seq<char> {
        match self {
            SessionEvent::TestResult { profile, result: _ } => profile@,
            SessionEvent::Connected { profile, info: _ } => profile@,
            SessionEvent::ConnectFailed { profile, error: _ } => profile@,
        }
    }
}

/// Whether a name is in a list.
fn has_name(names: &Vec<String>, name: &str) -> (res: bool)
    ensures
        res == texts(names@).contains(name@),
{
    let mut i: usize = 0;
    while i < names.len()
        invariant
            i <= names@.len(),
            forall|k: int| 0 <= k < i ==> #[trigger] texts(names@)[k] != name@,
        decreases names@.len() - i,
    {
        if text_eq(names[i].as_str(), name) {
            assert(texts(names@)[i as int] == name@);
            return true;
        }
        assert(texts(names@)[i as int] != name@);
        i = i + 1;
    }
    false
}

fn insert_name(names: &mut Vec<String>, name: &str)
    ensures
        texts(final(names)@).to_set() == texts(old(names)@).to_set().insert(name@),
{
    let ghost before = texts(names@);
    if !has_name(names, name) {
        names.push(name.to_string());
        assert(texts(names@) =~= before.push(name@));
        assert forall|n: Seq<char>| #[trigger] texts(names@).contains(n) <==> before.contains(n) || n
            == name@ by {
            if before.contains(n) {
                let k = before.index_of(n);
                assert(texts(names@)[k] == n);
            }
            if n == name@ {
                assert(texts(names@)[before.len() as int] == n);
            }
        }
    }
    assert(texts(names@).to_set() =~= before.to_set().insert(name@));
}

fn remove_name(names: &mut Vec<String>, name: &str)
    ensures
        texts(final(names)@).to_set() == texts(old(names)@).to_set().remove(name@),
{
    let ghost before = texts(names@);
    let mut kept: Vec<String> = Vec::new();
    let mut i: usize = 0;
    while i < names.len()
        invariant
            i <= names@.len(),
            texts(names@) == before,
            forall|k: int|
                0 <= k < kept@.len() ==> before.contains(#[trigger] texts(kept@)[k]) && texts(
                    kept@,
                )[k] != name@,
            forall|k: int|
                0 <= k < i && #[trigger] before[k] != name@ ==> texts(kept@).contains(before[k]),
        decreases names@.len() - i,
    {
        if !text_eq(names[i].as_str(), name) {
            let ghost old_kept = texts(kept@);
            kept.push(names[i].clone());
            proof {
                assert(texts(kept@) =~= old_kept.push(before[i as int]));
                assert(texts(kept@)[old_kept.len() as int] == before[i as int]);
                assert forall|k: int| 0 <= k < i + 1 && #[trigger] before[k] != name@ implies texts(
                    kept@,
                ).contains(before[k]) by {
                    if k < i {
                        let m = old_kept.index_of(before[k]);
                        assert(texts(kept@)[m] == before[k]);
                    }
                }
                assert forall|k: int| 0 <= k < kept@.len() implies before.contains(
                    #[trigger] texts(kept@)[k],
                ) && texts(kept@)[k] != name@ by {
                    if k < old_kept.len() {
                        assert(texts(kept@)[k] == old_kept[k]);
                    }
                }
            }
        }
        i = i + 1;
    }
    proof {
        assert forall|n: Seq<char>| #[trigger] texts(kept@).contains(n) <==> before.contains(n) && n
            != name@ by {
            if texts(kept@).contains(n) {
                let k = texts(kept@).index_of(n);
                assert(texts(kept@)[k] == n);
            }
            if before.contains(n) && n != name@ {
                let k = before.index_of(n);
                assert(before[k] == n);
            }
        }
        assert(texts(kept@).to_set() =~= before.to_set().remove(name@));
    }
    *names = kept;
}

/// Place of the first profile of that name, from `i` on.
pub open spec fn named_from(profiles: Seq<ProfileView>, name: Seq<char>, i: int) -> Option<int>
    decreases profiles.len() - i,
{
    if i < 0 || i >= profiles.len() {
        None
    } else if profiles[i].name == name {
        Some(i)
    } else {
        named_from(profiles, name, i + 1)
    }
}

/// The first profile of that name.
pub open spec fn named(profiles: Seq<ProfileView>, name: Seq<char>) -> Option<ProfileView> {
    match named_from(profiles, name, 0) {
        Some(i) => Some(profiles[i]),
        None => None,
    }
}

/// The profiles once one is saved: in the place of the one of the same name, or
/// at the end.
pub open spec fn upserted(profiles: Seq<ProfileView>, p: ProfileView) -> Seq<ProfileView> {
    match named_from(profiles, p.name, 0) {
        Some(i) => profiles.update(i, p),
        None => profiles.push(p),
    }
}

/// The profiles without the first one of that name.
pub open spec fn without_named(profiles: Seq<ProfileView>, name: Seq<char>) -> Seq<ProfileView> {
    match named_from(profiles, name, 0) {
        Some(i) => profiles.remove(i),
        None => profiles,
    }
}

/// No two profiles have the same name.
pub open spec fn unique_names(profiles: Seq<ProfileView>) -> bool {
    forall|i: int, j: int|
        0 <= i < j < profiles.len() ==> (#[trigger] profiles[i]).name != (
        #[trigger] profiles[j]).name
}

proof fn lemma_named_from(profiles: Seq<ProfileView>, name: Seq<char>, i: int)
    requires
        0 <= i,
    ensures
        match named_from(profiles, name, i) {
            Some(k) => i <= k < profiles.len() && profiles[k].name == name && forall|m: int|
                i <= m < k ==> (#[trigger] profiles[m]).name != name,
            None => forall|m: int| i <= m < profiles.len() ==> (#[trigger] profiles[m]).name != name,
        },
    decreases profiles.len() - i,
{
    if i < profiles.len() && profiles[i].name != name {
        lemma_named_from(profiles, name, i + 1);
    }
}

proof fn lemma_named_at(profiles: Seq<ProfileView>, name: Seq<char>, i: int, k: int)
    requires
        0 <= i <= k < profiles.len(),
        profiles[k].name == name,
        forall|m: int| i <= m < k ==> (#[trigger] profiles[m]).name != name,
    ensures
        named_from(profiles, name, i) == Some(k),
    decreases k - i,
{
    if i < k {
        assert(profiles[i].name != name);
        lemma_named_at(profiles, name, i + 1, k);
    }
}

/// A saved profile is found by its name, the other profiles stay as they were,
/// and names stay unique.
pub proof fn law_saved_profile_is_found(profiles: Seq<ProfileView>, p: ProfileView)
    ensures
        named(upserted(profiles, p), p.name) == Some(p),
        forall|name: Seq<char>|
            name != p.name ==> #[trigger] named(upserted(profiles, p), name) == named(
                profiles,
                name,
            ),
        unique_names(profiles) ==> unique_names(upserted(profiles, p)),
{
    let after = upserted(profiles, p);
    lemma_named_from(profiles, p.name, 0);
    match named_from(profiles, p.name, 0) {
        Some(i) => lemma_named_at(after, p.name, 0, i),
        None => lemma_named_at(after, p.name, 0, profiles.len() as int),
    }
    assert forall|name: Seq<char>| name != p.name implies #[trigger] named(after, name) == named(
        profiles,
        name,
    ) by {
        lemma_named_from(profiles, name, 0);
        lemma_named_from(after, name, 0);
        match named_from(profiles, name, 0) {
            Some(k) => {
                assert forall|m: int| 0 <= m < k implies (#[trigger] after[m]).name != name by {
                    assert(profiles[m].name != name);
                }
                lemma_named_at(after, name, 0, k);
            },
            None => {
                if let Some(k) = named_from(after, name, 0) {
                    if k < profiles.len() {
                        assert(profiles[k].name != name);
                    }
                }
            },
        }
    }
}

/// A deleted profile is not found any more, where names are unique; the other
/// profiles stay as they were.
pub proof fn law_deleted_profile_is_gone(profiles: Seq<ProfileView>, name: Seq<char>)
    requires
        unique_names(profiles),
    ensures
        named(without_named(profiles, name), name) is None,
        forall|other: Seq<char>|
            other != name ==> #[trigger] named(without_named(profiles, name), other) == named(
                profiles,
                other,
            ),
        unique_names(without_named(profiles, name)),
{
    let after = without_named(profiles, name);
    lemma_named_from(profiles, name, 0);
    lemma_named_from(after, name, 0);
    if let Some(i) = named_from(profiles, name, 0) {
        if let Some(k) = named_from(after, name, 0) {
            if k < i {
                assert(profiles[k].name == name);
            } else {
                assert(profiles[k + 1].name == name);
                assert(profiles[i].name != profiles[k + 1].name);
            }
        }
        assert forall|other: Seq<char>| other != name implies #[trigger] named(after, other)
            == named(profiles, other) by {
            lemma_named_from(profiles, other, 0);
            lemma_named_from(after, other, 0);
            match named_from(profiles, other, 0) {
                Some(k) => {
                    let m = if k < i {
                        k
                    } else {
                        k - 1
                    };
                    assert(after[m] == profiles[k]);
                    assert forall|j: int| 0 <= j < m implies (#[trigger] after[j]).name != other by {
                        if j < i {
                            assert(profiles[j].name != other);
                        } else {
                            assert(profiles[j + 1].name != other);
                        }
                    }
                    lemma_named_at(after, other, 0, m);
                },
                None => {
                    if let Some(k) = named_from(after, other, 0) {
                        if k < i {
                            assert(profiles[k].name != other);
                        } else {
                            assert(profiles[k + 1].name != other);
                        }
                    }
                },
            }
        }
    }
}

fn find_named(profiles: &Vec<ConnectionProfile>, name: &str) -> (res: Option<usize>)
    ensures
        match res {
            Some(i) => named_from(profile_views(profiles@), name@, 0) == Some(i as int) && i
                < profiles@.len(),
            None => named_from(profile_views(profiles@), name@, 0) is None,
        },
{
    let mut i: usize = 0;
    while i < profiles.len()
        invariant
            i <= profiles@.len(),
            named_from(profile_views(profiles@), name@, i as int) == named_from(
                profile_views(profiles@),
                name@,
                0,
            ),
        decreases profiles@.len() - i,
    {
        if text_eq(profiles[i].name.as_str(), name) {
            return Some(i);
        }
        i = i + 1;
    }
    None
}

/// What the dialog has to have done.
#[derive(Debug)]
pub enum DialogEffect {
    Nothing,
    /// Test a connection.
    RunTest { profile: ConnectionProfile, password: String },
    /// Keep the password of a profile, and save the profile.
    Save { profile: ConnectionProfile, password: String },
}

/// The message of a failed test.
pub open spec fn test_message(result: Result<Elapsed, String>) -> Seq<char> {
    match result {
        Ok(elapsed) => "Connected in "@ + shown_duration(elapsed.secs, elapsed.nanos),
        Err(e) => "Failed: "@ + e@,
    }
}

/// What a test came to, for the dialog.
pub fn test_outcome(result: Result<Elapsed, String>) -> (res: TestOutcome)
    requires
        result matches Ok(elapsed) ==> elapsed.wf(),
    ensures
        match result {
            Ok(_) => res matches TestOutcome::Passed(m) && m@ == test_message(result),
            Err(_) => res matches TestOutcome::Failed(m) && m@ == test_message(result),
        },
{
    match result {
        Ok(elapsed) => {
            let mut out = "Connected in ".to_string();
            out.append(elapsed.text().as_str());
            TestOutcome::Passed(out)
        },
        Err(e) => {
            let mut out = "Failed: ".to_string();
            out.append(e.as_str());
            TestOutcome::Failed(out)
        },
    }
}

fn labelled(label: &str, e: &CoreError) -> (res: String)
    ensures
        res@ == label@ + core_message(*e),
{
    let mut out = label.to_string();
    out.append(e.message().as_str());
    out
}

/// `d` with another outcome of the last test.
pub open spec fn with_outcome(d: NewConnectionDialog, last_test: Option<TestOutcome>) -> NewConnectionDialog {
    NewConnectionDialog { last_test, ..d }
}

impl Session {
    /// What the profiles hold.
    pub open spec fn profile_list(self) -> Seq<ProfileView> {
        profile_views(self.profiles@)
    }

    /// The names of the profiles that are being tested or connected to.
    pub open spec fn busy(self) -> Set<Seq<char>> {
        texts(self.in_flight@).to_set()
    }

    /// A session with these profiles, and nothing else.
    pub fn new(profiles: Vec<ConnectionProfile>) -> (res: Session)
        ensures
            res.profiles == profiles,
            res.dialog is None,
            res.busy() == Set::<Seq<char>>::empty(),
            res.active is None,
            res.last_error is None,
    {
        let res = Session {
            profiles,
            dialog: None,
            in_flight: Vec::new(),
            active: None,
            last_error: None,
        };
        assert(res.busy() =~= Set::<Seq<char>>::empty());
        res
    }

    /// Whether a profile is being tested or connected to.
    pub fn is_busy(&self, name: &str) -> (res: bool)
        ensures
            res == self.busy().contains(name@),
    {
        has_name(&self.in_flight, name)
    }

    /// Whether the open connection is that of a profile.
    pub fn is_active(&self, name: &str) -> (res: bool)
        ensures
            res == (self.active is Some && self.active->0.profile_name@ == name@),
    {
        match &self.active {
            Some(a) => text_eq(a.profile_name.as_str(), name),
            None => false,
        }
    }

    /// Take in what came of work that was under way. Returns whether a
    /// connection was open that has to be shut down, since another has taken its
    /// place.
    pub fn handle_event(&mut self, event: SessionEvent) -> (res: bool)
        requires
            event.wf(),
        ensures
            final(self).profiles == old(self).profiles,
            final(self).busy() == old(self).busy().remove(event.about()),
            match event {
                SessionEvent::TestResult { profile: _, result } => {
                    &&& !res
                    &&& final(self).active == old(self).active
                    &&& final(self).last_error == old(self).last_error
                    &&& match old(self).dialog {
                        Some(d) => final(self).dialog == Some(
                            with_outcome(d, final(self).dialog->0.last_test),
                        ) && match (result, final(self).dialog->0.last_test) {
                            (Ok(_), Some(TestOutcome::Passed(m))) => m@ == test_message(result),
                            (Err(_), Some(TestOutcome::Failed(m))) => m@ == test_message(result),
                            _ => false,
                        },
                        None => final(self).dialog is None,
                    }
                },
                SessionEvent::Connected { profile, info } => {
                    &&& res == old(self).active is Some
                    &&& final(self).active matches Some(a)
                    &&& a.profile_name == profile
                    &&& a.info == info
                    &&& a.schema.databases is NotLoaded
                    &&& a.schema.objects@.len() == 0
                    &&& final(self).last_error is None
                    &&& final(self).dialog == old(self).dialog
                },
                SessionEvent::ConnectFailed { profile, error } => {
                    &&& !res
                    &&& final(self).active == old(self).active
                    &&& final(self).last_error matches Some(m)
                    &&& m@ == profile@ + ": "@ + error@
                    &&& final(self).dialog == old(self).dialog
                },
            },
    {
        match event {
            SessionEvent::TestResult { profile, result } => {
                remove_name(&mut self.in_flight, profile.as_str());
                let outcome = test_outcome(result);
                match self.dialog.take() {
                    Some(mut d) => {
                        d.last_test = Some(outcome);
                        self.dialog = Some(d);
                    },
                    None => {},
                }
                false
            },
            SessionEvent::Connected { profile, info } => {
                remove_name(&mut self.in_flight, profile.as_str());
                let replaced = self.active.is_some();
                self.active = Some(
                    ActiveConnection { profile_name: profile, info, schema: SchemaState::default() },
                );
                self.last_error = None;
                replaced
            },
            SessionEvent::ConnectFailed { profile, error } => {
                remove_name(&mut self.in_flight, profile.as_str());
                let mut message = profile;
                message.append(": ");
                message.append(error.as_str());
                self.last_error = Some(message);
                false
            },
        }
    }

    /// Open the dialog with the form for a local server.
    pub fn open_new_dialog(&mut self)
        ensures
            final(self).dialog matches Some(d) && d.name@ == "local"@ && d.host@ == "127.0.0.1"@
                && d.port@ == "3306"@ && d.user@ == "root"@ && d.password@.len() == 0
                && d.database@.len() == 0 && d.socket@.len() == 0 && d.tls == TlsMode::Disabled
                && d.last_test is None,
            final(self).profiles == old(self).profiles,
            final(self).in_flight == old(self).in_flight,
            final(self).active == old(self).active,
            final(self).last_error == old(self).last_error,
    {
        self.dialog = Some(NewConnectionDialog::default());
    }

    /// Do what the user wants the dialog to do, and return what else has to be
    /// done. Without a dialog there is nothing to do. A form that is no profile
    /// is not tested, and the dialog says why; nor is it saved, and the status bar
    /// says why.
    pub fn dialog_action(&mut self, action: DialogAction) -> (res: DialogEffect)
        ensures
            final(self).profiles == old(self).profiles,
            final(self).active == old(self).active,
            old(self).dialog is None || action == DialogAction::Nothing ==> res is Nothing
                && *final(self) == *old(self),
            old(self).dialog is Some ==> {
                let d = old(self).dialog->0;
                match action {
                    DialogAction::Nothing => true,
                    DialogAction::Cancel => res is Nothing && final(self).dialog is None
                        && final(self).in_flight == old(self).in_flight && final(self).last_error
                        == old(self).last_error,
                    DialogAction::Test => {
                        &&& final(self).last_error == old(self).last_error
                        &&& final(self).dialog matches Some(after)
                        &&& after == with_outcome(d, after.last_test)
                        &&& match form_fault(d) {
                            Some(fault) => {
                                &&& res is Nothing
                                &&& final(self).in_flight == old(self).in_flight
                                &&& after.last_test matches Some(TestOutcome::Failed(m))
                                &&& m@ == fault
                            },
                            None => {
                                &&& res matches DialogEffect::RunTest { profile, password }
                                &&& profile@ == form_profile(d)
                                &&& password@ == d.password@
                                &&& final(self).busy() == old(self).busy().insert(profile@.name)
                                &&& after.last_test == Some(TestOutcome::Pending)
                            },
                        }
                    },
                    DialogAction::Save => {
                        &&& final(self).dialog == old(self).dialog
                        &&& final(self).in_flight == old(self).in_flight
                        &&& match form_fault(d) {
                            Some(fault) => {
                                &&& res is Nothing
                                &&& final(self).last_error matches Some(m)
                                &&& m@ == fault
                            },
                            None => {
                                &&& res matches DialogEffect::Save { profile, password }
                                &&& profile@ == form_profile(d)
                                &&& password@ == d.password@
                                &&& final(self).last_error == old(self).last_error
                            },
                        }
                    },
                }
            },
    {
        match action {
            DialogAction::Nothing => DialogEffect::Nothing,
            DialogAction::Cancel => {
                self.dialog = None;
                DialogEffect::Nothing
            },
            DialogAction::Test => match self.dialog.take() {
                Some(mut d) => {
                    let effect = match d.to_profile() {
                        Ok(profile) => {
                            let password = d.password.clone();
                            insert_name(&mut self.in_flight, profile.name.as_str());
                            d.last_test = Some(TestOutcome::Pending);
                            DialogEffect::RunTest { profile, password }
                        },
                        Err(m) => {
                            d.last_test = Some(TestOutcome::Failed(m));
                            DialogEffect::Nothing
                        },
                    };
                    self.dialog = Some(d);
                    effect
                },
                None => DialogEffect::Nothing,
            },
            DialogAction::Save => match &self.dialog {
                Some(d) => match d.to_profile() {
                    Ok(profile) => DialogEffect::Save { profile, password: d.password.clone() },
                    Err(m) => {
                        self.last_error = Some(m);
                        DialogEffect::Nothing
                    },
                },
                None => DialogEffect::Nothing,
            },
        }
    }

    /// Take in a profile whose password was put into the keyring, or not.
    /// Returns whether the profiles have to be written.
    pub fn password_stored(&mut self, profile: ConnectionProfile, reply: Result<(), CoreError>) -> (
        res: bool)
        ensures
            final(self).dialog == old(self).dialog,
            final(self).in_flight == old(self).in_flight,
            final(self).active == old(self).active,
            res == reply is Ok,
            match reply {
                Ok(()) => final(self).profile_list() == upserted(old(self).profile_list(), profile@)
                    && final(self).last_error == old(self).last_error,
                Err(e) => final(self).profiles == old(self).profiles
                    && opt_text(final(self).last_error) == Some("Keyring: "@ + core_message(e)),
            },
    {
        match reply {
            Ok(()) => {
                let ghost before = self.profile_list();
                let ghost p = profile@;
                match find_named(&self.profiles, profile.name.as_str()) {
                    Some(i) => {
                        self.profiles[i] = profile;
                    },
                    None => {
                        self.profiles.push(profile);
                    },
                }
                assert(self.profile_list() =~= upserted(before, p));
                true
            },
            Err(e) => {
                self.last_error = Some(labelled("Keyring: ", &e));
                false
            },
        }
    }

    /// Take in that the profiles were written, or not. Once they are, the dialog
    /// is done with.
    pub fn profiles_saved(&mut self, reply: Result<(), CoreError>)
        ensures
            final(self).profiles == old(self).profiles,
            final(self).in_flight == old(self).in_flight,
            final(self).active == old(self).active,
            match reply {
                Ok(()) => final(self).dialog is None && final(self).last_error == old(
                    self,
                ).last_error,
                Err(e) => final(self).dialog == old(self).dialog && opt_text(
                    final(self).last_error,
                ) == Some("Save profiles: "@ + core_message(e)),
            },
    {
        match reply {
            Ok(()) => {
                self.dialog = None;
            },
            Err(e) => {
                self.last_error = Some(labelled("Save profiles: ", &e));
            },
        }
    }

    /// The profile of that name.
    pub fn find(&self, name: &str) -> (res: Option<ConnectionProfile>)
        ensures
            match res {
                Some(p) => named(self.profile_list(), name@) == Some(p@),
                None => named(self.profile_list(), name@) is None,
            },
    {
        match find_named(&self.profiles, name) {
            Some(i) => Some(self.profiles[i].copy()),
            None => None,
        }
    }

    /// Begin to connect to a profile, given what the keyring holds for it.
    /// Returns the password to connect with, if there is one.
    pub fn connect(&mut self, profile_name: &str, reply: Result<Option<String>, CoreError>) -> (res:
        Option<String>)
        ensures
            final(self).profiles == old(self).profiles,
            final(self).dialog == old(self).dialog,
            final(self).active == old(self).active,
            match reply {
                Ok(Some(password)) => res == Some(password) && final(self).busy() == old(
                    self,
                ).busy().insert(profile_name@) && final(self).last_error == old(self).last_error,
                Ok(None) => res is None && final(self).in_flight == old(self).in_flight
                    && opt_text(final(self).last_error) == Some(
                    "No password in keyring for '"@ + profile_name@ + "'"@,
                ),
                Err(e) => res is None && final(self).in_flight == old(self).in_flight
                    && opt_text(final(self).last_error) == Some("Keyring: "@ + core_message(e)),
            },
    {
        match reply {
            Ok(Some(password)) => {
                insert_name(&mut self.in_flight, profile_name);
                Some(password)
            },
            Ok(None) => {
                let mut message = "No password in keyring for '".to_string();
                message.append(profile_name);
                message.append("'");
                self.last_error = Some(message);
                None
            },
            Err(e) => {
                self.last_error = Some(labelled("Keyring: ", &e));
                None
            },
        }
    }

    /// Close the open connection. Returns whether there was one, which has to be
    /// shut down.
    pub fn disconnect(&mut self) -> (res: bool)
        ensures
            res == old(self).active is Some,
            final(self).active is None,
            final(self).profiles == old(self).profiles,
            final(self).dialog == old(self).dialog,
            final(self).in_flight == old(self).in_flight,
            final(self).last_error == old(self).last_error,
    {
        let open = self.active.is_some();
        self.active = None;
        open
    }

    /// Take the profile of that name out of the list. Its password is then to be
    /// deleted, and the list to be written.
    pub fn remove_profile(&mut self, name: &str) -> (res: Option<ConnectionProfile>)
        ensures
            final(self).profile_list() == without_named(old(self).profile_list(), name@),
            match res {
                Some(p) => named(old(self).profile_list(), name@) == Some(p@),
                None => named(old(self).profile_list(), name@) is None,
            },
            final(self).dialog == old(self).dialog,
            final(self).in_flight == old(self).in_flight,
            final(self).active == old(self).active,
            final(self).last_error == old(self).last_error,
    {
        let ghost before = self.profile_list();
        match find_named(&self.profiles, name) {
            Some(i) => {
                let removed = self.profiles.remove(i);
                assert(self.profile_list() =~= without_named(before, name@));
                Some(removed)
            },
            None => None,
        }
    }

    /// Take in that the list without a deleted profile was written, or not. The
    /// connection of that profile is closed; returns whether it was open, and has
    /// to be shut down.
    pub fn delete_profile(&mut self, name: &str, reply: Result<(), CoreError>) -> (res: bool)
        ensures
            res == (old(self).active is Some && old(self).active->0.profile_name@ == name@),
            final(self).active == (if res {
                None
            } else {
                old(self).active
            }),
            final(self).profiles == old(self).profiles,
            final(self).dialog == old(self).dialog,
            final(self).in_flight == old(self).in_flight,
            match reply {
                Ok(()) => final(self).last_error == old(self).last_error,
                Err(e) => opt_text(final(self).last_error) == Some(
                    "Save profiles: "@ + core_message(e),
                ),
            },
    {
        if let Err(e) = reply {
            self.last_error = Some(labelled("Save profiles: ", &e));
        }
        if self.is_active(name) {
            self.disconnect()
        } else {
            false
        }
    }

    /// What the status bar shows of the open connection: its name and the version
    /// of the server, or that there is none.
    pub fn status_texts(&self) -> (res: Vec<String>)
        ensures
            texts(res@) == (match active_names(self.active) {
                Some((name, version)) => seq!["● "@ + name, "Server: "@ + version],
                None => seq!["Disconnected"@],
            }),
    {
        let mut out: Vec<String> = Vec::new();
        match &self.active {
            Some(a) => {
                let mut name = "● ".to_string();
                name.append(a.profile_name.as_str());
                let mut server = "Server: ".to_string();
                server.append(a.info.version.as_str());
                out.push(name);
                out.push(server);
                assert(texts(out@) =~= seq![
                    "● "@ + a.profile_name@,
                    "Server: "@ + a.info.version@,
                ]);
            },
            None => {
                out.push("Disconnected".to_string());
                assert(texts(out@) =~= seq!["Disconnected"@]);
            },
        }
        out
    }
}

/// What a test came to is all that it changes in the form: what the user has
/// filled in stays.
pub proof fn law_tests_keep_the_form(d: NewConnectionDialog, outcome: Option<TestOutcome>)
    ensures
        ({
            let after = with_outcome(d, outcome);
            &&& after.last_test == outcome
            &&& after.name == d.name && after.host == d.host && after.port == d.port
            &&& after.user == d.user && after.password == d.password
            &&& after.database == d.database && after.socket == d.socket && after.tls == d.tls
        }),
        form_fault(with_outcome(d, outcome)) == form_fault(d),
        form_fault(d) is None ==> form_profile(with_outcome(d, outcome)) == form_profile(d),
{
}

/// The message of a test tells a failure from a success, and keeps what went
/// wrong.
pub proof fn law_test_messages(elapsed: Elapsed, e: String)
    ensures
        begins_with(test_message(Ok(elapsed)), "Connected"@),
        begins_with(test_message(Err(e)), "Failed"@),
        ends_with(test_message(Err(e)), e@),
        ends_with(test_message(Ok(elapsed)), shown_duration(elapsed.secs, elapsed.nanos)),
{
    reveal_strlit("Connected");
    reveal_strlit("Connected in ");
    reveal_strlit("Failed");
    reveal_strlit("Failed: ");
    let shown = shown_duration(elapsed.secs, elapsed.nanos);
    let a = "Connected in "@ + shown;
    let b = "Failed: "@ + e@;
    assert(a.subrange(0, 9) =~= "Connected"@);
    assert(b.subrange(0, 6) =~= "Failed"@);
    assert(a.skip(13) =~= shown);
    assert(b.skip(8) =~= e@);
}

} // verus!
