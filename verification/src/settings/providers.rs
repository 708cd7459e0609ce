//! The keys of the model providers: which are set, and the sign-in by browser.

use crate::components::text_input::TextInput;
use crate::settings::SettingsPanel;
use crate::text;
use crate::theme::ColorRole;
use vstd::prelude::*;

verus! {

/// The variable that holds the key which a sign-in stands in for.
pub const OPENAI_KEY: &'static str = "OPENAI_API_KEY";

/// A secret as it is stored.
#[derive(Debug)]
pub struct Secret {
    pub env_var: String,
    pub auth_method: String,
}

/// How far the sign-in by browser is.
#[derive(Debug)]
pub enum OAuthStatus {
    Idle,
    InProgress,
    Connected { email: String, plan: String },
    Error(String),
}

/// How far the sign-in is, with its texts as characters.
pub enum StatusModel {
    Idle,
    InProgress,
    Connected(Seq<char>, Seq<char>),
    Error(Seq<char>),
}

/// A secret in the list.
#[derive(Debug)]
pub struct SecretRow {
    pub env_var: String,
    pub label: String,
    pub description: String,
    pub input: TextInput,
    pub has_saved_value: bool,
    pub auth_method: String,
}

/// What came of a sign-in.
#[derive(Debug)]
pub enum LoginOutcome {
    /// It went well and was stored; what is known of the account.
    Saved { email: Option<String>, plan: Option<String> },
    /// It went well and could not be stored.
    NotSaved(String),
    Failed(String),
}

/// A key to store.
#[derive(Debug)]
pub struct SaveRequest {
    pub env_var: String,
    pub label: String,
    pub value: String,
}

/// How a secret is listed.
#[derive(Debug)]
pub struct SecretView {
    pub icon: Option<&'static str>,
    pub title: String,
    pub subtitle: String,
    pub status: &'static str,
    pub dot_color: ColorRole,
    pub status_color: ColorRole,
    /// Whether a key is there.
    pub is_set: bool,
    pub can_remove: bool,
    pub asks_key: bool,
    pub offers_sign_in: bool,
}

/// What the sign-in shows.
#[derive(Debug)]
pub enum SignInView {
    /// A button to sign in.
    Offer,
    /// A note that the browser is waited for, with a button to cancel.
    Waiting,
    /// Who is signed in, with a button to sign out.
    SignedIn(String),
    /// What went wrong, with a button to try again.
    Failed(String),
}

/// What is known of a provider: its name, the agents that use it, its icon, and whether one can
/// sign in by browser. The agent that Anthropic makes itself goes by the name `own_agent`.
pub open spec fn provider(env_var: Seq<char>, own_agent: Seq<char>) -> Option<
    (Seq<char>, Seq<char>, Seq<char>, bool),
> {
    if env_var == "ANTHROPIC_API_KEY"@ {
        Some(("Anthropic"@, own_agent + ", Pi"@, "icons/providers/anthropic.svg"@, false))
    } else if env_var == OPENAI_KEY@ {
        Some(("OpenAI"@, "Codex, Pi"@, "icons/providers/openai.svg"@, true))
    } else if env_var == "OPENROUTER_API_KEY"@ {
        Some(("OpenRouter"@, "Codex"@, "icons/providers/openrouter.svg"@, false))
    } else {
        None
    }
}

/// The title and the description of a secret.
pub open spec fn display_info(env_var: Seq<char>, own_agent: Seq<char>) -> (Seq<char>, Seq<char>) {
    match provider(env_var, own_agent) {
        Some((label, agents, _, _)) => (label, agents),
        None => ("Custom"@, "Custom secret"@),
    }
}

/// The title and the description of a secret.
pub fn secret_display_info(env_var: &str, own_agent: &str) -> (r: (&'static str, String))
    ensures
        (r.0@, r.1@) == display_info(env_var@, own_agent@),
{
    if text::same_text(env_var, "ANTHROPIC_API_KEY") {
        let mut agents = own_agent.to_owned();
        agents.append(", Pi");
        ("Anthropic", agents)
    } else if text::same_text(env_var, OPENAI_KEY) {
        ("OpenAI", "Codex, Pi".to_owned())
    } else if text::same_text(env_var, "OPENROUTER_API_KEY") {
        ("OpenRouter", "Codex".to_owned())
    } else {
        ("Custom", "Custom secret".to_owned())
    }
}

/// Whether one can sign in by browser in place of a key.
pub fn supports_oauth(env_var: &str) -> (r: bool)
    ensures
        r == (provider(env_var@, Seq::empty()) matches Some((_, _, _, oauth)) && oauth),
{
    proof {
        reveal_strlit("ANTHROPIC_API_KEY");
        reveal_strlit("OPENAI_API_KEY");
        assert("ANTHROPIC_API_KEY"@[0] != "OPENAI_API_KEY"@[0]);
    }
    text::same_text(env_var, OPENAI_KEY)
}

/// The icon of a provider.
pub fn provider_icon(env_var: &str) -> (r: Option<&'static str>)
    ensures
        match provider(env_var@, Seq::empty()) {
            Some((_, _, icon, _)) => r matches Some(path) && path@ == icon,
            None => r is None,
        },
{
    if text::same_text(env_var, "ANTHROPIC_API_KEY") {
        Some("icons/providers/anthropic.svg")
    } else if text::same_text(env_var, OPENAI_KEY) {
        Some("icons/providers/openai.svg")
    } else if text::same_text(env_var, "OPENROUTER_API_KEY") {
        Some("icons/providers/openrouter.svg")
    } else {
        None
    }
}

/// The names of the listed secrets.
pub open spec fn row_names(rows: Seq<SecretRow>) -> Seq<Seq<char>> {
    rows.map_values(|r: SecretRow| r.env_var@)
}

/// How a secret is kept: as the first stored one of that name says, else by key.
pub open spec fn method_of(secrets: Seq<Secret>, env_var: Seq<char>) -> Seq<char>
    decreases secrets.len(),
{
    if secrets.len() == 0 {
        "api_key"@
    } else if secrets[0].env_var@ == env_var {
        secrets[0].auth_method@
    } else {
        method_of(secrets.drop_first(), env_var)
    }
}

/// Whether a sign-in is stored.
pub open spec fn signed_in(secrets: Seq<Secret>) -> bool {
    exists|i: int|
        0 <= i < secrets.len() && (#[trigger] secrets[i]).env_var@ == OPENAI_KEY@
            && secrets[i].auth_method@ == "oauth"@
}

/// How far the sign-in is, with its texts as characters.
pub open spec fn status_model(status: OAuthStatus) -> StatusModel {
    match status {
        OAuthStatus::Idle => StatusModel::Idle,
        OAuthStatus::InProgress => StatusModel::InProgress,
        OAuthStatus::Connected { email, plan } => StatusModel::Connected(email@, plan@),
        OAuthStatus::Error(e) => StatusModel::Error(e@),
    }
}

/// The sign-in has got as far as that.
pub open spec fn status_shows(status: OAuthStatus, model: StatusModel) -> bool {
    status_model(status) == model
}

/// How far the sign-in is when the window opens.
pub open spec fn stored_status(secrets: Seq<Secret>) -> StatusModel {
    if signed_in(secrets) {
        StatusModel::Connected("OpenAI account"@, Seq::empty())
    } else {
        StatusModel::Idle
    }
}

/// A listed secret when the window opens.
pub open spec fn row_starts(
    row: SecretRow,
    secrets: Seq<Secret>,
    saved: Seq<Seq<char>>,
    own_agent: Seq<char>,
) -> bool {
    &&& (row.label@, row.description@) == display_info(row.env_var@, own_agent)
    &&& row.has_saved_value == saved.contains(row.env_var@)
    &&& row.auth_method@ == method_of(secrets, row.env_var@)
    &&& row.input.fits()
    &&& row.input.content@ == Seq::<char>::empty()
    &&& row.input.start == 0
    &&& row.input.end == 0
    &&& row.input.is_idle()
    &&& row.input.masked
    &&& !row.input.disabled
    &&& row.input.placeholder@ == "Enter "@ + row.label@ + " API key"@
}

fn listed(items: &Vec<String>, s: &str) -> (r: bool)
    ensures
        r == text::views(items@).contains(s@),
{
    let mut i: usize = 0;
    while i < items.len()
        invariant
            i <= items@.len(),
            forall|j: int| 0 <= j < i ==> text::views(items@)[j] != s@,
        decreases items@.len() - i,
    {
        if text::same_text(items[i].as_str(), s) {
            assert(text::views(items@)[i as int] == s@);
            return true;
        }
        i += 1;
    }
    false
}

fn stored_method(secrets: &Vec<Secret>, env_var: &str) -> (m: String)
    ensures
        m@ == method_of(secrets@, env_var@),
{
    let mut i: usize = 0;
    assert(secrets@.skip(0) =~= secrets@);
    while i < secrets.len()
        invariant
            i <= secrets@.len(),
            method_of(secrets@, env_var@) == method_of(secrets@.skip(i as int), env_var@),
        decreases secrets@.len() - i,
    {
        assert(secrets@.skip(i as int).drop_first() =~= secrets@.skip(i + 1));
        if text::same_text(secrets[i].env_var.as_str(), env_var) {
            return secrets[i].auth_method.clone();
        }
        i += 1;
    }
    "api_key".to_owned()
}

pub(crate) fn initial_status(secrets: &Vec<Secret>) -> (s: OAuthStatus)
    ensures
        status_shows(s, stored_status(secrets@)),
{
    let mut i: usize = 0;
    while i < secrets.len()
        invariant
            i <= secrets@.len(),
            forall|j: int|
                0 <= j < i ==> !((#[trigger] secrets@[j]).env_var@ == OPENAI_KEY@
                    && secrets@[j].auth_method@ == "oauth"@),
        decreases secrets@.len() - i,
    {
        if text::same_text(secrets[i].env_var.as_str(), OPENAI_KEY) && text::same_text(
            secrets[i].auth_method.as_str(),
            "oauth",
        ) {
            assert(signed_in(secrets@));
            return OAuthStatus::Connected {
                email: "OpenAI account".to_owned(),
                plan: String::new(),
            };
        }
        i += 1;
    }
    OAuthStatus::Idle
}

fn make_row(
    env_var: &str,
    secrets: &Vec<Secret>,
    saved: &Vec<String>,
    own_agent: &str,
) -> (row: SecretRow)
    ensures
        row.env_var@ == env_var@,
        row_starts(row, secrets@, text::views(saved@), own_agent@),
{
    let (label, description) = secret_display_info(env_var, own_agent);
    let mut input = TextInput::new();
    input.set_placeholder(text::concat3("Enter ", label, " API key"));
    input.set_masked(true);
    SecretRow {
        env_var: env_var.to_owned(),
        label: label.to_owned(),
        description,
        input,
        has_saved_value: listed(saved, env_var),
        auth_method: stored_method(secrets, env_var),
    }
}

pub(crate) fn make_rows(
    names: &Vec<String>,
    secrets: &Vec<Secret>,
    saved: &Vec<String>,
    own_agent: &str,
) -> (rows: Vec<SecretRow>)
    ensures
        rows@.len() == names@.len(),
        forall|i: int| 0 <= i < rows@.len() ==> (#[trigger] rows@[i]).env_var@ == names@[i]@,
        forall|i: int|
            0 <= i < rows@.len() ==> row_starts(
                #[trigger] rows@[i],
                secrets@,
                text::views(saved@),
                own_agent@,
            ),
{
    let mut rows: Vec<SecretRow> = Vec::new();
    let mut i: usize = 0;
    while i < names.len()
        invariant
            i <= names@.len(),
            rows@.len() == i,
            forall|j: int| 0 <= j < i ==> (#[trigger] rows@[j]).env_var@ == names@[j]@,
            forall|j: int|
                0 <= j < i ==> row_starts(
                    #[trigger] rows@[j],
                    secrets@,
                    text::views(saved@),
                    own_agent@,
                ),
        decreases names@.len() - i,
    {
        let row = make_row(names[i].as_str(), secrets, saved, own_agent);
        rows.push(row);
        i += 1;
    }
    rows
}

/// The first listed secret of a name, from `i` on, or their number.
pub open spec fn first_row(names: Seq<Seq<char>>, name: Seq<char>, i: int) -> int
    decreases names.len() - i,
{
    if i >= names.len() {
        names.len() as int
    } else if names[i] == name {
        i
    } else {
        first_row(names, name, i + 1)
    }
}

/// A listed secret after its key was set or removed, or a sign-in took its place.
pub open spec fn row_now(row: SecretRow, before: SecretRow, has_value: bool, method: Seq<char>) -> bool {
    &&& row.has_saved_value == has_value
    &&& row.auth_method@ == method
    &&& row == (SecretRow {
        has_saved_value: has_value,
        auth_method: row.auth_method,
        input: row.input,
        ..before
    })
}

/// How far the sign-in is after a key of that name was set or removed.
pub open spec fn status_after_key(status: StatusModel, env_var: Seq<char>) -> StatusModel {
    if env_var == OPENAI_KEY@ {
        StatusModel::Idle
    } else {
        status
    }
}

impl SettingsPanel {
    /// The window with other rows, another status, and a login that can be cancelled or not.
    pub open spec fn keeps_rest(self, before: SettingsPanel) -> bool {
        self == (SettingsPanel {
            secret_rows: self.secret_rows,
            oauth_status: self.oauth_status,
            oauth_cancel: self.oauth_cancel,
            ..before
        })
    }

    /// The key that was typed for a secret, to be stored, where any was typed.
    pub fn save_secret(&self, index: usize) -> (r: Option<SaveRequest>)
        requires
            index < self.secret_rows@.len(),
        ensures
            ({
                let row = self.secret_rows@[index as int];
                match r {
                    Some(save) => row.input.content@.len() > 0 && save.env_var@ == row.env_var@
                        && save.label@ == row.label@ && save.value@ == row.input.content@,
                    None => row.input.content@.len() == 0,
                }
            }),
    {
        let row = &self.secret_rows[index];
        let value = row.input.value();
        let chars = text::to_chars(value);
        if chars.len() == 0 {
            return None;
        }
        Some(
            SaveRequest {
                env_var: row.env_var.clone(),
                label: row.label.clone(),
                value: value.to_owned(),
            },
        )
    }

    /// A key was stored. Returns what the user is told.
    pub fn secret_saved(&mut self, index: usize) -> (told: String)
        requires
            index < old(self).secret_rows@.len(),
        ensures
            ({
                let before = old(self).secret_rows@[index as int];
                &&& told@ == before.label@ + " key saved"@
                &&& final(self).secret_rows@ == old(self).secret_rows@.update(
                    index as int,
                    final(self).secret_rows@[index as int],
                )
                &&& row_now(
                    final(self).secret_rows@[index as int],
                    before,
                    true,
                    "api_key"@,
                )
                &&& final(self).secret_rows@[index as int].input == before.input
                &&& status_shows(
                    final(self).oauth_status,
                    status_after_key(status_model(old(self).oauth_status), before.env_var@),
                )
                &&& final(self).oauth_cancel == old(self).oauth_cancel
                &&& final(self).keeps_rest(*old(self))
            }),
    {
        let mut told = self.secret_rows[index].label.clone();
        told.append(" key saved");
        self.secret_rows[index].has_saved_value = true;
        self.secret_rows[index].auth_method = "api_key".to_owned();
        if text::same_text(self.secret_rows[index].env_var.as_str(), OPENAI_KEY) {
            self.oauth_status = OAuthStatus::Idle;
        }
        told
    }

    /// A key was removed; its input is empty and readable. Returns what the user is told.
    pub fn secret_removed(&mut self, index: usize) -> (told: String)
        requires
            index < old(self).secret_rows@.len(),
            old(self).secret_rows@[index as int].input.wf(),
        ensures
            ({
                let before = old(self).secret_rows@[index as int];
                let row = final(self).secret_rows@[index as int];
                &&& told@ == before.label@ + " key removed"@
                &&& final(self).secret_rows@ == old(self).secret_rows@.update(index as int, row)
                &&& row_now(row, before, false, "api_key"@)
                &&& TextInput::value_set(
                    row.input,
                    TextInput { masked: false, ..before.input },
                    Seq::empty(),
                )
                &&& status_shows(
                    final(self).oauth_status,
                    status_after_key(status_model(old(self).oauth_status), before.env_var@),
                )
                &&& final(self).oauth_cancel == old(self).oauth_cancel
                &&& final(self).keeps_rest(*old(self))
            }),
    {
        let mut told = self.secret_rows[index].label.clone();
        told.append(" key removed");
        self.secret_rows[index].has_saved_value = false;
        self.secret_rows[index].auth_method = "api_key".to_owned();
        self.secret_rows[index].input.set_masked(false);
        self.secret_rows[index].input.set_value(String::new());
        if text::same_text(self.secret_rows[index].env_var.as_str(), OPENAI_KEY) {
            self.oauth_status = OAuthStatus::Idle;
        }
        told
    }

    /// Begins a sign-in, which can be cancelled.
    pub fn start_oauth_login(&mut self)
        ensures
            *final(self) == (SettingsPanel {
                oauth_status: OAuthStatus::InProgress,
                oauth_cancel: true,
                ..*old(self)
            }),
    {
        self.oauth_status = OAuthStatus::InProgress;
        self.oauth_cancel = true;
    }

    /// Cancels the sign-in. Tells whether there is one to be told.
    pub fn cancel_oauth_login(&mut self) -> (signal: bool)
        ensures
            signal == old(self).oauth_cancel,
            *final(self) == (SettingsPanel {
                oauth_status: OAuthStatus::Idle,
                oauth_cancel: false,
                ..*old(self)
            }),
    {
        let signal = self.oauth_cancel;
        self.oauth_cancel = false;
        self.oauth_status = OAuthStatus::Idle;
        signal
    }

    /// A sign-in ended. One that failed after it was cancelled changes nothing.
    pub fn login_finished(&mut self, outcome: LoginOutcome)
        ensures
            !final(self).oauth_cancel,
            final(self).keeps_rest(*old(self)),
            match outcome {
                LoginOutcome::Saved { email, plan } => {
                    let at = first_row(row_names(old(self).secret_rows@), OPENAI_KEY@, 0);
                    &&& status_shows(
                        final(self).oauth_status,
                        StatusModel::Connected(
                            match email {
                                Some(e) => e@,
                                None => "OpenAI account"@,
                            },
                            match plan {
                                Some(p) => p@,
                                None => Seq::empty(),
                            },
                        ),
                    )
                    &&& at >= old(self).secret_rows@.len() ==> final(self).secret_rows@ == old(
                        self).secret_rows@
                    &&& at < old(self).secret_rows@.len() ==> {
                        let row = final(self).secret_rows@[at];
                        let before = old(self).secret_rows@[at];
                        &&& final(self).secret_rows@ == old(self).secret_rows@.update(at, row)
                        &&& row_now(row, before, true, "oauth"@)
                        &&& row.input == before.input
                    }
                },
                LoginOutcome::NotSaved(e) => {
                    &&& status_shows(
                        final(self).oauth_status,
                        StatusModel::Error("Failed to save: "@ + e@),
                    )
                    &&& final(self).secret_rows == old(self).secret_rows
                },
                LoginOutcome::Failed(e) => {
                    &&& final(self).oauth_status == (if old(self).oauth_cancel {
                        OAuthStatus::Error(e)
                    } else {
                        old(self).oauth_status
                    })
                    &&& final(self).secret_rows == old(self).secret_rows
                },
            },
    {
        let cancellable = self.oauth_cancel;
        self.oauth_cancel = false;
        match outcome {
            LoginOutcome::Saved { email, plan } => {
                self.oauth_status = OAuthStatus::Connected {
                    email: match email {
                        Some(e) => e,
                        None => "OpenAI account".to_owned(),
                    },
                    plan: match plan {
                        Some(p) => p,
                        None => String::new(),
                    },
                };
                let at: usize = self.openai_row();
                if at < self.secret_rows.len() {
                    self.secret_rows[at].has_saved_value = true;
                    self.secret_rows[at].auth_method = "oauth".to_owned();
                }
            },
            LoginOutcome::NotSaved(e) => {
                let mut message = "Failed to save: ".to_owned();
                message.append(e.as_str());
                self.oauth_status = OAuthStatus::Error(message);
            },
            LoginOutcome::Failed(e) => {
                if cancellable {
                    self.oauth_status = OAuthStatus::Error(e);
                }
            },
        }
    }

    fn openai_row(&self) -> (at: usize)
        ensures
            at == first_row(row_names(self.secret_rows@), OPENAI_KEY@, 0),
            at <= self.secret_rows@.len(),
    {
        let mut i: usize = 0;
        let ghost names = row_names(self.secret_rows@);
        while i < self.secret_rows.len()
            invariant
                i <= self.secret_rows@.len(),
                names == row_names(self.secret_rows@),
                first_row(names, OPENAI_KEY@, 0) == first_row(names, OPENAI_KEY@, i as int),
            decreases self.secret_rows@.len() - i,
        {
            assert(names[i as int] == self.secret_rows@[i as int].env_var@);
            if text::same_text(self.secret_rows[i].env_var.as_str(), OPENAI_KEY) {
                return i;
            }
            i += 1;
        }
        i
    }

    /// Which key a sign-out removes.
    pub fn sign_out(&self) -> (r: Option<usize>)
        ensures
            ({
                let at = first_row(row_names(self.secret_rows@), OPENAI_KEY@, 0);
                match r {
                    Some(i) => i == at && at < self.secret_rows@.len(),
                    None => at >= self.secret_rows@.len(),
                }
            }),
    {
        let at: usize = self.openai_row();
        if at < self.secret_rows.len() {
            Some(at)
        } else {
            None
        }
    }

    /// What the sign-in shows.
    pub fn sign_in_view(&self) -> (v: SignInView)
        ensures
            match status_model(self.oauth_status) {
                StatusModel::Idle => v is Offer,
                StatusModel::InProgress => v is Waiting,
                StatusModel::Connected(email, plan) => v matches SignInView::SignedIn(s) && s@
                    == signed_in_text(email, plan),
                StatusModel::Error(e) => v matches SignInView::Failed(s) && s@ == e,
            },
    {
        match &self.oauth_status {
            OAuthStatus::Idle => SignInView::Offer,
            OAuthStatus::InProgress => SignInView::Waiting,
            OAuthStatus::Connected { email, plan } => {
                let mut s = "Signed in as ".to_owned();
                s.append(email.as_str());
                if text::to_chars(plan.as_str()).len() > 0 {
                    s.append(" (");
                    s.append(plan.as_str());
                    s.append(")");
                }
                SignInView::SignedIn(s)
            },
            OAuthStatus::Error(e) => SignInView::Failed(e.clone()),
        }
    }

    /// How the secrets are listed.
    pub fn secrets_view(&self) -> (views: Vec<SecretView>)
        ensures
            views@.len() == self.secret_rows@.len(),
            forall|i: int|
                0 <= i < views@.len() ==> row_view_is(#[trigger] views@[i], self.secret_rows@[i]),
    {
        let mut views: Vec<SecretView> = Vec::new();
        let mut i: usize = 0;
        while i < self.secret_rows.len()
            invariant
                i <= self.secret_rows@.len(),
                views@.len() == i,
                forall|j: int|
                    0 <= j < i ==> row_view_is(#[trigger] views@[j], self.secret_rows@[j]),
            decreases self.secret_rows@.len() - i,
        {
            let v = row_view(&self.secret_rows[i]);
            views.push(v);
            i += 1;
        }
        views
    }
}

/// Who is signed in.
pub open spec fn signed_in_text(email: Seq<char>, plan: Seq<char>) -> Seq<char> {
    if plan.len() == 0 {
        "Signed in as "@ + email
    } else {
        "Signed in as "@ + email + " ("@ + plan + ")"@
    }
}

/// The middle dot between the name of a secret and what it is for.
pub const DOT: &'static str = " \u{00b7} ";

/// How a secret is listed: a key can be removed, one that is missing can be typed, and a sign-in
/// in place of a key is ended elsewhere.
pub open spec fn row_view_is(v: SecretView, row: SecretRow) -> bool {
    let by_sign_in = row.auth_method@ == "oauth"@;
    &&& v.title@ == row.label@
    &&& v.subtitle@ == row.env_var@ + DOT@ + row.description@
    &&& v.is_set == row.has_saved_value
    &&& v.status@ == (if !row.has_saved_value {
        "Not set"@
    } else if by_sign_in {
        "OAuth"@
    } else {
        "Configured"@
    })
    &&& (v.dot_color, v.status_color) == (if row.has_saved_value {
        (ColorRole::StatusGreenDim, ColorRole::StatusGreenDim)
    } else {
        (ColorRole::StatusDim, ColorRole::TextFaint)
    })
    &&& v.can_remove == (row.has_saved_value && !by_sign_in)
    &&& v.asks_key == (!row.has_saved_value && !by_sign_in)
    &&& match provider(row.env_var@, Seq::empty()) {
        Some((_, _, icon, oauth)) => v.offers_sign_in == oauth && (v.icon matches Some(path)
            && path@ == icon),
        None => !v.offers_sign_in && v.icon is None,
    }
}

fn row_view(row: &SecretRow) -> (v: SecretView)
    ensures
        row_view_is(v, *row),
{
    let by_sign_in = text::same_text(row.auth_method.as_str(), "oauth");
    SecretView {
        icon: provider_icon(row.env_var.as_str()),
        title: row.label.clone(),
        subtitle: text::concat3(row.env_var.as_str(), DOT, row.description.as_str()),
        status: if !row.has_saved_value {
            "Not set"
        } else if by_sign_in {
            "OAuth"
        } else {
            "Configured"
        },
        dot_color: if row.has_saved_value {
            ColorRole::StatusGreenDim
        } else {
            ColorRole::StatusDim
        },
        status_color: if row.has_saved_value {
            ColorRole::StatusGreenDim
        } else {
            ColorRole::TextFaint
        },
        is_set: row.has_saved_value,
        can_remove: row.has_saved_value && !by_sign_in,
        asks_key: !row.has_saved_value && !by_sign_in,
        offers_sign_in: supports_oauth(row.env_var.as_str()),
    }
}

/// A secret is kept as the first stored one of its name says, and by key where none is stored.
pub proof fn law_first_stored_method(secrets: Seq<Secret>, env_var: Seq<char>, i: int)
    requires
        0 <= i < secrets.len(),
        forall|j: int| 0 <= j < i ==> (#[trigger] secrets[j]).env_var@ != env_var,
    ensures
        secrets[i].env_var@ == env_var ==> method_of(secrets, env_var) == secrets[i].auth_method@,
        secrets[i].env_var@ != env_var && i + 1 == secrets.len() ==> method_of(secrets, env_var)
            == "api_key"@,
    decreases secrets.len(),
{
    reveal_with_fuel(method_of, 2);
    if i > 0 {
        assert(secrets[0].env_var@ != env_var);
        let rest = secrets.drop_first();
        assert(rest[i - 1] == secrets[i]);
        assert forall|j: int| 0 <= j < i - 1 implies (#[trigger] rest[j]).env_var@ != env_var by {
            assert(rest[j] == secrets[j + 1]);
        }
        law_first_stored_method(rest, env_var, i - 1);
    }
}

/// The row of a name is the first of that name; there is none only where no row has the name.
pub proof fn law_first_row_of_a_name(names: Seq<Seq<char>>, name: Seq<char>, i: int, k: int)
    requires
        0 <= i <= k < names.len(),
    ensures
        i <= first_row(names, name, i) <= names.len(),
        first_row(names, name, i) < names.len() ==> names[first_row(names, name, i)] == name,
        names[k] == name ==> first_row(names, name, i) <= k,
    decreases names.len() - i,
{
    if names[i] != name {
        if i < k {
            law_first_row_of_a_name(names, name, i + 1, k);
        } else if i + 1 < names.len() {
            law_first_row_of_a_name(names, name, i + 1, i + 1);
        }
    }
}

/// What the list lets one do with a secret: one that is set by key can be removed and is not asked
/// for, one that is missing is asked for and cannot be removed, and one that a sign-in stands in for
/// is neither removed nor asked for there. Whether it counts as set rests on its value alone.
pub proof fn law_secret_can_be_set_or_removed(v: SecretView, row: SecretRow)
    requires
        row_view_is(v, row),
    ensures
        v.is_set == row.has_saved_value,
        !(v.can_remove && v.asks_key),
        row.auth_method@ == "oauth"@ ==> !v.can_remove && !v.asks_key,
        row.auth_method@ != "oauth"@ ==> (v.can_remove <==> row.has_saved_value) && (v.asks_key
            <==> !row.has_saved_value),
        v.status@ == "Not set"@ <==> !row.has_saved_value,
        v.dot_color == ColorRole::StatusGreenDim <==> row.has_saved_value,
        v.offers_sign_in <==> row.env_var@ == OPENAI_KEY@,
{
    reveal_strlit("Not set");
    reveal_strlit("OAuth");
    reveal_strlit("Configured");
    reveal_strlit("ANTHROPIC_API_KEY");
    reveal_strlit("OPENAI_API_KEY");
    reveal_strlit("OPENROUTER_API_KEY");
    assert("Not set"@.len() == 7 && "OAuth"@.len() == 5 && "Configured"@.len() == 10);
    assert("ANTHROPIC_API_KEY"@.len() == 17 && OPENAI_KEY@.len() == 14 && "OPENROUTER_API_KEY"@.len()
        == 18);
}

/// A key that is set or removed ends a sign-in of its own provider and of no other.
pub proof fn law_key_ends_its_sign_in(status: StatusModel, env_var: Seq<char>)
    ensures
        env_var == OPENAI_KEY@ ==> status_after_key(status, env_var) is Idle,
        env_var != OPENAI_KEY@ ==> status_after_key(status, env_var) == status,
        status_after_key(status_after_key(status, env_var), env_var) == status_after_key(
            status,
            env_var,
        ),
{
}

/// A sign-in shows as made when the window opens exactly where a secret of its provider is stored
/// that came of one.
pub proof fn law_stored_sign_in_shows(secrets: Seq<Secret>)
    ensures
        stored_status(secrets) is Connected <==> exists|i: int|
            0 <= i < secrets.len() && (#[trigger] secrets[i]).env_var@ == OPENAI_KEY@
                && secrets[i].auth_method@ == "oauth"@,
        stored_status(secrets) is Connected || stored_status(secrets) is Idle,
{
}

/// A secret whose key was set, or that a sign-in took the place of, counts as set, and one whose key
/// was removed does not; its name and how it is called stay.
pub proof fn law_secret_is_set_or_not(
    row: SecretRow,
    before: SecretRow,
    has_value: bool,
    method: Seq<char>,
    v: SecretView,
)
    requires
        row_now(row, before, has_value, method),
        row_view_is(v, row),
    ensures
        v.is_set == has_value,
        row.env_var == before.env_var,
        row.label == before.label,
        row.description == before.description,
        method != "oauth"@ ==> v.asks_key == !has_value && v.can_remove == has_value,
        method == "oauth"@ ==> !v.asks_key && !v.can_remove,
{
}

/// How far a sign-in is, is told as it is.
pub proof fn law_sign_in_is_told(status: OAuthStatus)
    ensures
        status is Idle <==> status_model(status) is Idle,
        status is InProgress <==> status_model(status) is InProgress,
        status is Connected <==> status_model(status) is Connected,
        status matches OAuthStatus::Error(e) ==> status_model(status) == StatusModel::Error(e@),
{
}

/// Who is signed in is told by name, with the plan behind it where there is one.
pub proof fn law_signed_in_account_is_told(email: Seq<char>, plan: Seq<char>)
    ensures
        plan.len() == 0 ==> email.is_suffix_of(signed_in_text(email, plan)),
        signed_in_text(email, Seq::empty()).is_prefix_of(signed_in_text(email, plan)),
        plan.len() > 0 ==> (seq!['('] + plan + seq![')']).is_suffix_of(
            signed_in_text(email, plan),
        ),
{
    let s = signed_in_text(email, plan);
    let head = "Signed in as "@;
    if plan.len() == 0 {
        assert((head + email).subrange(head.len() as int, s.len() as int) =~= email);
    } else {
        reveal_strlit(" (");
        reveal_strlit(")");
        let tail = seq!['('] + plan + seq![')'];
        let front = head + email + seq![' '];
        assert(s =~= front + tail);
        assert((front + tail).subrange(front.len() as int, s.len() as int) =~= tail);
    }
}

/// A secret that is set is told apart by how it is kept, and a secret is listed without a value
/// exactly where none was saved, with an empty input whose text is hidden.
pub proof fn law_listed_secret(
    v: SecretView,
    row: SecretRow,
    secrets: Seq<Secret>,
    saved: Seq<Seq<char>>,
    own_agent: Seq<char>,
)
    requires
        row_starts(row, secrets, saved, own_agent),
        row_view_is(v, row),
    ensures
        v.is_set <==> saved.contains(row.env_var@),
        v.is_set && method_of(secrets, row.env_var@) == "oauth"@ ==> v.status@ == "OAuth"@,
        v.is_set && method_of(secrets, row.env_var@) != "oauth"@ ==> v.status@ == "Configured"@,
        row.input.content@.len() == 0 && row.input.masked && !row.input.disabled,
        v.title@ == display_info(row.env_var@, own_agent).0,
{
}

} // verus!
