//! The settings window.

pub mod pages;
pub mod providers;

use crate::components::text_input::TextInput;
use crate::settings::providers::{OAuthStatus, Secret, SecretRow};
use crate::text;
use crate::text_order;
use crate::theme;
use crate::theme::ColorRole;
use vstd::prelude::*;

verus! {

/// A page of the settings.
#[derive(Clone, Copy, Debug, PartialEq, Eq, Structural)]
pub enum SettingsTab {
    General,
    Appearance,
    Secrets,
    Sandbox,
    Shortcuts,
    About,
}

/// The label of a page.
pub open spec fn tab_label(tab: SettingsTab) -> Seq<char> {
    match tab {
        SettingsTab::General => "General"@,
        SettingsTab::Appearance => "Appearance"@,
        SettingsTab::Secrets => "Providers"@,
        SettingsTab::Sandbox => "Sandbox"@,
        SettingsTab::Shortcuts => "Shortcuts"@,
        SettingsTab::About => "About"@,
    }
}

/// The page at a place of the list.
pub open spec fn tab_at(i: int) -> SettingsTab {
    if i == 0 {
        SettingsTab::General
    } else if i == 1 {
        SettingsTab::Appearance
    } else if i == 2 {
        SettingsTab::Secrets
    } else if i == 3 {
        SettingsTab::Sandbox
    } else if i == 4 {
        SettingsTab::Shortcuts
    } else {
        SettingsTab::About
    }
}

impl SettingsTab {
    pub fn label(&self) -> (s: &'static str)
        ensures
            s@ == tab_label(*self),
    {
        match self {
            SettingsTab::General => "General",
            SettingsTab::Appearance => "Appearance",
            SettingsTab::Secrets => "Providers",
            SettingsTab::Sandbox => "Sandbox",
            SettingsTab::Shortcuts => "Shortcuts",
            SettingsTab::About => "About",
        }
    }

    /// The pages in the order of the list.
    pub fn all() -> (v: Vec<SettingsTab>)
        ensures
            v@ == Seq::new(6, |i: int| tab_at(i)),
    {
        vec![
            SettingsTab::General,
            SettingsTab::Appearance,
            SettingsTab::Secrets,
            SettingsTab::Sandbox,
            SettingsTab::Shortcuts,
            SettingsTab::About,
        ]
    }
}

/// A page in the list of pages.
#[derive(Debug)]
pub struct NavItem {
    pub tab: SettingsTab,
    pub label: &'static str,
    pub text_color: ColorRole,
    pub background: Option<ColorRole>,
}

/// What happens to the window around its pages.
#[derive(Clone, Copy, Debug, PartialEq, Eq, Structural)]
pub enum WindowEvent {
    ClickOutside,
    CloseButton,
    /// The action that leaves a dialog.
    Cancel,
    /// The tab key, with shift or without.
    Tab { shift: bool },
    /// A click on a page in the list.
    Page(SettingsTab),
}

/// What the window asks for.
#[derive(Clone, Copy, Debug, PartialEq, Eq, Structural)]
pub enum WindowAction {
    Nothing,
    Close,
    FocusNext,
    FocusPrevious,
}

/// The settings as they are stored.
#[derive(Debug)]
pub struct StoredSettings {
    pub sandbox_cpus: u64,
    pub sandbox_memory_mb: u64,
    pub sandbox_disk_mb: u64,
    pub default_agent_id: Option<i64>,
    pub auto_launch_agent: bool,
    pub theme: String,
}

/// The state of the settings window.
#[derive(Debug)]
pub struct SettingsPanel {
    pub active_tab: SettingsTab,
    pub default_agent_id: Option<i64>,
    pub auto_launch_agent: bool,
    pub theme_id: String,
    pub secret_rows: Vec<SecretRow>,
    pub cpus: TextInput,
    pub memory_mb: TextInput,
    pub disk_mb: TextInput,
    pub oauth_status: OAuthStatus,
    /// Whether a login runs that can still be cancelled.
    pub oauth_cancel: bool,
}

/// The theme that is shown as chosen: the stored one where it is known, else the dark one.
pub open spec fn chosen_theme(settings: Option<StoredSettings>) -> Seq<char> {
    match settings {
        Some(s) => if s.theme@ == theme::AUTO_THEME@ || theme::label_of(s.theme@) is Some {
            s.theme@
        } else {
            "superhq-dark"@
        },
        None => "superhq-dark"@,
    }
}

/// An input that holds a number, with the cursor behind it.
pub open spec fn shows_number(input: TextInput, n: u64) -> bool {
    &&& input.fits()
    &&& input.content@ == text::decimal(n as nat)
    &&& input.start == text::byte_len(input.content@)
    &&& input.end == input.start
    &&& input.placeholder@ == Seq::<char>::empty()
    &&& input.is_idle()
    &&& !input.masked
    &&& !input.disabled
}

fn number_input(n: u64) -> (input: TextInput)
    ensures
        shows_number(input, n),
{
    let mut input = TextInput::new();
    let digits = text::decimal_text(n);
    input.set_value(digits);
    proof {
        text::lemma_ends_are_boundaries(Seq::<char>::empty());
        text::lemma_ends_are_boundaries(input.content@);
        text::lemma_byte_len_empty();
    }
    input
}

impl SettingsPanel {
    /// Opens the window. `required` names the secrets that the agents need, in any order and with
    /// repeats, `saved` those that have a value. Settings that could not be read take defaults.
    /// `own_agent` is the name of the agent that Anthropic makes itself.
    pub fn new(
        required: &Vec<String>,
        secrets: &Vec<Secret>,
        saved: &Vec<String>,
        settings: Option<StoredSettings>,
        own_agent: &str,
    ) -> (p: Self)
        ensures
            p.active_tab == SettingsTab::General,
            p.default_agent_id == (match settings {
                Some(s) => s.default_agent_id,
                None => None,
            }),
            p.auto_launch_agent == (match settings {
                Some(s) => s.auto_launch_agent,
                None => true,
            }),
            p.theme_id@ == chosen_theme(settings),
            shows_number(
                p.cpus,
                match settings {
                    Some(s) => s.sandbox_cpus,
                    None => 2,
                },
            ),
            shows_number(
                p.memory_mb,
                match settings {
                    Some(s) => s.sandbox_memory_mb,
                    None => 8192,
                },
            ),
            shows_number(
                p.disk_mb,
                match settings {
                    Some(s) => s.sandbox_disk_mb,
                    None => 16384,
                },
            ),
            providers::status_shows(p.oauth_status, providers::stored_status(secrets@)),
            !p.oauth_cancel,
            text_order::ascending(providers::row_names(p.secret_rows@)),
            forall|s: Seq<char>| #[trigger]
                providers::row_names(p.secret_rows@).contains(s) <==> text::views(
                    required@,
                ).contains(s),
            forall|i: int|
                0 <= i < p.secret_rows@.len() ==> providers::row_starts(
                    #[trigger] p.secret_rows@[i],
                    secrets@,
                    text::views(saved@),
                    own_agent@,
                ),
    {
        let names = text_order::sorted_distinct(required);
        let secret_rows = providers::make_rows(&names, secrets, saved, own_agent);
        let oauth_status = providers::initial_status(secrets);
        proof {
            assert(providers::row_names(secret_rows@) =~= text::views(names@));
        }
        match settings {
            Some(s) => {
                let known = text::same_text(s.theme.as_str(), theme::AUTO_THEME)
                    || theme::theme_entry(s.theme.as_str()).is_some();
                SettingsPanel {
                    active_tab: SettingsTab::General,
                    default_agent_id: s.default_agent_id,
                    auto_launch_agent: s.auto_launch_agent,
                    theme_id: if known {
                        s.theme
                    } else {
                        "superhq-dark".to_owned()
                    },
                    secret_rows,
                    cpus: number_input(s.sandbox_cpus),
                    memory_mb: number_input(s.sandbox_memory_mb),
                    disk_mb: number_input(s.sandbox_disk_mb),
                    oauth_status,
                    oauth_cancel: false,
                }
            },
            None => SettingsPanel {
                active_tab: SettingsTab::General,
                default_agent_id: None,
                auto_launch_agent: true,
                theme_id: "superhq-dark".to_owned(),
                secret_rows,
                cpus: number_input(2),
                memory_mb: number_input(8192),
                disk_mb: number_input(16384),
                oauth_status,
                oauth_cancel: false,
            },
        }
    }

    /// The list of pages, in which the one that is open stands out.
    pub fn nav(&self) -> (items: Vec<NavItem>)
        ensures
            items@.len() == 6,
            forall|i: int|
                0 <= i < 6 ==> {
                    let item = #[trigger] items@[i];
                    &&& item.tab == tab_at(i)
                    &&& item.label@ == tab_label(item.tab)
                    &&& (item.text_color, item.background) == (if item.tab == self.active_tab {
                        (ColorRole::TextSecondary, Some(ColorRole::BgSelected))
                    } else {
                        (ColorRole::TextDim, None)
                    })
                },
    {
        let tabs = SettingsTab::all();
        let mut items: Vec<NavItem> = Vec::new();
        let mut i: usize = 0;
        while i < tabs.len()
            invariant
                i <= tabs@.len() == 6,
                items@.len() == i,
                forall|j: int| 0 <= j < 6 ==> tabs@[j] == tab_at(j),
                forall|j: int|
                    0 <= j < i ==> {
                        let item = #[trigger] items@[j];
                        &&& item.tab == tab_at(j)
                        &&& item.label@ == tab_label(item.tab)
                        &&& (item.text_color, item.background) == (if item.tab
                            == self.active_tab {
                            (ColorRole::TextSecondary, Some(ColorRole::BgSelected))
                        } else {
                            (ColorRole::TextDim, None)
                        })
                    },
            decreases tabs@.len() - i,
        {
            let tab = tabs[i];
            let open = tab == self.active_tab;
            items.push(
                NavItem {
                    tab,
                    label: tab.label(),
                    text_color: if open {
                        ColorRole::TextSecondary
                    } else {
                        ColorRole::TextDim
                    },
                    background: if open {
                        Some(ColorRole::BgSelected)
                    } else {
                        None
                    },
                },
            );
            i += 1;
        }
        items
    }

    /// Something happens to the window.
    pub fn on_event(&mut self, event: WindowEvent) -> (action: WindowAction)
        ensures
            action == (match event {
                WindowEvent::ClickOutside | WindowEvent::CloseButton | WindowEvent::Cancel =>
                    WindowAction::Close,
                WindowEvent::Tab { shift: true } => WindowAction::FocusPrevious,
                WindowEvent::Tab { shift: false } => WindowAction::FocusNext,
                WindowEvent::Page(_) => WindowAction::Nothing,
            }),
            *final(self) == (match event {
                WindowEvent::Page(tab) => SettingsPanel { active_tab: tab, ..*old(self) },
                _ => *old(self),
            }),
    {
        match event {
            WindowEvent::ClickOutside | WindowEvent::CloseButton | WindowEvent::Cancel =>
                WindowAction::Close,
            WindowEvent::Tab { shift } => if shift {
                WindowAction::FocusPrevious
            } else {
                WindowAction::FocusNext
            },
            WindowEvent::Page(tab) => {
                self.select_tab(tab);
                WindowAction::Nothing
            },
        }
    }

    /// Goes to a page.
    pub fn select_tab(&mut self, tab: SettingsTab)
        ensures
            *final(self) == (SettingsPanel { active_tab: tab, ..*old(self) }),
    {
        self.active_tab = tab;
    }
}

/// The theme that is shown as chosen can always be chosen, and a stored one that can be is kept.
pub proof fn law_chosen_theme_is_known(settings: Option<StoredSettings>)
    ensures
        chosen_theme(settings) == theme::AUTO_THEME@ || theme::is_bundled(chosen_theme(settings)),
        settings matches Some(s) ==> (s.theme@ == theme::AUTO_THEME@ || theme::is_bundled(s.theme@)
            ==> chosen_theme(settings) == s.theme@),
{
}

/// Every page stands in the list once.
pub proof fn law_every_page_is_listed(tab: SettingsTab, i: int, j: int)
    ensures
        exists|k: int| 0 <= k < 6 && #[trigger] tab_at(k) == tab,
        0 <= i < 6 && 0 <= j < 6 && tab_at(i) == tab_at(j) ==> i == j,
{
    assert(tab_at(0) is General && tab_at(1) is Appearance && tab_at(2) is Secrets && tab_at(
        3,
    ) is Sandbox && tab_at(4) is Shortcuts && tab_at(5) is About);
}

/// An input that shows a number shows no other.
pub proof fn law_shown_number_is_one(input: TextInput, a: u64, b: u64)
    requires
        shows_number(input, a),
        shows_number(input, b),
    ensures
        a == b,
        input.start == text::byte_len(text::decimal(a as nat)),
{
    text::law_decimal_makes_up_the_number(a as nat);
    text::law_decimal_makes_up_the_number(b as nat);
}

} // verus!
