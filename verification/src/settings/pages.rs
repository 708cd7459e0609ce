//! What the pages of the settings show: general, appearance, shortcuts, about.

use crate::settings::SettingsPanel;
use crate::text;
use crate::theme;
use crate::theme::{Appearance, ColorRole, PreviewPalette};
use vstd::prelude::*;

verus! {

/// The preview on the card of a theme.
#[derive(Clone, Copy, Debug, PartialEq, Eq, Structural)]
pub enum ThemePreview {
    Solid(PreviewPalette),
    /// Half light, half dark, for the theme that follows the system.
    Split { light: PreviewPalette, dark: PreviewPalette },
}

/// The card of a theme.
#[derive(Debug)]
pub struct ThemeCard {
    pub id: &'static str,
    pub label: &'static str,
    pub selected: bool,
    pub preview: ThemePreview,
}

/// A group of shortcuts.
#[derive(Clone, Copy, Debug, PartialEq, Eq, Structural)]
pub enum ShortcutGroup {
    Workspaces,
    Tabs,
    App,
}

/// A row of a card, with what stands at its right end.
#[derive(Debug)]
pub struct SettingsRow {
    pub title: &'static str,
    pub description: &'static str,
    pub value: String,
    pub value_color: ColorRole,
    /// The page that a click on the value opens.
    pub link: Option<&'static str>,
}

/// A row says that.
pub open spec fn row_says(
    row: SettingsRow,
    title: Seq<char>,
    description: Seq<char>,
    value: Seq<char>,
    color: ColorRole,
) -> bool {
    &&& row.title@ == title
    &&& row.description@ == description
    &&& row.value@ == value
    &&& row.value_color == color
}

impl SettingsPanel {
    /// Another agent was chosen as the default.
    pub fn set_default_agent(&mut self, agent: Option<i64>)
        ensures
            *final(self) == (SettingsPanel { default_agent_id: agent, ..*old(self) }),
    {
        self.default_agent_id = agent;
    }

    /// Turns the automatic launch over, and returns what to store.
    pub fn toggle_auto_launch(&mut self) -> (on: bool)
        ensures
            on == !old(self).auto_launch_agent,
            *final(self) == (SettingsPanel { auto_launch_agent: on, ..*old(self) }),
    {
        self.auto_launch_agent = !self.auto_launch_agent;
        self.auto_launch_agent
    }

    /// The row that turns the automatic launch on and off.
    pub fn auto_launch_row(&self) -> (row: SettingsRow)
        ensures
            row_says(
                row,
                "Auto-launch agent"@,
                "Automatically start the default agent when opening a workspace"@,
                if self.auto_launch_agent {
                    "On"@
                } else {
                    "Off"@
                },
                if self.auto_launch_agent {
                    ColorRole::TextSecondary
                } else {
                    ColorRole::TextGhost
                },
            ),
            row.link is None,
    {
        SettingsRow {
            title: "Auto-launch agent",
            description: "Automatically start the default agent when opening a workspace",
            value: if self.auto_launch_agent {
                "On".to_owned()
            } else {
                "Off".to_owned()
            },
            value_color: if self.auto_launch_agent {
                ColorRole::TextSecondary
            } else {
                ColorRole::TextGhost
            },
            link: None,
        }
    }

    /// Takes a theme for chosen, and returns which theme that is under the system's setting.
    pub fn apply_theme(&mut self, id: &str, appearance: Appearance) -> (resolved: String)
        ensures
            final(self).theme_id@ == id@,
            *final(self) == (SettingsPanel { theme_id: final(self).theme_id, ..*old(self) }),
            resolved@ == (if id@ == theme::AUTO_THEME@ {
                match appearance {
                    Appearance::Dark | Appearance::VibrantDark => "superhq-dark"@,
                    Appearance::Light | Appearance::VibrantLight => "superhq-light"@,
                }
            } else if theme::is_bundled(id@) {
                id@
            } else {
                "superhq-dark"@
            }),
            theme::is_bundled(resolved@),
    {
        self.theme_id = id.to_owned();
        theme::resolve_theme_id(id, appearance).to_owned()
    }

    /// The cards of the themes, and last that of the theme that follows the system. `previews`
    /// holds the previews of the themes in the order of the picker, where they could be read.
    pub fn theme_cards(
        &self,
        previews: &Vec<Option<PreviewPalette>>,
        light: PreviewPalette,
        dark: PreviewPalette,
    ) -> (cards: Vec<ThemeCard>)
        requires
            previews@.len() == 4,
        ensures
            cards@.len() == 5,
            cards@[0].id@ == "superhq-light"@,
            cards@[1].id@ == "superhq-dark"@,
            cards@[2].id@ == "washi"@,
            cards@[3].id@ == "sumi"@,
            cards@[4].id@ == theme::AUTO_THEME@,
            cards@[4].label@ == "Auto"@,
            cards@[4].preview == (ThemePreview::Split { light, dark }),
            forall|i: int|
                0 <= i < 4 ==> {
                    &&& theme::label_of((#[trigger] cards@[i]).id@) == Some(cards@[i].label@)
                    &&& cards@[i].preview == ThemePreview::Solid(
                        match previews@[i] {
                            Some(p) => p,
                            None => dark,
                        },
                    )
                },
            forall|i: int|
                0 <= i < 5 ==> (#[trigger] cards@[i]).selected == (cards@[i].id@ == self.theme_id@),
    {
        let themes = theme::themes();
        let mut cards: Vec<ThemeCard> = Vec::new();
        let mut i: usize = 0;
        while i < 4
            invariant
                i <= 4,
                themes@.len() == 4,
                previews@.len() == 4,
                cards@.len() == i,
                forall|j: int|
                    0 <= j < 4 ==> theme::label_of((#[trigger] themes@[j]).id@) == Some(
                        themes@[j].label@,
                    ),
                forall|j: int|
                    0 <= j < i ==> {
                        &&& (#[trigger] cards@[j]).id == themes@[j].id
                        &&& cards@[j].label == themes@[j].label
                        &&& cards@[j].selected == (cards@[j].id@ == self.theme_id@)
                        &&& cards@[j].preview == ThemePreview::Solid(
                            match previews@[j] {
                                Some(p) => p,
                                None => dark,
                            },
                        )
                    },
            decreases 4 - i,
        {
            let entry = themes[i];
            let palette = match previews[i] {
                Some(p) => p,
                None => dark,
            };
            cards.push(
                ThemeCard {
                    id: entry.id,
                    label: entry.label,
                    selected: text::same_text(self.theme_id.as_str(), entry.id),
                    preview: ThemePreview::Solid(palette),
                },
            );
            i += 1;
        }
        cards.push(
            ThemeCard {
                id: theme::AUTO_THEME,
                label: "Auto",
                selected: text::same_text(self.theme_id.as_str(), theme::AUTO_THEME),
                preview: ThemePreview::Split { light, dark },
            },
        );
        cards
    }
}

/// The title of a group of shortcuts.
pub fn group_title(group: ShortcutGroup) -> (s: &'static str)
    ensures
        s@ == (match group {
            ShortcutGroup::Workspaces => "Workspaces"@,
            ShortcutGroup::Tabs => "Tabs"@,
            ShortcutGroup::App => "App"@,
        }),
{
    match group {
        ShortcutGroup::Workspaces => "Workspaces",
        ShortcutGroup::Tabs => "Tabs",
        ShortcutGroup::App => "App",
    }
}

/// What a shortcut of a group does and its keys, by its place in the group.
pub open spec fn shortcut_at(group: ShortcutGroup, i: int) -> Option<(Seq<char>, Seq<char>)> {
    match group {
        ShortcutGroup::Workspaces => if i == 0 {
            Some(("New workspace"@, "\u{2318}N"@))
        } else if i == 1 {
            Some(("Switch workspace 1\u{2013}9"@, "\u{2318}1\u{2013}9"@))
        } else if i == 2 {
            Some(("Next workspace"@, "\u{2303}\u{2318}]"@))
        } else if i == 3 {
            Some(("Previous workspace"@, "\u{2303}\u{2318}["@))
        } else {
            None
        },
        ShortcutGroup::Tabs => if i == 0 {
            Some(("New agent tab"@, "\u{2318}T"@))
        } else if i == 1 {
            Some(("Close tab"@, "\u{2318}W"@))
        } else if i == 2 {
            Some(("Switch tab 1\u{2013}9"@, "\u{2303}1\u{2013}9"@))
        } else if i == 3 {
            Some(("Next tab"@, "\u{2318}\u{21E7}]"@))
        } else if i == 4 {
            Some(("Previous tab"@, "\u{2318}\u{21E7}["@))
        } else {
            None
        },
        ShortcutGroup::App => if i == 0 {
            Some(("Settings"@, "\u{2318},"@))
        } else if i == 1 {
            Some(("Toggle review panel"@, "\u{2318}B"@))
        } else if i == 2 {
            Some(("Toggle sidebar"@, "\u{2318}\u{21E7}B"@))
        } else if i == 3 {
            Some(("Ports"@, "\u{2318}\u{21E7}P"@))
        } else {
            None
        },
    }
}

/// What a shortcut of a group does and its keys.
pub fn shortcut(group: ShortcutGroup, i: usize) -> (r: Option<(&'static str, &'static str)>)
    ensures
        match shortcut_at(group, i as int) {
            Some((what, keys)) => r matches Some((w, k)) && w@ == what && k@ == keys,
            None => r is None,
        },
{
    match group {
        ShortcutGroup::Workspaces => match i {
            0 => Some(("New workspace", "\u{2318}N")),
            1 => Some(("Switch workspace 1\u{2013}9", "\u{2318}1\u{2013}9")),
            2 => Some(("Next workspace", "\u{2303}\u{2318}]")),
            3 => Some(("Previous workspace", "\u{2303}\u{2318}[")),
            _ => None,
        },
        ShortcutGroup::Tabs => match i {
            0 => Some(("New agent tab", "\u{2318}T")),
            1 => Some(("Close tab", "\u{2318}W")),
            2 => Some(("Switch tab 1\u{2013}9", "\u{2303}1\u{2013}9")),
            3 => Some(("Next tab", "\u{2318}\u{21E7}]")),
            4 => Some(("Previous tab", "\u{2318}\u{21E7}[")),
            _ => None,
        },
        ShortcutGroup::App => match i {
            0 => Some(("Settings", "\u{2318},")),
            1 => Some(("Toggle review panel", "\u{2318}B")),
            2 => Some(("Toggle sidebar", "\u{2318}\u{21E7}B")),
            3 => Some(("Ports", "\u{2318}\u{21E7}P")),
            _ => None,
        },
    }
}

/// The rows of the page about the program.
pub fn about_rows(version: &str) -> (rows: Vec<SettingsRow>)
    ensures
        rows@.len() == 3,
        row_says(
            rows@[0],
            "SuperHQ"@,
            "Sandboxed AI agent orchestration"@,
            "v"@ + version@,
            ColorRole::TextMuted,
        ),
        rows@[0].link is None,
        row_says(
            rows@[1],
            "License"@,
            "AGPL-3.0-only"@,
            "Open source"@,
            ColorRole::TextMuted,
        ),
        rows@[1].link is None,
        row_says(
            rows@[2],
            "Website"@,
            "Learn more about SuperHQ"@,
            "superhq.ai"@,
            ColorRole::TextSecondary,
        ),
        rows@[2].link matches Some(url) && url@ == "https://superhq.ai"@,
{
    let mut label = "v".to_owned();
    label.append(version);
    let mut rows: Vec<SettingsRow> = Vec::new();
    rows.push(
        SettingsRow {
            title: "SuperHQ",
            description: "Sandboxed AI agent orchestration",
            value: label,
            value_color: ColorRole::TextMuted,
            link: None,
        },
    );
    rows.push(
        SettingsRow {
            title: "License",
            description: "AGPL-3.0-only",
            value: "Open source".to_owned(),
            value_color: ColorRole::TextMuted,
            link: None,
        },
    );
    rows.push(
        SettingsRow {
            title: "Website",
            description: "Learn more about SuperHQ",
            value: "superhq.ai".to_owned(),
            value_color: ColorRole::TextSecondary,
            link: Some("https://superhq.ai"),
        },
    );
    rows
}

/// Whether a line is drawn below a row of a card: below each but the last.
pub fn has_divider(row: usize, count: usize) -> (r: bool)
    requires
        row < count,
    ensures
        r == (row + 1 < count),
{
    row < count - 1
}

} // verus!
