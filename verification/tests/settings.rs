use superhq::settings::pages::{
    about_rows, group_title, has_divider, shortcut, ShortcutGroup, ThemePreview,
};
use superhq::settings::providers::{
    provider_icon, secret_display_info, supports_oauth, LoginOutcome, OAuthStatus, Secret,
    SignInView,
};
use superhq::settings::{SettingsPanel, SettingsTab, StoredSettings, WindowAction, WindowEvent};
use superhq::terminal::panel::TerminalPanel;
use superhq::text_order::{comes_before, sorted_distinct};
use superhq::theme::{
    bundled, current, is_dark, load_theme, name_of, new_store, parse_hex_color, preview_palette,
    resolve_theme_id, rgb_bytes, theme_entry, theme_from_fields, theme_generation, themes,
    Appearance, Color, ColorRole, PreviewPalette, ThemeColors, ThemeField,
};

fn strings(items: &[&str]) -> Vec<String> {
    items.iter().map(|s| s.to_string()).collect()
}

fn secret(env_var: &str, method: &str) -> Secret {
    Secret { env_var: env_var.to_string(), auth_method: method.to_string() }
}

fn panel() -> SettingsPanel {
    SettingsPanel::new(
        &strings(&["OPENAI_API_KEY", "MY_KEY", "ANTHROPIC_API_KEY", "OPENAI_API_KEY"]),
        &vec![secret("ANTHROPIC_API_KEY", "api_key")],
        &strings(&["ANTHROPIC_API_KEY"]),
        None,
        "Vega",
    )
}

fn all_roles() -> Vec<ColorRole> {
    vec![
        ColorRole::BgBase,
        ColorRole::BgTerminal,
        ColorRole::TerminalForeground,
        ColorRole::TerminalCursor,
        ColorRole::BgSurface,
        ColorRole::BgElevated,
        ColorRole::BgHover,
        ColorRole::BgActive,
        ColorRole::BgSelected,
        ColorRole::BgInput,
        ColorRole::Border,
        ColorRole::BorderSubtle,
        ColorRole::BorderStrong,
        ColorRole::BorderFocus,
        ColorRole::Transparent,
        ColorRole::Accent,
        ColorRole::SelectionBg,
        ColorRole::TextPrimary,
        ColorRole::TextSecondary,
        ColorRole::TextTertiary,
        ColorRole::TextMuted,
        ColorRole::TextDim,
        ColorRole::TextGhost,
        ColorRole::TextFaint,
        ColorRole::TextInvisible,
        ColorRole::StatusGreenDim,
        ColorRole::StatusDim,
        ColorRole::AgentRunning,
        ColorRole::AgentNeedsInput,
        ColorRole::ErrorText,
        ColorRole::ErrorBg,
        ColorRole::ErrorBorder,
        ColorRole::DiffAddBg,
        ColorRole::DiffDelBg,
        ColorRole::DiffAddText,
        ColorRole::DiffDelText,
        ColorRole::DiffHunkHeader,
        ColorRole::ScrollbarThumb,
    ]
}

fn colors(base: &str) -> ThemeColors {
    let fields: Vec<ThemeField> = all_roles()
        .into_iter()
        .map(|r| ThemeField { name: name_of(r).to_string(), value: base.to_string() })
        .collect();
    theme_from_fields(&fields).unwrap()
}

#[test]
fn names_are_sorted_without_repeats() {
    assert_eq!(
        sorted_distinct(&strings(&["b", "a", "b", "", "ab", "B", "\u{e9}"])),
        strings(&["", "B", "a", "ab", "b", "\u{e9}"])
    );
    assert!(comes_before("a", "ab"));
    assert!(!comes_before("a", "a"));
    assert!(comes_before("Z", "a"));
}

#[test]
fn window_opens_with_defaults() {
    let p = panel();
    assert_eq!(p.active_tab, SettingsTab::General);
    assert!(p.auto_launch_agent);
    assert_eq!(p.theme_id, "superhq-dark");
    assert_eq!(p.cpus.value(), "2");
    assert_eq!(p.memory_mb.value(), "8192");
    assert_eq!(p.disk_mb.value(), "16384");
    assert!(matches!(p.oauth_status, OAuthStatus::Idle));
    let names: Vec<&str> = p.secret_rows.iter().map(|r| r.env_var.as_str()).collect();
    assert_eq!(names, vec!["ANTHROPIC_API_KEY", "MY_KEY", "OPENAI_API_KEY"]);
    assert_eq!(p.secret_rows[1].label, "Custom");
    assert_eq!(p.secret_rows[1].description, "Custom secret");
    assert_eq!(p.secret_rows[2].input.placeholder, "Enter OpenAI API key");
    assert!(p.secret_rows[2].input.masked);
    assert!(p.secret_rows[0].has_saved_value);
    assert!(!p.secret_rows[1].has_saved_value);
}

#[test]
fn window_opens_with_stored_settings() {
    let stored = |theme: &str| {
        Some(StoredSettings {
            sandbox_cpus: 4,
            sandbox_memory_mb: 1024,
            sandbox_disk_mb: 2048,
            default_agent_id: Some(3),
            auto_launch_agent: false,
            theme: theme.to_string(),
        })
    };
    let secrets = vec![secret("OPENAI_API_KEY", "oauth")];
    let p = SettingsPanel::new(
        &strings(&["OPENAI_API_KEY"]),
        &secrets,
        &strings(&["OPENAI_API_KEY"]),
        stored("auto"),
        "Vega",
    );
    assert_eq!(p.theme_id, "auto");
    assert_eq!(p.default_agent_id, Some(3));
    assert!(!p.auto_launch_agent);
    assert_eq!(p.cpus.value(), "4");
    assert_eq!(p.secret_rows[0].auth_method, "oauth");
    assert!(matches!(p.sign_in_view(), SignInView::SignedIn(s) if s == "Signed in as OpenAI account"));
    let p = SettingsPanel::new(&vec![], &vec![], &vec![], stored("neon"), "Vega");
    assert_eq!(p.theme_id, "superhq-dark");
    let p = SettingsPanel::new(&vec![], &vec![], &vec![], stored("washi"), "Vega");
    assert_eq!(p.theme_id, "washi");
}

#[test]
fn keys_are_saved_and_removed() {
    let mut p = panel();
    assert!(p.save_secret(2).is_none());
    p.secret_rows[2].input.set_value("sk-1".to_string());
    let save = p.save_secret(2).unwrap();
    assert_eq!((save.env_var.as_str(), save.label.as_str()), ("OPENAI_API_KEY", "OpenAI"));
    assert_eq!(save.value, "sk-1");
    p.oauth_status = OAuthStatus::Error("x".to_string());
    assert_eq!(p.secret_saved(2), "OpenAI key saved");
    assert!(p.secret_rows[2].has_saved_value);
    assert!(matches!(p.oauth_status, OAuthStatus::Idle));
    let v = p.secrets_view();
    assert_eq!(v[2].status, "Configured");
    assert!(v[2].can_remove && !v[2].asks_key && v[2].offers_sign_in);
    assert_eq!(v[2].subtitle, "OPENAI_API_KEY \u{b7} Codex, Pi");
    assert_eq!(v[1].status, "Not set");
    assert_eq!((v[1].dot_color, v[2].dot_color), (ColorRole::StatusDim, ColorRole::StatusGreenDim));
    assert!(v[1].asks_key && !v[1].can_remove && !v[1].offers_sign_in);
    assert_eq!(v[1].icon, None);
    assert_eq!(p.secret_removed(2), "OpenAI key removed");
    assert!(!p.secret_rows[2].has_saved_value);
    assert_eq!(p.secret_rows[2].input.value(), "");
    assert!(!p.secret_rows[2].input.masked);
}

#[test]
fn sign_in_runs_its_course() {
    let mut p = panel();
    assert!(matches!(p.sign_in_view(), SignInView::Offer));
    p.start_oauth_login();
    assert!(matches!(p.sign_in_view(), SignInView::Waiting));
    assert!(p.cancel_oauth_login());
    p.login_finished(LoginOutcome::Failed("cancelled".to_string()));
    assert!(matches!(p.oauth_status, OAuthStatus::Idle));
    assert!(!p.cancel_oauth_login());
    p.start_oauth_login();
    p.login_finished(LoginOutcome::Failed("timeout".to_string()));
    assert!(matches!(p.sign_in_view(), SignInView::Failed(e) if e == "timeout"));
    p.start_oauth_login();
    p.login_finished(LoginOutcome::NotSaved("disk".to_string()));
    assert!(matches!(p.sign_in_view(), SignInView::Failed(e) if e == "Failed to save: disk"));
    p.start_oauth_login();
    p.login_finished(LoginOutcome::Saved {
        email: Some("me@x.io".to_string()),
        plan: Some("plus".to_string()),
    });
    assert!(matches!(p.sign_in_view(), SignInView::SignedIn(s) if s == "Signed in as me@x.io (plus)"));
    assert_eq!(p.secret_rows[2].auth_method, "oauth");
    let v = p.secrets_view();
    assert_eq!(v[2].status, "OAuth");
    assert!(!v[2].can_remove && !v[2].asks_key);
    assert_eq!(p.sign_out(), Some(2));
    p.secret_removed(2);
    assert!(matches!(p.oauth_status, OAuthStatus::Idle));
    let none = SettingsPanel::new(&vec![], &vec![], &vec![], None, "Vega");
    assert_eq!(none.sign_out(), None);
}

#[test]
fn providers_are_known_by_their_key() {
    assert_eq!(secret_display_info("ANTHROPIC_API_KEY", "Vega"), ("Anthropic", "Vega, Pi".to_string()));
    assert_eq!(secret_display_info("OPENROUTER_API_KEY", "Vega"), ("OpenRouter", "Codex".to_string()));
    assert_eq!(secret_display_info("X", "Vega"), ("Custom", "Custom secret".to_string()));
    assert!(supports_oauth("OPENAI_API_KEY"));
    assert!(!supports_oauth("ANTHROPIC_API_KEY"));
    assert!(!supports_oauth("X"));
    assert_eq!(provider_icon("OPENAI_API_KEY"), Some("icons/providers/openai.svg"));
    assert_eq!(provider_icon("X"), None);
}

#[test]
fn pages_have_labels() {
    let labels: Vec<&str> = SettingsTab::all().iter().map(|t| t.label()).collect();
    assert_eq!(
        labels,
        vec!["General", "Appearance", "Providers", "Sandbox", "Shortcuts", "About"]
    );
    let mut p = panel();
    p.select_tab(SettingsTab::Secrets);
    assert_eq!(p.active_tab, SettingsTab::Secrets);
    let nav = p.nav();
    assert_eq!(nav[2].background, Some(ColorRole::BgSelected));
    assert_eq!(nav[1].background, None);
    assert_eq!((nav[5].label, nav[5].text_color), ("About", ColorRole::TextDim));
    assert_eq!(p.auto_launch_row().value, "On");
    assert_eq!(p.auto_launch_row().value_color, ColorRole::TextSecondary);
    assert!(!p.toggle_auto_launch());
    assert_eq!(p.auto_launch_row().value, "Off");
    assert_eq!(p.auto_launch_row().value_color, ColorRole::TextGhost);
    p.set_default_agent(Some(9));
    assert_eq!(p.default_agent_id, Some(9));
    let rows = about_rows("1.2");
    assert_eq!((rows[0].title, rows[0].value.as_str()), ("SuperHQ", "v1.2"));
    assert_eq!((rows[1].title, rows[1].value.as_str()), ("License", "Open source"));
    assert_eq!(rows[2].link, Some("https://superhq.ai"));
    assert!(has_divider(0, 2));
    assert!(!has_divider(1, 2));
    assert_eq!(group_title(ShortcutGroup::Tabs), "Tabs");
    assert_eq!(shortcut(ShortcutGroup::App, 0), Some(("Settings", "\u{2318},")));
    assert_eq!(shortcut(ShortcutGroup::Tabs, 4), Some(("Previous tab", "\u{2318}\u{21E7}[")));
    assert_eq!(shortcut(ShortcutGroup::Workspaces, 4), None);
}

#[test]
fn theme_cards_mark_the_chosen_one() {
    let mut p = panel();
    let dark: PreviewPalette = preview_palette("superhq-dark", Some(colors("#000000"))).unwrap();
    let light: PreviewPalette = preview_palette("superhq-light", Some(colors("#ffffff"))).unwrap();
    let cards = p.theme_cards(&vec![Some(light), Some(dark), None, None], light, dark);
    let marked: Vec<&str> = cards.iter().filter(|c| c.selected).map(|c| c.id).collect();
    assert_eq!(marked, vec!["superhq-dark"]);
    assert_eq!(cards[0].label, "Light");
    assert_eq!(cards[2].preview, ThemePreview::Solid(dark));
    assert_eq!(cards[4].preview, ThemePreview::Split { light, dark });
    assert_eq!(p.apply_theme("auto", Appearance::VibrantLight), "superhq-light");
    assert_eq!(p.theme_id, "auto");
    assert_eq!(p.apply_theme("sumi", Appearance::Light), "sumi");
    assert_eq!(p.apply_theme("none", Appearance::Light), "superhq-dark");
}

#[test]
fn hex_colours_are_read() {
    assert_eq!(parse_hex_color("#1a1b26"), Some(Color { r: 0x1a, g: 0x1b, b: 0x26, a: 255 }));
    assert_eq!(parse_hex_color("ffffff0a"), Some(Color { r: 255, g: 255, b: 255, a: 10 }));
    assert_eq!(parse_hex_color("##FFF000"), Some(Color { r: 255, g: 240, b: 0, a: 255 }));
    assert_eq!(parse_hex_color("#fff"), None);
    assert_eq!(parse_hex_color("#gg0000"), None);
    assert_eq!(parse_hex_color(""), None);
    let c = Color { r: 1, g: 2, b: 3, a: 4 };
    assert_eq!(rgb_bytes(c), (1, 2, 3));
}

#[test]
fn themes_are_loaded_and_resolved() {
    let mut store = new_store();
    let before = theme_generation(&store);
    assert!(!load_theme(&mut store, "neon", Some(colors("#000000"))));
    assert!(!load_theme(&mut store, "sumi", None));
    assert_eq!(theme_generation(&store), before);
    assert!(load_theme(&mut store, "sumi", Some(colors("#101010"))));
    assert_eq!(theme_generation(&store), before + 1);
    let now = current(&mut store, colors("#ffffff"));
    assert_eq!(now.bg_base, Color { r: 16, g: 16, b: 16, a: 255 });
    assert!(is_dark(&now));
    assert!(!is_dark(&colors("#ffffff")));
    let mut fresh = new_store();
    assert!(!is_dark(&current(&mut fresh, colors("#fafafa"))));
    assert_eq!(resolve_theme_id("auto", Appearance::Dark), "superhq-dark");
    assert_eq!(resolve_theme_id("washi", Appearance::Dark), "washi");
    assert_eq!(themes().len(), 4);
    assert_eq!(theme_entry("washi").map(|e| e.label), Some("Washi"));
    assert!(theme_entry("neon").is_none());
    assert!(bundled("superhq-light"));
}

#[test]
fn a_theme_needs_every_role() {
    let mut fields: Vec<ThemeField> = all_roles()
        .into_iter()
        .map(|r| ThemeField { name: name_of(r).to_string(), value: "#010203".to_string() })
        .collect();
    let full = theme_from_fields(&fields).unwrap();
    assert_eq!(full.get(ColorRole::ScrollbarThumb), Color { r: 1, g: 2, b: 3, a: 255 });
    fields.pop();
    assert!(theme_from_fields(&fields).is_none());
}

#[test]
fn window_closes_and_moves_the_focus() {
    let mut p = panel();
    assert_eq!(p.on_event(WindowEvent::ClickOutside), WindowAction::Close);
    assert_eq!(p.on_event(WindowEvent::Cancel), WindowAction::Close);
    assert_eq!(p.on_event(WindowEvent::CloseButton), WindowAction::Close);
    assert_eq!(p.on_event(WindowEvent::Tab { shift: true }), WindowAction::FocusPrevious);
    assert_eq!(p.on_event(WindowEvent::Tab { shift: false }), WindowAction::FocusNext);
    assert_eq!(p.active_tab, SettingsTab::General);
    assert_eq!(p.on_event(WindowEvent::Page(SettingsTab::About)), WindowAction::Nothing);
    assert_eq!(p.active_tab, SettingsTab::About);
}

#[test]
fn terminals_take_their_colours_from_the_theme() {
    let mut theme = colors("#010203");
    theme.terminal_foreground = Color { r: 4, g: 5, b: 6, a: 255 };
    theme.terminal_cursor = Color { r: 7, g: 8, b: 9, a: 255 };
    theme.scrollbar_thumb = Color { r: 1, g: 1, b: 1, a: 128 };
    let config = TerminalPanel::make_terminal_config(&theme);
    assert_eq!(config.font_family, "Menlo");
    assert_eq!((config.cols, config.rows, config.scrollback), (80, 24, 10000));
    assert_eq!(config.background, (1, 2, 3));
    assert_eq!(config.foreground, (4, 5, 6));
    assert_eq!(config.cursor, (7, 8, 9));
    assert_eq!(config.scrollbar_thumb, theme.scrollbar_thumb);
}
