use superhq::dialogs::environment::{
    load_env_rows, parse_hosts, EnvList, EnvRule, EnvironmentDialog, HostDefaults,
};
use superhq::dialogs::new_workspace::{DialogAction, DialogClick, NewWorkspaceDialog};
use superhq::dialogs::ports::{
    badge, expose_label, form_texts, forward_label, list_texts, parse_port, PortPair, PortsBody,
    PortsDialog, PortsView, Tab,
};
use superhq::settings::StoredSettings;
use superhq::setup::{step_view, DownloadMsg, Phase, SetupScreen, StepStatus};
use superhq::sidebar::workspace_item::{
    ItemAction, ItemEvent, LineCounts, WorkspaceInfo, WorkspaceItemView,
};
use superhq::theme::ColorRole;

fn owned(items: &[&str]) -> Vec<String> {
    items.iter().map(|s| s.to_string()).collect()
}

#[test]
fn ports_are_read_from_text() {
    assert_eq!(parse_port("3000"), Some(3000));
    assert_eq!(parse_port("  +80\t"), Some(80));
    assert_eq!(parse_port("65535"), Some(65535));
    assert_eq!(parse_port("65536"), None);
    assert_eq!(parse_port("99999999999999999999"), None);
    assert_eq!(parse_port("0"), None);
    assert_eq!(parse_port("0007"), Some(7));
    assert_eq!(parse_port(""), None);
    assert_eq!(parse_port("+"), None);
    assert_eq!(parse_port("-1"), None);
    assert_eq!(parse_port("80a"), None);
    assert_eq!(parse_port("8 0"), None);
}

#[test]
fn forms_ask_for_two_ports() {
    let mut d = PortsDialog::new(1);
    assert_eq!(d.submit(), None);
    d.show_add();
    assert_eq!(d.view, PortsView::AddForward);
    assert_eq!(d.placeholder_a, "e.g. 3000");
    assert_eq!(d.submit(), None);
    d.value_a = "3000".to_string();
    assert_eq!(d.submit(), Some(PortPair { guest_port: 3000, host_port: 3000 }));
    d.value_b = " 8080 ".to_string();
    assert_eq!(d.submit(), Some(PortPair { guest_port: 3000, host_port: 8080 }));
    d.value_b = "x".to_string();
    assert_eq!(d.submit(), None);
    assert!(!d.escape());
    assert_eq!(d.view, PortsView::List);
    d.switch_tab(Tab::ExposeHost);
    d.show_add();
    assert_eq!(d.placeholder_a, "e.g. 5432");
    assert_eq!(d.placeholder_b, "Defaults to same port");
    assert_eq!(d.value_a, "");
    d.value_a = "5432".to_string();
    d.value_b = "15432".to_string();
    assert_eq!(d.submit(), Some(PortPair { guest_port: 15432, host_port: 5432 }));
    d.cancel_add();
    assert!(d.escape());
}

#[test]
fn port_rows_have_labels() {
    let p = PortPair { guest_port: 3000, host_port: 80 };
    assert_eq!(forward_label(p), ":3000 \u{2192} localhost:80");
    assert_eq!(expose_label(p), "localhost:80 \u{2192} sandbox:3000");
    assert_eq!(badge(0), None);
    assert_eq!(badge(12), Some("12".to_string()));
    assert_eq!(list_texts(Tab::Forward).1, "No forwarded ports");
    assert_eq!(list_texts(Tab::ExposeHost).2, "Expose Port");
    assert!(form_texts(PortsView::List).is_none());
    assert_eq!(form_texts(PortsView::AddForward).unwrap().label_b, "Forward to");
    assert_eq!(form_texts(PortsView::AddExposeHost).unwrap().title, "Expose Host Port");
}

#[test]
fn dialog_shows_lists_and_forms() {
    let mut d = PortsDialog::new(1);
    let (a, b) = d.heads(0, 3).unwrap();
    assert_eq!((a.title, a.badge, a.underlined), ("Forward", None, true));
    assert_eq!((b.title, b.badge, b.underlined), ("Expose Host", Some("3".to_string()), false));
    assert_eq!(b.color, ColorRole::TextGhost);
    assert!(matches!(
        d.body(&vec![]),
        PortsBody::Empty { note: "No forwarded ports", button: "Forward Port" }
    ));
    d.switch_tab(Tab::ExposeHost);
    match d.body(&vec![PortPair { guest_port: 1, host_port: 2 }]) {
        PortsBody::Rows { rows, .. } => assert_eq!(rows, owned(&["localhost:2 \u{2192} sandbox:1"])),
        other => panic!("{:?}", other),
    }
    d.show_add();
    assert!(d.heads(0, 0).is_none());
    assert!(matches!(d.body(&vec![]), PortsBody::Form { .. }));
}

#[test]
fn workspace_needs_a_name() {
    let mut d = NewWorkspaceDialog::new();
    assert!(d.submit(false, None).is_none());
    d.name = "web".to_string();
    assert_eq!(d.mount_display().label, "None (scratch sandbox)");
    assert_eq!((d.mount_display().color, d.mount_display().can_clear), (ColorRole::TextGhost, false));
    let p = d.submit(true, None).unwrap();
    assert!(!p.is_git_repo);
    assert_eq!((p.sandbox_cpus, p.sandbox_memory_mb, p.sandbox_disk_mb), (2, 8192, 16384));
    d.set_mount(Some("/home/me/app".to_string()));
    assert_eq!(d.mount_display().label, "app");
    assert!(d.mount_display().can_clear);
    let s = StoredSettings {
        sandbox_cpus: 8,
        sandbox_memory_mb: 1,
        sandbox_disk_mb: 2,
        default_agent_id: None,
        auto_launch_agent: true,
        theme: "auto".to_string(),
    };
    let p = d.submit(true, Some(&s)).unwrap();
    assert_eq!(p.name, "web");
    assert_eq!(p.mount_path.as_deref(), Some("/home/me/app"));
    assert!(p.is_git_repo && p.mount_read_only);
    assert_eq!((p.sandbox_cpus, p.sandbox_memory_mb, p.sandbox_disk_mb), (8, 1, 2));
    d.set_mount(Some("/ends/".to_string()));
    assert_eq!(d.mount_display().label, "");
}

#[test]
fn dialog_answers_clicks_and_keys() {
    let mut d = NewWorkspaceDialog::new();
    assert_eq!(d.click(DialogClick::Browse), DialogAction::Browse);
    d.folders_chosen(&vec![]);
    assert_eq!(d.mount_path, None);
    d.folders_chosen(&vec!["/a".to_string(), "/b".to_string()]);
    assert_eq!(d.mount_path.as_deref(), Some("/a"));
    assert_eq!(d.click(DialogClick::Card), DialogAction::Nothing);
    assert_eq!(d.mount_path.as_deref(), Some("/a"));
    assert_eq!(d.click(DialogClick::Clear), DialogAction::Nothing);
    assert_eq!(d.mount_path, None);
    assert_eq!(d.click(DialogClick::Create), DialogAction::Submit);
    assert_eq!(d.click(DialogClick::Cancel), DialogAction::Dismiss);
    assert_eq!(d.click(DialogClick::Backdrop), DialogAction::Dismiss);
    assert_eq!(d.key_down("escape"), DialogAction::Dismiss);
    assert_eq!(d.key_down("enter"), DialogAction::Nothing);
}

#[test]
fn hosts_are_split_at_commas_and_blanks() {
    assert_eq!(parse_hosts("a.com, b.com\n c.com,,"), owned(&["a.com", "b.com", "c.com"]));
    assert!(parse_hosts(" , ").is_empty());
}

fn defaults() -> Vec<HostDefaults> {
    vec![HostDefaults { env_var: "OPENAI_API_KEY".to_string(), hosts: owned(&["api.openai.com"]) }]
}

fn environment() -> EnvironmentDialog {
    let rules = vec![
        EnvRule { env_var: "DB_URL".to_string(), proxied: false, hosts: owned(&["db", "db2"]) },
        EnvRule { env_var: "TOKEN".to_string(), proxied: true, hosts: vec![] },
    ];
    let rows = load_env_rows(&owned(&["TOKEN", "OPENAI_API_KEY", "DB_URL"]), &rules, &defaults());
    EnvironmentDialog::new(4, rows)
}

#[test]
fn variables_start_from_their_rules() {
    let d = environment();
    let rows: Vec<(&str, bool, &str)> = d
        .env_rows
        .iter()
        .map(|r| (r.env_var.as_str(), r.proxied, r.hosts_input.value()))
        .collect();
    assert_eq!(
        rows,
        vec![
            ("DB_URL", false, "db, db2"),
            ("OPENAI_API_KEY", true, "api.openai.com"),
            ("TOKEN", true, "*"),
        ]
    );
    assert_eq!(d.expanded_env.as_deref(), Some("DB_URL"));
    assert_eq!(EnvironmentDialog::new(1, vec![]).expanded_env, None);
}

#[test]
fn search_ignores_case() {
    let mut d = environment();
    assert_eq!(d.filtered_indices(), vec![0, 1, 2]);
    d.set_query("  o".to_string());
    assert_eq!(d.filtered_indices(), vec![1, 2]);
    d.set_query("url".to_string());
    match d.rows_view() {
        EnvList::Rows(rows) => {
            assert_eq!(rows.len(), 1);
            assert_eq!(rows[0].summary, "Direct env");
            assert!(rows[0].is_first && rows[0].is_last && rows[0].expanded);
            assert_eq!(rows[0].icon, "icons/files/chevron-down.svg");
            assert!(!rows[0].asks_hosts);
        }
        other => panic!("{:?}", other),
    }
    d.set_query("zzz".to_string());
    assert!(matches!(d.rows_view(), EnvList::Empty("No environment variables match your search.")));
    let none = EnvironmentDialog::new(1, vec![]);
    assert!(matches!(none.rows_view(), EnvList::Empty("No root .env file found for this workspace")));
}

#[test]
fn rows_open_and_change_mode() {
    let mut d = environment();
    d.toggle_row_expanded("TOKEN");
    assert_eq!(d.expanded_env.as_deref(), Some("TOKEN"));
    d.toggle_row_expanded("TOKEN");
    assert_eq!(d.expanded_env, None);
    d.choose_mode(0, true);
    d.choose_mode(0, true);
    assert!(d.env_rows[0].proxied);
    assert_eq!(d.row_view(0, true, false).summary, "Proxy \u{b7} 2 hosts");
    assert_eq!(d.row_view(1, false, false).summary, "Proxy \u{b7} 1 host");
    d.env_rows[1].hosts_input.set_value(String::new());
    assert_eq!(d.row_view(1, false, false).summary, "Proxy");
    d.toggle_env_proxy(0);
    assert!(!d.env_rows[0].proxied);
    d.toggle_env_proxy(99);
}

#[test]
fn saving_fills_in_hosts() {
    let mut d = environment();
    for i in 0..3 {
        d.env_rows[i].hosts_input.set_value(" , ".to_string());
    }
    let rules = d.save_environment(&defaults());
    assert_eq!(rules.len(), 3);
    assert!(rules[0].hosts.is_empty() && !rules[0].proxied);
    assert_eq!(rules[1].hosts, owned(&["api.openai.com"]));
    assert_eq!(rules[2].hosts, owned(&["*"]));
    assert_eq!(d.env_rows[0].hosts_input.value(), " , ");
    assert_eq!(d.env_rows[1].hosts_input.value(), "api.openai.com");
    assert_eq!(d.env_rows[2].hosts_input.value(), "*");
}

fn info() -> WorkspaceInfo {
    WorkspaceInfo {
        id: 7,
        name: "web".to_string(),
        mount_path: None,
        is_git_repo: false,
        branch_name: None,
        base_branch: Some("main".to_string()),
        pr_number: None,
        diff_stats: None,
        sandbox_cpus: 3,
        sandbox_memory_mb: 4,
        sandbox_disk_mb: 5,
        allowed_hosts: None,
        secrets_config: Some("{}".to_string()),
    }
}

#[test]
fn subtitle_tells_where_a_workspace_lives() {
    let mut v = WorkspaceItemView::new(info(), None, false, (0, 0));
    assert_eq!(v.subtitle(), "scratch sandbox");
    v.workspace.mount_path = Some("/home/me/app".to_string());
    assert_eq!(v.subtitle(), "/home/me/app \u{b7} no git");
    v.workspace.mount_path = Some("/a/path/that/is/longer/than/thirty".to_string());
    assert_eq!(v.subtitle(), ".../that/is/longer/than/thirty \u{b7} no git");
    v.workspace.is_git_repo = true;
    assert_eq!(v.subtitle(), "thirty");
    v.workspace.branch_name = Some("fix".to_string());
    v.workspace.pr_number = Some(12);
    assert_eq!(v.subtitle(), "thirty \u{b7} fix \u{b7} #12");
    v.cloned_from_name = Some("base".to_string());
    assert_eq!(v.subtitle(), "cloned from base");
}

#[test]
fn items_show_counts_and_badges() {
    let mut v = WorkspaceItemView::new(info(), None, false, (0, 0));
    assert_eq!(v.diff_label(), None);
    v.workspace.diff_stats = Some(LineCounts { additions: 0, deletions: 0 });
    assert_eq!(v.diff_label(), None);
    v.workspace.diff_stats = Some(LineCounts { additions: 12, deletions: 3 });
    assert_eq!(v.diff_label(), Some("+12 -3".to_string()));
    assert_eq!(v.badge(), None);
    v.badge_index = Some(2);
    assert_eq!(v.badge(), Some("\u{2318}2".to_string()));
    assert_eq!(v.view().menu, None);
    assert_eq!(v.view().name_color, ColorRole::TextSecondary);
    v.open_menu((4, 5));
    assert!(v.show_menu);
    assert_eq!(v.view().menu, Some((4, 5)));
    assert_eq!(v.menu_position, (4, 5));
    v.close_menu();
    assert!(!v.show_menu);
    let a = v.click().unwrap();
    assert_eq!((a.workspace_id, a.sandbox_path), (7, "/workspace"));
    v.is_active = true;
    assert!(v.click().is_none());
    assert_eq!(v.view().background, Some(ColorRole::BgActive));
    assert_eq!(v.view().subtitle, "scratch sandbox");
}

#[test]
fn items_answer_events() {
    let mut v = WorkspaceItemView::new(info(), None, false, 0);
    assert!(matches!(v.on_event(ItemEvent::RightClick(9)), ItemAction::Nothing));
    assert!(v.show_menu && v.menu_position == 9);
    assert!(matches!(v.on_event(ItemEvent::Key("a".to_string())), ItemAction::Nothing));
    assert!(v.show_menu);
    assert!(matches!(v.on_event(ItemEvent::Key("escape".to_string())), ItemAction::Nothing));
    assert!(!v.show_menu);
    v.open_menu(1);
    match v.on_event(ItemEvent::Duplicate) {
        ItemAction::Create(p) => assert_eq!(p.name, "web (copy)"),
        other => panic!("{:?}", other),
    }
    assert!(!v.show_menu);
    v.open_menu(1);
    assert!(matches!(v.on_event(ItemEvent::DeleteHeld), ItemAction::Delete(7)));
    assert!(matches!(v.on_event(ItemEvent::ClickOutside), ItemAction::Nothing));
    assert!(!v.show_menu);
    assert!(matches!(v.on_event(ItemEvent::Click), ItemAction::Activate(_)));
    v.is_active = true;
    assert!(matches!(v.on_event(ItemEvent::Click), ItemAction::Nothing));
}

#[test]
fn duplicates_keep_the_setup() {
    let v = WorkspaceItemView::new(info(), None, false, ());
    let p = v.do_duplicate();
    assert_eq!(p.name, "web (copy)");
    assert_eq!(p.base_branch.as_deref(), Some("main"));
    assert_eq!(p.secrets_config.as_deref(), Some("{}"));
    assert_eq!((p.sandbox_cpus, p.sandbox_memory_mb, p.sandbox_disk_mb), (3, 4, 5));
    assert!(p.mount_read_only);
    assert_eq!(p.cloned_from_id, None);
}

#[test]
fn setup_goes_through_its_steps() {
    let mut s = SetupScreen::new();
    assert_eq!(s.phase, Phase::Welcome);
    s.start_setup();
    assert_eq!(s.steps[0].label, "Downloading Shuru Runtime (0 MB)");
    assert_eq!(s.steps[0].status, StepStatus::Active);
    assert!(!s.on_message(DownloadMsg::Progress(5 * 1024 * 1024 + 7, Some(9 * 1024 * 1024))));
    assert_eq!(s.steps[0].label, "Downloading Shuru Runtime (5 / 9 MB)");
    s.on_message(DownloadMsg::Progress(1048575, None));
    assert_eq!(s.steps[0].label, "Downloading Shuru Runtime (0 MB)");
    s.on_message(DownloadMsg::Extracting);
    assert_eq!(s.steps[0].status, StepStatus::Done);
    assert_eq!(s.steps[1].status, StepStatus::Active);
    assert!(s.on_message(DownloadMsg::Done(Ok(()))));
    assert_eq!(s.steps[2].label, "Ready");
    assert!(s.before_render().is_none());
    s.settle();
    assert!(s.before_render().is_some());
    assert!(s.before_render().is_none());
}

#[test]
fn failed_setup_is_not_complete() {
    let mut s = SetupScreen::new();
    s.start_setup();
    s.on_message(DownloadMsg::Extracting);
    assert!(s.on_message(DownloadMsg::Done(Err("no space".to_string()))));
    assert_eq!(s.steps[0].status, StepStatus::Done);
    assert_eq!(s.steps[1].status, StepStatus::Failed);
    assert_eq!(s.steps[2].status, StepStatus::Pending);
    assert_eq!(s.error.as_deref(), Some("no space"));
    s.settle();
    assert!(s.before_render().is_none());
    let v = step_view(StepStatus::Failed);
    assert_eq!((v.mark, v.mark_color, v.breathes), ('\u{2717}', ColorRole::ErrorText, false));
    assert!(step_view(StepStatus::Active).breathes);
    assert_eq!(step_view(StepStatus::Done).label_color, ColorRole::TextGhost);
    assert_eq!(step_view(StepStatus::Pending).mark, '\u{25CB}');
}
