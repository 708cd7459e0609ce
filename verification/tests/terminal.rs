use superhq::terminal::boot::{
    agent_argv, check_event, color_hint, download_lost, exec_failure, gateway_env,
    install_resources, is_worth_saving, log_path, login_profile, progress_label, screen_event,
    shell_env, BootEvent, BootPhase, BootPlan, ExecResult, InstallOp, InstallStep, InstallWork,
};
use superhq::terminal::lifecycle::{CloseOutcome, MenuAction, MenuKey, RunningAgent};
use superhq::terminal::panel::{Agent, SideAction, TerminalPanel};
use superhq::terminal::session::{
    AgentStatus, SessionEvent, SetupStep, StepStatus, TabKind, TerminalTab, WorkspaceSession,
};
use superhq::terminal::view::{
    content_pane, no_workspace_note, pane_bar, pane_note, ports_label, tab_views, ContentPane,
};
use superhq::terminal::workspace::{
    display_label, setup_steps, Activation, OpenAgent, OpenOutcome, SavedTab, Workspace,
};
use superhq::theme::{Color, ColorRole};

fn words(items: &[&str]) -> Vec<String> {
    items.iter().map(|s| s.to_string()).collect()
}

fn agent(id: i64, name: &str) -> Agent {
    Agent {
        id,
        name: name.to_lowercase(),
        display_name: name.to_string(),
        command: format!("{} --go", name.to_lowercase()),
        color: Some("#ff0000".to_string()),
        icon: None,
        required_secrets: vec![],
    }
}

fn panel() -> TerminalPanel {
    TerminalPanel::new(vec![agent(1, "Vega"), agent(2, "Codex")])
}

fn workspace(id: i64) -> Workspace {
    Workspace {
        id,
        name: format!("ws{}", id),
        mount_path: Some("/m".to_string()),
        sandbox_checkpoint_name: None,
        initial_prompt: None,
    }
}

fn open(id: i64, name: &str) -> OpenAgent {
    OpenAgent {
        agent_id: id,
        agent_name: name.to_string(),
        agent_command: "run".to_string(),
        agent_color: None,
        icon_path: None,
        checkpoint_from: None,
        initial_prompt: None,
    }
}

fn booted(p: &mut TerminalPanel, ws: i64, name: &str, terminal: u64, sandbox: usize) -> u64 {
    match p.open_agent_tab(open(1, name), &vec![], true, vec![]) {
        OpenOutcome::Boot { request } => {
            p.terminal_attached(ws, request.tab_id, terminal, sandbox, false, true);
            p.setup_finished(ws, request.tab_id);
            request.tab_id
        }
        other => panic!("{:?}", other),
    }
}

fn active_panel() -> TerminalPanel {
    let mut p = panel();
    p.activate_workspace(&workspace(5), &vec![], None, false);
    p
}

fn session(p: &TerminalPanel, ws: i64) -> &WorkspaceSession {
    p.sessions.get(&ws).unwrap()
}

#[test]
fn statuses_speak_of_their_agents() {
    let one = words(&["Vega"]);
    let two = words(&["Vega", "Codex"]);
    assert_eq!(AgentStatus::Unknown.display_text(&one), None);
    assert_eq!(AgentStatus::Idle.display_text(&one).unwrap(), "Vega is ready");
    assert_eq!(AgentStatus::Idle.display_text(&vec![]).unwrap(), "Agent is ready");
    let running = AgentStatus::Running { tool: None };
    assert_eq!(running.display_text(&two).unwrap(), "Vega, Codex are running");
    let asks = AgentStatus::NeedsInput { message: Some(String::new()) };
    assert_eq!(asks.display_text(&one).unwrap(), "Vega is waiting for input");
    let says = AgentStatus::NeedsInput { message: Some("Allow?".to_string()) };
    assert_eq!(says.display_text(&two).unwrap(), "Allow?");
    assert!(says.priority() > running.priority());
    assert!(running.priority() > AgentStatus::Idle.priority());
}

#[test]
fn closing_a_tab_takes_its_shells_along() {
    let mut p = active_panel();
    let a = booted(&mut p, 5, "Vega", 100, 40);
    let request = p.open_shell_tab(a).unwrap();
    assert_eq!(request.sandbox, 40);
    let shell = request.tab_id;
    p.shell_opened(request, 101);
    let b = booted(&mut p, 5, "Codex", 102, 41);
    assert_eq!(session(&p, 5).tabs.len(), 3);
    assert!(matches!(p.request_close_tab(5, a), CloseOutcome::Asked));
    assert_eq!(p.pending_close, Some((5, a)));
    assert_eq!(
        p.close_question().unwrap(),
        "Close \u{201C}Vega\u{201D}? Sandbox will be stopped."
    );
    p.cancel_close();
    assert_eq!(p.close_question(), None);
    assert!(!p.force_close_tab(5, a));
    let left: Vec<u64> = session(&p, 5).tabs.iter().map(|t| t.tab_id).collect();
    assert_eq!(left, vec![b]);
    assert_ne!(shell, b);
    assert!(p.force_close_tab(5, b));
    assert!(session(&p, 5).tabs.is_empty());
    assert_eq!(p.get_active_sandbox(5), None);
    assert_eq!(p.notify_side_panel(5), SideAction::Deactivate);
}

#[test]
fn shells_close_without_a_question() {
    let mut p = active_panel();
    let a = booted(&mut p, 5, "Vega", 100, 40);
    let request = p.open_shell_tab(a).unwrap();
    let shell = request.tab_id;
    p.shell_opened(request, 101);
    assert!(matches!(p.request_close_tab(5, shell), CloseOutcome::Closed { deactivate: false }));
    assert_eq!(session(&p, 5).tabs.len(), 1);
    assert!(p.open_shell_tab(999).is_none());
    let (ws, host, mount) = p.open_host_shell_tab().unwrap();
    assert_eq!((ws, mount.as_deref()), (5, Some("/m")));
    p.host_shell_opened(ws, host, 7, Color { r: 0, g: 0, b: 0, a: 255 });
    assert!(matches!(session(&p, 5).tabs[1].kind, TabKind::HostShell));
}

#[test]
fn labels_count_agents_of_a_name() {
    let mut p = active_panel();
    booted(&mut p, 5, "Vega", 1, 1);
    booted(&mut p, 5, "Vega", 2, 2);
    let labels: Vec<&str> = session(&p, 5).tabs.iter().map(|t| t.label.as_str()).collect();
    assert_eq!(labels, vec!["Vega", "Vega (2)"]);
    let long = Some("please write a very long summary of it".to_string());
    assert_eq!(display_label(&long, "Vega", &vec![]), "please write a very long su...");
    let short = Some("fix it".to_string());
    assert_eq!(display_label(&short, "Vega", &vec![]), "fix it");
}

#[test]
fn missing_secrets_hold_an_agent_back() {
    let mut p = active_panel();
    let r = p.open_agent_tab(open(1, "Vega"), &words(&["Install"]), false, words(&["K1", "K2"]));
    let tab = match r {
        OpenOutcome::MissingSecrets { tab_id } => tab_id,
        other => panic!("{:?}", other),
    };
    assert_eq!(session(&p, 5).tabs[0].setup_error.as_deref(), Some("Missing: K1, K2"));
    assert_eq!(p.secrets_note().unwrap(), "Missing API key for Vega: K1, K2");
    assert!(p.on_settings_closed(words(&["K2"]), &words(&["Install"]), false).is_none());
    let boot = p.on_settings_closed(vec![], &words(&["Install"]), false).unwrap();
    assert_eq!(boot.tab_id, tab);
    assert!(p.missing_secrets_prompt.is_none());
    assert_eq!(session(&p, 5).tabs[0].setup_steps.as_ref().unwrap().len(), 4);
    assert!(p.dismiss_missing_secrets().is_none());
}

#[test]
fn opening_needs_a_workspace() {
    let mut p = panel();
    assert!(matches!(
        p.open_agent_tab(open(1, "Vega"), &vec![], true, vec![]),
        OpenOutcome::NoWorkspace
    ));
    assert!(p.open_host_shell_tab().is_none());
    assert!(p.close_active_tab().is_none());
    assert!(p.view(&vec![], 0, 0).is_none());
}

#[test]
fn activation_launches_or_restores() {
    let mut p = panel();
    match p.activate_workspace(&workspace(1), &vec![], Some(2), true) {
        Activation::Launch { agent } => {
            assert_eq!(agent.agent_name, "Codex");
            assert_eq!(agent.agent_color, Some(Color { r: 255, g: 0, b: 0, a: 255 }));
        }
        other => panic!("{:?}", other),
    }
    let saved = vec![SavedTab {
        id: 77,
        label: "Old".to_string(),
        agent_id: Some(1),
        checkpoint_name: Some("cp".to_string()),
    }];
    assert!(matches!(
        p.activate_workspace(&workspace(2), &saved, None, true),
        Activation::Restored
    ));
    let tab = &session(&p, 2).tabs[0];
    assert!(tab.is_stopped());
    assert_eq!(tab.tab_db_id, Some(77));
    assert_eq!(content_pane(session(&p, 2)), ContentPane::Stopped { tab_id: tab.tab_id });
    assert_eq!(p.active_workspace_name().as_deref(), Some("ws2"));
    assert!(matches!(
        p.activate_workspace(&workspace(1), &vec![], None, true),
        Activation::Focus { terminal: None }
    ));
    assert!(p.remove_session(1));
    assert!(!p.remove_session(2));
    assert!(p.sessions.is_empty());
}

#[test]
fn checkpoints_put_a_tab_aside() {
    let mut p = active_panel();
    let a = booted(&mut p, 5, "Vega", 100, 40);
    let request = p.open_shell_tab(a).unwrap();
    p.shell_opened(request, 101);
    let job = p.checkpoint_tab(5, a).unwrap();
    assert_eq!(job.name, format!("tab-vega-{}", a));
    assert_eq!(job.sandbox, 40);
    assert!(session(&p, 5).tabs[0].checkpointing);
    p.checkpoint_failed(5, a);
    assert!(!session(&p, 5).tabs[0].checkpointing);
    let job = p.checkpoint_tab(5, a).unwrap();
    p.checkpoint_saved(5, a, job.name, Some(9));
    assert_eq!(session(&p, 5).tabs.len(), 1);
    assert!(session(&p, 5).tabs[0].is_stopped());
    assert!(p.checkpoint_tab(5, a).is_none());
    let fork = p.fork_tab(5, a).unwrap();
    assert_eq!(fork.agent_command, "vega --go");
    assert_eq!(fork.checkpoint_from, Some(format!("tab-vega-{}", a)));
    assert_eq!(p.remove_stopped_tab(5, a).0, Some(9));
    assert!(session(&p, 5).tabs.is_empty());
}

#[test]
fn tabs_cycle_both_ways() {
    let mut p = active_panel();
    for i in 0..3u64 {
        booted(&mut p, 5, "Vega", 10 + i, i as usize);
    }
    assert_eq!(session(&p, 5).active_tab, 2);
    assert_eq!(p.next_tab(), Some(10));
    assert_eq!(session(&p, 5).active_tab, 0);
    assert_eq!(p.prev_tab(), Some(12));
    assert_eq!(session(&p, 5).active_tab, 2);
    let (focus, side) = p.activate_tab_by_index(1);
    assert_eq!(focus, Some(11));
    assert_eq!(side, SideAction::SandboxReady { key: 1 });
    p.activate_tab_by_index(7);
    assert_eq!(session(&p, 5).active_tab, 1);
}

#[test]
fn menu_mark_goes_around() {
    let mut p = active_panel();
    p.toggle_menu();
    assert!(p.show_agent_menu);
    let running = vec![RunningAgent { tab_id: 3, name: "Vega".to_string() }];
    let menu = p.menu_view(&running).unwrap();
    assert_eq!(menu.total, menu.shells.len() + menu.agents.len());
    let total = menu.total;
    assert_eq!(p.menu_key("up", total), MenuKey::Moved);
    assert_eq!(p.agent_menu_index, total - 1);
    assert_eq!(p.menu_key("down", total), MenuKey::Moved);
    assert_eq!(p.agent_menu_index, 0);
    assert_eq!(p.menu_key("x", total), MenuKey::Ignored);
    assert_eq!(p.menu_key("enter", total), MenuKey::Activate);
    match p.activate_agent_menu_item(&running) {
        MenuAction::OpenShell { tab_id } => assert_eq!(tab_id, 3),
        other => panic!("{:?}", other),
    }
    assert!(!p.show_agent_menu);
    p.toggle_menu();
    assert_eq!(p.menu_key("escape", total), MenuKey::Closed);
    p.close_menu();
    assert!(p.menu_view(&running).is_none());
}

#[test]
fn heaviest_status_is_shown() {
    let mut p = active_panel();
    let a = booted(&mut p, 5, "Vega", 1, 1);
    let b = booted(&mut p, 5, "Codex", 2, 2);
    p.set_agent_status(5, a, AgentStatus::Running { tool: None });
    p.set_agent_status(5, b, AgentStatus::NeedsInput { message: None });
    let (names, status) = p.workspace_agent_status(5);
    assert!(matches!(status, AgentStatus::NeedsInput { .. }));
    assert_eq!(names, words(&["Codex"]));
    let views = tab_views(session(&p, 5), true);
    assert_eq!(views[0].dot, Some(ColorRole::AgentRunning));
    assert_eq!(views[1].dot, Some(ColorRole::AgentNeedsInput));
    assert_eq!(views[1].badge.as_deref(), Some("\u{2303}2"));
    assert_eq!(views[1].background, Some(ColorRole::BgSelected));
    assert_eq!(views[0].background, None);
}

#[test]
fn preparation_shows_its_steps() {
    let mut p = active_panel();
    let labels = words(&["Node", "CLI"]);
    let tab = match p.open_agent_tab(open(1, "Vega"), &labels, false, vec![]) {
        OpenOutcome::Boot { request } => request.tab_id,
        other => panic!("{:?}", other),
    };
    assert_eq!(content_pane(session(&p, 5)), ContentPane::Setup { tab: 0 });
    assert_eq!(
        tab_views(session(&p, 5), false)[0].display_label,
        "Vega (initializing...)"
    );
    p.advance_step(5, tab, 0, 1);
    p.update_step_label(5, tab, 1, "Node (1/2 MB)".to_string());
    let steps = session(&p, 5).tabs[0].setup_steps.as_ref().unwrap();
    assert_eq!(steps[0].status, StepStatus::Done);
    assert_eq!(steps[1].status, StepStatus::Active);
    assert_eq!(steps[1].label, "Node (1/2 MB)");
    p.fail_setup(5, tab, 1, "boom".to_string(), Some("/log".to_string()));
    let t = &session(&p, 5).tabs[0];
    assert_eq!(t.setup_steps.as_ref().unwrap()[1].status, StepStatus::Failed);
    assert_eq!(t.setup_error.as_deref(), Some("boom \u{2014} logs saved to /log"));
    let plan: Vec<String> =
        setup_steps(true, &labels).into_iter().map(|s: SetupStep| s.label).collect();
    assert_eq!(
        plan,
        words(&["Preparing sandbox", "Node", "CLI", "Saving for next time", "Starting workspace"])
    );
    assert_eq!(setup_steps(false, &labels).len(), 1);
}

fn plan(steps: Vec<InstallStep>) -> BootPlan {
    BootPlan {
        steps,
        checkpoint_from: None,
        checkpoint_name: "agent-vega".to_string(),
        installed: false,
    }
}

fn cmd(s: &str) -> InstallOp {
    InstallOp::Cmd { command: s.to_string() }
}

#[test]
fn boot_installs_saves_and_starts() {
    let b = plan(vec![
        InstallStep {
            label: "Node".to_string(),
            skip_if: Some("which node".to_string()),
            work: InstallWork::Single { op: cmd("get node") },
        },
        InstallStep {
            label: "Empty".to_string(),
            skip_if: None,
            work: InstallWork::Group { ops: vec![] },
        },
        InstallStep {
            label: "CLI".to_string(),
            skip_if: None,
            work: InstallWork::Group { ops: vec![cmd("a"), cmd("b")] },
        },
    ]);
    let mut phase = b.begin();
    let mut seen = vec![phase];
    let mut shown = vec![];
    let mut first_check = true;
    while phase != BootPhase::Up {
        let event = if matches!(phase, BootPhase::Checking { .. }) && first_check {
            first_check = false;
            BootEvent::Failed
        } else {
            BootEvent::Done
        };
        let a = b.advance(phase, event);
        shown.extend(a.shown);
        phase = a.phase;
        seen.push(phase);
    }
    assert_eq!(
        seen,
        vec![
            BootPhase::PreparingSandbox,
            BootPhase::Checking { step: 0 },
            BootPhase::Installing { step: 0, op: 0 },
            BootPhase::Installing { step: 2, op: 0 },
            BootPhase::Installing { step: 2, op: 1 },
            BootPhase::WritingProfile,
            BootPhase::Saving,
            BootPhase::Stopping,
            BootPhase::StartingWorkspace,
            BootPhase::OpeningShell,
            BootPhase::WaitingForScreen,
            BootPhase::Up,
        ]
    );
    assert_eq!(shown, vec![(0, 1), (1, 2), (2, 3), (3, 4), (4, 5)]);
    assert_eq!(b.labels(), words(&["Node", "Empty", "CLI"]));
    assert_eq!(b.boot_source().as_deref(), Some("agent-vega"));
    assert!(matches!(b.op_at(2, 1), InstallOp::Cmd { command } if command == "b"));
}

#[test]
fn boot_fails_in_the_step_under_way() {
    let b = plan(vec![InstallStep {
        label: "CLI".to_string(),
        skip_if: None,
        work: InstallWork::Single { op: cmd("a") },
    }]);
    let fail = |p: BootPhase| b.advance(p, BootEvent::Failed).phase;
    assert_eq!(fail(BootPhase::PreparingSandbox), BootPhase::Failed { step: 0 });
    assert_eq!(fail(BootPhase::Installing { step: 0, op: 0 }), BootPhase::Failed { step: 1 });
    assert_eq!(fail(BootPhase::StartingWorkspace), BootPhase::Failed { step: 3 });
    assert_eq!(fail(BootPhase::Saving), BootPhase::Stopping);
    assert_eq!(fail(BootPhase::WaitingForScreen), BootPhase::WaitingForScreen);
    let ready = BootPlan { installed: true, ..plan(vec![]) };
    assert_eq!(ready.begin(), BootPhase::StartingWorkspace);
    assert_eq!(ready.boot_source(), None);
    assert_eq!(
        ready.advance(BootPhase::StartingWorkspace, BootEvent::Failed).phase,
        BootPhase::Failed { step: 0 }
    );
}

#[test]
fn failed_install_step_is_marked() {
    let step = |label: &str| InstallStep {
        label: label.to_string(),
        skip_if: None,
        work: InstallWork::Single { op: cmd(label) },
    };
    let b = plan(vec![step("Node"), step("CLI"), step("Tools")]);
    let mut p = active_panel();
    let tab = match p.open_agent_tab(open(1, "Vega"), &b.labels(), false, vec![]) {
        OpenOutcome::Boot { request } => request.tab_id,
        other => panic!("{:?}", other),
    };
    let mut phase = b.begin();
    for event in [BootEvent::Done, BootEvent::Done, BootEvent::Failed] {
        let next = b.advance(phase, event);
        for (done, following) in next.shown {
            p.advance_step(5, tab, done, following);
        }
        phase = next.phase;
    }
    assert_eq!(phase, BootPhase::Failed { step: 2 });
    p.fail_setup(5, tab, 2, "boom".to_string(), None);
    let steps = session(&p, 5).tabs[0].setup_steps.as_ref().unwrap();
    let statuses: Vec<StepStatus> = steps.iter().map(|s| s.status).collect();
    assert_eq!(
        statuses,
        vec![
            StepStatus::Done,
            StepStatus::Done,
            StepStatus::Failed,
            StepStatus::Pending,
            StepStatus::Pending,
            StepStatus::Pending,
        ]
    );
    assert_eq!(b.advance(phase, BootEvent::Done).phase, phase);
    assert!(b.advance(phase, BootEvent::Failed).shown.is_empty());
}

#[test]
fn commands_report_their_failure() {
    let result = |code: i32| {
        Ok(ExecResult { exit_code: code, stdout: "out".to_string(), stderr: "err".to_string() })
    };
    assert_eq!(exec_failure(result(0)), None);
    assert_eq!(exec_failure(result(-2)).unwrap(), "exit code -2 \u{2014} outerr");
    assert_eq!(exec_failure(Err("gone".to_string())).unwrap(), "gone");
    assert_eq!(check_event(Some(0)), BootEvent::Done);
    assert_eq!(check_event(Some(1)), BootEvent::Failed);
    assert_eq!(check_event(None), BootEvent::Failed);
    assert_eq!(progress_label("Get", 3 << 20, Some(10 << 20)), "Get (3/10 MB)");
    assert_eq!(progress_label("Get", 1 << 20, None), "Get (1 MB)");
    assert_eq!(download_lost(false), "download channel closed");
    assert_eq!(install_resources(None, Some(1)), (8192, 1));
    assert_eq!(login_profile(), "[ -f ~/.bashrc ] && . ~/.bashrc\n");
    assert!(!is_worth_saving(" \n"));
    assert_eq!(log_path("/h", 3, 99), "/h/.local/share/superhq/logs/setup-3-99.log");
    assert_eq!(agent_argv("  vega  --go "), words(&["vega", "--go"]));
    assert_eq!(screen_event(false, 9999), BootEvent::Failed);
    assert_eq!(screen_event(false, 10000), BootEvent::Done);
    assert_eq!(screen_event(true, 0), BootEvent::Done);
}

#[test]
fn environments_are_set_up() {
    let pairs: Vec<(String, String)> = gateway_env(
        &Some("BASE".to_string()),
        8080,
        "oauth",
        &Some("jwt".to_string()),
    )
    .into_iter()
    .map(|v| (v.name, v.value))
    .collect();
    let url = "http://host.shuru.internal:8080/v1".to_string();
    assert_eq!(
        pairs,
        vec![
            ("BASE".to_string(), url.clone()),
            ("_GATEWAY_BASE_URL".to_string(), url),
            ("_GATEWAY_AUTH_METHOD".to_string(), "oauth".to_string()),
            ("_GATEWAY_STUB_JWT".to_string(), "jwt".to_string()),
        ]
    );
    assert_eq!(gateway_env(&None, 1, "api_key", &Some("jwt".to_string())).len(), 2);
    assert_eq!(color_hint(true), "15;0");
    let vars = shell_env(false);
    assert_eq!(vars[0].value, "xterm-256color");
    assert_eq!(vars[2].value, "0;15");
}

fn bare_tab(id: u64) -> TerminalTab {
    TerminalTab {
        tab_id: id,
        label: format!("t{}", id),
        terminal: None,
        setup_steps: None,
        setup_error: None,
        agent_color: None,
        icon_path: None,
        kind: TabKind::HostShell,
        agent_status: AgentStatus::Unknown,
        event_service: false,
        checkpointing: false,
        checkpoint_name: None,
        tab_db_id: None,
    }
}

#[test]
fn sessions_keep_the_active_tab_inside() {
    let mut s = WorkspaceSession::new(1, "w".to_string(), None);
    for id in [1u64, 2, 3] {
        assert_eq!(s.add_tab(bare_tab(id)), SessionEvent::TabAdded { tab_id: id });
    }
    assert_eq!(s.active_tab, 2);
    assert_eq!(s.activate_tab(0), Some(SessionEvent::TabActivated { tab_id: 1 }));
    assert_eq!(s.activate_tab(9), None);
    s.move_tab(0, 2);
    let order: Vec<u64> = s.tabs.iter().map(|t| t.tab_id).collect();
    assert_eq!(order, vec![2, 3, 1]);
    assert_eq!(s.active_tab_ref().map(|t| t.tab_id), Some(1));
    let events = s.remove_tab(1);
    assert!(events.contains(&SessionEvent::TabRemoved { tab_id: 1 }));
    assert!(s.active_tab < s.tabs.len());
    assert_eq!(s.position(3), Some(1));
    s.find_tab_mut(3).unwrap().label = "new".to_string();
    assert_eq!(s.tabs[1].label, "new");
    assert!(s.find_tab_mut(9).is_none());
    assert_eq!(s.position(1), None);
    assert!(!s.has_sandbox());
    assert_eq!(s.sandbox_ready(3), SessionEvent::SandboxReady { tab_id: 3 });
}

#[test]
fn panes_say_what_they_lack() {
    assert_eq!(pane_note(ContentPane::Empty), Some("Click + to open an agent"));
    assert_eq!(pane_note(ContentPane::Saving), Some("Saving checkpoint\u{2026}"));
    assert_eq!(pane_note(ContentPane::Stopped { tab_id: 1 }), Some("Sandbox stopped"));
    assert_eq!(pane_note(ContentPane::Terminal { terminal: 1 }), None);
    let bar = pane_bar(ContentPane::Stopped { tab_id: 1 }).unwrap();
    assert_eq!(
        (bar.note, bar.go_on, bar.remove),
        ("Checkpointed. Sandbox stopped.", "Fork & Continue", "Remove")
    );
    assert!(pane_bar(ContentPane::Saving).is_none());
    assert_eq!(
        no_workspace_note(),
        ("No workspace selected", "Create one from the sidebar to get started")
    );
    assert_eq!(ports_label(false, 1, 1), None);
    assert_eq!(ports_label(true, 1, 2), Some("Ports: 3".to_string()));
    assert_eq!(ports_label(true, 0, 0), Some("Ports".to_string()));
    let p = active_panel();
    let v = p.view(&vec![], 2, 0).unwrap();
    assert!(v.tabs.is_empty());
    assert_eq!(v.pane, ContentPane::Empty);
    assert_eq!(v.ports, None);
}
