use grok_team::panel::{
    format_row, visible_row_indices, KeyCode, KeyEvent, LineKind, TeamActivity, TeamPanel,
    TeamPanelKey, TeamPanelRow, TeamSnapshot, TeamTaskSummary, IDLE_COLLAPSE_AFTER,
};

fn row(name: &str, activity: TeamActivity, pending: bool) -> TeamPanelRow {
    TeamPanelRow {
        name: name.into(),
        is_lead: name == "lead",
        activity,
        unread: 0,
        session_id: if pending { None } else { Some(format!("sess-{name}")) },
        spawn_pending: pending,
    }
}

const NOW: u64 = 1_000_000;

#[test]
fn desired_height_zero_without_teammates() {
    let mut p = TeamPanel::new();
    p.rows = vec![row("lead", TeamActivity::Idle, false)];
    assert_eq!(p.desired_height(24, NOW), 0);
    p.rows.clear();
    assert_eq!(p.desired_height(24, NOW), 0);
}

#[test]
fn desired_height_counts_header_rows_footer() {
    let mut p = TeamPanel::new();
    p.rows = vec![
        row("lead", TeamActivity::Idle, false),
        row("critic", TeamActivity::Working, false),
    ];
    // header + 1 teammate + footer
    assert_eq!(p.desired_height(24, NOW), 3);
}

#[test]
fn idle_rows_stay_while_anyone_is_working() {
    let rows = vec![
        row("lead", TeamActivity::Idle, false),
        row("critic", TeamActivity::Working, false),
        row("researcher", TeamActivity::Idle, false),
    ];
    let vis = visible_row_indices(&rows, None, NOW);
    assert_eq!(vis, vec![1, 2]);
}

#[test]
fn idle_rows_collapse_after_30s() {
    let rows = vec![
        row("lead", TeamActivity::Idle, false),
        row("critic", TeamActivity::Idle, false),
    ];
    let start = NOW;
    let later = start + IDLE_COLLAPSE_AFTER + 1;
    let vis = visible_row_indices(&rows, Some(start), later);
    assert!(vis.is_empty(), "idle teammates should hide: {vis:?}");
}

#[test]
fn pending_spawn_never_collapses() {
    let rows = vec![
        row("lead", TeamActivity::Idle, false),
        row("critic", TeamActivity::Pending, true),
    ];
    let start = NOW;
    let later = start + IDLE_COLLAPSE_AFTER + 5_000;
    let vis = visible_row_indices(&rows, Some(start), later);
    assert_eq!(vis, vec![1]);
}

#[test]
fn arrows_skip_hidden_lead_row() {
    let mut p = TeamPanel::new();
    p.rows = vec![
        row("lead", TeamActivity::Idle, false),
        row("a", TeamActivity::Working, false),
        row("b", TeamActivity::Idle, false),
    ];
    p.selected = 1;
    p.handle_key(&KeyEvent::plain(KeyCode::Down), NOW);
    assert_eq!(p.selected, 2);
    p.handle_key(&KeyEvent::plain(KeyCode::Up), NOW);
    assert_eq!(p.selected, 1);
    match p.handle_key(&KeyEvent::plain(KeyCode::Enter), NOW) {
        TeamPanelKey::Open { session_id } => assert_eq!(session_id, "sess-a"),
        other => panic!("expected Open, got {other:?}"),
    }
}

#[test]
fn x_interrupts_only_working() {
    let mut p = TeamPanel::new();
    p.rows = vec![
        row("lead", TeamActivity::Idle, false),
        row("a", TeamActivity::Idle, false),
    ];
    p.selected = 1;
    assert_eq!(p.handle_key(&KeyEvent::plain(KeyCode::Char('x')), NOW), TeamPanelKey::Ignored);
    p.rows[1].activity = TeamActivity::Working;
    match p.handle_key(&KeyEvent::plain(KeyCode::Char('x')), NOW) {
        TeamPanelKey::Interrupt { session_id } => assert_eq!(session_id, "sess-a"),
        other => panic!("expected Interrupt, got {other:?}"),
    }
}

#[test]
fn apply_snapshot_zero_and_one_and_n() {
    let mut p = TeamPanel::new();
    let now = NOW;
    p.apply_snapshot(None, now);
    assert!(!p.is_visible(now));

    p.apply_snapshot(
        Some(TeamSnapshot {
            team_id: "session-deadbeef".into(),
            rows: vec![
                row("lead", TeamActivity::Idle, false),
                row("critic", TeamActivity::Pending, true),
            ],
            tasks: vec![],
            unread_total: 0,
        }),
        now,
    );
    assert!(p.is_visible(now));
    assert_eq!(p.desired_height(24, now), 3);

    p.apply_snapshot(
        Some(TeamSnapshot {
            team_id: "session-deadbeef".into(),
            rows: vec![
                row("lead", TeamActivity::Idle, false),
                row("critic", TeamActivity::Working, false),
                row("researcher", TeamActivity::Blocked, false),
                row("writer", TeamActivity::Idle, false),
            ],
            tasks: vec![],
            unread_total: 2,
        }),
        now,
    );
    assert_eq!(visible_row_indices(&p.rows, p.last_all_idle_at, now).len(), 3);
    assert_eq!(p.unread_total, 2);
}

#[test]
fn labels_and_classes() {
    assert_eq!(TeamActivity::Pending.label(), "pending");
    assert_eq!(TeamActivity::Done.label(), "done");
    assert!(TeamActivity::Blocked.is_busy());
    assert!(!TeamActivity::Idle.is_busy());
    assert!(TeamActivity::Done.is_idle_like());
    assert!(!TeamActivity::Working.is_idle_like());
}

#[test]
fn all_idle_collapses_to_header_strip() {
    let mut p = TeamPanel::new();
    let snap = || TeamSnapshot {
        team_id: "t".into(),
        rows: vec![row("lead", TeamActivity::Idle, false), row("a", TeamActivity::Idle, false)],
        tasks: vec![],
        unread_total: 0,
    };
    p.apply_snapshot(Some(snap()), NOW);
    assert_eq!(p.last_all_idle_at, Some(NOW));
    assert_eq!(p.desired_height(24, NOW), 3);
    p.apply_snapshot(Some(snap()), NOW + 10);
    assert_eq!(p.last_all_idle_at, Some(NOW));
    assert_eq!(p.desired_height(24, NOW + IDLE_COLLAPSE_AFTER), 1);
    assert_eq!(p.desired_height(0, NOW + IDLE_COLLAPSE_AFTER), 0);
}

#[test]
fn ctrl_t_toggles_tasks_and_height_counts_tasks() {
    let mut p = TeamPanel::new();
    p.rows = vec![row("lead", TeamActivity::Idle, false), row("a", TeamActivity::Working, false)];
    p.tasks = (0..6)
        .map(|i| TeamTaskSummary { id: format!("t{i}"), title: "w".into(), status: "pending".into() })
        .collect();
    assert_eq!(p.handle_key(&KeyEvent::ctrl(KeyCode::Char('t')), NOW), TeamPanelKey::ToggleTasks);
    assert!(p.show_tasks);
    assert_eq!(p.desired_height(24, NOW), 1 + 1 + 4 + 1);
    assert_eq!(p.desired_height(5, NOW), 5);
    assert_eq!(p.handle_key(&KeyEvent::plain(KeyCode::Esc), NOW), TeamPanelKey::FocusPrompt);
    assert_eq!(p.handle_key(&KeyEvent::plain(KeyCode::Tab), NOW), TeamPanelKey::FocusPrompt);
    assert_eq!(p.handle_key(&KeyEvent::plain(KeyCode::Char('q')), NOW), TeamPanelKey::Ignored);
    assert_eq!(p.handle_key(&KeyEvent::ctrl(KeyCode::Char('t')), NOW), TeamPanelKey::ToggleTasks);
    assert!(!p.show_tasks);
}

#[test]
fn rendered_lines() {
    let mut p = TeamPanel::new();
    let mut r = row("a", TeamActivity::Working, false);
    r.unread = 3;
    p.rows = vec![row("lead", TeamActivity::Idle, false), r];
    p.selected = 1;
    p.unread_total = 3;
    assert_eq!(format_row(&p.rows[1]), "  @a  working \u{b7} 3");
    let lines = p.render_lines(40, 10, true, NOW);
    assert_eq!(lines.len(), 3);
    assert_eq!(lines[0].text, " team 2 \u{b7} 3 unread  ");
    assert_eq!(lines[1].offset, 1);
    assert_eq!(lines[1].kind, LineKind::Member { activity: TeamActivity::Working, selected: true });
    assert_eq!(lines[2].text, " enter open \u{b7} x stop \u{b7} ctrl+t tasks ");
    assert_eq!(lines[2].offset, 2);
    assert_eq!(p.render_lines(40, 1, false, NOW).len(), 1);
    assert!(p.render_lines(0, 10, false, NOW).is_empty());
    p.unread_total = 0;
    assert_eq!(p.render_lines(40, 10, false, NOW)[0].text, " team 2 \u{b7} \u{2191}\u{2193} enter x  ");
}

#[test]
fn default_panel_is_empty_and_hidden() {
    let p = TeamPanel::default();
    assert_eq!(p.selected, 0);
    assert!(p.rows.is_empty());
    assert!(p.tasks.is_empty());
    assert!(!p.show_tasks);
    assert_eq!(p.unread_total, 0);
    assert!(p.team_id.is_none());
    assert!(p.in_flight.is_empty());
    assert!(!p.is_visible(0));
    assert_eq!(p.desired_height(40, 0), 0);
}
