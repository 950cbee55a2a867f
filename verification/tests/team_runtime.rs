use grok_team::mailbox::send_message;
use grok_team::pager::{
    activity_for_agent, agent_id_for_session, deliver_mailboxes, materialize_pending,
    mark_in_flight, on_session_bound, on_turn_end, refresh_all_panels, sync, AgentView, AppView, SessionEffect,
};
use grok_team::panel::TeamActivity;
use grok_team::runtime::{
    enabled,
    mailbox_delivery_prompt, pending_to_materialize, snapshot_for_session, team_spawn_prompt,
    undelivered,
};
use grok_team::store::TeamStore;
use grok_team::types::{MailboxKind, MailboxMessage};

fn msg(id: &str, subject: Option<&str>, body: &str) -> MailboxMessage {
    MailboxMessage {
        id: id.into(),
        from: "lead".into(),
        to: "r".into(),
        kind: MailboxKind::Text,
        subject: subject.map(|s| s.to_string()),
        body: body.into(),
        created_unix_ms: 1,
    }
}

#[test]
fn pending_skips_in_flight_and_bound() {
    let mut store = TeamStore::new("/tmp/grok-home");
    let team = store.create_for_lead("lead-sid", "lead", 1).unwrap();
    store
        .add_member(&team.team_id, "critic", None, Some("inspect the diff".into()))
        .unwrap();
    store
        .add_member(&team.team_id, "writer", Some("already".into()), None)
        .unwrap();
    let team = store.load(&team.team_id).unwrap();
    let pending = pending_to_materialize(&team, &Vec::new());
    assert_eq!(pending, vec![("critic".to_string(), "inspect the diff".to_string())]);
    let inflight = vec!["critic".to_string()];
    assert!(pending_to_materialize(&team, &inflight).is_empty());
}

#[test]
fn mailbox_prompt_tags_sender() {
    let msg = MailboxMessage {
        id: "m1".into(),
        from: "critic".into(),
        to: "lead".into(),
        kind: MailboxKind::Text,
        subject: Some("nits".into()),
        body: "please rename foo".into(),
        created_unix_ms: 1,
    };
    let text = mailbox_delivery_prompt(&msg);
    assert!(text.contains("[from teammate critic, not the human]"));
    assert!(text.contains("nits"));
    assert!(text.contains("please rename foo"));
}

#[test]
fn undelivered_after_cursor() {
    let msgs = vec![msg("a", None, "1"), msg("b", None, "2")];
    assert_eq!(undelivered(&msgs, None).len(), 2);
    assert_eq!(undelivered(&msgs, Some("a")).len(), 1);
    assert_eq!(undelivered(&msgs, Some("b")).len(), 0);
}

#[test]
fn snapshot_hides_from_non_lead() {
    let mut store = TeamStore::new("/tmp/grok-home");
    let team = store.create_for_lead("lead-sid", "lead", 1).unwrap();
    store
        .add_member(&team.team_id, "critic", Some("rev-sid".into()), None)
        .unwrap();
    let live = Vec::new();
    let inflight = Vec::new();
    assert!(snapshot_for_session(&store, "rev-sid", &live, &inflight).is_none());
    let snap = snapshot_for_session(&store, "lead-sid", &live, &inflight).unwrap();
    assert_eq!(snap.rows.len(), 2);
    assert!(snap.rows.iter().any(|r| r.name == "critic"));
}

#[test]
fn send_then_undelivered_tracks_cursor() {
    let mut store = TeamStore::new("/tmp/grok-home");
    let team = store.create_for_lead("s1", "lead", 1).unwrap();
    store.add_member(&team.team_id, "critic", None, None).unwrap();
    send_message(
        &mut store,
        &team.team_id,
        "lead",
        "critic",
        MailboxKind::Text,
        None,
        "hi".into(),
        2,
        "m1".into(),
    )
    .unwrap();
    let inbox = store.read_inbox(&team.team_id, "critic").unwrap();
    assert_eq!(undelivered(&inbox, None).len(), 1);
    store.write_cursor(&team.team_id, "critic", "m1").unwrap();
    let cursor = store.read_cursor(&team.team_id, "critic").unwrap();
    let inbox = store.read_inbox(&team.team_id, "critic").unwrap();
    assert!(undelivered(&inbox, cursor.as_deref()).is_empty());
}

#[test]
fn delivery_prompt_exact_text() {
    assert_eq!(
        mailbox_delivery_prompt(&msg("m", Some("nits"), "body")),
        "[from teammate lead, not the human]\nnits\n\nbody"
    );
    assert_eq!(
        mailbox_delivery_prompt(&msg("m", Some("   "), "body")),
        "[from teammate lead, not the human]\nbody"
    );
    assert_eq!(
        mailbox_delivery_prompt(&msg("m", None, "body")),
        "[from teammate lead, not the human]\nbody"
    );
}

#[test]
fn unknown_cursor_delivers_everything() {
    let msgs = vec![msg("a", None, "1"), msg("b", None, "2")];
    assert_eq!(undelivered(&msgs, Some("zzz")).len(), 2);
}

#[test]
fn spawn_prompt_text() {
    assert_eq!(
        team_spawn_prompt("rev", "look"),
        "You are teammate @rev on an agent team. You are a full top-level session, not a subagent. Use send_message to talk to other members by name. Do not wait for the human to relay.\n\nlook"
    );
}

fn agent(id: u64, session: Option<&str>) -> AgentView {
    let mut a = AgentView::new(id);
    a.session_id = session.map(|s| s.to_string());
    a
}

#[test]
fn activity_of_agents() {
    let mut a = agent(1, Some("s"));
    assert_eq!(activity_for_agent(&a), TeamActivity::Idle);
    a.busy = true;
    assert_eq!(activity_for_agent(&a), TeamActivity::Working);
    a.pending_permissions = 1;
    assert_eq!(activity_for_agent(&a), TeamActivity::Blocked);
    a.pending_permissions = 0;
    a.has_question = true;
    assert_eq!(activity_for_agent(&a), TeamActivity::Blocked);
}

#[test]
fn sync_starts_binds_delivers_and_refreshes() {
    let mut store = TeamStore::new("/tmp/grok-home");
    let team = store.create_for_lead("lead-sid", "lead", 1).unwrap();
    store
        .add_member(&team.team_id, "critic", None, Some("inspect the diff".into()))
        .unwrap();
    let mut app = AppView {
        agents: vec![agent(1, Some("lead-sid"))],
        active_view: 1,
        pending_effects: Vec::new(),
        next_agent_id: 2,
    };

    materialize_pending(&mut app, &store);
    assert_eq!(app.agents.len(), 2);
    assert_eq!(app.active_view, 1);
    assert_eq!(app.pending_effects, vec![SessionEffect::Start { agent: 2 }]);
    assert_eq!(app.agents[0].team.in_flight, vec!["critic".to_string()]);
    let new = &app.agents[1];
    assert_eq!(new.team_bind, Some((team.team_id.clone(), "critic".to_string())));
    assert_eq!(new.queued_prompts, vec![team_spawn_prompt("critic", "inspect the diff")]);

    // A second pass does not start it again.
    materialize_pending(&mut app, &store);
    assert_eq!(app.agents.len(), 2);

    refresh_all_panels(&mut app, &store, true, 100);
    assert!(app.agents[0].team.is_visible(100));
    assert_eq!(app.agents[0].team.rows.len(), 2);
    assert!(app.agents[0].team.rows[1].spawn_pending);

    app.agents[1].session_id = Some("rev-sid".into());
    on_session_bound(&mut app, &mut store, 2, true);
    assert!(app.agents[0].team.in_flight.is_empty());
    let cfg = store.load(&team.team_id).unwrap();
    assert_eq!(cfg.member("critic").unwrap().session_id.as_deref(), Some("rev-sid"));
    assert_eq!(agent_id_for_session(&app, "rev-sid"), Some(2));
    assert_eq!(agent_id_for_session(&app, "nobody"), None);

    send_message(&mut store, &team.team_id, "lead", "critic", MailboxKind::Text, None, "hi".into(), 5, "m1".into()).unwrap();
    deliver_mailboxes(&mut app, &mut store);
    assert_eq!(app.agents[1].queued_prompts.len(), 2);
    assert_eq!(app.agents[1].queued_prompts[1], "[from teammate lead, not the human]\nhi");
    assert_eq!(store.read_cursor(&team.team_id, "critic").unwrap().as_deref(), Some("m1"));
    deliver_mailboxes(&mut app, &mut store);
    assert_eq!(app.agents[1].queued_prompts.len(), 2);

    sync(&mut app, &mut store, true, 200);
    assert!(app.agents[0].team.is_visible(200));
    assert!(!app.agents[1].team.is_visible(200));
    refresh_all_panels(&mut app, &store, false, 300);
    assert!(!app.agents[0].team.is_visible(300));
}

#[test]
fn turn_end_notifies_the_lead() {
    let mut store = TeamStore::new("/tmp/grok-home");
    let team = store.create_for_lead("lead-sid", "lead", 1).unwrap();
    store.add_member(&team.team_id, "writer", Some("writer-sid".into()), None).unwrap();
    let app = AppView {
        agents: vec![agent(1, Some("lead-sid")), agent(2, Some("writer-sid")), agent(3, None)],
        active_view: 1,
        pending_effects: Vec::new(),
        next_agent_id: 4,
    };
    on_turn_end(&app, &mut store, 2, false, true, 1_700);
    on_turn_end(&app, &mut store, 2, true, true, 1_800);
    let inbox = store.read_inbox(&team.team_id, "lead").unwrap();
    assert_eq!(inbox.len(), 2);
    assert_eq!(inbox[0].id, "idle-writer-1700");
    assert_eq!(inbox[0].from, "writer");
    assert_eq!(inbox[0].to, "lead");
    assert_eq!(inbox[0].kind, MailboxKind::Idle);
    assert_eq!(inbox[0].body, "teammate @writer is idle");
    assert_eq!(inbox[1].id, "failed-writer-1800");
    assert_eq!(inbox[1].kind, MailboxKind::Failed);
    assert_eq!(inbox[1].body, "teammate @writer failed its turn");
    assert_eq!(inbox[1].created_unix_ms, 1_800);

    // The lead's own turn, an unbound session, an unknown agent, and teams
    // being off leave every inbox alone.
    on_turn_end(&app, &mut store, 1, false, true, 1_900);
    on_turn_end(&app, &mut store, 3, false, true, 1_900);
    on_turn_end(&app, &mut store, 9, false, true, 1_900);
    on_turn_end(&app, &mut store, 2, false, false, 1_900);
    assert_eq!(store.read_inbox(&team.team_id, "lead").unwrap().len(), 2);
    assert!(store.read_inbox(&team.team_id, "writer").unwrap().is_empty());
}

#[test]
fn environment_wins_over_config() {
    for on in ["1", "true", "TRUE", "yes"] {
        assert!(enabled(Some(on), Some(false)));
        assert!(enabled(Some(on), None));
    }
    assert!(!enabled(Some("0"), Some(true)));
    assert!(!enabled(Some("false"), Some(true)));
    assert!(enabled(None, Some(true)));
    assert!(!enabled(None, Some(false)));
    assert!(!enabled(None, None));
}

#[test]
fn in_flight_names_stay_distinct_and_notes_survive_sync() {
    let mut store = TeamStore::new("/tmp/grok-home");
    let team = store.create_for_lead("lead-sid", "lead", 1).unwrap();
    store.add_member(&team.team_id, "writer", Some("writer-sid".into()), None).unwrap();
    let mut app = AppView {
        agents: vec![agent(1, Some("lead-sid")), agent(2, Some("writer-sid"))],
        active_view: 1,
        pending_effects: Vec::new(),
        next_agent_id: 3,
    };
    mark_in_flight(&mut app, 1, "writer");
    mark_in_flight(&mut app, 1, "writer");
    assert_eq!(app.agents[0].team.in_flight, vec!["writer".to_string()]);

    on_turn_end(&app, &mut store, 2, false, true, 42);
    sync(&mut app, &mut store, true, 10);
    let inbox = store.read_inbox(&team.team_id, "lead").unwrap();
    assert_eq!(inbox.last().unwrap().id, "idle-writer-42");
    assert_eq!(app.agents[0].queued_prompts, vec!["[from teammate writer, not the human]\nteammate @writer is idle".to_string()]);
}
