use herdr::agent_provider::{ProviderErrorCode, ProviderRegistry, ResolvedPane, WorkspacePanes};
use herdr::layout::PaneId;
use herdr::provider_agents::{
    normalize_id, validate_records, AgentProviderRecord, AgentProviderState,
    AgentProviderTarget, AgentProviderViewer, AgentStatus, ProviderViewerTarget,
    MAX_PROVIDER_AGENTS,
};

fn record(id: &str) -> AgentProviderRecord {
    AgentProviderRecord {
        id: id.into(),
        name: format!("agent-{id}"),
        agent: Some("codex".into()),
        title: None,
        display_agent: None,
        agent_status: AgentStatus::Working,
        state_labels: Vec::new(),
        tokens: Vec::new(),
        state_change_seq: Some(1),
    }
}

#[test]
fn provider_agent_registry_validates_and_normalizes_records() {
    let mut records = vec![record(" lane-1 ")];
    records[0].name = " Review issue 302 ".into();
    validate_records(&mut records).unwrap();
    assert_eq!(records[0].id, "lane-1");
    assert_eq!(records[0].name, "Review issue 302");
}

#[test]
fn provider_agent_registry_rejects_duplicate_ids_and_excessive_snapshots() {
    let mut duplicate = vec![record("same"), record("same")];
    assert!(validate_records(&mut duplicate).unwrap_err().contains("duplicate"));

    let mut oversized = (0..=MAX_PROVIDER_AGENTS)
        .map(|index| record(&format!("agent-{index}")))
        .collect::<Vec<_>>();
    assert!(validate_records(&mut oversized).unwrap_err().contains("at most"));
}

#[test]
fn provider_agent_protocol_snapshot_preserves_source_viewer_and_records() {
    let state = AgentProviderState {
        revision: 7,
        viewer: Some(ProviderViewerTarget {
            workspace_id: "w1".into(),
            pane_id: PaneId::from_raw(2),
            public_pane_id: "w1:p2".into(),
        }),
        agents: vec![record("one")],
    };
    let snapshot = state.snapshot("fleet");
    assert_eq!(snapshot.source, "fleet");
    assert_eq!(snapshot.revision, 7);
    assert_eq!(snapshot.viewer.as_ref().unwrap().pane_id, "w1:p2");
    assert_eq!(snapshot.agents[0].id, "one");
}

#[test]
fn validation_messages_name_the_field_and_its_bound() {
    let mut records = vec![record("one")];
    records[0].name = "   ".into();
    assert_eq!(
        validate_records(&mut records).unwrap_err(),
        "provider agent name must be non-empty, at most 128 characters, and contain no control characters"
    );
    assert_eq!(records[0].id, "one");

    let mut records = vec![record("one")];
    records[0].agent = Some("x".repeat(65));
    assert_eq!(
        validate_records(&mut records).unwrap_err(),
        "agent must be non-empty, at most 64 characters, and contain no control characters"
    );
    assert_eq!(records[0].agent, None);

    assert_eq!(
        normalize_id("bad\u{7}id").unwrap_err(),
        "provider agent id must be non-empty, at most 128 characters, and contain no control characters"
    );
    assert_eq!(normalize_id("\u{3000}ok\t").unwrap(), "ok");
}

#[test]
fn validation_checks_metadata_keys_values_and_counts() {
    let mut records = vec![record("one")];
    records[0].tokens = vec![("bad key".into(), "v".into())];
    assert_eq!(validate_records(&mut records).unwrap_err(), "provider metadata key is invalid");

    let mut records = vec![record("one")];
    records[0].state_labels = vec![("state".into(), "a\u{1}b".into())];
    assert_eq!(
        validate_records(&mut records).unwrap_err(),
        "provider agent one metadata value is invalid"
    );

    let mut records = vec![record("one")];
    records[0].state_labels = (0..9).map(|i| (format!("k{i}"), "v".into())).collect();
    assert_eq!(
        validate_records(&mut records).unwrap_err(),
        "provider agent one has more than 8 state labels"
    );

    let mut records = vec![record("one")];
    records[0].tokens = (0..33).map(|i| (format!("k{i}"), "v".into())).collect();
    assert_eq!(
        validate_records(&mut records).unwrap_err(),
        "provider agent one has more than 32 metadata tokens"
    );

    let mut records = vec![record("one")];
    records[0].tokens = vec![("key_1-x".into(), "v".repeat(256))];
    assert!(validate_records(&mut records).is_ok());
}

fn viewer() -> AgentProviderViewer {
    AgentProviderViewer { workspace_id: "w1".into(), pane_id: "w1:p1".into() }
}

fn live_pane() -> Option<ResolvedPane> {
    Some(ResolvedPane {
        ws_idx: 0,
        pane_id: PaneId::from_raw(1),
        workspace_id: "w1".into(),
        public_pane_id: Some("w1:p1".into()),
    })
}

fn agents() -> Vec<AgentProviderRecord> {
    let mut one = record("one");
    one.name = "review issue 302".into();
    vec![one]
}

fn workspaces() -> Vec<WorkspacePanes> {
    vec![WorkspacePanes { id: "w1".into(), panes: vec![PaneId::from_raw(1)] }]
}

#[test]
fn provider_agent_registry_replace_is_atomic_and_rejects_stale_revision() {
    let mut registry = ProviderRegistry::new();
    let replaced = registry.handle_agent_provider_replace("fleet:test", 2, viewer(), agents(), live_pane());
    assert!(replaced.is_ok());

    let stale = registry.handle_agent_provider_replace("fleet:test", 1, viewer(), agents(), live_pane());
    assert_eq!(stale.err().unwrap().code, ProviderErrorCode::StaleAgentProviderRevision);
    let snapshot = registry.handle_agent_provider_snapshot("fleet:test").ok().unwrap();
    assert_eq!(snapshot.revision, 2);

    let zero = registry.handle_agent_provider_replace("fleet:test", 0, viewer(), agents(), live_pane());
    assert!(zero.err().unwrap().message.contains("revision must be at least 1"));
}

#[test]
fn provider_agent_cleanup_clear_leaves_revision_tombstone_and_clears_focus() {
    let mut registry = ProviderRegistry::new();
    assert!(registry
        .handle_agent_provider_replace("fleet:test", 2, viewer(), agents(), live_pane())
        .is_ok());
    registry.focused = Some(AgentProviderTarget { source: "fleet:test".into(), id: "one".into() });
    let cleared = registry.handle_agent_provider_clear("fleet:test", 3).ok().unwrap();
    assert_eq!(cleared, ("fleet:test".to_string(), 3));

    let snapshot = registry.handle_agent_provider_snapshot("fleet:test").ok().unwrap();
    assert_eq!(snapshot.revision, 3);
    assert!(snapshot.agents.is_empty());
    assert!(snapshot.viewer.is_none());
    assert!(registry.focused.is_none());

    let late = registry.handle_agent_provider_replace("fleet:test", 3, viewer(), agents(), live_pane());
    assert_eq!(late.err().unwrap().code, ProviderErrorCode::StaleAgentProviderRevision);
}

#[test]
fn provider_agent_registry_rejects_invalid_target_ids_before_lookup() {
    let mut registry = ProviderRegistry::new();
    assert!(registry
        .handle_agent_provider_replace("fleet:test", 1, viewer(), agents(), live_pane())
        .is_ok());
    let response = registry.handle_agent_provider_get("fleet:test", "bad\u{7}id");
    assert_eq!(response.err().unwrap().code, ProviderErrorCode::InvalidAgentProvider);
    let missing = registry.handle_agent_provider_get("fleet:test", "two");
    assert_eq!(missing.err().unwrap().code, ProviderErrorCode::ProviderAgentNotFound);
    let (target, found) = registry.handle_agent_provider_get("fleet:test", " one ").ok().unwrap();
    assert_eq!(target.id, "one");
    assert_eq!(found.name, "review issue 302");
}

#[test]
fn provider_agent_focus_targets_shared_viewer_and_emits_provider_identity() {
    let mut registry = ProviderRegistry::new();
    assert!(registry
        .handle_agent_provider_replace("fleet:test", 1, viewer(), agents(), live_pane())
        .is_ok());
    let outcome = registry.handle_agent_provider_focus("fleet:test", "one", &workspaces()).ok().unwrap();
    assert_eq!(outcome.focus.ws_idx, 0);
    assert_eq!(outcome.focus.pane_id, PaneId::from_raw(1));
    let focused = registry.handle_agent_provider_focused().unwrap();
    assert_eq!((focused.source.as_str(), focused.id.as_str()), ("fleet:test", "one"));
}

#[test]
fn provider_agent_focus_viewer_migration_preserves_selection() {
    let mut registry = ProviderRegistry::new();
    assert!(registry
        .handle_agent_provider_replace("fleet:test", 1, viewer(), agents(), live_pane())
        .is_ok());
    assert!(registry.handle_agent_provider_focus("fleet:test", "one", &workspaces()).is_ok());

    let second = AgentProviderViewer { workspace_id: "w2".into(), pane_id: "w2:p1".into() };
    let second_pane = Some(ResolvedPane {
        ws_idx: 1,
        pane_id: PaneId::from_raw(7),
        workspace_id: "w2".into(),
        public_pane_id: Some("w2:p1".into()),
    });
    let outcome = registry
        .handle_agent_provider_replace("fleet:test", 2, second, agents(), second_pane)
        .ok()
        .unwrap();
    let refocus = outcome.refocus.unwrap();
    assert_eq!(refocus.ws_idx, 1);
    assert_eq!(refocus.pane_id, PaneId::from_raw(7));
    assert_eq!(refocus.target.id, "one");
    assert!(registry.focused.is_some());
}

#[test]
fn replace_refuses_a_viewer_that_names_another_pane() {
    let mut registry = ProviderRegistry::new();
    let other = Some(ResolvedPane {
        ws_idx: 0,
        pane_id: PaneId::from_raw(1),
        workspace_id: "w9".into(),
        public_pane_id: Some("w1:p1".into()),
    });
    let refused = registry.handle_agent_provider_replace("fleet:test", 1, viewer(), agents(), other);
    let error = refused.err().unwrap();
    assert_eq!(error.code, ProviderErrorCode::ProviderViewerNotFound);
    assert_eq!(error.message, "provider viewer workspace and pane do not identify the same live pane");
    let absent = registry.handle_agent_provider_replace("fleet:test", 1, viewer(), agents(), None);
    assert_eq!(absent.err().unwrap().message, "provider viewer pane not found");
    assert_eq!(
        registry.handle_agent_provider_snapshot("fleet:test").err().unwrap().code,
        ProviderErrorCode::AgentProviderNotFound
    );
}

#[test]
fn focus_requires_a_live_viewer_pane() {
    let mut registry = ProviderRegistry::new();
    assert!(registry
        .handle_agent_provider_replace("fleet:test", 1, viewer(), agents(), live_pane())
        .is_ok());
    let gone = vec![WorkspacePanes { id: "w1".into(), panes: vec![PaneId::from_raw(2)] }];
    let refused = registry.handle_agent_provider_focus("fleet:test", "one", &gone);
    assert_eq!(refused.err().unwrap().code, ProviderErrorCode::ProviderViewerNotFound);
    assert!(registry.focused.is_none());
}

#[test]
fn validating_a_validated_snapshot_changes_nothing() {
    let mut records = vec![record(" lane-1 "), record(" lane-2 ")];
    records[0].title = Some("  Fix flaky test ".into());
    records[1].tokens = vec![("branch".into(), "main".into())];
    validate_records(&mut records).unwrap();
    let snapshot: Vec<(String, String, Option<String>)> = records
        .iter()
        .map(|r| (r.id.clone(), r.name.clone(), r.title.clone()))
        .collect();
    validate_records(&mut records).unwrap();
    let again: Vec<(String, String, Option<String>)> = records
        .iter()
        .map(|r| (r.id.clone(), r.name.clone(), r.title.clone()))
        .collect();
    assert_eq!(snapshot, again);
    assert_eq!(again[0].2.as_deref(), Some("Fix flaky test"));
    assert_eq!(again[1].0, "lane-2");
}
