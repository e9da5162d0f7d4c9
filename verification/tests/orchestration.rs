use std::collections::HashMap;

use herdr::layout::PaneId;
use herdr::orchestration::{build, collapse_key, AgentPanelEntry, AgentPanelItem, AgentPanelLayout};

fn entry(name: &str, run: Option<&str>, repository: &str, state: &str) -> AgentPanelEntry {
    let mut tokens: HashMap<String, String> = HashMap::from([
        ("repository".into(), repository.into()),
        ("responsibility".into(), format!("work {name}")),
        ("remote_agent".into(), name.into()),
        ("remote_state".into(), state.into()),
        ("remote_host".into(), "ai-dev-w1".into()),
        ("harness".into(), "codex-cli".into()),
    ]);
    if let Some(run) = run {
        tokens.insert("orchestration_id".into(), run.into());
        tokens.insert("orchestration_label".into(), "Backlog wave".into());
        tokens.insert("orchestration_owner".into(), "t3".into());
        tokens.insert("orchestration_state".into(), "active".into());
    }
    AgentPanelEntry {
        ws_idx: name.len(),
        tab_idx: 0,
        pane_id: PaneId::from_raw(name.len() as u32 + 1),
        primary_label: repository.into(),
        agent_label: Some(name.into()),
        agent_kind_label: Some("codex".into()),
        status_key: if state == "working" { "working".into() } else { "idle".into() },
        tokens: tokens.into_iter().collect(),
    }
}

fn no_keys() -> Vec<String> {
    Vec::new()
}

#[test]
fn orchestration_sidebar_groups_run_repository_and_agents() {
    let entries = vec![
        entry("one", Some("run-1"), "stack", "working"),
        entry("two", Some("run-1"), "frontend", "question"),
        entry("legacy", None, "legacy", "idle"),
    ];
    let layout = build(&entries, &no_keys(), None);

    assert!(matches!(
        &layout.items[0],
        AgentPanelItem::RunHeader { id, counts, .. }
            if id == "run-1" && counts.working == 1 && counts.waiting == 1
    ));
    assert!(layout.items.iter().any(|item| matches!(
        item,
        AgentPanelItem::RepositoryHeader { label, count } if label == "stack" && *count == 1
    )));
    assert!(matches!(layout.items.last(), Some(AgentPanelItem::LegacyAgent { entry_index: 2 })));
}

#[test]
fn orchestration_sidebar_keeps_done_agent_until_entry_is_removed() {
    let entries = vec![entry("done", Some("run-1"), "stack", "done")];
    let layout = build(&entries, &no_keys(), None);
    assert!(layout.items.iter().any(|item| matches!(
        item,
        AgentPanelItem::Agent { metadata, .. } if metadata == "DONE \u{b7} awaiting cleanup"
    )));
}

#[test]
fn orchestration_sidebar_collapses_children_but_keeps_card() {
    let entries = vec![entry("one", Some("run-1"), "stack", "working")];
    let collapsed = vec![collapse_key("run-1")];
    let layout = build(&entries, &collapsed, None);
    assert_eq!(layout.items.len(), 2);
    assert!(matches!(layout.items[0], AgentPanelItem::RunHeader { collapsed: true, .. }));
    assert!(matches!(layout.items[1], AgentPanelItem::RunFooter));
}

#[test]
fn orchestration_sidebar_selected_agent_expands_to_three_lines() {
    let entries = vec![entry("one", Some("run-1"), "stack", "working")];
    let target = (entries[0].ws_idx, entries[0].tab_idx, entries[0].pane_id);
    let layout = build(&entries, &no_keys(), Some(target));
    let item = layout
        .items
        .iter()
        .find(|item| matches!(item, AgentPanelItem::Agent { .. }))
        .expect("agent row");
    assert_eq!(item.height(), 3);
}

#[test]
fn orchestration_sidebar_scale_500_stays_interactive() {
    let entries = (0..500)
        .map(|index| {
            let run = format!("run-{}", index % 10);
            let repository = format!("repo-{}", index % 20);
            entry(
                &format!("agent-{index}"),
                Some(&run),
                &repository,
                if index % 7 == 0 { "question" } else { "working" },
            )
        })
        .collect::<Vec<_>>();
    let started = std::time::Instant::now();
    let layout = build(&entries, &no_keys(), None);
    let elapsed = started.elapsed();

    assert_eq!(
        layout
            .items
            .iter()
            .filter(|item| matches!(item, AgentPanelItem::Agent { .. }))
            .count(),
        500
    );
    assert!(elapsed < std::time::Duration::from_millis(250), "500-agent layout took {elapsed:?}");
}

#[test]
fn runs_are_ordered_by_priority_then_label_and_rows_by_priority_then_responsibility() {
    let mut quiet = entry("quiet", Some("run-a"), "stack", "idle");
    quiet.tokens.retain(|(k, _)| k != "orchestration_label");
    quiet.tokens.push(("orchestration_label".into(), "A wave".into()));
    let entries = vec![
        quiet,
        entry("busy", Some("run-b"), "stack", "working"),
        entry("asking", Some("run-b"), "stack", "blocked"),
        entry("zeta", Some("run-b"), "stack", "blocked"),
    ];
    let layout = build(&entries, &no_keys(), None);
    let order: Vec<String> = layout
        .items
        .iter()
        .map(|item| match item {
            AgentPanelItem::RunHeader { id, .. } => format!("run:{id}"),
            AgentPanelItem::RepositoryHeader { label, count } => format!("repo:{label}:{count}"),
            AgentPanelItem::Agent { entry_index, .. } => format!("agent:{entry_index}"),
            AgentPanelItem::RunFooter => "footer".into(),
            AgentPanelItem::LegacyAgent { entry_index } => format!("legacy:{entry_index}"),
        })
        .collect();
    assert_eq!(
        order,
        vec![
            "run:run-b", "repo:stack:3", "agent:2", "agent:3", "agent:1", "footer", "run:run-a",
            "repo:stack:1", "agent:0", "footer",
        ]
    );
}

#[test]
fn agent_rows_carry_metadata_and_details() {
    let mut e = entry("one", Some("run-1"), "stack", "working");
    e.tokens.push(("parent_agent".into(), "lead".into()));
    e.tokens.push(("branch".into(), "main".into()));
    let layout = build(&vec![e], &no_keys(), None);
    let row = layout.items.iter().find(|item| matches!(item, AgentPanelItem::Agent { .. })).unwrap();
    match row {
        AgentPanelItem::Agent { metadata, details, status, responsibility, selected, .. } => {
            assert_eq!(metadata, "WORKING \u{b7} codex-cli \u{b7} ai-dev-w1");
            assert_eq!(details, "one \u{b7} parent: lead \u{b7} main");
            assert_eq!(status, "working");
            assert_eq!(responsibility, "work one");
            assert!(!selected);
            assert_eq!(row.height(), 2);
        }
        _ => unreachable!(),
    }
    assert_eq!(layout.item_index_for_agent(0), Some(2));
    assert_eq!(layout.item_index_for_agent(5), None);
    assert_eq!(layout.items[0].orchestration_id(), Some("run-1"));
    assert_eq!(layout.items[0].height(), 2);
    assert_eq!(AgentPanelLayout { items: Vec::new() }.item_index_for_agent(0), None);
}

#[test]
fn every_entry_is_shown_in_exactly_one_row() {
    let entries = vec![
        entry("a", Some("run-2"), "stack", "idle"),
        entry("b", None, "legacy", "idle"),
        entry("c", Some("run-1"), "frontend", "question"),
        entry("d", Some("run-2"), "frontend", "working"),
        entry("e", Some("run-1"), "frontend", "done"),
        entry("f", None, "legacy", "working"),
    ];
    let layout = build(&entries, &no_keys(), None);
    let mut seen = vec![0usize; entries.len()];
    for item in &layout.items {
        if let Some(index) = item.entry_index() {
            seen[index] += 1;
        }
    }
    assert_eq!(seen, vec![1; entries.len()]);
    // Entries that belong to no run come last, in order.
    let n = layout.items.len();
    assert!(matches!(layout.items[n - 2], AgentPanelItem::LegacyAgent { entry_index: 1 }));
    assert!(matches!(layout.items[n - 1], AgentPanelItem::LegacyAgent { entry_index: 5 }));
}

#[test]
fn run_card_counts_add_up_to_its_agents() {
    let entries = vec![
        entry("a", Some("run-1"), "stack", "working"),
        entry("b", Some("run-1"), "stack", "done"),
        entry("c", Some("run-1"), "web", "question"),
        entry("d", Some("run-1"), "web", "idle"),
    ];
    let collapsed = vec![collapse_key("run-1")];
    let layout = build(&entries, &collapsed, None);
    assert_eq!(layout.items.len(), 2);
    match &layout.items[0] {
        AgentPanelItem::RunHeader { counts, collapsed, .. } => {
            assert!(*collapsed);
            assert_eq!((counts.working, counts.waiting, counts.done), (1, 2, 1));
        }
        _ => panic!("run card first"),
    }
}

#[test]
fn entries_of_a_collapsed_run_appear_in_no_row() {
    let entries = vec![
        entry("a", Some("run-2"), "stack", "idle"),
        entry("b", None, "legacy", "idle"),
        entry("c", Some("run-1"), "frontend", "question"),
        entry("d", Some("run-2"), "frontend", "working"),
    ];
    let layout = build(&entries, &vec![collapse_key("run-2")], None);
    let mut seen = vec![0usize; entries.len()];
    for item in &layout.items {
        if let Some(index) = item.entry_index() {
            seen[index] += 1;
        }
    }
    assert_eq!(seen, vec![0, 1, 1, 0]);
}
