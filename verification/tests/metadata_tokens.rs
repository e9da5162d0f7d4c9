use std::collections::HashMap;

use herdr::handoff_runtime::{HandoffMetadata, HandoffRuntimeState, Workspace};
use herdr::layout::PaneId;
use herdr::terminal_id::TerminalId;
use herdr::metadata_tokens::{accept_sequence, MetadataTokens, DURATION_MAX_NANOS, MAX_SEQUENCE_SOURCES};

const SECOND: u128 = 1_000_000_000;
const NOW: u128 = 5_000 * 1_000_000_000;

fn secs(n: u128) -> u128 {
    n * 1_000_000_000
}

fn patch(items: &[(&str, Option<&str>)]) -> Vec<(String, Option<String>)> {
    items
        .iter()
        .map(|(key, value)| ((*key).to_string(), value.map(str::to_string)))
        .collect()
}

fn values(tokens: &MetadataTokens) -> HashMap<String, String> {
    tokens.values().into_iter().collect()
}

#[test]
fn handoff_tokens_count_transfer_time_and_never_revive_expired_tokens() {
    let now = NOW;
    let monotonic = 100 * SECOND;
    let mut tokens = MetadataTokens::default();
    tokens.patch(patch(&[("short", Some("one"))]), Some(2 * SECOND), now);
    tokens.patch(patch(&[("long", Some("two"))]), Some(10 * SECOND), now);
    tokens.patch(patch(&[("permanent", Some("three"))]), None, now);
    let transfer = tokens.capture_handoff(now, Some(monotonic));
    let restored = MetadataTokens::restore_handoff(transfer, now, Some(monotonic + 3 * SECOND));
    assert!(!values(&restored).contains_key("short"));
    assert!(values(&restored).contains_key("permanent"));
    assert_eq!(restored.next_expiry(), Some(now + secs(7)));
}

#[test]
fn handoff_clock_rollback_does_not_revive_expired_token() {
    let now = NOW;
    let monotonic = 100 * SECOND;
    let mut tokens = MetadataTokens::default();
    tokens.patch(patch(&[("short", Some("one"))]), Some(2 * SECOND), now);
    let transfer = tokens.capture_handoff(now, Some(monotonic));
    let restored =
        MetadataTokens::restore_handoff(transfer, now + secs(3), Some(monotonic + 3 * SECOND));
    assert!(!values(&restored).contains_key("short"));
}

#[test]
fn handoff_unavailable_clock_and_overflow_drop_only_expiring_tokens() {
    let now = NOW;
    let mut tokens = MetadataTokens::default();
    tokens.patch(patch(&[("temporary", Some("one"))]), Some(2 * SECOND), now);
    tokens.patch(patch(&[("permanent", Some("two"))]), None, now);
    for clock in [None, Some(DURATION_MAX_NANOS)] {
        let transfer = tokens.capture_handoff(now, clock);
        assert_eq!(transfer.len(), 1);
        assert!(transfer.iter().any(|(key, _)| key == "permanent"));
    }
    let transfer = tokens.capture_handoff(now, Some(100 * SECOND));
    let restored = MetadataTokens::restore_handoff(transfer, now, None);
    assert!(!values(&restored).contains_key("temporary"));
    assert!(values(&restored).contains_key("permanent"));
}

#[test]
fn sequence_sources_are_bounded() {
    let mut sequences = Vec::new();
    for index in 0..MAX_SEQUENCE_SOURCES {
        assert_eq!(
            accept_sequence(&mut sequences, &format!("source-{index}"), Some(1)),
            Ok(true)
        );
    }
    assert_eq!(accept_sequence(&mut sequences, "one-too-many", Some(1)), Err(()));
    assert_eq!(accept_sequence(&mut sequences, "source-0", Some(1)), Ok(false));
    assert_eq!(accept_sequence(&mut sequences, "source-0", Some(2)), Ok(true));
}

#[test]
fn patches_and_clears_individual_keys() {
    let now = NOW;
    let mut tokens = MetadataTokens::default();
    tokens.patch(patch(&[("summary", Some("one")), ("model", Some("opus"))]), None, now);
    tokens.patch(patch(&[("summary", Some("two")), ("model", None)]), None, now);

    assert_eq!(values(&tokens), HashMap::from([("summary".into(), "two".into())]));
}

#[test]
fn ttl_only_changes_keys_in_the_patch() {
    let now = NOW;
    let deadline = now + secs(1);
    let mut tokens = MetadataTokens::default();
    tokens.patch(patch(&[("short", Some("one"))]), Some(SECOND), now);
    tokens.patch(patch(&[("persistent", Some("two"))]), None, now);

    assert!(tokens.expire_at(deadline));
    assert_eq!(values(&tokens), HashMap::from([("persistent".into(), "two".into())]));
}

#[test]
fn values_remain_stable_until_expiry_mutates_state() {
    let now = NOW;
    let deadline = now + secs(1);
    let mut tokens = MetadataTokens::default();
    tokens.patch(patch(&[("summary", Some("temporary"))]), Some(SECOND), now);

    assert_eq!(values(&tokens), HashMap::from([("summary".into(), "temporary".into())]));
    assert!(tokens.expire_at(deadline));
    assert!(values(&tokens).is_empty());
}

#[test]
fn delayed_expiry_sweep_removes_every_token_due_at_now() {
    let now = NOW;
    let mut tokens = MetadataTokens::default();
    tokens.patch(patch(&[("first", Some("one"))]), Some(SECOND), now);
    tokens.patch(patch(&[("second", Some("two"))]), Some(2 * SECOND), now);

    assert!(tokens.expire_at(now + secs(10)));
    assert!(values(&tokens).is_empty());
}

#[test]
fn stale_expiry_does_not_clear_replacement() {
    let now = NOW;
    let first_deadline = now + secs(1);
    let mut tokens = MetadataTokens::default();
    tokens.patch(patch(&[("summary", Some("old"))]), Some(SECOND), now);
    tokens.patch(patch(&[("summary", Some("new"))]), Some(5 * SECOND), now);

    assert!(!tokens.expire_at(first_deadline));
    assert_eq!(values(&tokens), HashMap::from([("summary".into(), "new".into())]));
}

#[test]
fn update_without_ttl_cancels_previous_expiry() {
    let now = NOW;
    let deadline = now + secs(1);
    let mut tokens = MetadataTokens::default();
    tokens.patch(patch(&[("summary", Some("temporary"))]), Some(SECOND), now);
    tokens.patch(patch(&[("summary", Some("persistent"))]), None, now);

    assert!(!tokens.expire_at(deadline));
    assert_eq!(values(&tokens), HashMap::from([("summary".into(), "persistent".into())]));
}

#[test]
fn workspace_handoff_preserves_sequences_and_drops_expired_tokens() {
    let now = NOW;
    let mut source = Workspace {
        metadata_tokens: MetadataTokens::default(),
        metadata_token_sequences: Vec::new(),
    };
    assert_eq!(accept_sequence(&mut source.metadata_token_sequences, "writer", Some(7)), Ok(true));
    source.metadata_tokens.patch(patch(&[("permanent", Some("group"))]), None, now);
    source.metadata_tokens.patch(patch(&[("expired", Some("temporary"))]), Some(0), now);
    let transfer = HandoffMetadata::capture_workspace(&source, now, Some(100 * SECOND));
    let mut target = Workspace {
        metadata_tokens: MetadataTokens::default(),
        metadata_token_sequences: Vec::new(),
    };
    transfer.restore_workspace(&mut target, now, Some(100 * SECOND));
    assert_eq!(
        values(&target.metadata_tokens).get("permanent").map(String::as_str),
        Some("group")
    );
    assert!(!values(&target.metadata_tokens).contains_key("expired"));
    assert_eq!(accept_sequence(&mut target.metadata_token_sequences, "writer", Some(7)), Ok(false));
    assert_eq!(accept_sequence(&mut target.metadata_token_sequences, "writer", Some(8)), Ok(true));
}

#[test]
fn patch_reports_change_only_when_a_token_differs() {
    let now = NOW;
    let mut tokens = MetadataTokens::new();
    assert!(tokens.patch(patch(&[("summary", Some("one"))]), None, now));
    assert!(!tokens.patch(patch(&[("summary", Some("one"))]), None, now));
    assert!(!tokens.patch(patch(&[("absent", None)]), None, now));
    assert!(tokens.patch(patch(&[("summary", Some("one"))]), Some(SECOND), now));
    assert!(tokens.patch(patch(&[("summary", None)]), None, now));
    assert!(values(&tokens).is_empty());
}

#[test]
fn key_count_after_patch_counts_sets_and_removals() {
    let now = NOW;
    let mut tokens = MetadataTokens::new();
    tokens.patch(patch(&[("a", Some("1")), ("b", Some("2"))]), None, now);
    assert_eq!(tokens.key_count_after_patch(&patch(&[("c", Some("3"))])), 3);
    assert_eq!(tokens.key_count_after_patch(&patch(&[("a", Some("9"))])), 2);
    assert_eq!(tokens.key_count_after_patch(&patch(&[("a", None), ("z", None)])), 1);
}

#[test]
fn ttl_keeps_deadlines_late_on_the_clock() {
    // An instant centuries after the origin still takes a deadline.
    let now = u64::MAX as u128 + 10;
    let mut tokens = MetadataTokens::new();
    tokens.patch(patch(&[("summary", Some("one"))]), Some(SECOND), now);
    assert_eq!(tokens.next_expiry(), Some(now + SECOND));
    assert!(!tokens.expire_at(now));
    assert!(tokens.expire_at(now + SECOND));
    // Only a sum that no instant can hold makes the token permanent.
    let mut tokens = MetadataTokens::new();
    tokens.patch(patch(&[("summary", Some("one"))]), Some(SECOND), u128::MAX - 10);
    assert_eq!(tokens.next_expiry(), None);
    assert!(!tokens.expire_at(u128::MAX));
}

#[test]
fn next_expiry_is_the_earliest_deadline() {
    let now = NOW;
    let mut tokens = MetadataTokens::new();
    assert_eq!(tokens.next_expiry(), None);
    tokens.patch(patch(&[("late", Some("1"))]), Some(9 * SECOND), now);
    tokens.patch(patch(&[("early", Some("2"))]), Some(4 * SECOND), now);
    tokens.patch(patch(&[("never", Some("3"))]), None, now);
    assert_eq!(tokens.next_expiry(), Some(now + secs(4)));
}

#[test]
fn restore_drops_tokens_whose_deadline_passed_during_transfer() {
    let now = NOW;
    let mut tokens = MetadataTokens::new();
    tokens.patch(patch(&[("short", Some("one"))]), Some(2 * SECOND), now);
    let transfer = tokens.capture_handoff(now, Some(10 * SECOND));
    assert_eq!(transfer[0].1.expires_at, Some(12 * SECOND));
    let restored = MetadataTokens::restore_handoff(transfer, now, Some(12 * SECOND));
    assert!(values(&restored).is_empty());
}

#[test]
fn sequence_without_number_is_always_fresh() {
    let mut sequences = Vec::new();
    assert_eq!(accept_sequence(&mut sequences, "writer", None), Ok(true));
    assert!(sequences.is_empty());
    assert!(herdr::metadata_tokens::sequence_is_fresh(&sequences, "writer", Some(0)));
}

#[test]
fn key_count_after_patch_predicts_the_patch() {
    let mut tokens = MetadataTokens::default();
    tokens.patch(patch(&[("a", Some("1")), ("b", Some("2"))]), None, NOW);
    let next = patch(&[("b", None), ("c", Some("3")), ("d", Some("4"))]);
    let predicted = tokens.key_count_after_patch(&next);
    assert_eq!(predicted, 3);
    tokens.patch(next, Some(SECOND), NOW);
    assert_eq!(values(&tokens).len(), predicted);
}

#[test]
fn handoff_state_moves_to_a_new_pane_with_its_input_state() {
    let state = HandoffRuntimeState {
        pane_id: 3,
        terminal_id: Some(TerminalId::from_text("term_a1".into())),
        metadata: HandoffMetadata {
            tokens: Vec::new(),
            sequences: vec![("writer".into(), 7)],
            sequence_agents: Vec::new(),
            token_sequence_sources: Vec::new(),
        },
        child_pid: 42,
        rows: 24,
        cols: 80,
        cell_width_px: 8,
        cell_height_px: 16,
        keyboard_protocol_flags: 1,
        keyboard_protocol_ansi: None,
        input_state: Some("bracketed-paste"),
        terminal_title: Some("shell".into()),
        initial_history_ansi: None,
    };
    let moved = state.with_pane_id(PaneId::from_raw(9));
    assert_eq!(moved.pane_id, 9);
    assert_eq!(moved.input_state, Some("bracketed-paste"));
    assert_eq!(moved.child_pid, 42);
    assert_eq!(moved.terminal_id.as_ref().map(|t| t.as_str()), Some("term_a1"));
    assert_eq!(moved.metadata.sequences, vec![("writer".to_string(), 7)]);
}
