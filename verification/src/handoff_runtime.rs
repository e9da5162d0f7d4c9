//! Long-lived pane runtime transferred during server replacement.
//!
//! Handoff preserves server-owned session state such as PTYs, processes, agent
//! identity, and durable plugin/session metadata. It does not preserve
//! transient coordination such as in-flight requests, waits, subscriptions,
//! client sockets, or pane-to-pane messages; clients reconnect and retry those
//! operations after replacement.
use vstd::prelude::*;

use crate::keyed::{table, table_copy, table_wf, view_pairs};
use crate::layout::PaneId;
use crate::metadata_tokens::{
    captured, restored, HandoffToken, MetadataTokens, DURATION_MAX_NANOS,
};
use crate::terminal_id::TerminalId;

verus! {

/// The state of a pane that a live handoff carries to the new server. The
/// pane's input state is the terminal's own type `I`, carried unchanged.
pub struct HandoffRuntimeState<I> {
    pub pane_id: u32,
    pub terminal_id: Option<TerminalId>,
    pub metadata: HandoffMetadata,
    pub child_pid: u32,
    pub rows: u16,
    pub cols: u16,
    pub cell_width_px: u32,
    pub cell_height_px: u32,
    pub keyboard_protocol_flags: u16,
    pub keyboard_protocol_ansi: Option<String>,
    pub input_state: Option<I>,
    pub terminal_title: Option<String>,
    pub initial_history_ansi: Option<String>,
}

impl<I> HandoffRuntimeState<I> {
    /// The same state, attached to pane `pane_id`.
    pub fn with_pane_id(self, pane_id: PaneId) -> (r: Self)
        ensures
            r == (HandoffRuntimeState { pane_id: pane_id.raw, ..self }),
    {
        let mut state = self;
        state.pane_id = pane_id.raw();
        state
    }
}

/// The metadata of a workspace that only a live handoff carries: ordinary
/// session snapshots must stay portable across machines and boot sessions.
pub struct HandoffMetadata {
    pub tokens: Vec<(String, HandoffToken)>,
    pub sequences: Vec<(String, u64)>,
    pub sequence_agents: Vec<(String, String)>,
    pub token_sequence_sources: Vec<String>,
}

/// The part of a workspace's state that handoff moves: its metadata tokens
/// and the last sequence number accepted from each source.
pub struct Workspace {
    pub metadata_tokens: MetadataTokens,
    pub metadata_token_sequences: Vec<(String, u64)>,
}

impl Workspace {
    /// The workspace's tables are keyed without repetition.
    pub open spec fn wf(&self) -> bool {
        self.metadata_tokens.wf() && table_wf(self.metadata_token_sequences@)
    }
}

impl HandoffMetadata {
    /// Each table is keyed without repetition.
    pub open spec fn wf(&self) -> bool {
        &&& table_wf(self.tokens@)
        &&& table_wf(self.sequences@)
        &&& table_wf(self.sequence_agents@)
    }

    /// The handoff metadata of `workspace`, captured at `now` with the boot-wide
    /// monotonic clock reading `monotonic` (sampled first, so that capture
    /// cannot extend a deadline).
    pub fn capture_workspace(workspace: &Workspace, now: u128, monotonic: Option<u128>) -> (r: Self)
        requires
            workspace.wf(),
            monotonic matches Some(m) ==> m <= DURATION_MAX_NANOS,
        ensures
            r.wf(),
            table(r.tokens@) == captured(workspace.metadata_tokens@, now, monotonic),
            table(r.sequences@) == table(workspace.metadata_token_sequences@),
            r.sequence_agents@.len() == 0,
            r.token_sequence_sources@.len() == 0,
    {
        let tokens = workspace.metadata_tokens.capture_handoff(now, monotonic);
        let sequences = table_copy(&workspace.metadata_token_sequences);
        let r = HandoffMetadata {
            tokens,
            sequences,
            sequence_agents: Vec::new(),
            token_sequence_sources: Vec::new(),
        };
        proof {
            assert(view_pairs(r.sequence_agents@) =~= Seq::<(Seq<char>, Seq<char>)>::empty());
        }
        r
    }

    /// Installs the metadata in `workspace`, restored at `now` with the
    /// boot-wide monotonic clock reading `monotonic`.
    pub fn restore_workspace(self, workspace: &mut Workspace, now: u128, monotonic: Option<u128>)
        requires
            self.wf(),
        ensures
            final(workspace).wf(),
            final(workspace).metadata_tokens@ == restored(table(self.tokens@), now, monotonic),
            table(final(workspace).metadata_token_sequences@) == table(self.sequences@),
    {
        workspace.metadata_tokens = MetadataTokens::restore_handoff(self.tokens, now, monotonic);
        workspace.metadata_token_sequences = self.sequences;
    }
}

} // verus!
