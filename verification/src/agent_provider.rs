//! The provider registry: replacing, clearing, reading and focusing the agents
//! of provider sources. Revisions of a source only move forward; a rejected
//! request leaves the registry as it was.
//!
//! Sources are taken in the normalized form that the agent-view source
//! validation gives them; pane lookups are made by the caller, which passes
//! what it found.
use vstd::prelude::*;
use vstd::string::StringExecFns;

use crate::keyed::{table, table_get, table_insert, table_wf};
use crate::layout::PaneId;
use crate::provider_agents::{
    find_agent, normalize_id, normalized, provider_record, providers_view, records_view,
    registered_record, snapshot_of, text_error, validate_records, validated_records,
    AgentProviderRecord, AgentProviderSnapshot, AgentProviderState, AgentProviderTarget,
    AgentProviderViewer, ProviderView, ProviderViewerTarget, RecordView, SnapshotView, ViewerView,
    MAX_ID_CHARS,
};

verus! {

/// Why a provider request was refused.
#[derive(Debug, Clone, Copy, PartialEq, Eq, Structural)]
pub enum ProviderErrorCode {
    InvalidAgentProvider,
    AgentProviderNotFound,
    StaleAgentProviderRevision,
    ProviderViewerNotFound,
    ProviderAgentNotFound,
}

/// A refused request: its code and message.
pub struct ProviderError {
    pub code: ProviderErrorCode,
    pub message: String,
}

impl View for ProviderError {
    type V = (ProviderErrorCode, Seq<char>);

    open spec fn view(&self) -> (ProviderErrorCode, Seq<char>) {
        (self.code, self.message@)
    }
}

/// The providers by source, and the provider agent that has the focus.
pub struct ProviderRegistry {
    pub providers: Vec<(String, AgentProviderState)>,
    pub focused: Option<AgentProviderTarget>,
}

/// The registry with every part taken by its view.
pub struct RegistryView {
    pub providers: Map<Seq<char>, ProviderView>,
    pub focused: Option<(Seq<char>, Seq<char>)>,
}

impl View for ProviderRegistry {
    type V = RegistryView;

    open spec fn view(&self) -> RegistryView {
        RegistryView {
            providers: providers_view(self.providers@),
            focused: match self.focused {
                Some(t) => Some(t@),
                None => None,
            },
        }
    }
}

/// A live pane that the caller found for a viewer's public pane id.
pub struct ResolvedPane {
    pub ws_idx: usize,
    pub pane_id: PaneId,
    /// The public id of the pane's workspace.
    pub workspace_id: String,
    /// The public id of the pane, when it has one.
    pub public_pane_id: Option<String>,
}

/// A pane to focus for a provider agent.
pub struct PaneFocus {
    pub ws_idx: usize,
    pub pane_id: PaneId,
    pub target: AgentProviderTarget,
}

/// What an accepted replace reports and asks for.
pub struct ReplaceOutcome {
    pub snapshot: AgentProviderSnapshot,
    /// The selection that survived the replace, to focus in the new viewer.
    pub refocus: Option<PaneFocus>,
}

/// What an accepted focus asks for and reports.
pub struct FocusOutcome {
    pub focus: PaneFocus,
    pub record: AgentProviderRecord,
}

/// A workspace of the layout: its id and the panes it holds.
pub struct WorkspacePanes {
    pub id: String,
    pub panes: Vec<PaneId>,
}

/// The focus that survives when only targets that name a registered record may keep it.
pub open spec fn valid_focus(
    focused: Option<(Seq<char>, Seq<char>)>,
    providers: Map<Seq<char>, ProviderView>,
) -> Option<(Seq<char>, Seq<char>)> {
    match focused {
        Some(t) => if registered_record(providers, t) is Some {
            Some(t)
        } else {
            None
        },
        None => None,
    }
}

/// What a clear at `revision` leaves of a source: no viewer and no agents,
/// with the revision kept as a tombstone.
pub open spec fn tombstone(revision: u64) -> ProviderView {
    ProviderView { revision, viewer: None, agents: Seq::empty() }
}

/// The request was refused with `code` and `message`.
pub open spec fn refused<T>(r: Result<T, ProviderError>, code: ProviderErrorCode, message: Seq<char>) -> bool {
    r matches Err(e) && e@ == (code, message)
}

/// Some record of `agents` has id `id`.
pub open spec fn has_agent(agents: Seq<RecordView>, id: Seq<char>) -> bool {
    exists|i: int| 0 <= i < agents.len() && #[trigger] agents[i].id == id
}

/// A request with `revision` for `source` is stale: the source holds this revision or a later one.
pub open spec fn is_stale(providers: Map<Seq<char>, ProviderView>, source: Seq<char>, revision: u64) -> bool {
    providers.dom().contains(source) && revision <= providers[source].revision
}

/// The resolved pane is the pane that the viewer names.
pub open spec fn viewer_matches(
    resolved: ResolvedPane,
    workspace_id: Seq<char>,
    pane_id: Seq<char>,
) -> bool {
    resolved.workspace_id@ == workspace_id && match resolved.public_pane_id {
        Some(p) => p@ == pane_id,
        None => false,
    }
}

fn err(code: ProviderErrorCode, message: &str) -> (r: ProviderError)
    ensures
        r@ == (code, message@),
{
    ProviderError { code, message: String::from_str(message) }
}

impl AgentProviderTarget {
    /// A copy of the target.
    pub fn duplicate(&self) -> (r: AgentProviderTarget)
        ensures
            r@ == self@,
    {
        AgentProviderTarget { source: self.source.clone(), id: self.id.clone() }
    }
}

impl ProviderRegistry {
    /// No providers and no focus.
    pub fn new() -> (r: ProviderRegistry)
        ensures
            r.wf(),
            r@.providers == Map::<Seq<char>, ProviderView>::empty(),
            r@.focused is None,
    {
        let r = ProviderRegistry { providers: Vec::new(), focused: None };
        proof {
            crate::keyed::lemma_table_prefix_empty(r.providers@);
            assert(r.providers@.take(0) =~= r.providers@);
        }
        r
    }

    /// Each source is registered once.
    pub open spec fn wf(&self) -> bool {
        table_wf(self.providers@)
    }

    /// Drops the focus when it no longer names a registered record.
    pub fn clear_invalid_provider_focus(&mut self)
        requires
            old(self).wf(),
        ensures
            final(self).wf(),
            final(self)@.providers == old(self)@.providers,
            final(self)@.focused == valid_focus(old(self)@.focused, old(self)@.providers),
    {
        let invalid = match &self.focused {
            Some(target) => provider_record(&self.providers, target).is_none(),
            None => false,
        };
        if invalid {
            self.focused = None;
        }
    }

    /// What the protocol reports of provider `source`.
    pub fn handle_agent_provider_snapshot(&self, source: &str) -> (r: Result<
        AgentProviderSnapshot,
        ProviderError,
    >)
        requires
            self.wf(),
        ensures
            self@.providers.dom().contains(source@) ==> (r is Ok && r->Ok_0@ == snapshot_of(
                self@.providers[source@],
                source@,
            )),
            !self@.providers.dom().contains(source@) ==> refused(r, ProviderErrorCode::AgentProviderNotFound, "agent provider not found"@),
    {
        match table_get(&self.providers, source) {
            Some(provider) => Ok(provider.snapshot(source)),
            None => Err(err(ProviderErrorCode::AgentProviderNotFound, "agent provider not found")),
        }
    }

    /// The provider agent that has the focus.
    pub fn handle_agent_provider_focused(&self) -> (r: Option<AgentProviderTarget>)
        ensures
            match r {
                Some(t) => self@.focused == Some(t@),
                None => self@.focused is None,
            },
    {
        match &self.focused {
            Some(t) => Some(t.duplicate()),
            None => None,
        }
    }

    /// Replaces every agent of `source` at once with `agents`, shown in the
    /// pane that `viewer` names; `resolved` is the live pane that the caller
    /// found for `viewer.pane_id`. The revision must be at least 1 and newer
    /// than the one the source holds. A selection that still names one of the
    /// new agents is kept and is to be focused in the new viewer; a selection
    /// that no longer names a registered record is dropped.
    pub fn handle_agent_provider_replace(
        &mut self,
        source: &str,
        revision: u64,
        viewer: AgentProviderViewer,
        agents: Vec<AgentProviderRecord>,
        resolved: Option<ResolvedPane>,
    ) -> (r: Result<ReplaceOutcome, ProviderError>)
        requires
            old(self).wf(),
        ensures
            final(self).wf(),
            r is Err ==> final(self)@ == old(self)@,
            revision == 0 ==> refused(r, ProviderErrorCode::InvalidAgentProvider, "agent provider revision must be at least 1"@),
            revision > 0 && validated_records(records_view(agents@)).1 is Some ==> refused(r, ProviderErrorCode::InvalidAgentProvider, validated_records(records_view(agents@)).1->0),
            revision > 0 && validated_records(records_view(agents@)).1 is None && is_stale(
                old(self)@.providers,
                source@,
                revision,
            ) ==> refused(r, ProviderErrorCode::StaleAgentProviderRevision, "agent provider revision must increase"@),
            revision > 0 && validated_records(records_view(agents@)).1 is None && !is_stale(
                old(self)@.providers,
                source@,
                revision,
            ) && resolved is None ==> refused(r, ProviderErrorCode::ProviderViewerNotFound, "provider viewer pane not found"@),
            revision > 0 && validated_records(records_view(agents@)).1 is None && !is_stale(
                old(self)@.providers,
                source@,
                revision,
            ) && resolved is Some && !viewer_matches(resolved->0, viewer.workspace_id@, viewer.pane_id@)
                ==> refused(r, ProviderErrorCode::ProviderViewerNotFound, "provider viewer workspace and pane do not identify the same live pane"@),
            revision > 0 && validated_records(records_view(agents@)).1 is None && !is_stale(
                old(self)@.providers,
                source@,
                revision,
            ) && resolved is Some && viewer_matches(resolved->0, viewer.workspace_id@, viewer.pane_id@)
                ==> {
                let p = resolved->0;
                let provider = ProviderView {
                    revision,
                    viewer: Some(
                        ViewerView {
                            workspace_id: viewer.workspace_id@,
                            pane_id: p.pane_id,
                            public_pane_id: viewer.pane_id@,
                        },
                    ),
                    agents: validated_records(records_view(agents@)).0,
                };
                let providers = old(self)@.providers.insert(source@, provider);
                &&& r is Ok
                &&& final(self)@.providers == providers
                &&& final(self)@.focused == valid_focus(old(self)@.focused, providers)
                &&& r->Ok_0.snapshot@ == snapshot_of(provider, source@)
                &&& match old(self)@.focused {
                    Some(t) => if t.0 == source@ && has_agent(provider.agents, t.1) {
                        r->Ok_0.refocus is Some && r->Ok_0.refocus->0.ws_idx == p.ws_idx
                            && r->Ok_0.refocus->0.pane_id == p.pane_id && r->Ok_0.refocus->0.target@ == t
                    } else {
                        r->Ok_0.refocus is None
                    },
                    None => r->Ok_0.refocus is None,
                }
            },
    {
        if revision == 0 {
            return Err(
                err(ProviderErrorCode::InvalidAgentProvider, "agent provider revision must be at least 1"),
            );
        }
        let mut agents = agents;
        match validate_records(&mut agents) {
            Err(message) => {
                return Err(ProviderError { code: ProviderErrorCode::InvalidAgentProvider, message });
            },
            Ok(()) => {},
        }
        let stale = match table_get(&self.providers, source) {
            Some(provider) => revision <= provider.revision,
            None => false,
        };
        if stale {
            return Err(
                err(ProviderErrorCode::StaleAgentProviderRevision, "agent provider revision must increase"),
            );
        }
        let pane = match resolved {
            None => {
                return Err(
                    err(ProviderErrorCode::ProviderViewerNotFound, "provider viewer pane not found"),
                );
            },
            Some(pane) => pane,
        };
        let same = pane.workspace_id == viewer.workspace_id && match &pane.public_pane_id {
            Some(p) => *p == viewer.pane_id,
            None => false,
        };
        if !same {
            return Err(
                err(
                    ProviderErrorCode::ProviderViewerNotFound,
                    "provider viewer workspace and pane do not identify the same live pane",
                ),
            );
        }
        let selected = match &self.focused {
            Some(target) => {
                if crate::text::str_equal(target.source.as_str(), source) && find_agent(&agents, &target.id).is_some() {
                    Some(target.duplicate())
                } else {
                    None
                }
            },
            None => None,
        };
        proof {
            match self@.focused {
                Some(t) => {
                    let found = crate::provider_agents::find_record(records_view(agents@), t.1);
                    lemma_find_record_has_agent(records_view(agents@), t.1);
                },
                None => {},
            }
        }
        let provider = AgentProviderState {
            revision,
            viewer: Some(
                ProviderViewerTarget {
                    workspace_id: viewer.workspace_id,
                    pane_id: pane.pane_id,
                    public_pane_id: viewer.pane_id,
                },
            ),
            agents,
        };
        let snapshot = provider.snapshot(source);
        table_insert(&mut self.providers, crate::text::owned(source), provider);
        self.clear_invalid_provider_focus();
        let refocus = match selected {
            Some(target) => Some(PaneFocus { ws_idx: pane.ws_idx, pane_id: pane.pane_id, target }),
            None => None,
        };
        Ok(ReplaceOutcome { snapshot, refocus })
    }

    /// Clears every agent of `source`, leaving the revision as a tombstone so
    /// that an older replace cannot bring them back.
    pub fn handle_agent_provider_clear(&mut self, source: &str, revision: u64) -> (r: Result<
        (String, u64),
        ProviderError,
    >)
        requires
            old(self).wf(),
        ensures
            final(self).wf(),
            r is Err ==> final(self)@ == old(self)@,
            revision == 0 ==> refused(r, ProviderErrorCode::InvalidAgentProvider, "agent provider revision must be at least 1"@),
            revision > 0 && is_stale(old(self)@.providers, source@, revision) ==> refused(r, ProviderErrorCode::StaleAgentProviderRevision, "agent provider revision must increase"@),
            revision > 0 && !is_stale(old(self)@.providers, source@, revision) ==> {
                let providers = old(self)@.providers.insert(source@, tombstone(revision));
                &&& r is Ok && r->Ok_0.0@ == source@ && r->Ok_0.1 == revision
                &&& final(self)@.providers == providers
                &&& final(self)@.focused == valid_focus(old(self)@.focused, providers)
            },
    {
        if revision == 0 {
            return Err(
                err(ProviderErrorCode::InvalidAgentProvider, "agent provider revision must be at least 1"),
            );
        }
        let stale = match table_get(&self.providers, source) {
            Some(provider) => revision <= provider.revision,
            None => false,
        };
        if stale {
            return Err(
                err(ProviderErrorCode::StaleAgentProviderRevision, "agent provider revision must increase"),
            );
        }
        let tombstone = AgentProviderState { revision, viewer: None, agents: Vec::new() };
        proof {
            assert(records_view(tombstone.agents@) =~= Seq::<RecordView>::empty());
        }
        table_insert(&mut self.providers, crate::text::owned(source), tombstone);
        self.clear_invalid_provider_focus();
        Ok((crate::text::owned(source), revision))
    }

    /// The record `id` of provider `source`; the id is normalized first.
    pub fn handle_agent_provider_get(&self, source: &str, id: &str) -> (r: Result<
        (AgentProviderTarget, AgentProviderRecord),
        ProviderError,
    >)
        requires
            self.wf(),
        ensures
            normalized(id@, MAX_ID_CHARS as nat) is None ==> refused(r, ProviderErrorCode::InvalidAgentProvider, text_error("provider agent id"@, MAX_ID_CHARS as nat)),
            normalized(id@, MAX_ID_CHARS as nat) is Some ==> {
                let nid = normalized(id@, MAX_ID_CHARS as nat)->0;
                match registered_record(self@.providers, (source@, nid)) {
                    None => refused(
                        r,
                        ProviderErrorCode::ProviderAgentNotFound,
                        "provider agent not found"@,
                    ),
                    Some(rec) => r is Ok && r->Ok_0.0@ == (source@, nid) && r->Ok_0.1@ == rec,
                }
            },
    {
        let id = match normalize_id(id) {
            Ok(id) => id,
            Err(message) => {
                return Err(ProviderError { code: ProviderErrorCode::InvalidAgentProvider, message });
            },
        };
        let target = AgentProviderTarget { source: crate::text::owned(source), id };
        match provider_record(&self.providers, &target) {
            Some(record) => {
                let record = record.duplicate();
                Ok((target, record))
            },
            None => Err(err(ProviderErrorCode::ProviderAgentNotFound, "provider agent not found")),
        }
    }

    /// Focuses provider agent `id` of `source` in the provider's shared viewer
    /// pane, which must be live in `workspaces`; the id is normalized first.
    pub fn handle_agent_provider_focus(
        &mut self,
        source: &str,
        id: &str,
        workspaces: &Vec<WorkspacePanes>,
    ) -> (r: Result<FocusOutcome, ProviderError>)
        requires
            old(self).wf(),
        ensures
            final(self).wf(),
            final(self)@.providers == old(self)@.providers,
            r is Err ==> final(self)@ == old(self)@,
            normalized(id@, MAX_ID_CHARS as nat) is None ==> refused(r, ProviderErrorCode::InvalidAgentProvider, text_error("provider agent id"@, MAX_ID_CHARS as nat)),
            normalized(id@, MAX_ID_CHARS as nat) is Some ==> focus_result(
                r,
                old(self)@.providers,
                source@,
                normalized(id@, MAX_ID_CHARS as nat)->0,
                workspaces_view(workspaces@),
            ),
            normalized(id@, MAX_ID_CHARS as nat) is Some && r is Ok ==> final(self)@.focused == Some(
                (source@, normalized(id@, MAX_ID_CHARS as nat)->0),
            ),
    {
        let id = match normalize_id(id) {
            Ok(id) => id,
            Err(message) => {
                return Err(ProviderError { code: ProviderErrorCode::InvalidAgentProvider, message });
            },
        };
        let provider = match table_get(&self.providers, source) {
            Some(provider) => provider,
            None => {
                return Err(err(ProviderErrorCode::ProviderAgentNotFound, "provider agent not found"));
            },
        };
        let record = match find_agent(&provider.agents, &id) {
            Some(record) => record.duplicate(),
            None => {
                return Err(err(ProviderErrorCode::ProviderAgentNotFound, "provider agent not found"));
            },
        };
        let (viewer_workspace, viewer_pane) = match &provider.viewer {
            Some(viewer) => (viewer.workspace_id.clone(), viewer.pane_id),
            None => {
                return Err(
                    err(ProviderErrorCode::ProviderViewerNotFound, "provider viewer pane not found"),
                );
            },
        };
        let ws_idx = match workspace_position(workspaces, &viewer_workspace) {
            Some(w) => w,
            None => {
                return Err(
                    err(ProviderErrorCode::ProviderViewerNotFound, "provider viewer pane not found"),
                );
            },
        };
        if !pane_listed(&workspaces[ws_idx].panes, viewer_pane) {
            return Err(
                err(ProviderErrorCode::ProviderViewerNotFound, "provider viewer pane not found"),
            );
        }
        let target = AgentProviderTarget { source: crate::text::owned(source), id };
        proof {
            let ws = workspaces_view(workspaces@);
            assert(ws[ws_idx as int].1 == workspaces@[ws_idx as int].panes@);
        }
        self.focused = Some(target.duplicate());
        Ok(FocusOutcome { focus: PaneFocus { ws_idx, pane_id: viewer_pane, target }, record })
    }
}

/// What focusing record `id` of `source` answers, given the live workspaces.
pub open spec fn focus_result(
    r: Result<FocusOutcome, ProviderError>,
    providers: Map<Seq<char>, ProviderView>,
    source: Seq<char>,
    id: Seq<char>,
    workspaces: Seq<(Seq<char>, Seq<PaneId>)>,
) -> bool {
    let not_found = refused(r, ProviderErrorCode::ProviderAgentNotFound, "provider agent not found"@);
    let no_viewer = refused(
        r,
        ProviderErrorCode::ProviderViewerNotFound,
        "provider viewer pane not found"@,
    );
    match registered_record(providers, (source, id)) {
        None => not_found,
        Some(rec) => match providers[source].viewer {
            None => no_viewer,
            Some(v) => match first_workspace(workspaces, v.workspace_id) {
                None => no_viewer,
                Some(w) => if workspaces[w].1.contains(v.pane_id) {
                    &&& r is Ok
                    &&& r->Ok_0.focus.ws_idx == w
                    &&& r->Ok_0.focus.pane_id == v.pane_id
                    &&& r->Ok_0.focus.target@ == (source, id)
                    &&& r->Ok_0.record@ == rec
                } else {
                    no_viewer
                },
            },
        },
    }
}

/// The workspaces by public id, each with its panes.
pub open spec fn workspaces_view(ws: Seq<WorkspacePanes>) -> Seq<(Seq<char>, Seq<PaneId>)> {
    ws.map_values(|w: WorkspacePanes| (w.id@, w.panes@))
}

/// The position of the first workspace with id `id`.
pub open spec fn first_workspace(ws: Seq<(Seq<char>, Seq<PaneId>)>, id: Seq<char>) -> Option<int> {
    if exists|i: int| 0 <= i < ws.len() && #[trigger] ws[i].0 == id {
        Some(choose|i: int| 0 <= i < ws.len() && ws[i].0 == id && forall|j: int| 0 <= j < i ==> #[trigger] ws[j].0 != id)
    } else {
        None
    }
}

fn workspace_position(workspaces: &Vec<WorkspacePanes>, id: &String) -> (r: Option<usize>)
    ensures
        match r {
            Some(w) => w < workspaces.len() && first_workspace(workspaces_view(workspaces@), id@) == Some(w as int),
            None => first_workspace(workspaces_view(workspaces@), id@) is None,
        },
{
    let ghost ws = workspaces_view(workspaces@);
    let mut i: usize = 0;
    while i < workspaces.len()
        invariant
            i <= workspaces.len(),
            ws == workspaces_view(workspaces@),
            forall|j: int| 0 <= j < i ==> #[trigger] ws[j].0 != id@,
        decreases workspaces.len() - i,
    {
        if workspaces[i].id == *id {
            proof {
                assert(ws[i as int].0 == id@);
                let c = choose|c: int| 0 <= c < ws.len() && ws[c].0 == id@ && forall|j: int| 0 <= j < c ==> #[trigger] ws[j].0 != id@;
                if c < i {
                } else if c > i {
                    assert(ws[i as int].0 != id@);
                }
            }
            return Some(i);
        }
        i = i + 1;
    }
    None
}

fn pane_listed(panes: &Vec<PaneId>, pane: PaneId) -> (r: bool)
    ensures
        r == panes@.contains(pane),
{
    let mut i: usize = 0;
    while i < panes.len()
        invariant
            i <= panes.len(),
            forall|j: int| 0 <= j < i ==> panes@[j] != pane,
        decreases panes.len() - i,
    {
        if panes[i].raw == pane.raw {
            assert(panes@[i as int] == pane);
            return true;
        }
        i = i + 1;
    }
    false
}

proof fn lemma_find_record_has_agent(agents: Seq<RecordView>, id: Seq<char>)
    ensures
        crate::provider_agents::find_record(agents, id) is Some == has_agent(agents, id),
    decreases agents.len(),
{
    if agents.len() > 0 {
        lemma_find_record_has_agent(agents.drop_first(), id);
        if has_agent(agents, id) && agents[0].id != id {
            let i = choose|i: int| 0 <= i < agents.len() && #[trigger] agents[i].id == id;
            assert(agents.drop_first()[i - 1].id == id);
        }
        if has_agent(agents.drop_first(), id) {
            let i = choose|i: int| 0 <= i < agents.len() - 1 && #[trigger] agents.drop_first()[i].id == id;
            assert(agents[i + 1].id == id);
        }
        if agents[0].id == id {
            assert(agents[0].id == id);
        }
    }
}

/// An accepted replace or clear (its revision is at least 1 and not stale)
/// moves the source's revision strictly forward and leaves every other source
/// as it was.
pub proof fn law_accepted_revisions_move_forward(
    providers: Map<Seq<char>, ProviderView>,
    source: Seq<char>,
    provider: ProviderView,
)
    requires
        provider.revision > 0,
        !is_stale(providers, source, provider.revision),
    ensures
        providers.insert(source, provider)[source].revision == provider.revision,
        providers.dom().contains(source) ==> providers[source].revision < provider.revision,
        forall|other: Seq<char>|
            other != source ==> (#[trigger] providers.insert(source, provider).dom().contains(other)
                == providers.dom().contains(other) && (providers.dom().contains(other)
                ==> providers.insert(source, provider)[other] == providers[other])),
{
}

/// After a clear at `revision`, the source has no agent, and every replace or
/// clear of it with that revision or an older one is stale: cleared agents
/// cannot come back from an older snapshot.
pub proof fn law_clear_tombstone_refuses_older_revisions(
    providers: Map<Seq<char>, ProviderView>,
    source: Seq<char>,
    revision: u64,
    older: u64,
    id: Seq<char>,
)
    requires
        older <= revision,
    ensures
        is_stale(providers.insert(source, tombstone(revision)), source, older),
        registered_record(providers.insert(source, tombstone(revision)), (source, id)) is None,
{
}

/// The focus that a replace or clear leaves never names a record that is not
/// registered, and checking it again changes nothing.
pub proof fn law_focus_names_a_registered_record(
    focused: Option<(Seq<char>, Seq<char>)>,
    providers: Map<Seq<char>, ProviderView>,
)
    ensures
        valid_focus(focused, providers) matches Some(t) ==> registered_record(providers, t) is Some,
        valid_focus(valid_focus(focused, providers), providers) == valid_focus(focused, providers),
{
}

/// A replace keeps the focus on an agent of the replaced source that the new
/// snapshot still holds, and drops it when the snapshot no longer holds it.
pub proof fn law_replace_keeps_focus_on_surviving_agent(
    providers: Map<Seq<char>, ProviderView>,
    source: Seq<char>,
    id: Seq<char>,
    provider: ProviderView,
)
    ensures
        has_agent(provider.agents, id) ==> valid_focus(
            Some((source, id)),
            providers.insert(source, provider),
        ) == Some((source, id)),
        !has_agent(provider.agents, id) ==> valid_focus(
            Some((source, id)),
            providers.insert(source, provider),
        ) is None,
{
    lemma_find_record_has_agent(provider.agents, id);
}

/// A clear drops the focus from every agent of the cleared source.
pub proof fn law_clear_drops_focus_of_source(
    providers: Map<Seq<char>, ProviderView>,
    source: Seq<char>,
    id: Seq<char>,
    revision: u64,
)
    ensures
        valid_focus(Some((source, id)), providers.insert(source, tombstone(revision))) is None,
{
}

/// Reading a record back after an accepted replace gives the record that the
/// replace stored under that id, and reading another source gives what it held.
pub proof fn law_get_reads_back_the_replace(
    providers: Map<Seq<char>, ProviderView>,
    source: Seq<char>,
    provider: ProviderView,
    target: (Seq<char>, Seq<char>),
)
    ensures
        target.0 == source ==> registered_record(providers.insert(source, provider), target)
            == crate::provider_agents::find_record(provider.agents, target.1),
        target.0 != source ==> registered_record(providers.insert(source, provider), target)
            == registered_record(providers, target),
{
}

} // verus!
