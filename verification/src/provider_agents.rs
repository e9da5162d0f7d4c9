//! Data-only agents that a provider source registers, their validation and
//! normalization, and the snapshot that the protocol reports of them.
use vstd::prelude::*;
use vstd::string::StringExecFns;

use crate::keyed::{table, table_get, table_wf, view_pairs};
use crate::layout::PaneId;
use crate::text::{
    any_control, chars_of, decimal_string, decimal_text, has_control, is_ascii_alphanumeric_char,
    string_of, trim_chars, trimmed,
};

verus! {

/// At most this many records per provider.
pub const MAX_PROVIDER_AGENTS: usize = 2_000;

/// Longest id, in characters.
pub const MAX_ID_CHARS: usize = 128;

/// Longest name, in characters.
pub const MAX_NAME_CHARS: usize = 128;

/// Longest agent kind, in characters.
pub const MAX_AGENT_CHARS: usize = 64;

/// Longest title or display agent, in characters.
pub const MAX_TITLE_CHARS: usize = 256;

/// Longest metadata value, in characters.
pub const MAX_METADATA_VALUE_CHARS: usize = 256;

/// At most this many state labels per record.
pub const MAX_STATE_LABELS: usize = 8;

/// At most this many metadata tokens per record.
pub const MAX_TOKENS: usize = 32;

/// Longest metadata key, in characters.
pub const MAX_METADATA_KEY_CHARS: usize = 32;

/// The pane that shows every agent of a provider.
pub struct ProviderViewerTarget {
    pub workspace_id: String,
    pub pane_id: PaneId,
    pub public_pane_id: String,
}

/// A viewer with its texts taken by their views.
pub struct ViewerView {
    pub workspace_id: Seq<char>,
    pub pane_id: PaneId,
    pub public_pane_id: Seq<char>,
}

impl View for ProviderViewerTarget {
    type V = ViewerView;

    open spec fn view(&self) -> ViewerView {
        ViewerView {
            workspace_id: self.workspace_id@,
            pane_id: self.pane_id,
            public_pane_id: self.public_pane_id@,
        }
    }
}

/// What the server holds of one provider source: the last revision it
/// accepted, the shared viewer pane, and the agents.
pub struct AgentProviderState {
    pub revision: u64,
    pub viewer: Option<ProviderViewerTarget>,
    pub agents: Vec<AgentProviderRecord>,
}

/// A provider's state with every part taken by its view.
pub struct ProviderView {
    pub revision: u64,
    pub viewer: Option<ViewerView>,
    pub agents: Seq<RecordView>,
}

impl View for AgentProviderState {
    type V = ProviderView;

    open spec fn view(&self) -> ProviderView {
        ProviderView {
            revision: self.revision,
            viewer: match self.viewer {
                Some(v) => Some(v@),
                None => None,
            },
            agents: records_view(self.agents@),
        }
    }
}

/// The viewer as the protocol names it: public workspace and pane ids.
pub struct AgentProviderViewer {
    pub workspace_id: String,
    pub pane_id: String,
}

/// What the protocol reports of a provider.
pub struct AgentProviderSnapshot {
    pub source: String,
    pub revision: u64,
    pub viewer: Option<AgentProviderViewer>,
    pub agents: Vec<AgentProviderRecord>,
}

/// A snapshot with every part taken by its view.
pub struct SnapshotView {
    pub source: Seq<char>,
    pub revision: u64,
    pub viewer: Option<(Seq<char>, Seq<char>)>,
    pub agents: Seq<RecordView>,
}

impl View for AgentProviderSnapshot {
    type V = SnapshotView;

    open spec fn view(&self) -> SnapshotView {
        SnapshotView {
            source: self.source@,
            revision: self.revision,
            viewer: match self.viewer {
                Some(v) => Some((v.workspace_id@, v.pane_id@)),
                None => None,
            },
            agents: records_view(self.agents@),
        }
    }
}

/// The snapshot of provider `p` under the name `source`.
pub open spec fn snapshot_of(p: ProviderView, source: Seq<char>) -> SnapshotView {
    SnapshotView {
        source,
        revision: p.revision,
        viewer: match p.viewer {
            Some(v) => Some((v.workspace_id, v.public_pane_id)),
            None => None,
        },
        agents: p.agents,
    }
}

/// One agent of one provider.
pub struct AgentProviderTarget {
    pub source: String,
    pub id: String,
}

impl View for AgentProviderTarget {
    type V = (Seq<char>, Seq<char>);

    open spec fn view(&self) -> (Seq<char>, Seq<char>) {
        (self.source@, self.id@)
    }
}

/// The first record of `agents` with id `id`.
pub open spec fn find_record(agents: Seq<RecordView>, id: Seq<char>) -> Option<RecordView>
    decreases agents.len(),
{
    if agents.len() == 0 {
        None
    } else if agents[0].id == id {
        Some(agents[0])
    } else {
        find_record(agents.drop_first(), id)
    }
}

/// The record that `target` names among the providers, if any.
pub open spec fn registered_record(
    providers: Map<Seq<char>, ProviderView>,
    target: (Seq<char>, Seq<char>),
) -> Option<RecordView> {
    if providers.dom().contains(target.0) {
        find_record(providers[target.0].agents, target.1)
    } else {
        None
    }
}

/// The reported lifecycle state of an agent.
#[derive(Debug, Clone, Copy, PartialEq, Eq, Structural)]
pub enum AgentStatus {
    Unknown,
    Idle,
    Working,
    Blocked,
    Done,
}

/// One agent as a provider reports it.
pub struct AgentProviderRecord {
    pub id: String,
    pub name: String,
    pub agent: Option<String>,
    pub title: Option<String>,
    pub display_agent: Option<String>,
    pub agent_status: AgentStatus,
    pub state_labels: Vec<(String, String)>,
    pub tokens: Vec<(String, String)>,
    pub state_change_seq: Option<u64>,
}

/// A record with every text taken by its view.
pub struct RecordView {
    pub id: Seq<char>,
    pub name: Seq<char>,
    pub agent: Option<Seq<char>>,
    pub title: Option<Seq<char>>,
    pub display_agent: Option<Seq<char>>,
    pub agent_status: AgentStatus,
    pub state_labels: Seq<(Seq<char>, Seq<char>)>,
    pub tokens: Seq<(Seq<char>, Seq<char>)>,
    pub state_change_seq: Option<u64>,
}

/// An optional text taken by its view.
pub open spec fn opt_text(o: Option<String>) -> Option<Seq<char>> {
    match o {
        Some(s) => Some(s@),
        None => None,
    }
}

impl View for AgentProviderRecord {
    type V = RecordView;

    open spec fn view(&self) -> RecordView {
        RecordView {
            id: self.id@,
            name: self.name@,
            agent: opt_text(self.agent),
            title: opt_text(self.title),
            display_agent: opt_text(self.display_agent),
            agent_status: self.agent_status,
            state_labels: view_pairs(self.state_labels@),
            tokens: view_pairs(self.tokens@),
            state_change_seq: self.state_change_seq,
        }
    }
}

/// The records of a list, each taken by its view.
pub open spec fn records_view(v: Seq<AgentProviderRecord>) -> Seq<RecordView> {
    v.map_values(|r: AgentProviderRecord| r@)
}

/// The trimmed text, when it is non-empty, at most `max` characters long and free of control characters.
pub open spec fn normalized(s: Seq<char>, max: nat) -> Option<Seq<char>> {
    let t = trimmed(s);
    if t.len() == 0 || t.len() > max || has_control(t) {
        None
    } else {
        Some(t)
    }
}

/// The message that rejects a text field.
pub open spec fn text_error(label: Seq<char>, max: nat) -> Seq<char> {
    label + " must be non-empty, at most "@ + decimal_text(max)
        + " characters, and contain no control characters"@
}

/// A metadata key: 1 to 32 ASCII letters, digits, `_` or `-`.
pub open spec fn valid_metadata_key(k: Seq<char>) -> bool {
    &&& 0 < k.len() <= MAX_METADATA_KEY_CHARS
    &&& forall|i: int|
        0 <= i < k.len() ==> is_ascii_alphanumeric_char(#[trigger] k[i]) || k[i] == '_' || k[i]
            == '-'
}

/// A metadata value: at most 256 characters, none of them a control character.
pub open spec fn valid_metadata_value(v: Seq<char>) -> bool {
    v.len() <= MAX_METADATA_VALUE_CHARS && !has_control(v)
}

/// The error of the first invalid metadata pair, if any.
pub open spec fn metadata_error(pairs: Seq<(Seq<char>, Seq<char>)>, id: Seq<char>) -> Option<Seq<char>>
    decreases pairs.len(),
{
    if pairs.len() == 0 {
        None
    } else if !valid_metadata_key(pairs[0].0) {
        Some("provider metadata key is invalid"@)
    } else if !valid_metadata_value(pairs[0].1) {
        Some("provider agent "@ + id + " metadata value is invalid"@)
    } else {
        metadata_error(pairs.drop_first(), id)
    }
}

/// Normalizes an optional text: `Err` when it is present and not acceptable.
pub open spec fn normalized_opt(o: Option<Seq<char>>, max: nat) -> Result<Option<Seq<char>>, ()> {
    match o {
        None => Ok(None),
        Some(s) => match normalized(s, max) {
            Some(t) => Ok(Some(t)),
            None => Err(()),
        },
    }
}

/// Checks one record, given the ids of the records before it: the record as
/// the check leaves it, and the error that stops the check, if any. Fields
/// are normalized one after the other; an optional field that fails is left empty.
pub open spec fn check_record(r: RecordView, seen: Seq<Seq<char>>) -> (RecordView, Option<Seq<char>>) {
    match normalized(r.id, MAX_ID_CHARS as nat) {
        None => (r, Some(text_error("provider agent id"@, MAX_ID_CHARS as nat))),
        Some(id) => {
            let r1 = RecordView { id, ..r };
            match normalized(r.name, MAX_NAME_CHARS as nat) {
                None => (r1, Some(text_error("provider agent name"@, MAX_NAME_CHARS as nat))),
                Some(name) => {
                    let r2 = RecordView { name, ..r1 };
                    match normalized_opt(r.agent, MAX_AGENT_CHARS as nat) {
                        Err(_) => (
                            RecordView { agent: None, ..r2 },
                            Some(text_error("agent"@, MAX_AGENT_CHARS as nat)),
                        ),
                        Ok(agent) => {
                            let r3 = RecordView { agent, ..r2 };
                            match normalized_opt(r.title, MAX_TITLE_CHARS as nat) {
                                Err(_) => (
                                    RecordView { title: None, ..r3 },
                                    Some(text_error("title"@, MAX_TITLE_CHARS as nat)),
                                ),
                                Ok(title) => {
                                    let r4 = RecordView { title, ..r3 };
                                    match normalized_opt(r.display_agent, MAX_TITLE_CHARS as nat) {
                                        Err(_) => (
                                            RecordView { display_agent: None, ..r4 },
                                            Some(
                                                text_error("display agent"@, MAX_TITLE_CHARS as nat),
                                            ),
                                        ),
                                        Ok(display_agent) => {
                                            let r5 = RecordView { display_agent, ..r4 };
                                            if seen.contains(id) {
                                                (
                                                    r5,
                                                    Some(
                                                        "duplicate provider agent id `"@ + id
                                                            + "`"@,
                                                    ),
                                                )
                                            } else if r.state_labels.len() > MAX_STATE_LABELS {
                                                (
                                                    r5,
                                                    Some(
                                                        "provider agent "@ + id
                                                            + " has more than 8 state labels"@,
                                                    ),
                                                )
                                            } else if r.tokens.len() > MAX_TOKENS {
                                                (
                                                    r5,
                                                    Some(
                                                        "provider agent "@ + id
                                                            + " has more than 32 metadata tokens"@,
                                                    ),
                                                )
                                            } else {
                                                (r5, metadata_error(r.state_labels + r.tokens, id))
                                            }
                                        },
                                    }
                                },
                            }
                        },
                    }
                },
            }
        },
    }
}

/// Checks the records in order, given the ids seen before them: the records
/// as the checks leave them, and the first error. Records after the failing
/// one are left as they were.
pub open spec fn check_records(rs: Seq<RecordView>, seen: Seq<Seq<char>>) -> (Seq<RecordView>, Option<
    Seq<char>,
>)
    decreases rs.len(),
{
    if rs.len() == 0 {
        (rs, None)
    } else {
        let (r0, e) = check_record(rs[0], seen);
        if e is Some {
            (seq![r0] + rs.drop_first(), e)
        } else {
            let (rest, e2) = check_records(rs.drop_first(), seen.push(r0.id));
            (seq![r0] + rest, e2)
        }
    }
}

/// `validate_records` as a function of the records' views.
pub open spec fn validated_records(rs: Seq<RecordView>) -> (Seq<RecordView>, Option<Seq<char>>) {
    if rs.len() > MAX_PROVIDER_AGENTS {
        (rs, Some("agent provider may contain at most 2000 records"@))
    } else {
        check_records(rs, Seq::empty())
    }
}

/// The message that rejects a text field, built.
fn text_error_message(label: &str, max_chars: usize) -> (r: String)
    ensures
        r@ == text_error(label@, max_chars as nat),
{
    let mut m = String::from_str(label);
    m.append(" must be non-empty, at most ");
    let n = decimal_string(max_chars as u64);
    m.append(n.as_str());
    m.append(" characters, and contain no control characters");
    m
}

/// `value` trimmed, when it is non-empty, at most `max_chars` characters long and free of control characters.
pub fn normalized_text(value: &str, label: &str, max_chars: usize) -> (r: Result<String, String>)
    ensures
        r is Ok <==> normalized(value@, max_chars as nat) is Some,
        r matches Ok(t) ==> t@ == normalized(value@, max_chars as nat)->0,
        r matches Err(e) ==> e@ == text_error(label@, max_chars as nat),
{
    let v = chars_of(value);
    let t = trim_chars(v.as_slice());
    if t.len() == 0 || t.len() > max_chars || any_control(t.as_slice()) {
        return Err(text_error_message(label, max_chars));
    }
    Ok(string_of(t.as_slice()))
}

/// A provider agent id, normalized.
pub fn normalize_id(id: &str) -> (r: Result<String, String>)
    ensures
        r is Ok <==> normalized(id@, MAX_ID_CHARS as nat) is Some,
        r matches Ok(t) ==> t@ == normalized(id@, MAX_ID_CHARS as nat)->0,
        r matches Err(e) ==> e@ == text_error("provider agent id"@, MAX_ID_CHARS as nat),
{
    normalized_text(id, "provider agent id", MAX_ID_CHARS)
}

/// An optional text, normalized when present.
pub fn normalize_optional(value: Option<String>, label: &str, max_chars: usize) -> (r: Result<
    Option<String>,
    String,
>)
    ensures
        r is Ok <==> normalized_opt(opt_text(value), max_chars as nat) is Ok,
        r matches Ok(t) ==> opt_text(t) == normalized_opt(opt_text(value), max_chars as nat)->Ok_0,
        r matches Err(e) ==> e@ == text_error(label@, max_chars as nat),
{
    match value {
        None => Ok(None),
        Some(v) => match normalized_text(v.as_str(), label, max_chars) {
            Ok(t) => Ok(Some(t)),
            Err(e) => Err(e),
        },
    }
}

/// Accepts a metadata key: 1 to 32 ASCII letters, digits, `_` or `-`.
pub fn validate_metadata_key(key: &str) -> (r: Result<(), String>)
    ensures
        r is Ok <==> valid_metadata_key(key@),
        r matches Err(e) ==> e@ == "provider metadata key is invalid"@,
{
    let v = chars_of(key);
    let mut ok = v.len() > 0 && v.len() <= MAX_METADATA_KEY_CHARS;
    let mut i: usize = 0;
    while i < v.len()
        invariant
            i <= v.len(),
            v@ == key@,
            ok == (0 < v.len() <= MAX_METADATA_KEY_CHARS && forall|j: int|
                0 <= j < i ==> is_ascii_alphanumeric_char(#[trigger] v@[j]) || v@[j] == '_'
                    || v@[j] == '-'),
        decreases v.len() - i,
    {
        let c = v[i];
        if !(('a' <= c && c <= 'z') || ('A' <= c && c <= 'Z') || ('0' <= c && c <= '9') || c
            == '_' || c == '-') {
            ok = false;
        }
        i = i + 1;
    }
    if ok {
        Ok(())
    } else {
        Err(String::from_str("provider metadata key is invalid"))
    }
}

/// Accepts the metadata pairs of record `id`: the labels, then the tokens.
fn check_metadata(labels: &Vec<(String, String)>, tokens: &Vec<(String, String)>, id: &String) -> (r:
    Result<(), String>)
    requires
        labels.len() <= MAX_STATE_LABELS,
        tokens.len() <= MAX_TOKENS,
    ensures
        r is Ok <==> metadata_error(view_pairs(labels@) + view_pairs(tokens@), id@) is None,
        r matches Err(e) ==> Some(e@) == metadata_error(view_pairs(labels@) + view_pairs(tokens@), id@),
{
    let ghost all = view_pairs(labels@) + view_pairs(tokens@);
    let n = labels.len() + tokens.len();
    let mut i: usize = 0;
    assert(all.skip(0) =~= all);
    while i < n
        invariant
            i <= n == labels.len() + tokens.len(),
            all == view_pairs(labels@) + view_pairs(tokens@),
            metadata_error(all.skip(i as int), id@) == metadata_error(all, id@),
        decreases n - i,
    {
        let pair = if i < labels.len() {
            &labels[i]
        } else {
            &tokens[i - labels.len()]
        };
        assert(all[i as int] == (pair.0@, pair.1@));
        assert(all.skip(i as int).drop_first() =~= all.skip(i + 1));
        assert(all.skip(i as int)[0] == all[i as int]);
        if validate_metadata_key(pair.0.as_str()).is_err() {
            return Err(String::from_str("provider metadata key is invalid"));
        }
        let value = chars_of(pair.1.as_str());
        if value.len() > MAX_METADATA_VALUE_CHARS || any_control(value.as_slice()) {
            let mut m = String::from_str("provider agent ");
            m.append(id.as_str());
            m.append(" metadata value is invalid");
            return Err(m);
        }
        i = i + 1;
    }
    assert(all.skip(n as int) =~= Seq::<(Seq<char>, Seq<char>)>::empty());
    Ok(())
}

/// Whether `id` is one of `ids`.
fn contains_id(ids: &Vec<String>, id: &String) -> (r: bool)
    ensures
        r == ids@.map_values(|s: String| s@).contains(id@),
{
    let ghost view = ids@.map_values(|s: String| s@);
    let mut i: usize = 0;
    while i < ids.len()
        invariant
            i <= ids.len(),
            view == ids@.map_values(|s: String| s@),
            forall|j: int| 0 <= j < i ==> view[j] != id@,
        decreases ids.len() - i,
    {
        if ids[i] == *id {
            assert(view[i as int] == id@);
            return true;
        }
        i = i + 1;
    }
    false
}

/// Validates and normalizes the records of a provider snapshot, in order:
/// each record's texts are trimmed and bounded, ids must be distinct, and
/// labels, tokens and their keys and values bounded. Checking stops at the
/// first error, which is returned; the records are left as the checks left them.
pub fn validate_records(records: &mut Vec<AgentProviderRecord>) -> (r: Result<(), String>)
    ensures
        records_view(final(records)@) == validated_records(records_view(old(records)@)).0,
        r is Ok <==> validated_records(records_view(old(records)@)).1 is None,
        r matches Err(e) ==> Some(e@) == validated_records(records_view(old(records)@)).1,
{
    let ghost orig = records_view(records@);
    if records.len() > MAX_PROVIDER_AGENTS {
        return Err(String::from_str("agent provider may contain at most 2000 records"));
    }
    let mut seen: Vec<String> = Vec::new();
    let mut i: usize = 0;
    assert(orig.skip(0) =~= orig);
    assert(records_view(records@).skip(0) =~= records_view(records@));
    assert(records_view(records@).take(0) + check_records(orig, Seq::empty()).0 =~= check_records(orig, Seq::empty()).0);
    assert(seen@.map_values(|s: String| s@) =~= Seq::<Seq<char>>::empty());
    while i < records.len()
        invariant
            i <= records.len() == orig.len(),
            orig == records_view(old(records)@),
            orig.len() <= MAX_PROVIDER_AGENTS,
            records_view(records@).skip(i as int) == orig.skip(i as int),
            check_records(orig, Seq::empty()) == (
                records_view(records@).take(i as int) + check_records(
                    orig.skip(i as int),
                    seen@.map_values(|s: String| s@),
                ).0,
                check_records(orig.skip(i as int), seen@.map_values(|s: String| s@)).1,
            ),
        decreases records.len() - i,
    {
        let ghost ids = seen@.map_values(|s: String| s@);
        let ghost cur = orig[i as int];
        let ghost before = records@;
        let ghost rest = orig.skip(i as int);
        proof {
            assert(rest[0] == cur);
            assert(rest.drop_first() =~= orig.skip(i + 1));
            assert(records_view(records@).skip(i as int)[0] == records@[i as int]@);
        }
        let mut rec = records[i].duplicate();
        let ghost outcome = check_record(cur, ids);
        assert(rec@ == cur);
        match normalize_id(rec.id.as_str()) {
            Err(m) => {
                proof {
                    assert(outcome == (cur, Some(m@)));
                    assert(check_records(rest, ids) == (seq![cur] + orig.skip(i + 1), Some(m@)));
                    assert(records_view(records@) =~= records_view(records@).take(i as int) + (seq![cur] + orig.skip(i + 1))) by {
                        assert(records_view(records@) =~= records_view(records@).take(i as int) + records_view(records@).skip(i as int));
                    }
                }
                return Err(m);
            },
            Ok(id) => {
                rec.id = id;
            },
        }
        let mut failure: Option<String> = None;
        match normalized_text(rec.name.as_str(), "provider agent name", MAX_NAME_CHARS) {
            Err(m) => {
                failure = Some(m);
            },
            Ok(name) => {
                rec.name = name;
            },
        }
        if failure.is_none() {
            let agent = rec.agent.take();
            match normalize_optional(agent, "agent", MAX_AGENT_CHARS) {
                Err(m) => {
                    failure = Some(m);
                },
                Ok(a) => {
                    rec.agent = a;
                },
            }
        }
        if failure.is_none() {
            let title = rec.title.take();
            match normalize_optional(title, "title", MAX_TITLE_CHARS) {
                Err(m) => {
                    failure = Some(m);
                },
                Ok(t) => {
                    rec.title = t;
                },
            }
        }
        if failure.is_none() {
            let display = rec.display_agent.take();
            match normalize_optional(display, "display agent", MAX_TITLE_CHARS) {
                Err(m) => {
                    failure = Some(m);
                },
                Ok(d) => {
                    rec.display_agent = d;
                },
            }
        }
        if failure.is_none() {
            if contains_id(&seen, &rec.id) {
                let mut m = String::from_str("duplicate provider agent id `");
                m.append(rec.id.as_str());
                m.append("`");
                failure = Some(m);
            } else {
                seen.push(rec.id.clone());
                if rec.state_labels.len() > MAX_STATE_LABELS {
                    let mut m = String::from_str("provider agent ");
                    m.append(rec.id.as_str());
                    m.append(" has more than 8 state labels");
                    failure = Some(m);
                } else if rec.tokens.len() > MAX_TOKENS {
                    let mut m = String::from_str("provider agent ");
                    m.append(rec.id.as_str());
                    m.append(" has more than 32 metadata tokens");
                    failure = Some(m);
                } else {
                    match check_metadata(&rec.state_labels, &rec.tokens, &rec.id) {
                        Err(m) => {
                            failure = Some(m);
                        },
                        Ok(()) => {},
                    }
                }
            }
        }
        assert(rec@ == outcome.0);
        assert(match failure { Some(m) => outcome.1 == Some(m@), None => outcome.1 is None });
        records.set(i, rec);
        proof {
            assert(records_view(records@) =~= records_view(before).update(i as int, outcome.0));
            assert(records_view(records@).take(i + 1) =~= records_view(before).take(i as int).push(outcome.0));
            assert(records_view(records@).skip(i + 1) =~= orig.skip(i + 1));
        }
        match failure {
            Some(m) => {
                proof {
                    assert(records_view(records@) =~= records_view(before).take(i as int) + (seq![outcome.0] + orig.skip(i + 1)));
                }
                return Err(m);
            },
            None => {},
        }
        proof {
            assert(seen@.map_values(|s: String| s@) =~= ids.push(outcome.0.id));
            let tail = check_records(orig.skip(i + 1), ids.push(outcome.0.id));
            assert(records_view(records@).take(i + 1) + tail.0 =~= records_view(before).take(i as int) + (seq![outcome.0] + tail.0));
        }
        i = i + 1;
    }
    proof {
        assert(orig.skip(records.len() as int) =~= Seq::<RecordView>::empty());
        assert(records_view(records@).take(records.len() as int) =~= records_view(records@));
    }
    Ok(())
}

impl AgentProviderState {
    /// What the protocol reports of this provider under the name `source`.
    pub fn snapshot(&self, source: &str) -> (r: AgentProviderSnapshot)
        ensures
            r@ == snapshot_of(self@, source@),
    {
        AgentProviderSnapshot {
            source: String::from_str(source),
            revision: self.revision,
            viewer: match &self.viewer {
                Some(viewer) => Some(
                    AgentProviderViewer {
                        workspace_id: viewer.workspace_id.clone(),
                        pane_id: viewer.public_pane_id.clone(),
                    },
                ),
                None => None,
            },
            agents: copy_records(&self.agents),
        }
    }
}

/// The first record of `agents` whose id is `id`.
pub fn find_agent<'a>(agents: &'a Vec<AgentProviderRecord>, id: &String) -> (r: Option<
    &'a AgentProviderRecord,
>)
    ensures
        r is Some == find_record(records_view(agents@), id@) is Some,
        r is Some ==> r.unwrap()@ == find_record(records_view(agents@), id@)->0,
{
    let ghost all = records_view(agents@);
    let mut i: usize = 0;
    assert(all.skip(0) =~= all);
    while i < agents.len()
        invariant
            i <= agents.len(),
            all == records_view(agents@),
            find_record(all.skip(i as int), id@) == find_record(all, id@),
        decreases agents.len() - i,
    {
        assert(all.skip(i as int)[0] == agents@[i as int]@);
        assert(all.skip(i as int).drop_first() =~= all.skip(i + 1));
        if agents[i].id == *id {
            return Some(&agents[i]);
        }
        i = i + 1;
    }
    assert(all.skip(agents.len() as int) =~= Seq::<RecordView>::empty());
    None
}

/// The providers' state keyed by source, each taken by its view.
pub open spec fn providers_view(providers: Seq<(String, AgentProviderState)>) -> Map<
    Seq<char>,
    ProviderView,
> {
    table(providers)
}

/// The record that `target` names: the first agent with its id in the provider of its source.
pub fn provider_record<'a>(
    providers: &'a Vec<(String, AgentProviderState)>,
    target: &AgentProviderTarget,
) -> (r: Option<&'a AgentProviderRecord>)
    requires
        table_wf(providers@),
    ensures
        r is Some == registered_record(providers_view(providers@), target@) is Some,
        r is Some ==> r.unwrap()@ == registered_record(providers_view(providers@), target@)->0,
{
    match table_get(providers, target.source.as_str()) {
        None => None,
        Some(provider) => find_agent(&provider.agents, &target.id),
    }
}

impl AgentProviderRecord {
    /// A copy of the record.
    pub fn duplicate(&self) -> (r: AgentProviderRecord)
        ensures
            r@ == self@,
    {
        AgentProviderRecord {
            id: self.id.clone(),
            name: self.name.clone(),
            agent: copy_text(&self.agent),
            title: copy_text(&self.title),
            display_agent: copy_text(&self.display_agent),
            agent_status: self.agent_status,
            state_labels: copy_pairs(&self.state_labels),
            tokens: copy_pairs(&self.tokens),
            state_change_seq: self.state_change_seq,
        }
    }
}

fn copy_text(o: &Option<String>) -> (r: Option<String>)
    ensures
        opt_text(r) == opt_text(*o),
{
    match o {
        Some(s) => Some(s.clone()),
        None => None,
    }
}

fn copy_pairs(v: &Vec<(String, String)>) -> (r: Vec<(String, String)>)
    ensures
        view_pairs(r@) == view_pairs(v@),
{
    let mut r: Vec<(String, String)> = Vec::new();
    let mut i: usize = 0;
    while i < v.len()
        invariant
            i <= v.len(),
            view_pairs(r@) == view_pairs(v@.take(i as int)),
        decreases v.len() - i,
    {
        let ghost old_r = r@;
        r.push((v[i].0.clone(), v[i].1.clone()));
        proof {
            assert(view_pairs(r@) =~= view_pairs(old_r).push((v@[i as int].0@, v@[i as int].1@)));
            assert(v@.take(i + 1) =~= v@.take(i as int).push(v@[i as int]));
            assert(view_pairs(v@.take(i + 1)) =~= view_pairs(v@.take(i as int)).push(
                (v@[i as int].0@, v@[i as int].1@),
            ));
        }
        i = i + 1;
    }
    assert(v@.take(v.len() as int) =~= v@);
    r
}

/// A copy of a list of records.
pub fn copy_records(v: &Vec<AgentProviderRecord>) -> (r: Vec<AgentProviderRecord>)
    ensures
        records_view(r@) == records_view(v@),
{
    let mut r: Vec<AgentProviderRecord> = Vec::new();
    let mut i: usize = 0;
    while i < v.len()
        invariant
            i <= v.len(),
            records_view(r@) == records_view(v@.take(i as int)),
        decreases v.len() - i,
    {
        let ghost old_r = r@;
        r.push(v[i].duplicate());
        proof {
            assert(records_view(r@) =~= records_view(old_r).push(v@[i as int]@));
            assert(v@.take(i + 1) =~= v@.take(i as int).push(v@[i as int]));
            assert(records_view(v@.take(i + 1)) =~= records_view(v@.take(i as int)).push(
                v@[i as int]@,
            ));
        }
        i = i + 1;
    }
    assert(v@.take(v.len() as int) =~= v@);
    r
}

proof fn lemma_checked_ids_fresh(rs: Seq<RecordView>, seen: Seq<Seq<char>>)
    requires
        check_records(rs, seen).1 is None,
    ensures
        check_records(rs, seen).0.len() == rs.len(),
        forall|i: int|
            0 <= i < rs.len() ==> !seen.contains(#[trigger] check_records(rs, seen).0[i].id),
        forall|i: int, j: int|
            0 <= i < j < rs.len() ==> #[trigger] check_records(rs, seen).0[i].id
                != #[trigger] check_records(rs, seen).0[j].id,
    decreases rs.len(),
{
    if rs.len() > 0 {
        let r0 = check_record(rs[0], seen).0;
        let seen2 = seen.push(r0.id);
        let rest = check_records(rs.drop_first(), seen2).0;
        lemma_checked_ids_fresh(rs.drop_first(), seen2);
        let out = check_records(rs, seen).0;
        assert(out == seq![r0] + rest);
        assert(!seen.contains(r0.id));
        assert forall|i: int| 0 <= i < rs.len() implies !seen.contains(#[trigger] out[i].id) by {
            if i > 0 {
                assert(out[i] == rest[i - 1]);
                if seen.contains(out[i].id) {
                    let k = choose|k: int| 0 <= k < seen.len() && seen[k] == out[i].id;
                    assert(seen2[k] == out[i].id);
                }
            }
        }
        assert forall|i: int, j: int| 0 <= i < j < rs.len() implies #[trigger] out[i].id
            != #[trigger] out[j].id by {
            assert(out[j] == rest[j - 1]);
            if i == 0 {
                assert(seen2[seen.len() as int] == r0.id);
            } else {
                assert(out[i] == rest[i - 1]);
            }
        }
    }
}

/// A snapshot that passes validation holds at most `MAX_PROVIDER_AGENTS`
/// records, one for each record given, and no two of them share an id.
pub proof fn law_validated_records_have_distinct_ids(rs: Seq<RecordView>)
    requires
        validated_records(rs).1 is None,
    ensures
        validated_records(rs).0.len() == rs.len(),
        rs.len() <= MAX_PROVIDER_AGENTS,
        forall|i: int, j: int|
            0 <= i < j < rs.len() ==> #[trigger] validated_records(rs).0[i].id
                != #[trigger] validated_records(rs).0[j].id,
{
    lemma_checked_ids_fresh(rs, Seq::empty());
}

proof fn lemma_normalized_idempotent(s: Seq<char>, max: nat)
    ensures
        normalized(s, max) matches Some(t) ==> normalized(t, max) == Some(t),
{
    crate::text::lemma_trimmed_idempotent(s);
}

proof fn lemma_normalized_opt_idempotent(o: Option<Seq<char>>, max: nat)
    ensures
        normalized_opt(o, max) matches Ok(n) ==> normalized_opt(n, max) == Ok::<
            Option<Seq<char>>,
            (),
        >(n),
{
    match o {
        Some(s) => lemma_normalized_idempotent(s, max),
        None => {},
    }
}

proof fn lemma_check_record_idempotent(r: RecordView, seen: Seq<Seq<char>>)
    requires
        check_record(r, seen).1 is None,
    ensures
        check_record(check_record(r, seen).0, seen) == (check_record(r, seen).0, None::<Seq<char>>),
{
    lemma_normalized_idempotent(r.id, MAX_ID_CHARS as nat);
    lemma_normalized_idempotent(r.name, MAX_NAME_CHARS as nat);
    lemma_normalized_opt_idempotent(r.agent, MAX_AGENT_CHARS as nat);
    lemma_normalized_opt_idempotent(r.title, MAX_TITLE_CHARS as nat);
    lemma_normalized_opt_idempotent(r.display_agent, MAX_TITLE_CHARS as nat);
}

proof fn lemma_check_records_idempotent(rs: Seq<RecordView>, seen: Seq<Seq<char>>)
    requires
        check_records(rs, seen).1 is None,
    ensures
        check_records(check_records(rs, seen).0, seen) == (
            check_records(rs, seen).0,
            None::<Seq<char>>,
        ),
    decreases rs.len(),
{
    if rs.len() > 0 {
        let r0 = check_record(rs[0], seen).0;
        let rest = check_records(rs.drop_first(), seen.push(r0.id));
        lemma_check_record_idempotent(rs[0], seen);
        lemma_check_records_idempotent(rs.drop_first(), seen.push(r0.id));
        let out = check_records(rs, seen).0;
        assert(out == seq![r0] + rest.0);
        assert(out[0] == r0);
        assert(out.drop_first() =~= rest.0);
    }
}

/// Validation settles a snapshot: validating the records that a successful
/// validation leaves succeeds again and changes nothing.
pub proof fn law_validation_is_idempotent(rs: Seq<RecordView>)
    requires
        validated_records(rs).1 is None,
    ensures
        validated_records(validated_records(rs).0) == (validated_records(rs).0, None::<Seq<char>>),
{
    lemma_checked_ids_fresh(rs, Seq::empty());
    lemma_check_records_idempotent(rs, Seq::empty());
}

/// An optional text trimmed.
pub open spec fn trimmed_opt(o: Option<Seq<char>>) -> Option<Seq<char>> {
    match o {
        Some(t) => Some(trimmed(t)),
        None => None,
    }
}

/// What a successful validation keeps of a record: its texts trimmed, each
/// optional text kept (trimmed) when given and absent when not, and every
/// other field as it was.
pub open spec fn keeps_record(given: RecordView, checked: RecordView) -> bool {
    &&& checked.id == trimmed(given.id)
    &&& checked.name == trimmed(given.name)
    &&& checked.agent == trimmed_opt(given.agent)
    &&& checked.title == trimmed_opt(given.title)
    &&& checked.display_agent == trimmed_opt(given.display_agent)
    &&& checked.agent_status == given.agent_status
    &&& checked.state_labels == given.state_labels
    &&& checked.tokens == given.tokens
    &&& checked.state_change_seq == given.state_change_seq
}

proof fn lemma_checked_records_keep_fields(rs: Seq<RecordView>, seen: Seq<Seq<char>>)
    requires
        check_records(rs, seen).1 is None,
    ensures
        check_records(rs, seen).0.len() == rs.len(),
        forall|i: int| 0 <= i < rs.len() ==> keeps_record(rs[i], #[trigger] check_records(rs, seen).0[i]),
    decreases rs.len(),
{
    if rs.len() > 0 {
        let r0 = check_record(rs[0], seen).0;
        let rest = check_records(rs.drop_first(), seen.push(r0.id)).0;
        lemma_checked_records_keep_fields(rs.drop_first(), seen.push(r0.id));
        let out = check_records(rs, seen).0;
        assert(out == seq![r0] + rest);
        assert(keeps_record(rs[0], r0));
        assert forall|i: int| 0 <= i < rs.len() implies keeps_record(rs[i], #[trigger] out[i]) by {
            if i > 0 {
                assert(out[i] == rest[i - 1]);
                assert(rs.drop_first()[i - 1] == rs[i]);
            }
        }
    }
}

/// Validation trims and never drops: after a successful validation each
/// record's id and name are its given ones trimmed, each optional text (agent,
/// title, display agent) is the given one trimmed when it was given and absent
/// when it was not, and every other field is as it was given.
pub proof fn law_validation_trims_and_keeps_every_field(rs: Seq<RecordView>)
    requires
        validated_records(rs).1 is None,
    ensures
        validated_records(rs).0.len() == rs.len(),
        forall|i: int| 0 <= i < rs.len() ==> keeps_record(rs[i], #[trigger] validated_records(rs).0[i]),
{
    lemma_checked_records_keep_fields(rs, Seq::empty());
}

} // verus!
