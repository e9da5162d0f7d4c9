//! The orchestration section of the agent sidebar: agents grouped into runs,
//! runs into repositories, with per-run counts, collapse state and selection.
use vstd::prelude::*;
use vstd::string::StringExecFns;

use crate::keyed::{table, table_get, table_wf};
use crate::layout::PaneId;
use crate::text::{ascii_upper, chars_of, joined, owned, str_equal, to_ascii_uppercase};

verus! {

/// An agent row of the sidebar as the sidebar's entry list gives it.
pub struct AgentPanelEntry {
    pub ws_idx: usize,
    pub tab_idx: usize,
    pub pane_id: PaneId,
    pub primary_label: String,
    pub agent_label: Option<String>,
    pub agent_kind_label: Option<String>,
    /// The panel status key of the entry's detected state and seen flag,
    /// shown when no remote state is reported.
    pub status_key: String,
    pub tokens: Vec<(String, String)>,
}

/// An entry with every text taken by its view.
pub struct EntryView {
    pub ws_idx: usize,
    pub tab_idx: usize,
    pub pane_id: PaneId,
    pub primary_label: Seq<char>,
    pub agent_label: Option<Seq<char>>,
    pub agent_kind_label: Option<Seq<char>>,
    pub status_key: Seq<char>,
    pub tokens: Map<Seq<char>, Seq<char>>,
}

impl View for AgentPanelEntry {
    type V = EntryView;

    open spec fn view(&self) -> EntryView {
        EntryView {
            ws_idx: self.ws_idx,
            tab_idx: self.tab_idx,
            pane_id: self.pane_id,
            primary_label: self.primary_label@,
            agent_label: match self.agent_label {
                Some(s) => Some(s@),
                None => None,
            },
            agent_kind_label: match self.agent_kind_label {
                Some(s) => Some(s@),
                None => None,
            },
            status_key: self.status_key@,
            tokens: table(self.tokens@),
        }
    }
}

impl AgentPanelEntry {
    /// The entry's tokens are keyed without repetition.
    pub open spec fn wf(&self) -> bool {
        table_wf(self.tokens@)
    }
}

/// How many agents of a run are working, waiting or done.
#[derive(Debug, Clone, Copy, PartialEq, Eq, Default, Structural)]
pub struct OrchestrationCounts {
    pub working: usize,
    pub waiting: usize,
    pub done: usize,
}

/// The separator of the sidebar's metadata and detail lines.
pub open spec fn dot() -> Seq<char> {
    " \u{b7} "@
}

/// Token `name`, when present and non-empty; else `fallback`.
pub open spec fn token_or(tokens: Map<Seq<char>, Seq<char>>, name: Seq<char>, fallback: Seq<char>) -> Seq<
    char,
> {
    if tokens.dom().contains(name) && tokens[name].len() > 0 {
        tokens[name]
    } else {
        fallback
    }
}

/// Token `name`, when present.
pub open spec fn token_opt(tokens: Map<Seq<char>, Seq<char>>, name: Seq<char>) -> Option<Seq<char>> {
    if tokens.dom().contains(name) {
        Some(tokens[name])
    } else {
        None
    }
}

/// The entry's responsibility: its `responsibility` token, else its primary label.
pub open spec fn responsibility_of(e: EntryView) -> Seq<char> {
    token_or(e.tokens, "responsibility"@, e.primary_label)
}

/// The entry's status: its `remote_state` token, else its panel status key.
pub open spec fn status_of(e: EntryView) -> Seq<char> {
    match token_opt(e.tokens, "remote_state"@) {
        Some(s) => s,
        None => e.status_key,
    }
}

/// The ordering priority of a status: questions and blocks first, then work, idleness, completion.
pub open spec fn status_priority(status: Seq<char>) -> u8 {
    if status == "question"@ || status == "blocked"@ {
        4
    } else if status == "working"@ {
        3
    } else if status == "idle"@ {
        2
    } else if status == "done"@ {
        1
    } else {
        0
    }
}

/// The metadata line of an agent row.
pub open spec fn metadata_of(e: EntryView) -> Seq<char> {
    let state = ascii_upper(status_of(e));
    if state == "DONE"@ {
        "DONE \u{b7} awaiting cleanup"@
    } else {
        let harness = match token_opt(e.tokens, "harness"@) {
            Some(h) => h,
            None => match e.agent_kind_label {
                Some(k) => k,
                None => "agent"@,
            },
        };
        match token_opt(e.tokens, "remote_host"@) {
            Some(host) => state + dot() + harness + dot() + host,
            None => state + dot() + harness,
        }
    }
}

/// The parts of the detail line of an agent row, in order.
pub open spec fn detail_parts(e: EntryView) -> Seq<Seq<char>> {
    let name = match token_opt(e.tokens, "remote_agent"@) {
        Some(n) => seq![n],
        None => match e.agent_label {
            Some(n) => seq![n],
            None => Seq::empty(),
        },
    };
    let parent = match token_opt(e.tokens, "parent_agent"@) {
        Some(p) => seq!["parent: "@ + p],
        None => Seq::empty(),
    };
    let branch = match token_opt(e.tokens, "branch"@) {
        Some(b) => seq![b],
        None => Seq::empty(),
    };
    let worktree = match token_opt(e.tokens, "worktree"@) {
        Some(w) => seq![w],
        None => Seq::empty(),
    };
    name + parent + branch + worktree
}

/// The detail line of an agent row.
pub open spec fn details_of(e: EntryView) -> Seq<char> {
    joined(detail_parts(e), dot())
}

/// The key that records that run `id` is collapsed.
pub open spec fn collapse_key_of(id: Seq<char>) -> Seq<char> {
    "orchestration:"@ + id
}

/// The key under which the sidebar records that run `orchestration_id` is collapsed.
pub fn collapse_key(orchestration_id: &str) -> (r: String)
    ensures
        r@ == collapse_key_of(orchestration_id@),
{
    let mut key = String::from_str("orchestration:");
    key.append(orchestration_id);
    key
}

/// Token `name` of `entry` when present and non-empty, else `fallback`.
pub fn token(entry: &AgentPanelEntry, name: &str, fallback: &str) -> (r: String)
    requires
        entry.wf(),
    ensures
        r@ == token_or(entry@.tokens, name@, fallback@),
{
    match table_get(&entry.tokens, name) {
        Some(value) => if value.as_str().is_empty() {
            owned(fallback)
        } else {
            value.clone()
        },
        None => owned(fallback),
    }
}

/// The entry's responsibility.
pub fn responsibility(entry: &AgentPanelEntry) -> (r: String)
    requires
        entry.wf(),
    ensures
        r@ == responsibility_of(entry@),
{
    token(entry, "responsibility", entry.primary_label.as_str())
}

/// The entry's status.
pub fn status(entry: &AgentPanelEntry) -> (r: String)
    requires
        entry.wf(),
    ensures
        r@ == status_of(entry@),
{
    match table_get(&entry.tokens, "remote_state") {
        Some(value) => value.clone(),
        None => entry.status_key.clone(),
    }
}

/// The ordering priority of the entry's status.
pub fn entry_priority(entry: &AgentPanelEntry) -> (r: u8)
    requires
        entry.wf(),
    ensures
        r == status_priority(status_of(entry@)),
{
    let s = status(entry);
    if str_equal(s.as_str(), "question") || str_equal(s.as_str(), "blocked") {
        4
    } else if str_equal(s.as_str(), "working") {
        3
    } else if str_equal(s.as_str(), "idle") {
        2
    } else if str_equal(s.as_str(), "done") {
        1
    } else {
        0
    }
}

/// The metadata line of the entry's row.
pub fn metadata_line(entry: &AgentPanelEntry) -> (r: String)
    requires
        entry.wf(),
    ensures
        r@ == metadata_of(entry@),
{
    let s = status(entry);
    let state = to_ascii_uppercase(s.as_str());
    if str_equal(state.as_str(), "DONE") {
        return String::from_str("DONE \u{b7} awaiting cleanup");
    }
    let harness = match table_get(&entry.tokens, "harness") {
        Some(h) => h.clone(),
        None => match &entry.agent_kind_label {
            Some(k) => k.clone(),
            None => String::from_str("agent"),
        },
    };
    let mut line = state;
    line.append(" \u{b7} ");
    line.append(harness.as_str());
    match table_get(&entry.tokens, "remote_host") {
        Some(host) => {
            line.append(" \u{b7} ");
            line.append(host.as_str());
        },
        None => {},
    }
    line
}

/// Joins `parts` with `sep`.
pub fn join(parts: &Vec<String>, sep: &str) -> (r: String)
    ensures
        r@ == joined(parts@.map_values(|p: String| p@), sep@),
{
    let ghost views = parts@.map_values(|p: String| p@);
    let mut out = String::new();
    let mut i: usize = 0;
    while i < parts.len()
        invariant
            i <= parts.len(),
            views == parts@.map_values(|p: String| p@),
            out@ == joined(views.take(i as int), sep@),
        decreases parts.len() - i,
    {
        proof {
            assert(views.take(i + 1).drop_last() =~= views.take(i as int));
            assert(views.take(i + 1).last() == parts@[i as int]@);
            if i == 0 {
                assert(views.take(1) =~= seq![parts@[0]@]);
            }
        }
        if i > 0 {
            out.append(sep);
        }
        out.append(parts[i].as_str());
        proof {
            if i == 0 {
                assert(out@ =~= joined(views.take(1), sep@));
            }
        }
        i = i + 1;
    }
    assert(views.take(parts.len() as int) =~= views);
    out
}

/// The detail line of the entry's row.
pub fn detail_line(entry: &AgentPanelEntry) -> (r: String)
    requires
        entry.wf(),
    ensures
        r@ == details_of(entry@),
{
    let ghost e = entry@;
    let mut details: Vec<String> = Vec::new();
    match table_get(&entry.tokens, "remote_agent") {
        Some(name) => details.push(name.clone()),
        None => match &entry.agent_label {
            Some(name) => details.push(name.clone()),
            None => {},
        },
    }
    let ghost a = details@.map_values(|p: String| p@);
    match table_get(&entry.tokens, "parent_agent") {
        Some(parent) => {
            let mut p = String::from_str("parent: ");
            p.append(parent.as_str());
            details.push(p);
        },
        None => {},
    }
    let ghost b = details@.map_values(|p: String| p@);
    match table_get(&entry.tokens, "branch") {
        Some(branch) => details.push(branch.clone()),
        None => {},
    }
    let ghost c = details@.map_values(|p: String| p@);
    match table_get(&entry.tokens, "worktree") {
        Some(worktree) => details.push(worktree.clone()),
        None => {},
    }
    proof {
        let parts = detail_parts(e);
        assert(details@.map_values(|p: String| p@) =~= parts);
    }
    join(&details, " \u{b7} ")
}

/// The run an entry belongs to: its non-empty `orchestration_id` token.
pub open spec fn orchestration_of(e: EntryView) -> Option<Seq<char>> {
    if e.tokens.dom().contains("orchestration_id"@) && e.tokens["orchestration_id"@].len() > 0 {
        Some(e.tokens["orchestration_id"@])
    } else {
        None
    }
}

/// The entries of a list, each taken by its view.
pub open spec fn entries_view(es: Seq<AgentPanelEntry>) -> Seq<EntryView> {
    es.map_values(|e: AgentPanelEntry| e@)
}

/// Every entry's tokens are keyed without repetition.
pub open spec fn entries_wf(es: Seq<AgentPanelEntry>) -> bool {
    forall|i: int| 0 <= i < es.len() ==> (#[trigger] es[i]).wf()
}

/// The runs of the entries, in the order of their first entry.
pub open spec fn run_order(es: Seq<EntryView>) -> Seq<Seq<char>>
    decreases es.len(),
{
    if es.len() == 0 {
        Seq::empty()
    } else {
        let before = run_order(es.drop_last());
        match orchestration_of(es.last()) {
            Some(id) => if before.contains(id) {
                before
            } else {
                before.push(id)
            },
            None => before,
        }
    }
}

/// The positions below `n` that satisfy `p`, in increasing order.
pub open spec fn positions_where(n: nat, p: spec_fn(usize) -> bool) -> Seq<usize>
    decreases n,
{
    if n == 0 {
        Seq::empty()
    } else {
        let before = positions_where((n - 1) as nat, p);
        if p((n - 1) as usize) {
            before.push((n - 1) as usize)
        } else {
            before
        }
    }
}

/// The positions of the entries of run `id`.
pub open spec fn run_members(es: Seq<EntryView>, id: Seq<char>) -> Seq<usize> {
    positions_where(es.len(), |i: usize| orchestration_of(es[i as int]) == Some(id))
}

/// The positions of the entries that belong to no run.
pub open spec fn legacy_members(es: Seq<EntryView>) -> Seq<usize> {
    positions_where(es.len(), |i: usize| orchestration_of(es[i as int]) is None)
}

/// The repository an entry is shown under: its `repository` token, else its primary label.
pub open spec fn repository_of(e: EntryView) -> Seq<char> {
    token_or(e.tokens, "repository"@, e.primary_label)
}

/// The repositories of the entries at `ms`, in the order of their first entry.
pub open spec fn repository_order(es: Seq<EntryView>, ms: Seq<usize>) -> Seq<Seq<char>>
    decreases ms.len(),
{
    if ms.len() == 0 {
        Seq::empty()
    } else {
        let before = repository_order(es, ms.drop_last());
        let r = repository_of(es[ms.last() as int]);
        if before.contains(r) {
            before
        } else {
            before.push(r)
        }
    }
}

/// The entries at `ms` shown under repository `repo`, in order.
pub open spec fn repository_members(es: Seq<EntryView>, ms: Seq<usize>, repo: Seq<char>) -> Seq<usize>
    decreases ms.len(),
{
    if ms.len() == 0 {
        Seq::empty()
    } else {
        let before = repository_members(es, ms.drop_last(), repo);
        if repository_of(es[ms.last() as int]) == repo {
            before.push(ms.last())
        } else {
            before
        }
    }
}

/// Every position of `ms` names an entry.
pub open spec fn positions_in(ms: Seq<usize>, n: nat) -> bool {
    forall|j: int| 0 <= j < ms.len() ==> (#[trigger] ms[j] as int) < n
}

/// The highest status priority among the entries at `ms` (0 for none).
pub open spec fn run_priority(es: Seq<EntryView>, ms: Seq<usize>) -> u8
    decreases ms.len(),
{
    if ms.len() == 0 {
        0
    } else {
        let before = run_priority(es, ms.drop_last());
        let p = status_priority(status_of(es[ms.last() as int]));
        if p > before {
            p
        } else {
            before
        }
    }
}

/// The counts of the entries at `ms`: working, done, and waiting for every other status.
pub open spec fn counts_of(es: Seq<EntryView>, ms: Seq<usize>) -> (nat, nat, nat)
    decreases ms.len(),
{
    if ms.len() == 0 {
        (0, 0, 0)
    } else {
        let (w, a, d) = counts_of(es, ms.drop_last());
        let s = status_of(es[ms.last() as int]);
        if s == "working"@ {
            (w + 1, a, d)
        } else if s == "done"@ {
            (w, a, d + 1)
        } else {
            (w, a + 1, d)
        }
    }
}

/// The run `id` orders its entries by priority, then responsibility.
pub open spec fn entry_before(es: Seq<EntryView>) -> spec_fn(usize, usize) -> bool {
    |a: usize, b: usize|
        {
            let pa = status_priority(status_of(es[a as int]));
            let pb = status_priority(status_of(es[b as int]));
            pa > pb || (pa == pb && chars_less(
                responsibility_of(es[a as int]),
                responsibility_of(es[b as int]),
            ))
        }
}

/// Lexicographic order of texts by code point (the order of `str`).
pub open spec fn chars_less(a: Seq<char>, b: Seq<char>) -> bool
    decreases a.len(),
{
    if a.len() == 0 {
        b.len() > 0
    } else if b.len() == 0 {
        false
    } else if a[0] != b[0] {
        a[0] < b[0]
    } else {
        chars_less(a.drop_first(), b.drop_first())
    }
}

/// `s` with `x` inserted before the first element that `x` goes before.
pub open spec fn insert_by<A>(x: A, s: Seq<A>, before: spec_fn(A, A) -> bool) -> Seq<A>
    decreases s.len(),
{
    if s.len() == 0 {
        seq![x]
    } else if before(x, s[0]) {
        seq![x] + s
    } else {
        seq![s[0]] + insert_by(x, s.drop_first(), before)
    }
}

/// `s` in the order `before`; elements that neither goes before keep their order.
pub open spec fn sorted_by<A>(s: Seq<A>, before: spec_fn(A, A) -> bool) -> Seq<A>
    decreases s.len(),
{
    if s.len() == 0 {
        s
    } else {
        insert_by(s.last(), sorted_by(s.drop_last(), before), before)
    }
}

/// The elements of `ss`, one sequence after the other.
pub open spec fn concat<A>(ss: Seq<Seq<A>>) -> Seq<A>
    decreases ss.len(),
{
    if ss.len() == 0 {
        Seq::empty()
    } else {
        concat(ss.drop_last()) + ss.last()
    }
}

/// Where `insert_by` puts `x`: before the first element it goes before.
pub proof fn lemma_insert_by<A>(x: A, s: Seq<A>, before: spec_fn(A, A) -> bool, p: int)
    requires
        0 <= p <= s.len(),
        forall|j: int| 0 <= j < p ==> !before(x, #[trigger] s[j]),
        p < s.len() ==> before(x, s[p]),
    ensures
        insert_by(x, s, before) == s.take(p) + seq![x] + s.skip(p),
    decreases s.len(),
{
    if s.len() == 0 {
        assert(s.take(p) + seq![x] + s.skip(p) =~= seq![x]);
    } else if p == 0 {
        assert(s.take(p) + seq![x] + s.skip(p) =~= seq![x] + s);
    } else {
        let t = s.drop_first();
        assert forall|j: int| 0 <= j < p - 1 implies !before(x, #[trigger] t[j]) by {
            assert(t[j] == s[j + 1]);
        }
        lemma_insert_by(x, t, before, p - 1);
        assert(s.take(p) + seq![x] + s.skip(p) =~= seq![s[0]] + (t.take(p - 1) + seq![x] + t.skip(p - 1)));
    }
}

/// A run of the sidebar: its id, label, owner and lifecycle, the positions of
/// its entries, and the highest priority among them.
pub struct RunGroup {
    pub id: String,
    pub label: String,
    pub owner: String,
    pub lifecycle: String,
    pub members: Vec<usize>,
    pub priority: u8,
}

/// A run with every part taken by its view.
pub struct RunView {
    pub id: Seq<char>,
    pub label: Seq<char>,
    pub owner: Seq<char>,
    pub lifecycle: Seq<char>,
    pub members: Seq<usize>,
    pub priority: u8,
}

impl View for RunGroup {
    type V = RunView;

    open spec fn view(&self) -> RunView {
        RunView {
            id: self.id@,
            label: self.label@,
            owner: self.owner@,
            lifecycle: self.lifecycle@,
            members: self.members@,
            priority: self.priority,
        }
    }
}

/// The runs of a list, each taken by its view.
pub open spec fn runs_view(rs: Seq<RunGroup>) -> Seq<RunView> {
    rs.map_values(|r: RunGroup| r@)
}

/// Run `id` of the entries: its label, owner and lifecycle come from its first entry.
pub open spec fn run_of(es: Seq<EntryView>, id: Seq<char>) -> RunView {
    let ms = run_members(es, id);
    let first = es[ms[0] as int];
    RunView {
        id,
        label: token_or(first.tokens, "orchestration_label"@, id),
        owner: token_or(first.tokens, "orchestration_owner"@, "agent"@),
        lifecycle: token_or(first.tokens, "orchestration_state"@, "active"@),
        members: ms,
        priority: run_priority(es, ms),
    }
}

/// The runs of the entries, in the order of their first entry.
pub open spec fn runs_of(es: Seq<EntryView>) -> Seq<RunView> {
    run_order(es).map_values(|id: Seq<char>| run_of(es, id))
}

/// Runs are ordered by priority (highest first), then label, then id.
pub open spec fn run_before() -> spec_fn(RunView, RunView) -> bool {
    |a: RunView, b: RunView|
        a.priority > b.priority || (a.priority == b.priority && (chars_less(a.label, b.label) || (
        a.label == b.label && chars_less(a.id, b.id))))
}

proof fn lemma_positions_where(n: nat, p: spec_fn(usize) -> bool, i: usize)
    requires
        (i as nat) < n,
        p(i),
    ensures
        positions_where(n, p).len() > 0,
        positions_in(positions_where(n, p), n),
    decreases n,
{
    lemma_positions_bounded(n, p);
    if (i as nat) < (n - 1) as nat {
        lemma_positions_where((n - 1) as nat, p, i);
    }
}

proof fn lemma_positions_bounded(n: nat, p: spec_fn(usize) -> bool)
    ensures
        positions_in(positions_where(n, p), n),
    decreases n,
{
    if n > 0 {
        lemma_positions_bounded((n - 1) as nat, p);
    }
}

proof fn lemma_run_order_members(es: Seq<EntryView>, id: Seq<char>)
    requires
        run_order(es).contains(id),
    ensures
        exists|i: int| 0 <= i < es.len() && orchestration_of(#[trigger] es[i]) == Some(id),
    decreases es.len(),
{
    if es.len() > 0 {
        let before = run_order(es.drop_last());
        if before.contains(id) {
            lemma_run_order_members(es.drop_last(), id);
            let i = choose|i: int| 0 <= i < es.len() - 1 && orchestration_of(#[trigger] es.drop_last()[i]) == Some(id);
            assert(es[i] == es.drop_last()[i]);
        } else {
            assert(orchestration_of(es[es.len() - 1]) == Some(id));
        }
    }
}

proof fn lemma_insert_by_members(x: RunView, s: Seq<RunView>, n: nat)
    requires
        positions_in(x.members, n),
        forall|j: int| 0 <= j < s.len() ==> positions_in(#[trigger] s[j].members, n),
    ensures
        forall|j: int| 0 <= j < insert_by(x, s, run_before()).len() ==> positions_in(
            #[trigger] insert_by(x, s, run_before())[j].members,
            n,
        ),
    decreases s.len(),
{
    if s.len() > 0 && !(run_before())(x, s[0]) {
        let t = s.drop_first();
        assert forall|j: int| 0 <= j < t.len() implies positions_in(#[trigger] t[j].members, n) by {
            assert(t[j] == s[j + 1]);
        }
        lemma_insert_by_members(x, t, n);
        let r = insert_by(x, s, run_before());
        assert forall|j: int| 0 <= j < r.len() implies positions_in(#[trigger] r[j].members, n) by {
            if j > 0 {
                assert(r[j] == insert_by(x, t, run_before())[j - 1]);
            }
        }
    } else if s.len() > 0 {
        let r = insert_by(x, s, run_before());
        assert forall|j: int| 0 <= j < r.len() implies positions_in(#[trigger] r[j].members, n) by {
            if j > 0 {
                assert(r[j] == s[j - 1]);
            }
        }
    }
}

/// Sorting keeps every run's positions within the entries.
proof fn lemma_sorted_members_bounded(s: Seq<RunView>, n: nat)
    requires
        forall|j: int| 0 <= j < s.len() ==> positions_in(#[trigger] s[j].members, n),
    ensures
        forall|j: int| 0 <= j < sorted_by(s, run_before()).len() ==> positions_in(
            #[trigger] sorted_by(s, run_before())[j].members,
            n,
        ),
    decreases s.len(),
{
    if s.len() > 0 {
        let t = s.drop_last();
        assert forall|j: int| 0 <= j < t.len() implies positions_in(#[trigger] t[j].members, n) by {
            assert(t[j] == s[j]);
        }
        lemma_sorted_members_bounded(t, n);
        assert(positions_in(s[s.len() - 1].members, n));
        lemma_insert_by_members(s.last(), sorted_by(t, run_before()), n);
    }
}

/// A run of the order has at least one entry, and its positions name entries.
proof fn lemma_run_members_nonempty(es: Seq<EntryView>, id: Seq<char>)
    requires
        run_order(es).contains(id),
        es.len() <= usize::MAX,
    ensures
        run_members(es, id).len() > 0,
        positions_in(run_members(es, id), es.len() as nat),
{
    lemma_run_order_members(es, id);
    let i = choose|i: int| 0 <= i < es.len() && orchestration_of(#[trigger] es[i]) == Some(id);
    let p = |i: usize| orchestration_of(es[i as int]) == Some(id);
    assert(p(i as usize));
    lemma_positions_where(es.len(), p, i as usize);
}

/// A row of the orchestration section.
pub enum AgentPanelItem {
    RunHeader {
        id: String,
        label: String,
        owner: String,
        lifecycle: String,
        counts: OrchestrationCounts,
        collapsed: bool,
    },
    RepositoryHeader { label: String, count: usize },
    Agent {
        entry_index: usize,
        responsibility: String,
        metadata: String,
        details: String,
        status: String,
        selected: bool,
    },
    RunFooter,
    LegacyAgent { entry_index: usize },
}

/// A row with every text taken by its view.
pub enum ItemView {
    RunHeader {
        id: Seq<char>,
        label: Seq<char>,
        owner: Seq<char>,
        lifecycle: Seq<char>,
        counts: (nat, nat, nat),
        collapsed: bool,
    },
    RepositoryHeader { label: Seq<char>, count: nat },
    Agent {
        entry_index: usize,
        responsibility: Seq<char>,
        metadata: Seq<char>,
        details: Seq<char>,
        status: Seq<char>,
        selected: bool,
    },
    RunFooter,
    LegacyAgent { entry_index: usize },
}

impl View for AgentPanelItem {
    type V = ItemView;

    open spec fn view(&self) -> ItemView {
        match self {
            AgentPanelItem::RunHeader { id, label, owner, lifecycle, counts, collapsed } => {
                ItemView::RunHeader {
                    id: id@,
                    label: label@,
                    owner: owner@,
                    lifecycle: lifecycle@,
                    counts: (counts.working as nat, counts.waiting as nat, counts.done as nat),
                    collapsed: *collapsed,
                }
            },
            AgentPanelItem::RepositoryHeader { label, count } => ItemView::RepositoryHeader {
                label: label@,
                count: *count as nat,
            },
            AgentPanelItem::Agent {
                entry_index,
                responsibility,
                metadata,
                details,
                status,
                selected,
            } => ItemView::Agent {
                entry_index: *entry_index,
                responsibility: responsibility@,
                metadata: metadata@,
                details: details@,
                status: status@,
                selected: *selected,
            },
            AgentPanelItem::RunFooter => ItemView::RunFooter,
            AgentPanelItem::LegacyAgent { entry_index } => ItemView::LegacyAgent {
                entry_index: *entry_index,
            },
        }
    }
}

/// The rows of a list, each taken by its view.
pub open spec fn items_view(items: Seq<AgentPanelItem>) -> Seq<ItemView> {
    items.map_values(|i: AgentPanelItem| i@)
}

/// The rows of the orchestration section.
pub struct AgentPanelLayout {
    pub items: Vec<AgentPanelItem>,
}

/// The row of the entry at `i`, selected when its location is `active`.
pub open spec fn agent_item(es: Seq<EntryView>, i: usize, active: Option<(usize, usize, PaneId)>) -> ItemView {
    let e = es[i as int];
    ItemView::Agent {
        entry_index: i,
        responsibility: responsibility_of(e),
        metadata: metadata_of(e),
        details: details_of(e),
        status: status_of(e),
        selected: active == Some((e.ws_idx, e.tab_idx, e.pane_id)),
    }
}

/// The rows of repository `repo` of the entries at `ms`: a header with the
/// number of its entries, then its entries in priority order.
pub open spec fn repository_items(
    es: Seq<EntryView>,
    ms: Seq<usize>,
    repo: Seq<char>,
    active: Option<(usize, usize, PaneId)>,
) -> Seq<ItemView> {
    let rm = repository_members(es, ms, repo);
    seq![ItemView::RepositoryHeader { label: repo, count: rm.len() }] + sorted_by(
        rm,
        entry_before(es),
    ).map_values(|i: usize| agent_item(es, i, active))
}

/// The rows of a run: a header card with the run's counts, then (unless the
/// run is collapsed) each repository in order of its first entry, then a footer.
pub open spec fn run_items(
    es: Seq<EntryView>,
    run: RunView,
    collapsed_keys: Seq<Seq<char>>,
    active: Option<(usize, usize, PaneId)>,
) -> Seq<ItemView> {
    let collapsed = collapsed_keys.contains(collapse_key_of(run.id));
    let header = ItemView::RunHeader {
        id: run.id,
        label: run.label,
        owner: run.owner,
        lifecycle: run.lifecycle,
        counts: counts_of(es, run.members),
        collapsed,
    };
    let body = if collapsed {
        Seq::empty()
    } else {
        concat(
            repository_order(es, run.members).map_values(
                |repo: Seq<char>| repository_items(es, run.members, repo, active),
            ),
        )
    };
    seq![header] + body + seq![ItemView::RunFooter]
}

/// The whole section: the runs in sidebar order, then the entries that belong to no run.
pub open spec fn layout_items(
    es: Seq<EntryView>,
    collapsed_keys: Seq<Seq<char>>,
    active: Option<(usize, usize, PaneId)>,
) -> Seq<ItemView> {
    concat(
        sorted_by(runs_of(es), run_before()).map_values(
            |run: RunView| run_items(es, run, collapsed_keys, active),
        ),
    ) + legacy_members(es).map_values(|i: usize| ItemView::LegacyAgent { entry_index: i })
}

impl AgentPanelItem {
    /// How many lines the row takes.
    pub fn height(&self) -> (r: u16)
        ensures
            r == match self@ {
                ItemView::RunHeader { .. } => 2u16,
                ItemView::RepositoryHeader { .. } | ItemView::RunFooter => 1u16,
                ItemView::Agent { selected, .. } => if selected {
                    3u16
                } else {
                    2u16
                },
                ItemView::LegacyAgent { .. } => 0u16,
            },
    {
        match self {
            AgentPanelItem::RunHeader { .. } => 2,
            AgentPanelItem::RepositoryHeader { .. } | AgentPanelItem::RunFooter => 1,
            AgentPanelItem::Agent { selected, .. } => {
                if *selected {
                    3
                } else {
                    2
                }
            },
            AgentPanelItem::LegacyAgent { .. } => 0,
        }
    }

    /// The entry that the row shows, for agent rows.
    pub fn entry_index(&self) -> (r: Option<usize>)
        ensures
            r == match self@ {
                ItemView::Agent { entry_index, .. } => Some(entry_index),
                ItemView::LegacyAgent { entry_index } => Some(entry_index),
                _ => None::<usize>,
            },
    {
        match self {
            AgentPanelItem::Agent { entry_index, .. } | AgentPanelItem::LegacyAgent {
                entry_index,
            } => Some(*entry_index),
            _ => None,
        }
    }

    /// The run that the row heads, for run headers.
    pub fn orchestration_id(&self) -> (r: Option<&str>)
        ensures
            match self@ {
                ItemView::RunHeader { id, .. } => r is Some && r->0@ == id,
                _ => r is None,
            },
    {
        match self {
            AgentPanelItem::RunHeader { id, .. } => Some(id.as_str()),
            _ => None,
        }
    }
}

/// The entry index that a row shows, if any.
pub open spec fn item_entry(item: ItemView) -> Option<usize> {
    match item {
        ItemView::Agent { entry_index, .. } => Some(entry_index),
        ItemView::LegacyAgent { entry_index } => Some(entry_index),
        _ => None,
    }
}

impl AgentPanelLayout {
    /// The position of the first row that shows entry `entry_index`.
    pub fn item_index_for_agent(&self, entry_index: usize) -> (r: Option<usize>)
        ensures
            match r {
                Some(p) => p < self.items.len() && item_entry(self.items@[p as int]@) == Some(
                    entry_index,
                ) && forall|j: int|
                    0 <= j < p ==> item_entry(#[trigger] self.items@[j]@) != Some(entry_index),
                None => forall|j: int|
                    0 <= j < self.items.len() ==> item_entry(#[trigger] self.items@[j]@) != Some(
                        entry_index,
                    ),
            },
    {
        let mut p: usize = 0;
        while p < self.items.len()
            invariant
                p <= self.items.len(),
                forall|j: int| 0 <= j < p ==> item_entry(#[trigger] self.items@[j]@) != Some(entry_index),
            decreases self.items.len() - p,
        {
            if self.items[p].entry_index() == Some(entry_index) {
                return Some(p);
            }
            p = p + 1;
        }
        None
    }
}

/// The run of an entry, computed.
pub fn orchestration_id_of(entry: &AgentPanelEntry) -> (r: Option<String>)
    requires
        entry.wf(),
    ensures
        match r {
            Some(id) => orchestration_of(entry@) == Some(id@),
            None => orchestration_of(entry@) is None,
        },
{
    match table_get(&entry.tokens, "orchestration_id") {
        Some(id) => if id.as_str().is_empty() {
            None
        } else {
            Some(id.clone())
        },
        None => None,
    }
}

/// Whether `id` is one of `ids`.
fn contains_text(ids: &Vec<String>, id: &String) -> (r: bool)
    ensures
        r == ids@.map_values(|s: String| s@).contains(id@),
{
    let ghost view = ids@.map_values(|s: String| s@);
    let mut i: usize = 0;
    while i < ids.len()
        invariant
            i <= ids.len(),
            view == ids@.map_values(|s: String| s@),
            forall|j: int| 0 <= j < i ==> view[j] != id@,
        decreases ids.len() - i,
    {
        if ids[i] == *id {
            assert(view[i as int] == id@);
            return true;
        }
        i = i + 1;
    }
    false
}

/// The runs of `entries`, in the order of their first entry.
fn discover_runs(entries: &Vec<AgentPanelEntry>) -> (r: Vec<String>)
    requires
        entries_wf(entries@),
    ensures
        r@.map_values(|s: String| s@) == run_order(entries_view(entries@)),
{
    let ghost es = entries_view(entries@);
    let mut runs: Vec<String> = Vec::new();
    let mut i: usize = 0;
    assert(es.take(0) =~= Seq::<EntryView>::empty());
    assert(runs@.map_values(|s: String| s@) =~= Seq::<Seq<char>>::empty());
    while i < entries.len()
        invariant
            i <= entries.len(),
            es == entries_view(entries@),
            entries_wf(entries@),
            runs@.map_values(|s: String| s@) == run_order(es.take(i as int)),
        decreases entries.len() - i,
    {
        proof {
            assert(es.take(i + 1).drop_last() =~= es.take(i as int));
            assert(es.take(i + 1).last() == entries@[i as int]@);
            assert(entries@[i as int].wf());
        }
        let ghost before = runs@;
        match orchestration_id_of(&entries[i]) {
            Some(id) => {
                if !contains_text(&runs, &id) {
                    runs.push(id);
                    assert(runs@.map_values(|s: String| s@) =~= before.map_values(|s: String| s@).push(id@));
                }
            },
            None => {},
        }
        i = i + 1;
    }
    assert(es.take(entries.len() as int) =~= es);
    runs
}

/// The positions of the entries of run `id`.
fn members_of(entries: &Vec<AgentPanelEntry>, id: &String) -> (r: Vec<usize>)
    requires
        entries_wf(entries@),
    ensures
        r@ == run_members(entries_view(entries@), id@),
{
    let ghost es = entries_view(entries@);
    let ghost p = |i: usize| orchestration_of(es[i as int]) == Some(id@);
    let mut out: Vec<usize> = Vec::new();
    let mut i: usize = 0;
    while i < entries.len()
        invariant
            i <= entries.len(),
            es == entries_view(entries@),
            p == (|i: usize| orchestration_of(es[i as int]) == Some(id@)),
            entries_wf(entries@),
            out@ == positions_where(i as nat, p),
        decreases entries.len() - i,
    {
        assert(entries@[i as int].wf());
        assert(es[i as int] == entries@[i as int]@);
        match orchestration_id_of(&entries[i]) {
            Some(run) => {
                if run == *id {
                    out.push(i);
                }
            },
            None => {},
        }
        i = i + 1;
    }
    out
}

/// The repositories of the entries at `ms`, in the order of their first entry.
fn repositories_of(entries: &Vec<AgentPanelEntry>, ms: &Vec<usize>) -> (r: Vec<String>)
    requires
        entries_wf(entries@),
        positions_in(ms@, entries.len() as nat),
    ensures
        r@.map_values(|s: String| s@) == repository_order(entries_view(entries@), ms@),
{
    let ghost es = entries_view(entries@);
    let mut out: Vec<String> = Vec::new();
    let mut i: usize = 0;
    assert(ms@.take(0) =~= Seq::<usize>::empty());
    assert(out@.map_values(|s: String| s@) =~= Seq::<Seq<char>>::empty());
    while i < ms.len()
        invariant
            i <= ms.len(),
            es == entries_view(entries@),
            entries_wf(entries@),
            positions_in(ms@, entries.len() as nat),
            out@.map_values(|s: String| s@) == repository_order(es, ms@.take(i as int)),
        decreases ms.len() - i,
    {
        proof {
            assert(ms@.take(i + 1).drop_last() =~= ms@.take(i as int));
            assert(ms@.take(i + 1).last() == ms@[i as int]);
        }
        let k = ms[i];
        assert(k < entries.len());
        assert(entries@[k as int].wf());
        assert(es[k as int] == entries@[k as int]@);
        let repo = token(&entries[k], "repository", entries[k].primary_label.as_str());
        let ghost before = out@;
        if !contains_text(&out, &repo) {
            out.push(repo);
            assert(out@.map_values(|s: String| s@) =~= before.map_values(|s: String| s@).push(
                repository_of(es[k as int]),
            ));
        }
        i = i + 1;
    }
    assert(ms@.take(ms.len() as int) =~= ms@);
    out
}

/// The entries at `ms` shown under repository `repo`, in order.
fn repository_members_of(entries: &Vec<AgentPanelEntry>, ms: &Vec<usize>, repo: &String) -> (r: Vec<
    usize,
>)
    requires
        entries_wf(entries@),
        positions_in(ms@, entries.len() as nat),
    ensures
        r@ == repository_members(entries_view(entries@), ms@, repo@),
        positions_in(r@, entries.len() as nat),
{
    let ghost es = entries_view(entries@);
    let mut out: Vec<usize> = Vec::new();
    let mut i: usize = 0;
    assert(ms@.take(0) =~= Seq::<usize>::empty());
    while i < ms.len()
        invariant
            i <= ms.len(),
            es == entries_view(entries@),
            entries_wf(entries@),
            positions_in(ms@, entries.len() as nat),
            positions_in(out@, entries.len() as nat),
            out@ == repository_members(es, ms@.take(i as int), repo@),
        decreases ms.len() - i,
    {
        proof {
            assert(ms@.take(i + 1).drop_last() =~= ms@.take(i as int));
            assert(ms@.take(i + 1).last() == ms@[i as int]);
        }
        let k = ms[i];
        assert(k < entries.len());
        assert(entries@[k as int].wf());
        assert(es[k as int] == entries@[k as int]@);
        let here = token(&entries[k], "repository", entries[k].primary_label.as_str());
        if here == *repo {
            out.push(k);
        }
        i = i + 1;
    }
    assert(ms@.take(ms.len() as int) =~= ms@);
    out
}

/// The highest status priority among the entries at `ms`.
fn priority_of(entries: &Vec<AgentPanelEntry>, ms: &Vec<usize>) -> (r: u8)
    requires
        entries_wf(entries@),
        positions_in(ms@, entries.len() as nat),
    ensures
        r == run_priority(entries_view(entries@), ms@),
{
    let ghost es = entries_view(entries@);
    let mut best: u8 = 0;
    let mut i: usize = 0;
    assert(ms@.take(0) =~= Seq::<usize>::empty());
    while i < ms.len()
        invariant
            i <= ms.len(),
            es == entries_view(entries@),
            entries_wf(entries@),
            positions_in(ms@, entries.len() as nat),
            best == run_priority(es, ms@.take(i as int)),
        decreases ms.len() - i,
    {
        proof {
            assert(ms@.take(i + 1).drop_last() =~= ms@.take(i as int));
            assert(ms@.take(i + 1).last() == ms@[i as int]);
        }
        let k = ms[i];
        assert(k < entries.len());
        assert(entries@[k as int].wf());
        assert(es[k as int] == entries@[k as int]@);
        let p = entry_priority(&entries[k]);
        if p > best {
            best = p;
        }
        i = i + 1;
    }
    assert(ms@.take(ms.len() as int) =~= ms@);
    best
}

/// Lexicographic order of texts by code point.
pub fn text_less(a: &str, b: &str) -> (r: bool)
    ensures
        r == chars_less(a@, b@),
{
    let x = chars_of(a);
    let y = chars_of(b);
    let mut i: usize = 0;
    assert(x@.skip(0) =~= x@);
    assert(y@.skip(0) =~= y@);
    while i < x.len() && i < y.len()
        invariant
            i <= x.len(),
            i <= y.len(),
            x@ == a@,
            y@ == b@,
            chars_less(x@.skip(i as int), y@.skip(i as int)) == chars_less(a@, b@),
        decreases x.len() - i,
    {
        assert(x@.skip(i as int)[0] == x@[i as int]);
        assert(y@.skip(i as int)[0] == y@[i as int]);
        if x[i] != y[i] {
            return x[i] < y[i];
        }
        assert(x@.skip(i as int).drop_first() =~= x@.skip(i + 1));
        assert(y@.skip(i as int).drop_first() =~= y@.skip(i + 1));
        i = i + 1;
    }
    i < y.len()
}

/// Whether the run `a` goes before the run `b`.
fn run_goes_before(a: &RunGroup, b: &RunGroup) -> (r: bool)
    ensures
        r == (run_before())(a@, b@),
{
    if a.priority != b.priority {
        return a.priority > b.priority;
    }
    if text_less(a.label.as_str(), b.label.as_str()) {
        return true;
    }
    if a.label == b.label {
        text_less(a.id.as_str(), b.id.as_str())
    } else {
        false
    }
}

/// The runs in sidebar order: by priority (highest first), then label, then id.
fn sort_runs(runs: Vec<RunGroup>) -> (r: Vec<RunGroup>)
    ensures
        runs_view(r@) == sorted_by(runs_view(runs@), run_before()),
{
    let ghost all = runs_view(runs@);
    let mut rest = runs;
    let mut out: Vec<RunGroup> = Vec::new();
    let ghost mut i: int = 0;
    assert(all.take(0) =~= Seq::<RunView>::empty());
    assert(all.skip(0) =~= all);
    assert(runs_view(out@) =~= Seq::<RunView>::empty());
    while rest.len() > 0
        invariant
            0 <= i <= all.len(),
            i + rest.len() == all.len(),
            runs_view(rest@) == all.skip(i),
            runs_view(out@) == sorted_by(all.take(i), run_before()),
            out.len() == i,
        decreases rest.len(),
    {
        let ghost old_rest = rest@;
        let x = rest.remove(0);
        proof {
            assert(runs_view(old_rest)[0] == x@);
            assert(all.skip(i)[0] == x@);
            assert forall|j: int| 0 <= j < rest@.len() implies #[trigger] runs_view(rest@)[j] == all.skip(i + 1)[j] by {
                assert(rest@[j] == old_rest[j + 1]);
                assert(runs_view(old_rest)[j + 1] == all.skip(i)[j + 1]);
            }
            assert(runs_view(rest@) =~= all.skip(i + 1));
        }
        let mut p: usize = 0;
        while p < out.len() && !run_goes_before(&x, &out[p])
            invariant
                p <= out.len(),
                forall|j: int| 0 <= j < p ==> !(run_before())(x@, #[trigger] runs_view(out@)[j]),
            decreases out.len() - p,
        {
            p = p + 1;
        }
        let ghost before = runs_view(out@);
        proof {
            lemma_insert_by(x@, before, run_before(), p as int);
            assert(all.take(i + 1).drop_last() =~= all.take(i));
            assert(all.take(i + 1).last() == x@);
        }
        out.insert(p, x);
        proof {
            assert(runs_view(out@) =~= before.take(p as int) + seq![x@] + before.skip(p as int));
            i = i + 1;
        }
    }
    assert(all.take(i) =~= all);
    out
}

/// Whether the entry at `a` goes before the entry at `b` within a repository.
fn entry_goes_before(entries: &Vec<AgentPanelEntry>, a: usize, b: usize) -> (r: bool)
    requires
        entries_wf(entries@),
        a < entries.len(),
        b < entries.len(),
    ensures
        r == (entry_before(entries_view(entries@)))(a, b),
{
    assert(entries@[a as int].wf());
    assert(entries@[b as int].wf());
    assert(entries_view(entries@)[a as int] == entries@[a as int]@);
    assert(entries_view(entries@)[b as int] == entries@[b as int]@);
    let pa = entry_priority(&entries[a]);
    let pb = entry_priority(&entries[b]);
    if pa != pb {
        return pa > pb;
    }
    let ra = responsibility(&entries[a]);
    let rb = responsibility(&entries[b]);
    text_less(ra.as_str(), rb.as_str())
}

/// The positions `ms` in repository order: by priority (highest first), then responsibility.
fn sort_positions(entries: &Vec<AgentPanelEntry>, ms: &Vec<usize>) -> (r: Vec<usize>)
    requires
        entries_wf(entries@),
        positions_in(ms@, entries.len() as nat),
    ensures
        r@ == sorted_by(ms@, entry_before(entries_view(entries@))),
        positions_in(r@, entries.len() as nat),
{
    let ghost before_fn = entry_before(entries_view(entries@));
    let mut out: Vec<usize> = Vec::new();
    let mut i: usize = 0;
    assert(ms@.take(0) =~= Seq::<usize>::empty());
    while i < ms.len()
        invariant
            i <= ms.len(),
            entries_wf(entries@),
            positions_in(ms@, entries.len() as nat),
            before_fn == entry_before(entries_view(entries@)),
            out@ == sorted_by(ms@.take(i as int), before_fn),
            positions_in(out@, entries.len() as nat),
            out.len() == i,
        decreases ms.len() - i,
    {
        let x = ms[i];
        assert(x < entries.len());
        let mut p: usize = 0;
        while p < out.len() && !entry_goes_before(entries, x, out[p])
            invariant
                p <= out.len(),
                x < entries.len(),
                entries_wf(entries@),
                positions_in(out@, entries.len() as nat),
                before_fn == entry_before(entries_view(entries@)),
                forall|j: int| 0 <= j < p ==> !before_fn(x, #[trigger] out@[j]),
            decreases out.len() - p,
        {
            p = p + 1;
        }
        let ghost prev = out@;
        proof {
            lemma_insert_by(x, prev, before_fn, p as int);
            assert(ms@.take(i + 1).drop_last() =~= ms@.take(i as int));
            assert(ms@.take(i + 1).last() == x);
        }
        out.insert(p, x);
        proof {
            assert(out@ =~= prev.take(p as int) + seq![x] + prev.skip(p as int));
            assert forall|j: int| 0 <= j < out@.len() implies (#[trigger] out@[j] as int) < entries.len() by {
                if j < p {
                    assert(out@[j] == prev[j]);
                } else if j > p {
                    assert(out@[j] == prev[j - 1]);
                }
            }
        }
        i = i + 1;
    }
    assert(ms@.take(ms.len() as int) =~= ms@);
    out
}

/// How many of the entries at `ms` are working, waiting or done.
pub fn orchestration_counts(entries: &Vec<AgentPanelEntry>, ms: &Vec<usize>) -> (r: OrchestrationCounts)
    requires
        entries_wf(entries@),
        positions_in(ms@, entries.len() as nat),
    ensures
        (r.working as nat, r.waiting as nat, r.done as nat) == counts_of(entries_view(entries@), ms@),
{
    let ghost es = entries_view(entries@);
    let mut counts = OrchestrationCounts { working: 0, waiting: 0, done: 0 };
    let mut i: usize = 0;
    assert(ms@.take(0) =~= Seq::<usize>::empty());
    while i < ms.len()
        invariant
            i <= ms.len(),
            es == entries_view(entries@),
            entries_wf(entries@),
            positions_in(ms@, entries.len() as nat),
            (counts.working as nat, counts.waiting as nat, counts.done as nat) == counts_of(es, ms@.take(i as int)),
            counts.working + counts.waiting + counts.done == i,
        decreases ms.len() - i,
    {
        proof {
            assert(ms@.take(i + 1).drop_last() =~= ms@.take(i as int));
            assert(ms@.take(i + 1).last() == ms@[i as int]);
        }
        let k = ms[i];
        assert(k < entries.len());
        assert(entries@[k as int].wf());
        assert(es[k as int] == entries@[k as int]@);
        let s = status(&entries[k]);
        if str_equal(s.as_str(), "working") {
            counts.working = counts.working + 1;
        } else if str_equal(s.as_str(), "done") {
            counts.done = counts.done + 1;
        } else {
            counts.waiting = counts.waiting + 1;
        }
        i = i + 1;
    }
    assert(ms@.take(ms.len() as int) =~= ms@);
    counts
}

/// `concat` of a prefix one longer adds the next sequence.
proof fn lemma_concat_step<A>(ss: Seq<Seq<A>>, k: int)
    requires
        0 <= k < ss.len(),
    ensures
        concat(ss.take(k + 1)) == concat(ss.take(k)) + ss[k],
{
    assert(ss.take(k + 1).drop_last() =~= ss.take(k));
    assert(ss.take(k + 1).last() == ss[k]);
}

/// The row of the entry at `i`.
fn make_agent_item(
    entries: &Vec<AgentPanelEntry>,
    i: usize,
    active: Option<(usize, usize, PaneId)>,
) -> (r: AgentPanelItem)
    requires
        entries_wf(entries@),
        i < entries.len(),
    ensures
        r@ == agent_item(entries_view(entries@), i, active),
{
    let entry = &entries[i];
    assert(entries@[i as int].wf());
    assert(entries_view(entries@)[i as int] == entry@);
    let selected = match active {
        Some((ws, tab, pane)) => ws == entry.ws_idx && tab == entry.tab_idx && pane.raw
            == entry.pane_id.raw,
        None => false,
    };
    AgentPanelItem::Agent {
        entry_index: i,
        responsibility: responsibility(entry),
        metadata: metadata_line(entry),
        details: detail_line(entry),
        status: status(entry),
        selected,
    }
}

/// Appends the rows of repository `repo` of the entries at `ms`.
fn push_repository_items(
    items: &mut Vec<AgentPanelItem>,
    entries: &Vec<AgentPanelEntry>,
    ms: &Vec<usize>,
    repo: &String,
    active: Option<(usize, usize, PaneId)>,
)
    requires
        entries_wf(entries@),
        positions_in(ms@, entries.len() as nat),
    ensures
        items_view(final(items)@) == items_view(old(items)@) + repository_items(
            entries_view(entries@),
            ms@,
            repo@,
            active,
        ),
{
    let ghost es = entries_view(entries@);
    let ghost start = items_view(items@);
    let members = repository_members_of(entries, ms, repo);
    let sorted = sort_positions(entries, &members);
    let ghost rows = sorted@.map_values(|i: usize| agent_item(es, i, active));
    let ghost header = ItemView::RepositoryHeader { label: repo@, count: members@.len() };
    items.push(AgentPanelItem::RepositoryHeader { label: repo.clone(), count: members.len() });
    assert(items_view(items@) =~= start + seq![header]);
    let mut k: usize = 0;
    assert(rows.take(0) =~= Seq::<ItemView>::empty());
    while k < sorted.len()
        invariant
            k <= sorted.len(),
            entries_wf(entries@),
            es == entries_view(entries@),
            positions_in(sorted@, entries.len() as nat),
            rows == sorted@.map_values(|i: usize| agent_item(es, i, active)),
            items_view(items@) == start + seq![header] + rows.take(k as int),
        decreases sorted.len() - k,
    {
        let ghost prev = items_view(items@);
        assert(sorted@[k as int] < entries.len());
        let row = make_agent_item(entries, sorted[k], active);
        items.push(row);
        proof {
            assert(items_view(items@) =~= prev.push(row@));
            assert(rows.take(k + 1) =~= rows.take(k as int).push(rows[k as int]));
            assert(items_view(items@) =~= start + seq![header] + rows.take(k + 1));
        }
        k = k + 1;
    }
    proof {
        assert(rows.take(sorted.len() as int) =~= rows);
        assert(items_view(items@) =~= start + repository_items(es, ms@, repo@, active));
    }
}

/// Whether `key` is one of `keys`.
fn contains_key(keys: &Vec<String>, key: &String) -> (r: bool)
    ensures
        r == keys@.map_values(|s: String| s@).contains(key@),
{
    contains_text(keys, key)
}

/// Appends the rows of `run`.
fn push_run_items(
    items: &mut Vec<AgentPanelItem>,
    entries: &Vec<AgentPanelEntry>,
    run: &RunGroup,
    collapsed_keys: &Vec<String>,
    active: Option<(usize, usize, PaneId)>,
)
    requires
        entries_wf(entries@),
        positions_in(run.members@, entries.len() as nat),
    ensures
        items_view(final(items)@) == items_view(old(items)@) + run_items(
            entries_view(entries@),
            run@,
            collapsed_keys@.map_values(|s: String| s@),
            active,
        ),
{
    let ghost es = entries_view(entries@);
    let ghost keys = collapsed_keys@.map_values(|s: String| s@);
    let ghost start = items_view(items@);
    let key = collapse_key(run.id.as_str());
    let collapsed = contains_key(collapsed_keys, &key);
    let counts = orchestration_counts(entries, &run.members);
    let ghost header = ItemView::RunHeader {
        id: run.id@,
        label: run.label@,
        owner: run.owner@,
        lifecycle: run.lifecycle@,
        counts: counts_of(es, run.members@),
        collapsed,
    };
    items.push(
        AgentPanelItem::RunHeader {
            id: run.id.clone(),
            label: run.label.clone(),
            owner: run.owner.clone(),
            lifecycle: run.lifecycle.clone(),
            counts,
            collapsed,
        },
    );
    assert(items_view(items@) =~= start + seq![header]);
    if !collapsed {
        let repos = repositories_of(entries, &run.members);
        let ghost repo_views = repos@.map_values(|s: String| s@);
        let ghost pieces = repo_views.map_values(
            |repo: Seq<char>| repository_items(es, run.members@, repo, active),
        );
        let mut k: usize = 0;
        assert(pieces.take(0) =~= Seq::<Seq<ItemView>>::empty());
        while k < repos.len()
            invariant
                k <= repos.len(),
                entries_wf(entries@),
                es == entries_view(entries@),
                positions_in(run.members@, entries.len() as nat),
                repo_views == repos@.map_values(|s: String| s@),
                pieces == repo_views.map_values(
                    |repo: Seq<char>| repository_items(es, run.members@, repo, active),
                ),
                items_view(items@) == start + seq![header] + concat(pieces.take(k as int)),
            decreases repos.len() - k,
        {
            let ghost prev = items_view(items@);
            push_repository_items(items, entries, &run.members, &repos[k], active);
            proof {
                lemma_concat_step(pieces, k as int);
                assert(pieces[k as int] == repository_items(es, run.members@, repos@[k as int]@, active));
                assert(items_view(items@) =~= start + seq![header] + concat(pieces.take(k + 1)));
            }
            k = k + 1;
        }
        assert(pieces.take(repos.len() as int) =~= pieces);
    }
    let ghost before_footer = items_view(items@);
    items.push(AgentPanelItem::RunFooter);
    proof {
        assert(items_view(items@) =~= before_footer.push(ItemView::RunFooter));
        assert(items_view(items@) =~= start + run_items(es, run@, keys, active));
    }
}

/// The runs of the entries, in the order of their first entry, with their members.
fn collect_runs(entries: &Vec<AgentPanelEntry>) -> (r: Vec<RunGroup>)
    requires
        entries_wf(entries@),
    ensures
        runs_view(r@) == runs_of(entries_view(entries@)),
        forall|j: int| 0 <= j < r.len() ==> positions_in(#[trigger] r@[j].members@, entries.len() as nat),
{
    let ghost es = entries_view(entries@);
    let ids = discover_runs(entries);
    let ghost order = ids@.map_values(|s: String| s@);
    let mut runs: Vec<RunGroup> = Vec::new();
    let mut k: usize = 0;
    assert(runs_view(runs@) =~= order.take(0).map_values(|id: Seq<char>| run_of(es, id)));
    while k < ids.len()
        invariant
            k <= ids.len(),
            entries_wf(entries@),
            es == entries_view(entries@),
            order == ids@.map_values(|s: String| s@),
            order == run_order(es),
            runs_view(runs@) == order.take(k as int).map_values(|id: Seq<char>| run_of(es, id)),
            forall|j: int| 0 <= j < runs.len() ==> positions_in(#[trigger] runs@[j].members@, entries.len() as nat),
        decreases ids.len() - k,
    {
        let id = &ids[k];
        proof {
            assert(order[k as int] == id@);
            assert(run_order(es).contains(id@));
            assert(es.len() == entries.len());
            lemma_run_members_nonempty(es, id@);
        }
        let members = members_of(entries, id);
        let first = members[0];
        assert(first < entries.len());
        assert(entries@[first as int].wf());
        assert(es[first as int] == entries@[first as int]@);
        let label = token(&entries[first], "orchestration_label", id.as_str());
        let owner = token(&entries[first], "orchestration_owner", "agent");
        let lifecycle = token(&entries[first], "orchestration_state", "active");
        let priority = priority_of(entries, &members);
        let run = RunGroup { id: id.clone(), label, owner, lifecycle, members, priority };
        assert(run@ == run_of(es, id@));
        let ghost prev = runs_view(runs@);
        runs.push(run);
        proof {
            assert(runs_view(runs@) =~= prev.push(run_of(es, id@)));
            assert(order.take(k + 1) =~= order.take(k as int).push(order[k as int]));
            assert(runs_view(runs@) =~= order.take(k + 1).map_values(|id: Seq<char>| run_of(es, id)));
        }
        k = k + 1;
    }
    assert(order.take(ids.len() as int) =~= order);
    runs
}

/// Lays out the orchestration section: the runs of the entries (entries with
/// the same non-empty `orchestration_id` token), highest priority first, each
/// with a header card, its repositories and agents unless collapsed, and a
/// footer; then the entries that belong to no run. The agent row at `active`
/// is selected.
pub fn build(
    entries: &Vec<AgentPanelEntry>,
    collapsed_keys: &Vec<String>,
    active: Option<(usize, usize, PaneId)>,
) -> (r: AgentPanelLayout)
    requires
        entries_wf(entries@),
    ensures
        items_view(r.items@) == layout_items(
            entries_view(entries@),
            collapsed_keys@.map_values(|s: String| s@),
            active,
        ),
{
    let ghost es = entries_view(entries@);
    let ghost keys = collapsed_keys@.map_values(|s: String| s@);
    let runs = collect_runs(entries);
    let ghost unsorted = runs_view(runs@);
    let sorted = sort_runs(runs);
    let ghost svs = runs_view(sorted@);
    proof {
        lemma_sorted_members_bounded(unsorted, entries.len() as nat);
    }
    let ghost pieces = svs.map_values(|run: RunView| run_items(es, run, keys, active));
    let mut items: Vec<AgentPanelItem> = Vec::new();
    let mut k: usize = 0;
    assert(items_view(items@) =~= concat(pieces.take(0)));
    while k < sorted.len()
        invariant
            k <= sorted.len(),
            entries_wf(entries@),
            es == entries_view(entries@),
            keys == collapsed_keys@.map_values(|s: String| s@),
            svs == runs_view(sorted@),
            forall|j: int| 0 <= j < svs.len() ==> positions_in(#[trigger] svs[j].members, entries.len() as nat),
            pieces == svs.map_values(|run: RunView| run_items(es, run, keys, active)),
            items_view(items@) == concat(pieces.take(k as int)),
        decreases sorted.len() - k,
    {
        assert(svs[k as int] == sorted@[k as int]@);
        assert(positions_in(svs[k as int].members, entries.len() as nat));
        push_run_items(&mut items, entries, &sorted[k], collapsed_keys, active);
        proof {
            lemma_concat_step(pieces, k as int);
        }
        k = k + 1;
    }
    assert(pieces.take(sorted.len() as int) =~= pieces);
    let ghost body = items_view(items@);
    let legacy = legacy_of(entries);
    let ghost tail = legacy@.map_values(|i: usize| ItemView::LegacyAgent { entry_index: i });
    let mut k: usize = 0;
    assert(tail.take(0) =~= Seq::<ItemView>::empty());
    while k < legacy.len()
        invariant
            k <= legacy.len(),
            tail == legacy@.map_values(|i: usize| ItemView::LegacyAgent { entry_index: i }),
            items_view(items@) == body + tail.take(k as int),
        decreases legacy.len() - k,
    {
        let ghost prev = items_view(items@);
        items.push(AgentPanelItem::LegacyAgent { entry_index: legacy[k] });
        proof {
            assert(items_view(items@) =~= prev.push(tail[k as int]));
            assert(tail.take(k + 1) =~= tail.take(k as int).push(tail[k as int]));
        }
        k = k + 1;
    }
    assert(tail.take(legacy.len() as int) =~= tail);
    AgentPanelLayout { items }
}

/// The positions of the entries that belong to no run.
fn legacy_of(entries: &Vec<AgentPanelEntry>) -> (r: Vec<usize>)
    requires
        entries_wf(entries@),
    ensures
        r@ == legacy_members(entries_view(entries@)),
{
    let ghost es = entries_view(entries@);
    let ghost p = |i: usize| orchestration_of(es[i as int]) is None;
    let mut out: Vec<usize> = Vec::new();
    let mut i: usize = 0;
    while i < entries.len()
        invariant
            i <= entries.len(),
            es == entries_view(entries@),
            p == (|i: usize| orchestration_of(es[i as int]) is None),
            entries_wf(entries@),
            out@ == positions_where(i as nat, p),
        decreases entries.len() - i,
    {
        assert(entries@[i as int].wf());
        assert(es[i as int] == entries@[i as int]@);
        if orchestration_id_of(&entries[i]).is_none() {
            out.push(i);
        }
        i = i + 1;
    }
    out
}

/// A collapsed run keeps its card: a header marked collapsed and a footer,
/// with none of its repositories or agents between them.
pub proof fn law_collapsed_run_shows_only_its_card(
    es: Seq<EntryView>,
    run: RunView,
    collapsed_keys: Seq<Seq<char>>,
    active: Option<(usize, usize, PaneId)>,
)
    requires
        collapsed_keys.contains(collapse_key_of(run.id)),
    ensures
        run_items(es, run, collapsed_keys, active).len() == 2,
        run_items(es, run, collapsed_keys, active)[0] matches ItemView::RunHeader { id, collapsed, .. }
            && id == run.id && collapsed,
        run_items(es, run, collapsed_keys, active)[1] == ItemView::RunFooter,
{
}

/// The counts on a run's card add up to the number of its agents: every
/// agent is working, waiting or done.
pub proof fn law_run_counts_cover_its_agents(es: Seq<EntryView>, ms: Seq<usize>)
    ensures
        counts_of(es, ms).0 + counts_of(es, ms).1 + counts_of(es, ms).2 == ms.len(),
    decreases ms.len(),
{
    if ms.len() > 0 {
        law_run_counts_cover_its_agents(es, ms.drop_last());
    }
}

/// `before` orders its elements strictly: never both ways, and transitively.
pub open spec fn strict_order<A>(before: spec_fn(A, A) -> bool) -> bool {
    &&& forall|a: A, b: A| #[trigger] before(a, b) ==> !before(b, a)
    &&& forall|a: A, b: A, c: A| #[trigger] before(a, b) && #[trigger] before(b, c) ==> before(a, c)
}

/// No element of `s` goes before an element ahead of it.
pub open spec fn in_order<A>(s: Seq<A>, before: spec_fn(A, A) -> bool) -> bool {
    forall|i: int, j: int| 0 <= i < j < s.len() ==> !before(#[trigger] s[j], #[trigger] s[i])
}

proof fn lemma_chars_less_strict(a: Seq<char>, b: Seq<char>, c: Seq<char>)
    ensures
        chars_less(a, b) ==> !chars_less(b, a),
        chars_less(a, b) && chars_less(b, c) ==> chars_less(a, c),
    decreases a.len(),
{
    if a.len() > 0 && b.len() > 0 && c.len() > 0 {
        lemma_chars_less_strict(a.drop_first(), b.drop_first(), c.drop_first());
    }
    if a.len() > 0 && b.len() > 0 {
        lemma_chars_less_strict(a.drop_first(), b.drop_first(), b.drop_first());
    }
}

proof fn lemma_insert_by_in_order<A>(x: A, s: Seq<A>, before: spec_fn(A, A) -> bool)
    requires
        strict_order(before),
        in_order(s, before),
    ensures
        in_order(insert_by(x, s, before), before),
    decreases s.len(),
{
    if s.len() > 0 {
        if before(x, s[0]) {
            let r = seq![x] + s;
            assert forall|i: int, j: int| 0 <= i < j < r.len() implies !before(#[trigger] r[j], #[trigger] r[i]) by {
                if i == 0 {
                    assert(r[j] == s[j - 1]);
                    if j - 1 > 0 {
                        assert(!before(s[j - 1], s[0]));
                        if before(s[j - 1], x) {
                            assert(before(s[j - 1], s[0]));
                        }
                    }
                } else {
                    assert(r[i] == s[i - 1] && r[j] == s[j - 1]);
                }
            }
        } else {
            let t = s.drop_first();
            assert(in_order(t, before)) by {
                assert forall|i: int, j: int| 0 <= i < j < t.len() implies !before(#[trigger] t[j], #[trigger] t[i]) by {
                    assert(t[i] == s[i + 1] && t[j] == s[j + 1]);
                }
            }
            lemma_insert_by_in_order(x, t, before);
            let inserted = insert_by(x, t, before);
            let r = seq![s[0]] + inserted;
            lemma_insert_by_elements(x, t, before);
            assert forall|i: int, j: int| 0 <= i < j < r.len() implies !before(#[trigger] r[j], #[trigger] r[i]) by {
                if i == 0 {
                    assert(r[j] == inserted[j - 1]);
                    if inserted[j - 1] != x {
                        let k = choose|k: int| 0 <= k < t.len() && t[k] == inserted[j - 1];
                        assert(t[k] == s[k + 1]);
                    }
                } else {
                    assert(r[i] == inserted[i - 1] && r[j] == inserted[j - 1]);
                }
            }
        }
    }
}

proof fn lemma_insert_by_elements<A>(x: A, s: Seq<A>, before: spec_fn(A, A) -> bool)
    ensures
        forall|j: int|
            0 <= j < insert_by(x, s, before).len() ==> #[trigger] insert_by(x, s, before)[j] == x
                || exists|k: int| 0 <= k < s.len() && s[k] == insert_by(x, s, before)[j],
        insert_by(x, s, before).len() == s.len() + 1,
    decreases s.len(),
{
    if s.len() > 0 {
        if !before(x, s[0]) {
            let t = s.drop_first();
            lemma_insert_by_elements(x, t, before);
            let r = insert_by(x, s, before);
            assert forall|j: int| 0 <= j < r.len() implies #[trigger] r[j] == x || exists|k: int|
                0 <= k < s.len() && s[k] == r[j] by {
                if j == 0 {
                    assert(s[0] == r[0]);
                } else {
                    let inserted = insert_by(x, t, before);
                    assert(r[j] == inserted[j - 1]);
                    if inserted[j - 1] != x {
                        let k = choose|k: int| 0 <= k < t.len() && t[k] == inserted[j - 1];
                        assert(s[k + 1] == r[j]);
                    }
                }
            }
        } else {
            let r = insert_by(x, s, before);
            assert forall|j: int| 0 <= j < r.len() implies #[trigger] r[j] == x || exists|k: int|
                0 <= k < s.len() && s[k] == r[j] by {
                if j > 0 {
                    assert(s[j - 1] == r[j]);
                }
            }
        }
    }
}

/// Sorting by a strict order leaves no element ahead of one that goes before it.
pub proof fn lemma_sorted_by_in_order<A>(s: Seq<A>, before: spec_fn(A, A) -> bool)
    requires
        strict_order(before),
    ensures
        in_order(sorted_by(s, before), before),
    decreases s.len(),
{
    if s.len() > 0 {
        lemma_sorted_by_in_order(s.drop_last(), before);
        lemma_insert_by_in_order(s.last(), sorted_by(s.drop_last(), before), before);
    }
}

/// The run order is strict.
proof fn lemma_run_before_strict()
    ensures
        strict_order(run_before()),
{
    let b = run_before();
    assert forall|x: RunView, y: RunView| #[trigger] b(x, y) implies !b(y, x) by {
        lemma_chars_less_strict(x.label, y.label, y.label);
        lemma_chars_less_strict(x.id, y.id, y.id);
    }
    assert forall|x: RunView, y: RunView, z: RunView| #[trigger] b(x, y) && #[trigger] b(y, z) implies b(x, z) by {
        lemma_chars_less_strict(x.label, y.label, z.label);
        lemma_chars_less_strict(x.id, y.id, z.id);
    }
}

/// The order of agents within a repository is strict.
proof fn lemma_entry_before_strict(es: Seq<EntryView>)
    ensures
        strict_order(entry_before(es)),
{
    let b = entry_before(es);
    assert forall|x: usize, y: usize| #[trigger] b(x, y) implies !b(y, x) by {
        lemma_chars_less_strict(
            responsibility_of(es[x as int]),
            responsibility_of(es[y as int]),
            responsibility_of(es[y as int]),
        );
    }
    assert forall|x: usize, y: usize, z: usize| #[trigger] b(x, y) && #[trigger] b(y, z) implies b(x, z) by {
        lemma_chars_less_strict(
            responsibility_of(es[x as int]),
            responsibility_of(es[y as int]),
            responsibility_of(es[z as int]),
        );
    }
}

/// The run cards come in sidebar order: a run never follows one that it goes
/// before, that is, priority from highest to lowest, then label, then id.
pub proof fn law_runs_are_shown_in_priority_order(es: Seq<EntryView>)
    ensures
        in_order(sorted_by(runs_of(es), run_before()), run_before()),
{
    lemma_run_before_strict();
    lemma_sorted_by_in_order(runs_of(es), run_before());
}

/// The agents of a repository come in priority order (questions and blocked
/// agents first, then working, idle and done ones), then by responsibility.
pub proof fn law_agents_are_shown_in_priority_order(es: Seq<EntryView>, ms: Seq<usize>, repo: Seq<char>)
    ensures
        in_order(sorted_by(repository_members(es, ms, repo), entry_before(es)), entry_before(es)),
{
    lemma_entry_before_strict(es);
    lemma_sorted_by_in_order(repository_members(es, ms, repo), entry_before(es));
}

/// A run's card counts its agents by status: as working exactly those whose
/// status is `working`, as done exactly those whose status is `done`, and as
/// waiting every other one (a question, a blocked or idle agent, any other status).
pub proof fn law_run_counts_by_status(es: Seq<EntryView>, ms: Seq<usize>)
    ensures
        counts_of(es, ms).0 == ms.filter(|i: usize| status_of(es[i as int]) == "working"@).len(),
        counts_of(es, ms).2 == ms.filter(|i: usize| status_of(es[i as int]) == "done"@).len(),
        counts_of(es, ms).1 == ms.filter(
            |i: usize| status_of(es[i as int]) != "working"@ && status_of(es[i as int]) != "done"@,
        ).len(),
    decreases ms.len(),
{
    reveal(Seq::filter);
    reveal_strlit("working");
    reveal_strlit("done");
    assert("working"@ != "done"@) by {
        assert("working"@.len() != "done"@.len());
    }
    if ms.len() > 0 {
        law_run_counts_by_status(es, ms.drop_last());
    }
}

} // verus!
