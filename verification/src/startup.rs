//! Receipted startup is a two-phase operation: prepare, persist receipt,
//! submit once. The daemon keeps a ticket for every startup it prepared; this
//! module decides, from what the caller observed of panes, terminals and
//! processes, what each request may do with a ticket.
//!
//! Instants are readings of the monotonic clock in nanoseconds.
use vstd::prelude::*;

use crate::keyed::{
    filter_map_values, lemma_filter_map_empty, lemma_filter_map_insert, lemma_table_lookup,
    lemma_table_prefix_empty, lemma_table_prefix_full, lemma_table_prefix_step, lemma_table_push,
    lemma_to_map_dom, table, table_get, table_wf, view_pairs,
};
use crate::terminal_id::TerminalId;

verus! {

/// How long a closed ticket keeps its receipt proof: one day, in nanoseconds.
pub const CLOSED_TICKET_RETENTION_NANOS: u64 = 86_400_000_000_000;

/// The most preparation steps a startup may carry.
pub const MAX_PREPARATION_STEPS: usize = 32;

/// What the daemon hands out when it prepares a startup, and what every later
/// request must present unchanged.
pub struct StartupReceipt {
    pub ticket: String,
    pub pane_id: String,
    pub workspace_id: String,
    pub terminal_id: String,
    pub cwd: String,
    pub name: String,
    pub kind: String,
    pub timeout_ms: u64,
    pub shell_pid: u32,
    pub shell_lifetime: String,
}

/// A receipt with every text taken by its view.
pub struct ReceiptView {
    pub ticket: Seq<char>,
    pub pane_id: Seq<char>,
    pub workspace_id: Seq<char>,
    pub terminal_id: Seq<char>,
    pub cwd: Seq<char>,
    pub name: Seq<char>,
    pub kind: Seq<char>,
    pub timeout_ms: u64,
    pub shell_pid: u32,
    pub shell_lifetime: Seq<char>,
}

impl View for StartupReceipt {
    type V = ReceiptView;

    open spec fn view(&self) -> ReceiptView {
        ReceiptView {
            ticket: self.ticket@,
            pane_id: self.pane_id@,
            workspace_id: self.workspace_id@,
            terminal_id: self.terminal_id@,
            cwd: self.cwd@,
            name: self.name@,
            kind: self.kind@,
            timeout_ms: self.timeout_ms,
            shell_pid: self.shell_pid,
            shell_lifetime: self.shell_lifetime@,
        }
    }
}

impl StartupReceipt {
    /// Whether the two receipts are the same in every field.
    pub fn same_as(&self, other: &StartupReceipt) -> (r: bool)
        ensures
            r == (self@ == other@),
    {
        self.ticket == other.ticket && self.pane_id == other.pane_id && self.workspace_id
            == other.workspace_id && self.terminal_id == other.terminal_id && self.cwd
            == other.cwd && self.name == other.name && self.kind == other.kind && self.timeout_ms
            == other.timeout_ms && self.shell_pid == other.shell_pid && self.shell_lifetime
            == other.shell_lifetime
    }

    /// A copy of the receipt.
    pub fn duplicate(&self) -> (r: StartupReceipt)
        ensures
            r@ == self@,
    {
        StartupReceipt {
            ticket: self.ticket.clone(),
            pane_id: self.pane_id.clone(),
            workspace_id: self.workspace_id.clone(),
            terminal_id: self.terminal_id.clone(),
            cwd: self.cwd.clone(),
            name: self.name.clone(),
            kind: self.kind.clone(),
            timeout_ms: self.timeout_ms,
            shell_pid: self.shell_pid,
            shell_lifetime: self.shell_lifetime.clone(),
        }
    }
}

/// The agent start that a ticket submits once.
pub struct AgentStartParams {
    pub name: String,
    pub kind: String,
    pub pane_id: String,
    pub args: Vec<String>,
    pub timeout_ms: Option<u64>,
}

/// A start request with every text taken by its view.
pub struct StartView {
    pub name: Seq<char>,
    pub kind: Seq<char>,
    pub pane_id: Seq<char>,
    pub args: Seq<Seq<char>>,
    pub timeout_ms: Option<u64>,
}

/// Texts taken by their views.
pub open spec fn texts_view(v: Seq<String>) -> Seq<Seq<char>> {
    v.map_values(|s: String| s@)
}

impl View for AgentStartParams {
    type V = StartView;

    open spec fn view(&self) -> StartView {
        StartView {
            name: self.name@,
            kind: self.kind@,
            pane_id: self.pane_id@,
            args: texts_view(self.args@),
            timeout_ms: self.timeout_ms,
        }
    }
}

/// A copy of each text.
pub fn copy_texts(v: &Vec<String>) -> (r: Vec<String>)
    ensures
        texts_view(r@) == texts_view(v@),
{
    let mut out: Vec<String> = Vec::new();
    let mut i: usize = 0;
    while i < v.len()
        invariant
            i <= v.len(),
            texts_view(out@) == texts_view(v@.take(i as int)),
        decreases v.len() - i,
    {
        let ghost before = out@;
        out.push(v[i].clone());
        proof {
            assert(texts_view(out@) =~= texts_view(before).push(v@[i as int]@));
            assert(v@.take(i + 1) =~= v@.take(i as int).push(v@[i as int]));
            assert(texts_view(v@.take(i + 1)) =~= texts_view(v@.take(i as int)).push(v@[i as int]@));
        }
        i = i + 1;
    }
    assert(v@.take(v.len() as int) =~= v@);
    out
}

impl AgentStartParams {
    /// A copy of the request.
    pub fn duplicate(&self) -> (r: AgentStartParams)
        ensures
            r@ == self@,
    {
        AgentStartParams {
            name: self.name.clone(),
            kind: self.kind.clone(),
            pane_id: self.pane_id.clone(),
            args: copy_texts(&self.args),
            timeout_ms: self.timeout_ms,
        }
    }
}

/// The private, single-use launch files of a ticket: their directory (which
/// is the ticket) and the command that sources the launch script.
pub struct LaunchFiles {
    pub directory: String,
    pub source_command: String,
}

impl View for LaunchFiles {
    type V = (Seq<char>, Seq<char>);

    open spec fn view(&self) -> (Seq<char>, Seq<char>) {
        (self.directory@, self.source_command@)
    }
}

/// The daemon's record of one prepared startup.
pub struct StartupTicket {
    pub receipt: StartupReceipt,
    pub terminal_id: TerminalId,
    pub start: AgentStartParams,
    /// The launch files, until the terminal closes or cleanup completes.
    pub script: Option<LaunchFiles>,
    /// Whether the start was handed to the terminal; it is never handed twice.
    pub submitted: bool,
    pub closed_at: Option<u64>,
    pub cleanup_completed: bool,
}

/// A ticket with every part taken by its view.
pub struct TicketView {
    pub receipt: ReceiptView,
    pub terminal_id: Seq<char>,
    pub start: StartView,
    pub script: Option<(Seq<char>, Seq<char>)>,
    pub submitted: bool,
    pub closed_at: Option<u64>,
    pub cleanup_completed: bool,
}

impl View for StartupTicket {
    type V = TicketView;

    open spec fn view(&self) -> TicketView {
        TicketView {
            receipt: self.receipt@,
            terminal_id: self.terminal_id@,
            start: self.start@,
            script: match self.script {
                Some(s) => Some(s@),
                None => None,
            },
            submitted: self.submitted,
            closed_at: self.closed_at,
            cleanup_completed: self.cleanup_completed,
        }
    }
}

/// The tickets of the daemon, keyed by ticket.
pub struct StartupTickets {
    pub tickets: Vec<(String, StartupTicket)>,
}

impl View for StartupTickets {
    type V = Map<Seq<char>, TicketView>;

    open spec fn view(&self) -> Map<Seq<char>, TicketView> {
        table(self.tickets@)
    }
}

/// Whether a ticket closed at `closed_at` still holds its proof at `now`: it
/// is open, or less than a day has passed since it closed (no time has passed
/// when `now` is before the closing).
pub open spec fn retained(closed_at: Option<u64>, now: u64) -> bool {
    match closed_at {
        None => true,
        Some(closed) => now < closed || now - closed < CLOSED_TICKET_RETENTION_NANOS,
    }
}

/// Whether `closed_at` is still retained at `now`.
pub fn is_retained(closed_at: Option<u64>, now: u64) -> (r: bool)
    ensures
        r == retained(closed_at, now),
{
    match closed_at {
        None => true,
        Some(closed) => now < closed || now - closed < CLOSED_TICKET_RETENTION_NANOS,
    }
}

/// A ticket needs its issuing daemon: its cleanup has not completed and it still holds its proof.
pub open spec fn holds_daemon(t: TicketView, now: u64) -> bool {
    !t.cleanup_completed && retained(t.closed_at, now)
}

/// A ticket whose terminal closed at `now`: its launch files are gone.
pub open spec fn retired(t: TicketView, now: u64) -> TicketView {
    TicketView { script: None, closed_at: Some(now), ..t }
}

/// What expiry keeps of a ticket: the ticket, while it holds its proof.
pub open spec fn keep_retained(now: u64) -> spec_fn(TicketView) -> Option<TicketView> {
    |t: TicketView|
        if retained(t.closed_at, now) {
            Some(t)
        } else {
            None
        }
}

/// What expiry drops of a ticket: the ticket, once it no longer holds its proof.
pub open spec fn keep_expired(now: u64) -> spec_fn(TicketView) -> Option<TicketView> {
    |t: TicketView|
        if retained(t.closed_at, now) {
            None
        } else {
            Some(t)
        }
}

/// What closing terminal `terminal_id` at `now` makes of a ticket.
pub open spec fn retire_on(terminal_id: Seq<char>, now: u64) -> spec_fn(TicketView) -> Option<
    TicketView,
> {
    |t: TicketView|
        if t.terminal_id == terminal_id {
            Some(retired(t, now))
        } else {
            Some(t)
        }
}

/// The launch files that closing terminal `terminal_id` takes from a ticket.
pub open spec fn files_on(terminal_id: Seq<char>) -> spec_fn(TicketView) -> Option<
    (Seq<char>, Seq<char>),
> {
    |t: TicketView|
        if t.terminal_id == terminal_id {
            t.script
        } else {
            None
        }
}

impl StartupTickets {
    /// No tickets.
    pub fn new() -> (r: StartupTickets)
        ensures
            r.wf(),
            r@ == Map::<Seq<char>, TicketView>::empty(),
    {
        let r = StartupTickets { tickets: Vec::new() };
        proof {
            lemma_table_prefix_empty(r.tickets@);
            assert(r.tickets@.take(0) =~= r.tickets@);
        }
        r
    }

    /// Each ticket is stored once.
    pub open spec fn wf(&self) -> bool {
        table_wf(self.tickets@)
    }

    /// The ticket `ticket`, if the daemon holds it.
    pub fn get(&self, ticket: &str) -> (r: Option<&StartupTicket>)
        requires
            self.wf(),
        ensures
            r is Some == self@.dom().contains(ticket@),
            r matches Some(t) ==> t@ == self@[ticket@],
    {
        table_get(&self.tickets, ticket)
    }

    /// Whether some ticket still needs this daemon: its cleanup has not
    /// completed and it still holds its proof. Until tickets can be handed
    /// over, such a ticket keeps the issuing daemon alive.
    pub fn has_handoff_startup_hold(&self, now: u64) -> (r: bool)
        requires
            self.wf(),
        ensures
            r == exists|k: Seq<char>| #[trigger] self@.dom().contains(k) && holds_daemon(self@[k], now),
    {
        let mut i: usize = 0;
        while i < self.tickets.len()
            invariant
                i <= self.tickets.len(),
                self.wf(),
                forall|j: int| 0 <= j < i ==> !holds_daemon(#[trigger] self.tickets@[j].1@, now),
            decreases self.tickets.len() - i,
        {
            if !self.tickets[i].1.cleanup_completed && is_retained(self.tickets[i].1.closed_at, now) {
                proof {
                    lemma_table_lookup(self.tickets@, i as int);
                    assert(self@.dom().contains(self.tickets@[i as int].0@));
                }
                return true;
            }
            i = i + 1;
        }
        proof {
            assert forall|k: Seq<char>| #[trigger] self@.dom().contains(k) implies !holds_daemon(self@[k], now) by {
                let v = self.tickets@;
                lemma_to_map_dom(view_pairs(v), k);
                let j = choose|j: int| 0 <= j < view_pairs(v).len() && #[trigger] view_pairs(v)[j].0 == k;
                lemma_table_lookup(v, j);
            }
        }
        false
    }

    /// Whether some ticket belongs to terminal `terminal_id`.
    pub fn holds_terminal(&self, terminal_id: &TerminalId) -> (r: bool)
        requires
            self.wf(),
        ensures
            r == exists|k: Seq<char>| #[trigger] self@.dom().contains(k) && self@[k].terminal_id == terminal_id@,
    {
        let mut i: usize = 0;
        while i < self.tickets.len()
            invariant
                i <= self.tickets.len(),
                self.wf(),
                forall|j: int| 0 <= j < i ==> (#[trigger] self.tickets@[j].1@).terminal_id != terminal_id@,
            decreases self.tickets.len() - i,
        {
            if crate::text::str_equal(self.tickets[i].1.terminal_id.as_str(), terminal_id.as_str()) {
                proof {
                    lemma_table_lookup(self.tickets@, i as int);
                    assert(self@.dom().contains(self.tickets@[i as int].0@));
                }
                return true;
            }
            i = i + 1;
        }
        proof {
            assert forall|k: Seq<char>| #[trigger] self@.dom().contains(k) implies self@[k].terminal_id != terminal_id@ by {
                let v = self.tickets@;
                lemma_to_map_dom(view_pairs(v), k);
                let j = choose|j: int| 0 <= j < view_pairs(v).len() && #[trigger] view_pairs(v)[j].0 == k;
                lemma_table_lookup(v, j);
            }
        }
        false
    }

    /// Forgets every closed ticket that no longer holds its proof at `now`,
    /// and hands the forgotten tickets out (their launch files are the
    /// caller's to remove). Expiry only loses authority: an unknown ticket
    /// fails closed.
    pub fn expire_closed(&mut self, now: u64) -> (r: Vec<(String, StartupTicket)>)
        requires
            old(self).wf(),
        ensures
            final(self).wf(),
            final(self)@ == filter_map_values(old(self)@, keep_retained(now)),
            table_wf(r@),
            table(r@) == filter_map_values(old(self)@, keep_expired(now)),
    {
        let mut rest: Vec<(String, StartupTicket)> = Vec::new();
        std::mem::swap(&mut rest, &mut self.tickets);
        let ghost orig = rest@;
        let ghost keep = keep_retained(now);
        let ghost drop = keep_expired(now);
        let mut kept: Vec<(String, StartupTicket)> = Vec::new();
        let mut dropped: Vec<(String, StartupTicket)> = Vec::new();
        let ghost mut i: int = 0;
        proof {
            lemma_table_prefix_empty(orig);
            lemma_filter_map_empty(keep);
            lemma_filter_map_empty(drop);
            assert(view_pairs(kept@) =~= Seq::<(Seq<char>, TicketView)>::empty());
            assert(orig.skip(0) =~= orig);
        }
        while rest.len() > 0
            invariant
                0 <= i <= orig.len(),
                rest@ == orig.skip(i),
                table_wf(orig),
                table_wf(kept@),
                table_wf(dropped@),
                keep == keep_retained(now),
                drop == keep_expired(now),
                table(kept@) == filter_map_values(table(orig.take(i)), keep),
                table(dropped@) == filter_map_values(table(orig.take(i)), drop),
            decreases rest.len(),
        {
            proof {
                lemma_table_prefix_step(orig, i);
                lemma_filter_map_insert(table(orig.take(i)), orig[i].0@, orig[i].1@, keep);
                lemma_filter_map_insert(table(orig.take(i)), orig[i].0@, orig[i].1@, drop);
            }
            let e = rest.remove(0);
            proof {
                assert(e == orig[i]);
                assert(orig.skip(i).remove(0) =~= orig.skip(i + 1));
            }
            if is_retained(e.1.closed_at, now) {
                proof {
                    lemma_table_push(kept@, e);
                }
                kept.push(e);
            } else {
                proof {
                    lemma_table_push(dropped@, e);
                }
                dropped.push(e);
            }
            proof {
                i = i + 1;
            }
        }
        proof {
            assert(i == orig.len());
            lemma_table_prefix_full(orig);
        }
        self.tickets = kept;
        dropped
    }

    /// Terminal `terminal_id` closed at `now`: each of its tickets loses its
    /// launch files and is closed. Hands out the files taken, keyed by ticket
    /// (they are the caller's to remove).
    pub fn retire_startup_files(&mut self, terminal_id: &TerminalId, now: u64) -> (r: Vec<
        (String, LaunchFiles),
    >)
        requires
            old(self).wf(),
        ensures
            final(self).wf(),
            final(self)@ == filter_map_values(old(self)@, retire_on(terminal_id@, now)),
            table_wf(r@),
            table(r@) == filter_map_values(old(self)@, files_on(terminal_id@)),
    {
        let mut rest: Vec<(String, StartupTicket)> = Vec::new();
        std::mem::swap(&mut rest, &mut self.tickets);
        let ghost orig = rest@;
        let ghost keep = retire_on(terminal_id@, now);
        let ghost take = files_on(terminal_id@);
        let mut kept: Vec<(String, StartupTicket)> = Vec::new();
        let mut files: Vec<(String, LaunchFiles)> = Vec::new();
        let ghost mut i: int = 0;
        proof {
            lemma_table_prefix_empty(orig);
            lemma_filter_map_empty(keep);
            lemma_filter_map_empty(take);
            assert(view_pairs(kept@) =~= Seq::<(Seq<char>, TicketView)>::empty());
            assert(view_pairs(files@) =~= Seq::<(Seq<char>, (Seq<char>, Seq<char>))>::empty());
            assert(orig.skip(0) =~= orig);
        }
        while rest.len() > 0
            invariant
                0 <= i <= orig.len(),
                rest@ == orig.skip(i),
                table_wf(orig),
                table_wf(kept@),
                table_wf(files@),
                keep == retire_on(terminal_id@, now),
                take == files_on(terminal_id@),
                table(kept@) == filter_map_values(table(orig.take(i)), keep),
                table(files@) == filter_map_values(table(orig.take(i)), take),
            decreases rest.len(),
        {
            proof {
                lemma_table_prefix_step(orig, i);
                lemma_filter_map_insert(table(orig.take(i)), orig[i].0@, orig[i].1@, keep);
                lemma_filter_map_insert(table(orig.take(i)), orig[i].0@, orig[i].1@, take);
            }
            let e = rest.remove(0);
            proof {
                assert(e == orig[i]);
                assert(orig.skip(i).remove(0) =~= orig.skip(i + 1));
            }
            let (key, mut ticket) = e;
            if crate::text::str_equal(ticket.terminal_id.as_str(), terminal_id.as_str()) {
                let taken = ticket.script.take();
                ticket.closed_at = Some(now);
                match taken {
                    Some(f) => {
                        let fe = (key.clone(), f);
                        proof {
                            lemma_table_push(files@, fe);
                        }
                        files.push(fe);
                    },
                    None => {},
                }
            }
            let ke = (key, ticket);
            proof {
                lemma_table_push(kept@, ke);
            }
            kept.push(ke);
            proof {
                i = i + 1;
            }
        }
        proof {
            lemma_table_prefix_full(orig);
        }
        self.tickets = kept;
        files
    }

    /// Opens a startup request at `now`. Inspection never changes the
    /// tickets; every other request first forgets the closed tickets that no
    /// longer hold their proof (handed out: their launch files are the
    /// caller's to remove).
    pub fn begin_request(&mut self, inspection: bool, now: u64) -> (r: Vec<(String, StartupTicket)>)
        requires
            old(self).wf(),
        ensures
            final(self).wf(),
            inspection ==> final(self)@ == old(self)@ && r@.len() == 0,
            !inspection ==> final(self)@ == filter_map_values(old(self)@, keep_retained(now))
                && table_wf(r@) && table(r@) == filter_map_values(old(self)@, keep_expired(now)),
    {
        if inspection {
            Vec::new()
        } else {
            self.expire_closed(now)
        }
    }

    /// Stores `ticket` under its receipt's ticket.
    fn insert(&mut self, ticket: StartupTicket)
        requires
            old(self).wf(),
        ensures
            final(self).wf(),
            final(self)@ == old(self)@.insert(ticket.receipt.ticket@, ticket@),
    {
        let key = ticket.receipt.ticket.clone();
        crate::keyed::table_insert(&mut self.tickets, key, ticket);
    }

    /// Records whether the start of ticket `ticket` was handed to its terminal.
    pub fn record_submission(&mut self, ticket: &str, submitted: bool)
        requires
            old(self).wf(),
        ensures
            final(self).wf(),
            final(self)@ == if old(self)@.dom().contains(ticket@) {
                old(self)@.insert(ticket@, TicketView { submitted, ..old(self)@[ticket@] })
            } else {
                old(self)@
            },
    {
        let ghost before = self@;
        match crate::keyed::table_take(&mut self.tickets, ticket) {
            Some((key, mut t)) => {
                t.submitted = submitted;
                crate::keyed::table_insert(&mut self.tickets, key, t);
                proof {
                    assert(self@ =~= before.insert(ticket@, TicketView { submitted, ..before[ticket@] }));
                }
            },
            None => {
                proof {
                    assert(self@ =~= before);
                }
            },
        }
    }

    /// Cleanup of ticket `ticket` completed at `now`: the ticket loses its
    /// launch files (handed out, for the caller to remove), is closed, and
    /// remembers that cleanup completed.
    pub fn complete_cleanup(&mut self, ticket: &str, now: u64) -> (r: Option<LaunchFiles>)
        requires
            old(self).wf(),
        ensures
            final(self).wf(),
            final(self)@ == if old(self)@.dom().contains(ticket@) {
                old(self)@.insert(
                    ticket@,
                    TicketView { cleanup_completed: true, ..retired(old(self)@[ticket@], now) },
                )
            } else {
                old(self)@
            },
            match r {
                Some(f) => old(self)@.dom().contains(ticket@) && old(self)@[ticket@].script == Some(f@),
                None => !old(self)@.dom().contains(ticket@) || old(self)@[ticket@].script is None,
            },
    {
        let ghost before = self@;
        match crate::keyed::table_take(&mut self.tickets, ticket) {
            Some((key, mut t)) => {
                let files = t.script.take();
                t.closed_at = Some(now);
                t.cleanup_completed = true;
                crate::keyed::table_insert(&mut self.tickets, key, t);
                proof {
                    assert(self@ =~= before.insert(
                        ticket@,
                        TicketView { cleanup_completed: true, ..retired(before[ticket@], now) },
                    ));
                }
                files
            },
            None => {
                proof {
                    assert(self@ =~= before);
                }
                None
            },
        }
    }
}

/// Why a startup request was refused.
#[derive(Debug, Clone, Copy, PartialEq, Eq, Structural)]
pub enum StartupErrorCode {
    TicketUnknown,
    OwnershipMismatch,
    AlreadySubmitted,
    TerminalClosed,
    ExecutionUncertain,
    InvalidRequest,
    AgentNameTaken,
    PaneNotFound,
    IdentityUnavailable,
    AgentPaneBusy,
    ScriptFailed,
}

/// A startup error code as the protocol writes it.
pub open spec fn code_text(code: StartupErrorCode) -> Seq<char> {
    match code {
        StartupErrorCode::TicketUnknown => "startup_ticket_unknown"@,
        StartupErrorCode::OwnershipMismatch => "startup_ownership_mismatch"@,
        StartupErrorCode::AlreadySubmitted => "startup_already_submitted"@,
        StartupErrorCode::TerminalClosed => "startup_terminal_closed"@,
        StartupErrorCode::ExecutionUncertain => "startup_execution_uncertain"@,
        StartupErrorCode::InvalidRequest => "startup_invalid_request"@,
        StartupErrorCode::AgentNameTaken => "agent_name_taken"@,
        StartupErrorCode::PaneNotFound => "pane_not_found"@,
        StartupErrorCode::IdentityUnavailable => "startup_identity_unavailable"@,
        StartupErrorCode::AgentPaneBusy => "agent_pane_busy"@,
        StartupErrorCode::ScriptFailed => "startup_script_failed"@,
    }
}

/// A startup state as the protocol writes it.
pub open spec fn state_text(state: StartupState) -> Seq<char> {
    match state {
        StartupState::Prepared => "prepared"@,
        StartupState::Submitted => "submitted"@,
        StartupState::Finished => "finished"@,
        StartupState::Closed => "closed"@,
        StartupState::Cleaned => "cleaned"@,
    }
}

impl StartupErrorCode {
    /// The code as the protocol writes it.
    pub fn as_str(&self) -> (r: &'static str)
        ensures
            r@ == code_text(*self),
    {
        match self {
            StartupErrorCode::TicketUnknown => "startup_ticket_unknown",
            StartupErrorCode::OwnershipMismatch => "startup_ownership_mismatch",
            StartupErrorCode::AlreadySubmitted => "startup_already_submitted",
            StartupErrorCode::TerminalClosed => "startup_terminal_closed",
            StartupErrorCode::ExecutionUncertain => "startup_execution_uncertain",
            StartupErrorCode::InvalidRequest => "startup_invalid_request",
            StartupErrorCode::AgentNameTaken => "agent_name_taken",
            StartupErrorCode::PaneNotFound => "pane_not_found",
            StartupErrorCode::IdentityUnavailable => "startup_identity_unavailable",
            StartupErrorCode::AgentPaneBusy => "agent_pane_busy",
            StartupErrorCode::ScriptFailed => "startup_script_failed",
        }
    }
}

/// A refused startup request: its code and message.
pub struct StartupError {
    pub code: StartupErrorCode,
    pub message: String,
}

impl View for StartupError {
    type V = (StartupErrorCode, Seq<char>);

    open spec fn view(&self) -> (StartupErrorCode, Seq<char>) {
        (self.code, self.message@)
    }
}

fn startup_error(code: StartupErrorCode, message: &str) -> (r: StartupError)
    ensures
        r@ == (code, message@),
{
    StartupError { code, message: crate::text::owned(message) }
}

/// Where a startup stands, as inspection and cleanup report it.
#[derive(Debug, Clone, Copy, PartialEq, Eq, Structural)]
pub enum StartupState {
    Prepared,
    Submitted,
    Finished,
    Closed,
    Cleaned,
}

impl StartupState {
    /// The state as the protocol writes it.
    pub fn as_str(&self) -> (r: &'static str)
        ensures
            r@ == state_text(*self),
    {
        match self {
            StartupState::Prepared => "prepared",
            StartupState::Submitted => "submitted",
            StartupState::Finished => "finished",
            StartupState::Closed => "closed",
            StartupState::Cleaned => "cleaned",
        }
    }
}

/// An agent of the daemon: its name, if it has one, and its terminal.
pub struct AgentBinding {
    pub name: Option<String>,
    pub terminal_id: String,
}

/// The live pane that a receipt's public pane id names.
pub struct PaneFacts {
    /// The public id of the pane's workspace.
    pub workspace_id: String,
    /// The terminal attached to the pane, if any.
    pub terminal_id: Option<TerminalId>,
}

/// What the daemon records of a ticket's terminal.
pub struct TerminalFacts {
    pub agent_name: Option<String>,
    pub persisted_agent_session: bool,
    /// An agent other than the ticket's kind is detected or recorded in the terminal.
    pub foreign_agent: bool,
}

/// What the caller observed, at the time of a request, of the ticket that
/// the receipt names and of the world around it.
pub struct StartupObservation {
    /// Every agent of the daemon.
    pub agents: Vec<AgentBinding>,
    /// The live pane that the receipt's pane id names, if there is one.
    pub pane: Option<PaneFacts>,
    /// The ticket's terminal has a runtime.
    pub runtime_present: bool,
    /// The child process of that runtime, if it has one.
    pub runtime_pid: Option<u32>,
    /// The runtime's shell is idle and available.
    pub shell_available: bool,
    /// The lifetime identity of the receipt's shell process, if it can be read.
    pub shell_lifetime: Option<String>,
    /// The live working directory of the receipt's shell is the receipt's (as paths).
    pub shell_cwd_matches: bool,
    /// The daemon's record of the ticket's terminal, if it has one.
    pub terminal: Option<TerminalFacts>,
    /// The processes of the session of the receipt's shell.
    pub session_processes: Vec<u32>,
    /// Some pane of some workspace is attached to the ticket's terminal.
    pub terminal_attached: bool,
    /// A process with the receipt's shell pid exists.
    pub process_exists: bool,
    /// The ticket's launch script reports that it finished.
    pub script_finished: bool,
}

/// An observation with every text taken by its view.
pub struct ObservationView {
    pub agents: Seq<(Option<Seq<char>>, Seq<char>)>,
    pub pane: Option<(Seq<char>, Option<Seq<char>>)>,
    pub runtime_present: bool,
    pub runtime_pid: Option<u32>,
    pub shell_available: bool,
    pub shell_lifetime: Option<Seq<char>>,
    pub shell_cwd_matches: bool,
    pub terminal: Option<(Option<Seq<char>>, bool, bool)>,
    pub session_processes: Seq<u32>,
    pub terminal_attached: bool,
    pub process_exists: bool,
    pub script_finished: bool,
}

/// An optional text taken by its view.
pub open spec fn opt_view(o: Option<String>) -> Option<Seq<char>> {
    match o {
        Some(s) => Some(s@),
        None => None,
    }
}

/// Agents taken by their views.
pub open spec fn agents_view(v: Seq<AgentBinding>) -> Seq<(Option<Seq<char>>, Seq<char>)> {
    v.map_values(|a: AgentBinding| (opt_view(a.name), a.terminal_id@))
}

impl View for StartupObservation {
    type V = ObservationView;

    open spec fn view(&self) -> ObservationView {
        ObservationView {
            agents: agents_view(self.agents@),
            pane: match self.pane {
                Some(p) => Some(
                    (
                        p.workspace_id@,
                        match p.terminal_id {
                            Some(t) => Some(t@),
                            None => None,
                        },
                    ),
                ),
                None => None,
            },
            runtime_present: self.runtime_present,
            runtime_pid: self.runtime_pid,
            shell_available: self.shell_available,
            shell_lifetime: opt_view(self.shell_lifetime),
            shell_cwd_matches: self.shell_cwd_matches,
            terminal: match self.terminal {
                Some(t) => Some((opt_view(t.agent_name), t.persisted_agent_session, t.foreign_agent)),
                None => None,
            },
            session_processes: self.session_processes@,
            terminal_attached: self.terminal_attached,
            process_exists: self.process_exists,
            script_finished: self.script_finished,
        }
    }
}

/// Another terminal's agent has taken the name `name`.
pub open spec fn name_rebound(
    agents: Seq<(Option<Seq<char>>, Seq<char>)>,
    name: Seq<char>,
    terminal_id: Seq<char>,
) -> bool {
    exists|i: int| 0 <= i < agents.len() && #[trigger] agents[i].0 == Some(name) && agents[i].1 != terminal_id
}

/// The ticket's pane, workspace, terminal and shell are still the ones it was
/// prepared in: the pane is live in the receipt's workspace and attached to
/// the ticket's terminal, whose runtime's child is the receipt's shell with
/// its original lifetime (a reused pid has another lifetime).
pub open spec fn location_matches(t: TicketView, o: ObservationView) -> bool {
    match o.pane {
        None => false,
        Some(p) => {
            &&& p.1 == Some(t.terminal_id)
            &&& p.0 == t.receipt.workspace_id
            &&& o.runtime_pid == Some(t.receipt.shell_pid)
            &&& o.shell_lifetime == Some(t.receipt.shell_lifetime)
        },
    }
}

/// The ticket's terminal runs only its original shell: the location matches,
/// the terminal carries no agent session, no other agent and no other
/// agent name, its shell is available, and the shell's whole session is the
/// shell alone (background agents must not be killed either).
pub open spec fn shell_only(t: TicketView, o: ObservationView) -> bool {
    &&& location_matches(t, o)
    &&& match o.terminal {
        None => false,
        Some(f) => !f.1 && !f.2 && (f.0 matches Some(n) ==> n == t.receipt.name),
    }
    &&& o.runtime_present
    &&& o.shell_available
    &&& o.session_processes == seq![t.receipt.shell_pid]
}

/// The ticket's terminal is unknown, or bound to an agent of another name.
pub open spec fn terminal_claimed_elsewhere(o: ObservationView, name: Seq<char>) -> bool {
    match o.terminal {
        None => true,
        Some(f) => f.0 matches Some(n) && n != name,
    }
}

/// The ticket's launch script exists and reports that it finished.
pub open spec fn script_done(t: TicketView, o: ObservationView) -> bool {
    t.script is Some && o.script_finished
}

/// What inspecting `receipt` at `now` answers. Inspection only observes: it
/// never changes a ticket, submits input or adopts a process.
pub open spec fn inspect_outcome(
    tickets: Map<Seq<char>, TicketView>,
    receipt: ReceiptView,
    o: ObservationView,
    now: u64,
) -> Result<StartupState, (StartupErrorCode, Seq<char>)> {
    let mismatch = Err((StartupErrorCode::OwnershipMismatch, "original startup identity is not proven"@));
    if !tickets.dom().contains(receipt.ticket) || !retained(tickets[receipt.ticket].closed_at, now) {
        Err((StartupErrorCode::TicketUnknown, "original daemon ticket unavailable; retain ownership hold"@))
    } else {
        let t = tickets[receipt.ticket];
        if t.receipt != receipt || name_rebound(o.agents, receipt.name, receipt.terminal_id) {
            mismatch
        } else if o.pane is Some {
            if !location_matches(t, o) || !o.shell_cwd_matches || terminal_claimed_elsewhere(
                o,
                receipt.name,
            ) {
                mismatch
            } else if !t.submitted {
                if shell_only(t, o) {
                    Ok(StartupState::Prepared)
                } else {
                    mismatch
                }
            } else if script_done(t, o) {
                if shell_only(t, o) {
                    Ok(StartupState::Finished)
                } else {
                    mismatch
                }
            } else {
                Ok(StartupState::Submitted)
            }
        } else if t.closed_at is None || o.terminal_attached || o.runtime_present
            || o.process_exists {
            mismatch
        } else {
            Ok(StartupState::Closed)
        }
    }
}

/// What a launch of `receipt` may do: hand the ticket's start and source
/// command to the terminal, answer with the start's timeout error (`None`),
/// or nothing at all.
pub open spec fn launch_outcome(
    tickets: Map<Seq<char>, TicketView>,
    receipt: ReceiptView,
    o: ObservationView,
    timeout_valid: bool,
) -> Result<Option<(StartView, Seq<char>)>, (StartupErrorCode, Seq<char>)> {
    if !tickets.dom().contains(receipt.ticket) {
        Err((StartupErrorCode::TicketUnknown, "ticket is unknown to this daemon; no input sent"@))
    } else {
        let t = tickets[receipt.ticket];
        if t.receipt != receipt || !location_matches(t, o) {
            Err((StartupErrorCode::OwnershipMismatch, "startup terminal or shell lifetime changed"@))
        } else if t.submitted {
            Err(
                (
                    StartupErrorCode::AlreadySubmitted,
                    "startup input was already submitted; never resend after timeout"@,
                ),
            )
        } else if !timeout_valid {
            Ok(None)
        } else {
            match t.script {
                None => Err((StartupErrorCode::TerminalClosed, "startup terminal has already closed"@)),
                Some(files) => Ok(Some((t.start, files.1))),
            }
        }
    }
}

/// What cleanup of a ticket must do once it is allowed.
#[derive(Debug, Clone, Copy, PartialEq, Eq, Structural)]
pub enum CleanupStep {
    /// Cleanup completed before: report it again, never close anything again.
    AlreadyCleaned,
    /// The pane is gone and so is its shell: only the ticket is to be completed.
    Forget,
    /// Close the receipt's pane, then complete the ticket.
    ClosePane,
}

/// What cleanup of `receipt` may do, given what was observed (`o`) and the
/// shell-only evidence observed again right before closing (`fresh`).
pub open spec fn cleanup_outcome(
    tickets: Map<Seq<char>, TicketView>,
    receipt: ReceiptView,
    o: ObservationView,
    fresh: ObservationView,
) -> Result<CleanupStep, (StartupErrorCode, Seq<char>)> {
    if !tickets.dom().contains(receipt.ticket) {
        Err(
            (
                StartupErrorCode::TicketUnknown,
                "legacy, expired or unknown startup ticket; cleanup refused"@,
            ),
        )
    } else {
        let t = tickets[receipt.ticket];
        if t.receipt != receipt {
            Err((StartupErrorCode::OwnershipMismatch, "receipt does not match daemon ticket"@))
        } else if name_rebound(o.agents, receipt.name, receipt.terminal_id) {
            Err((StartupErrorCode::OwnershipMismatch, "startup name has rebound"@))
        } else if t.cleanup_completed {
            Ok(CleanupStep::AlreadyCleaned)
        } else if o.pane is None {
            if o.terminal_attached || o.runtime_present || o.process_exists {
                Err(
                    (
                        StartupErrorCode::OwnershipMismatch,
                        "terminal moved or shell PID is still present; cleanup refused"@,
                    ),
                )
            } else {
                Ok(CleanupStep::Forget)
            }
        } else if t.submitted && !script_done(t, o) {
            Err(
                (
                    StartupErrorCode::ExecutionUncertain,
                    "startup has not acknowledged returning; cleanup refused"@,
                ),
            )
        } else if !shell_only(t, o) || !shell_only(t, fresh) {
            Err(
                (
                    StartupErrorCode::OwnershipMismatch,
                    "fresh shell-only ownership evidence unavailable; cleanup refused"@,
                ),
            )
        } else {
            Ok(CleanupStep::ClosePane)
        }
    }
}

/// What a launch is to do.
pub enum LaunchStep {
    /// Answer with the start error of the ticket's timeout; nothing is sent.
    RejectTimeout,
    /// Start the agent by typing `source_command` into the terminal, once.
    Start { start: AgentStartParams, source_command: String },
}

fn name_is_rebound(agents: &Vec<AgentBinding>, name: &String, terminal_id: &String) -> (r: bool)
    ensures
        r == name_rebound(agents_view(agents@), name@, terminal_id@),
{
    let ghost v = agents_view(agents@);
    let mut i: usize = 0;
    while i < agents.len()
        invariant
            i <= agents.len(),
            v == agents_view(agents@),
            forall|j: int| 0 <= j < i ==> !(#[trigger] v[j].0 == Some(name@) && v[j].1 != terminal_id@),
        decreases agents.len() - i,
    {
        let hit = match &agents[i].name {
            Some(n) => *n == *name && agents[i].terminal_id != *terminal_id,
            None => false,
        };
        if hit {
            assert(v[i as int].0 == Some(name@) && v[i as int].1 != terminal_id@);
            return true;
        }
        assert(!(v[i as int].0 == Some(name@) && v[i as int].1 != terminal_id@));
        i = i + 1;
    }
    false
}

fn pids_equal(a: &Vec<u32>, b: u32) -> (r: bool)
    ensures
        r == (a@ == seq![b]),
{
    if a.len() != 1 {
        proof {
            if a@ == seq![b] {
                assert(a@.len() == 1);
            }
        }
        false
    } else {
        proof {
            if a[0] == b {
                assert(a@ =~= seq![b]);
            }
        }
        a[0] == b
    }
}

fn opt_text_equal(a: &Option<String>, b: &String) -> (r: bool)
    ensures
        r == (opt_view(*a) == Some(b@)),
{
    match a {
        Some(x) => *x == *b,
        None => false,
    }
}

fn startup_location_matches(t: &StartupTicket, o: &StartupObservation) -> (r: bool)
    ensures
        r == location_matches(t@, o@),
{
    match &o.pane {
        None => false,
        Some(p) => {
            let attached = match &p.terminal_id {
                Some(id) => crate::text::str_equal(id.as_str(), t.terminal_id.as_str()),
                None => false,
            };
            let pid = match o.runtime_pid {
                Some(pid) => pid == t.receipt.shell_pid,
                None => false,
            };
            attached && p.workspace_id == t.receipt.workspace_id && pid && opt_text_equal(
                &o.shell_lifetime,
                &t.receipt.shell_lifetime,
            )
        },
    }
}

fn startup_shell_only(t: &StartupTicket, o: &StartupObservation) -> (r: bool)
    ensures
        r == shell_only(t@, o@),
{
    if !startup_location_matches(t, o) {
        return false;
    }
    let terminal_ok = match &o.terminal {
        None => false,
        Some(f) => !f.persisted_agent_session && !f.foreign_agent && match &f.agent_name {
            Some(n) => *n == t.receipt.name,
            None => true,
        },
    };
    terminal_ok && o.runtime_present && o.shell_available && pids_equal(
        &o.session_processes,
        t.receipt.shell_pid,
    )
}

fn claimed_elsewhere(o: &StartupObservation, name: &String) -> (r: bool)
    ensures
        r == terminal_claimed_elsewhere(o@, name@),
{
    match &o.terminal {
        None => true,
        Some(f) => match &f.agent_name {
            Some(n) => *n != *name,
            None => false,
        },
    }
}

impl StartupTickets {
    /// Inspects the startup of `receipt` at `now`, given what the caller
    /// observed. Only observes: the tickets are not changed.
    pub fn inspect_startup(&self, receipt: &StartupReceipt, o: &StartupObservation, now: u64) -> (r: Result<
        StartupState,
        StartupError,
    >)
        requires
            self.wf(),
        ensures
            match inspect_outcome(self@, receipt@, o@, now) {
                Ok(state) => r == Ok::<StartupState, StartupError>(state),
                Err(e) => r matches Err(x) && x@ == e,
            },
    {
        let ticket = match self.get(receipt.ticket.as_str()) {
            Some(t) => t,
            None => {
                return Err(
                    startup_error(
                        StartupErrorCode::TicketUnknown,
                        "original daemon ticket unavailable; retain ownership hold",
                    ),
                );
            },
        };
        if !is_retained(ticket.closed_at, now) {
            return Err(
                startup_error(
                    StartupErrorCode::TicketUnknown,
                    "original daemon ticket unavailable; retain ownership hold",
                ),
            );
        }
        let mismatch_message = "original startup identity is not proven";
        if !ticket.receipt.same_as(receipt) || name_is_rebound(
            &o.agents,
            &receipt.name,
            &receipt.terminal_id,
        ) {
            return Err(startup_error(StartupErrorCode::OwnershipMismatch, mismatch_message));
        }
        let state = if o.pane.is_some() {
            if !startup_location_matches(ticket, o) || !o.shell_cwd_matches || claimed_elsewhere(
                o,
                &receipt.name,
            ) {
                return Err(startup_error(StartupErrorCode::OwnershipMismatch, mismatch_message));
            }
            if !ticket.submitted {
                if !startup_shell_only(ticket, o) {
                    return Err(startup_error(StartupErrorCode::OwnershipMismatch, mismatch_message));
                }
                StartupState::Prepared
            } else if ticket.script.is_some() && o.script_finished {
                if !startup_shell_only(ticket, o) {
                    return Err(startup_error(StartupErrorCode::OwnershipMismatch, mismatch_message));
                }
                StartupState::Finished
            } else {
                StartupState::Submitted
            }
        } else {
            if ticket.closed_at.is_none() || o.terminal_attached || o.runtime_present
                || o.process_exists {
                return Err(startup_error(StartupErrorCode::OwnershipMismatch, mismatch_message));
            }
            StartupState::Closed
        };
        Ok(state)
    }

    /// Decides a launch of `receipt`, given what the caller observed and
    /// whether the ticket's start timeout is valid. On `Start`, the caller
    /// starts the agent once and records with `record_submission` whether the
    /// input was handed over; an unknown or failed transport never
    /// authorizes a second send.
    pub fn launch_startup(&self, receipt: &StartupReceipt, o: &StartupObservation, timeout_valid: bool) -> (r:
        Result<LaunchStep, StartupError>)
        requires
            self.wf(),
        ensures
            match launch_outcome(self@, receipt@, o@, timeout_valid) {
                Ok(None) => r matches Ok(LaunchStep::RejectTimeout),
                Ok(Some((start, command))) => r matches Ok(LaunchStep::Start { start: s, source_command: c })
                    && s@ == start && c@ == command,
                Err(e) => r matches Err(x) && x@ == e,
            },
    {
        let ticket = match self.get(receipt.ticket.as_str()) {
            Some(t) => t,
            None => {
                return Err(
                    startup_error(
                        StartupErrorCode::TicketUnknown,
                        "ticket is unknown to this daemon; no input sent",
                    ),
                );
            },
        };
        if !ticket.receipt.same_as(receipt) || !startup_location_matches(ticket, o) {
            return Err(
                startup_error(
                    StartupErrorCode::OwnershipMismatch,
                    "startup terminal or shell lifetime changed",
                ),
            );
        }
        if ticket.submitted {
            return Err(
                startup_error(
                    StartupErrorCode::AlreadySubmitted,
                    "startup input was already submitted; never resend after timeout",
                ),
            );
        }
        if !timeout_valid {
            return Ok(LaunchStep::RejectTimeout);
        }
        match &ticket.script {
            None => Err(
                startup_error(StartupErrorCode::TerminalClosed, "startup terminal has already closed"),
            ),
            Some(files) => Ok(
                LaunchStep::Start {
                    start: ticket.start.duplicate(),
                    source_command: files.source_command.clone(),
                },
            ),
        }
    }

    /// Decides a cleanup of `receipt`, given what the caller observed (`o`)
    /// and the shell-only evidence it observed again just before closing
    /// (`fresh`): both must show the original shell alone. After
    /// `ClosePane` succeeded, or on `Forget`, the caller completes the ticket
    /// with `complete_cleanup`; the original receipt, never a name or cwd
    /// lookup, selects the pane.
    pub fn cleanup_startup(
        &self,
        receipt: &StartupReceipt,
        o: &StartupObservation,
        fresh: &StartupObservation,
    ) -> (r: Result<CleanupStep, StartupError>)
        requires
            self.wf(),
        ensures
            match cleanup_outcome(self@, receipt@, o@, fresh@) {
                Ok(step) => r == Ok::<CleanupStep, StartupError>(step),
                Err(e) => r matches Err(x) && x@ == e,
            },
    {
        let ticket = match self.get(receipt.ticket.as_str()) {
            Some(t) => t,
            None => {
                return Err(
                    startup_error(
                        StartupErrorCode::TicketUnknown,
                        "legacy, expired or unknown startup ticket; cleanup refused",
                    ),
                );
            },
        };
        if !ticket.receipt.same_as(receipt) {
            return Err(
                startup_error(StartupErrorCode::OwnershipMismatch, "receipt does not match daemon ticket"),
            );
        }
        if name_is_rebound(&o.agents, &receipt.name, &receipt.terminal_id) {
            return Err(startup_error(StartupErrorCode::OwnershipMismatch, "startup name has rebound"));
        }
        if ticket.cleanup_completed {
            return Ok(CleanupStep::AlreadyCleaned);
        }
        if o.pane.is_none() {
            if o.terminal_attached || o.runtime_present || o.process_exists {
                return Err(
                    startup_error(
                        StartupErrorCode::OwnershipMismatch,
                        "terminal moved or shell PID is still present; cleanup refused",
                    ),
                );
            }
            return Ok(CleanupStep::Forget);
        }
        if ticket.submitted && !(ticket.script.is_some() && o.script_finished) {
            return Err(
                startup_error(
                    StartupErrorCode::ExecutionUncertain,
                    "startup has not acknowledged returning; cleanup refused",
                ),
            );
        }
        if !startup_shell_only(ticket, o) || !startup_shell_only(ticket, fresh) {
            return Err(
                startup_error(
                    StartupErrorCode::OwnershipMismatch,
                    "fresh shell-only ownership evidence unavailable; cleanup refused",
                ),
            );
        }
        Ok(CleanupStep::ClosePane)
    }
}

/// What the caller found of the pane that a start names.
pub struct PaneInfo {
    pub pane_id: String,
    pub workspace_id: String,
    pub terminal_id: String,
    /// The pane's working directory, when it is known.
    pub cwd: Option<String>,
}

/// The runtime of the pane's terminal: its child process, that process's
/// lifetime identity, and the name of its shell while the shell is idle.
pub struct ShellRuntime {
    pub child_pid: Option<u32>,
    pub shell_lifetime: Option<String>,
    pub shell: Option<String>,
}

/// The live pane that a start names, as the caller found it.
pub struct PrepareTarget {
    pub info: Option<PaneInfo>,
    pub terminal_id: Option<TerminalId>,
    /// `None`: the terminal has no record; else whether it already runs or manages an agent.
    pub terminal_has_agent: Option<bool>,
    pub runtime: Option<ShellRuntime>,
}

/// What the caller observed for a prepare request.
pub struct PrepareObservation {
    /// The start's timeout in milliseconds, when it is valid.
    pub timeout_ms: Option<u64>,
    /// The protocol label of the start's agent kind, when the kind is known.
    pub kind_label: Option<String>,
    /// The start's name is a valid agent name.
    pub name_valid: bool,
    /// Every agent of the daemon.
    pub agents: Vec<AgentBinding>,
    /// The live pane that the start names, if there is one.
    pub target: Option<PrepareTarget>,
}

/// Pane facts with every text taken by its view.
pub struct PaneInfoView {
    pub pane_id: Seq<char>,
    pub workspace_id: Seq<char>,
    pub terminal_id: Seq<char>,
    pub cwd: Option<Seq<char>>,
}

impl View for PaneInfo {
    type V = PaneInfoView;

    open spec fn view(&self) -> PaneInfoView {
        PaneInfoView {
            pane_id: self.pane_id@,
            workspace_id: self.workspace_id@,
            terminal_id: self.terminal_id@,
            cwd: opt_view(self.cwd),
        }
    }
}

/// A checked prepare request: everything the receipt needs but the launch files.
pub struct PrepareReady {
    pub terminal_id: TerminalId,
    pub pane_id: String,
    pub workspace_id: String,
    pub pane_terminal_id: String,
    pub cwd: String,
    pub kind: String,
    pub timeout_ms: u64,
    pub shell_pid: u32,
    pub shell_lifetime: String,
    /// The idle shell's name, which the launch command is written for.
    pub shell: String,
}

/// A checked prepare request with every text taken by its view.
pub struct ReadyView {
    pub terminal_id: Seq<char>,
    pub pane_id: Seq<char>,
    pub workspace_id: Seq<char>,
    pub pane_terminal_id: Seq<char>,
    pub cwd: Seq<char>,
    pub kind: Seq<char>,
    pub timeout_ms: u64,
    pub shell_pid: u32,
    pub shell_lifetime: Seq<char>,
    pub shell: Seq<char>,
}

impl View for PrepareReady {
    type V = ReadyView;

    open spec fn view(&self) -> ReadyView {
        ReadyView {
            terminal_id: self.terminal_id@,
            pane_id: self.pane_id@,
            workspace_id: self.workspace_id@,
            pane_terminal_id: self.pane_terminal_id@,
            cwd: self.cwd@,
            kind: self.kind@,
            timeout_ms: self.timeout_ms,
            shell_pid: self.shell_pid,
            shell_lifetime: self.shell_lifetime@,
            shell: self.shell@,
        }
    }
}

/// Why a prepare request was refused: its timeout (answered with the start
/// error of that timeout), or a startup error.
pub enum PrepareRefusal {
    Timeout,
    Error(StartupError),
}

/// The start's name belongs to an agent already.
pub open spec fn name_taken(agents: Seq<(Option<Seq<char>>, Seq<char>)>, name: Seq<char>) -> bool {
    exists|i: int| 0 <= i < agents.len() && #[trigger] agents[i].0 == Some(name)
}

/// Some argument holds a control character.
pub open spec fn args_have_control(args: Seq<Seq<char>>) -> bool {
    exists|i: int| 0 <= i < args.len() && crate::text::has_control(#[trigger] args[i])
}

/// Some preparation step holds a NUL character.
pub open spec fn steps_have_nul(steps: Seq<Seq<char>>) -> bool {
    exists|i: int| 0 <= i < steps.len() && (#[trigger] steps[i]).contains('\0')
}

/// Some ticket belongs to terminal `terminal_id`.
pub open spec fn terminal_held(tickets: Map<Seq<char>, TicketView>, terminal_id: Seq<char>) -> bool {
    exists|k: Seq<char>| #[trigger] tickets.dom().contains(k) && tickets[k].terminal_id == terminal_id
}

/// What checking a prepare request answers: the checked request, the
/// timeout refusal (`Err(None)`), or a startup error.
pub open spec fn prepare_outcome(
    tickets: Map<Seq<char>, TicketView>,
    start: StartView,
    preparation: Seq<Seq<char>>,
    timeout_ms: Option<u64>,
    kind_label: Option<Seq<char>>,
    name_valid: bool,
    agents: Seq<(Option<Seq<char>>, Seq<char>)>,
    target: Option<PrepareTarget>,
) -> Result<ReadyView, Option<(StartupErrorCode, Seq<char>)>> {
    let invalid = Err(
        Some(
            (
                StartupErrorCode::InvalidRequest,
                "invalid startup name, kind, arguments or preparation"@,
            ),
        ),
    );
    if timeout_ms is None {
        Err(None)
    } else if kind_label is None {
        invalid
    } else if !name_valid || args_have_control(start.args) || preparation.len()
        > MAX_PREPARATION_STEPS || steps_have_nul(preparation) {
        invalid
    } else if name_taken(agents, start.name) {
        Err(Some((StartupErrorCode::AgentNameTaken, "startup name already belongs to an agent"@)))
    } else {
        match target {
            None => Err(Some((StartupErrorCode::PaneNotFound, "startup pane is absent"@))),
            Some(p) => match (p.info, p.terminal_id, p.terminal_has_agent) {
                (Some(info), Some(terminal_id), Some(has_agent)) => {
                    if has_agent || terminal_held(tickets, terminal_id@) {
                        Err(
                            Some(
                                (
                                    StartupErrorCode::OwnershipMismatch,
                                    "terminal already has an agent or startup ticket"@,
                                ),
                            ),
                        )
                    } else {
                        match p.runtime {
                            None => invalid,
                            Some(rt) => match rt.child_pid {
                                None => invalid,
                                Some(pid) => match rt.shell_lifetime {
                                    None => Err(
                                        Some(
                                            (
                                                StartupErrorCode::IdentityUnavailable,
                                                "original shell lifetime unavailable on this platform"@,
                                            ),
                                        ),
                                    ),
                                    Some(lifetime) => match rt.shell {
                                        None => Err(
                                            Some(
                                                (
                                                    StartupErrorCode::AgentPaneBusy,
                                                    "original shell is still initializing or busy"@,
                                                ),
                                            ),
                                        ),
                                        Some(shell) => match info.cwd {
                                            None => invalid,
                                            Some(cwd) => Ok(
                                                ReadyView {
                                                    terminal_id: terminal_id@,
                                                    pane_id: info.pane_id@,
                                                    workspace_id: info.workspace_id@,
                                                    pane_terminal_id: info.terminal_id@,
                                                    cwd: cwd@,
                                                    kind: kind_label->0,
                                                    timeout_ms: timeout_ms->0,
                                                    shell_pid: pid,
                                                    shell_lifetime: lifetime@,
                                                    shell: shell@,
                                                },
                                            ),
                                        },
                                    },
                                },
                            },
                        }
                    }
                },
                _ => invalid,
            },
        }
    }
}

fn any_arg_control(args: &Vec<String>) -> (r: bool)
    ensures
        r == args_have_control(texts_view(args@)),
{
    let ghost v = texts_view(args@);
    let mut i: usize = 0;
    while i < args.len()
        invariant
            i <= args.len(),
            v == texts_view(args@),
            forall|j: int| 0 <= j < i ==> !crate::text::has_control(#[trigger] v[j]),
        decreases args.len() - i,
    {
        let chars = crate::text::chars_of(args[i].as_str());
        if crate::text::any_control(chars.as_slice()) {
            assert(crate::text::has_control(v[i as int]));
            return true;
        }
        i = i + 1;
    }
    false
}

fn any_step_nul(steps: &Vec<String>) -> (r: bool)
    ensures
        r == steps_have_nul(texts_view(steps@)),
{
    let ghost v = texts_view(steps@);
    let mut i: usize = 0;
    while i < steps.len()
        invariant
            i <= steps.len(),
            v == texts_view(steps@),
            forall|j: int| 0 <= j < i ==> !(#[trigger] v[j]).contains('\0'),
        decreases steps.len() - i,
    {
        let chars = crate::text::chars_of(steps[i].as_str());
        let mut k: usize = 0;
        while k < chars.len()
            invariant
                k <= chars.len(),
                i < steps.len(),
                v == texts_view(steps@),
                chars@ == v[i as int],
                forall|m: int| 0 <= m < k ==> chars@[m] != '\0',
            decreases chars.len() - k,
        {
            if chars[k] == '\0' {
                assert(v[i as int][k as int] == '\0');
                assert(v[i as int].contains('\0'));
                return true;
            }
            k = k + 1;
        }
        i = i + 1;
    }
    false
}

fn any_name_taken(agents: &Vec<AgentBinding>, name: &String) -> (r: bool)
    ensures
        r == name_taken(agents_view(agents@), name@),
{
    let ghost v = agents_view(agents@);
    let mut i: usize = 0;
    while i < agents.len()
        invariant
            i <= agents.len(),
            v == agents_view(agents@),
            forall|j: int| 0 <= j < i ==> #[trigger] v[j].0 != Some(name@),
        decreases agents.len() - i,
    {
        if opt_text_equal(&agents[i].name, name) {
            assert(v[i as int].0 == Some(name@));
            return true;
        }
        i = i + 1;
    }
    false
}

fn invalid_request() -> (r: PrepareRefusal)
    ensures
        r matches PrepareRefusal::Error(e) && e@ == (
            StartupErrorCode::InvalidRequest,
            "invalid startup name, kind, arguments or preparation"@,
        ),
{
    PrepareRefusal::Error(
        startup_error(
            StartupErrorCode::InvalidRequest,
            "invalid startup name, kind, arguments or preparation",
        ),
    )
}

impl StartupTickets {
    /// Checks a prepare request for `start` with `preparation` steps, given
    /// what the caller observed. On success the caller writes the launch
    /// command for the returned shell, creates the launch files, reads the
    /// shell's lifetime again, and finishes with `finish_prepare`.
    pub fn prepare_startup(&self, start: &AgentStartParams, preparation: &Vec<String>, o: PrepareObservation) -> (r:
        Result<PrepareReady, PrepareRefusal>)
        requires
            self.wf(),
        ensures
            match prepare_outcome(
                self@,
                start@,
                texts_view(preparation@),
                o.timeout_ms,
                opt_view(o.kind_label),
                o.name_valid,
                agents_view(o.agents@),
                o.target,
            ) {
                Ok(ready) => r matches Ok(x) && x@ == ready,
                Err(None) => r matches Err(PrepareRefusal::Timeout),
                Err(Some(e)) => r matches Err(PrepareRefusal::Error(x)) && x@ == e,
            },
    {
        let timeout_ms = match o.timeout_ms {
            Some(t) => t,
            None => {
                return Err(PrepareRefusal::Timeout);
            },
        };
        let kind = match o.kind_label {
            Some(k) => k,
            None => {
                return Err(invalid_request());
            },
        };
        if !o.name_valid || any_arg_control(&start.args) || preparation.len() > MAX_PREPARATION_STEPS
            || any_step_nul(preparation) {
            return Err(invalid_request());
        }
        if any_name_taken(&o.agents, &start.name) {
            return Err(
                PrepareRefusal::Error(
                    startup_error(
                        StartupErrorCode::AgentNameTaken,
                        "startup name already belongs to an agent",
                    ),
                ),
            );
        }
        let target = match o.target {
            Some(t) => t,
            None => {
                return Err(
                    PrepareRefusal::Error(
                        startup_error(StartupErrorCode::PaneNotFound, "startup pane is absent"),
                    ),
                );
            },
        };
        let info = match target.info {
            Some(i) => i,
            None => {
                return Err(invalid_request());
            },
        };
        let terminal_id = match target.terminal_id {
            Some(t) => t,
            None => {
                return Err(invalid_request());
            },
        };
        let has_agent = match target.terminal_has_agent {
            Some(b) => b,
            None => {
                return Err(invalid_request());
            },
        };
        if has_agent || self.holds_terminal(&terminal_id) {
            return Err(
                PrepareRefusal::Error(
                    startup_error(
                        StartupErrorCode::OwnershipMismatch,
                        "terminal already has an agent or startup ticket",
                    ),
                ),
            );
        }
        let runtime = match target.runtime {
            Some(rt) => rt,
            None => {
                return Err(invalid_request());
            },
        };
        let pid = match runtime.child_pid {
            Some(pid) => pid,
            None => {
                return Err(invalid_request());
            },
        };
        let lifetime = match runtime.shell_lifetime {
            Some(l) => l,
            None => {
                return Err(
                    PrepareRefusal::Error(
                        startup_error(
                            StartupErrorCode::IdentityUnavailable,
                            "original shell lifetime unavailable on this platform",
                        ),
                    ),
                );
            },
        };
        let shell = match runtime.shell {
            Some(sh) => sh,
            None => {
                return Err(
                    PrepareRefusal::Error(
                        startup_error(
                            StartupErrorCode::AgentPaneBusy,
                            "original shell is still initializing or busy",
                        ),
                    ),
                );
            },
        };
        let cwd = match info.cwd {
            Some(c) => c,
            None => {
                return Err(invalid_request());
            },
        };
        Ok(
            PrepareReady {
                terminal_id,
                pane_id: info.pane_id,
                workspace_id: info.workspace_id,
                pane_terminal_id: info.terminal_id,
                cwd,
                kind,
                timeout_ms,
                shell_pid: pid,
                shell_lifetime: lifetime,
                shell,
            },
        )
    }

    /// Finishes a prepare request once the launch files exist. Their
    /// directory, which names the ticket, was created new, so no ticket has it
    /// yet. The terminal must still hold no ticket, and the shell must still
    /// have the lifetime it had when the request was checked (`lifetime_now`,
    /// read again after the files were written). Stores the new ticket (not
    /// submitted, open) and returns its receipt; a refusal hands the launch
    /// files back for removal.
    pub fn finish_prepare(
        &mut self,
        start: AgentStartParams,
        ready: PrepareReady,
        files: LaunchFiles,
        lifetime_now: Option<String>,
    ) -> (r: Result<StartupReceipt, (StartupError, LaunchFiles)>)
        requires
            old(self).wf(),
            !old(self)@.dom().contains(files.directory@),
        ensures
            final(self).wf(),
            terminal_held(old(self)@, ready.terminal_id@) ==> (r matches Err((e, f)) && e@ == (
                StartupErrorCode::OwnershipMismatch,
                "terminal already has an agent or startup ticket"@,
            ) && f@ == files@) && final(self)@ == old(self)@,
            !terminal_held(old(self)@, ready.terminal_id@) && opt_view(lifetime_now) != Some(
                ready.shell_lifetime@,
            ) ==> (r matches Err((e, f))
                && e@ == (
                StartupErrorCode::OwnershipMismatch,
                "shell changed while preparing startup"@,
            ) && f@ == files@) && final(self)@ == old(self)@,
            !terminal_held(old(self)@, ready.terminal_id@) && opt_view(lifetime_now) == Some(
                ready.shell_lifetime@,
            ) ==> {
                let receipt = ReceiptView {
                    ticket: files.directory@,
                    pane_id: ready.pane_id@,
                    workspace_id: ready.workspace_id@,
                    terminal_id: ready.pane_terminal_id@,
                    cwd: ready.cwd@,
                    name: start.name@,
                    kind: ready.kind@,
                    timeout_ms: ready.timeout_ms,
                    shell_pid: ready.shell_pid,
                    shell_lifetime: ready.shell_lifetime@,
                };
                &&& r matches Ok(x) && x@ == receipt
                &&& final(self)@ == old(self)@.insert(
                    files.directory@,
                    TicketView {
                        receipt,
                        terminal_id: ready.terminal_id@,
                        start: start@,
                        script: Some(files@),
                        submitted: false,
                        closed_at: None,
                        cleanup_completed: false,
                    },
                )
            },
    {
        if self.holds_terminal(&ready.terminal_id) {
            return Err(
                (
                    startup_error(
                        StartupErrorCode::OwnershipMismatch,
                        "terminal already has an agent or startup ticket",
                    ),
                    files,
                ),
            );
        }
        if !opt_text_equal(&lifetime_now, &ready.shell_lifetime) {
            return Err(
                (
                    startup_error(
                        StartupErrorCode::OwnershipMismatch,
                        "shell changed while preparing startup",
                    ),
                    files,
                ),
            );
        }
        let receipt = StartupReceipt {
            ticket: files.directory.clone(),
            pane_id: ready.pane_id,
            workspace_id: ready.workspace_id,
            terminal_id: ready.pane_terminal_id,
            cwd: ready.cwd,
            name: start.name.clone(),
            kind: ready.kind,
            timeout_ms: ready.timeout_ms,
            shell_pid: ready.shell_pid,
            shell_lifetime: ready.shell_lifetime,
        };
        let answer = receipt.duplicate();
        let ticket = StartupTicket {
            receipt,
            terminal_id: ready.terminal_id,
            start,
            script: Some(files),
            submitted: false,
            closed_at: None,
            cleanup_completed: false,
        };
        self.insert(ticket);
        Ok(answer)
    }
}

/// Startup input is submitted at most once: once a ticket is submitted, no
/// launch of it hands input to the terminal again, whatever is observed.
pub proof fn law_submitted_ticket_is_never_launched_again(
    tickets: Map<Seq<char>, TicketView>,
    receipt: ReceiptView,
    o: ObservationView,
    timeout_valid: bool,
)
    requires
        tickets.dom().contains(receipt.ticket),
        tickets[receipt.ticket].submitted,
    ensures
        !(launch_outcome(tickets, receipt, o, timeout_valid) is Ok),
{
}

/// Completed cleanup proves a previous operation, not the absence of the
/// shell: cleanup of such a ticket never closes a pane again, and reports
/// it cleaned for the original receipt unless the name has rebound.
pub proof fn law_completed_cleanup_never_closes_again(
    tickets: Map<Seq<char>, TicketView>,
    receipt: ReceiptView,
    o: ObservationView,
    fresh: ObservationView,
)
    requires
        tickets.dom().contains(receipt.ticket),
        tickets[receipt.ticket].cleanup_completed,
    ensures
        cleanup_outcome(tickets, receipt, o, fresh) != Ok::<CleanupStep, (StartupErrorCode, Seq<char>)>(
            CleanupStep::ClosePane,
        ),
        cleanup_outcome(tickets, receipt, o, fresh) != Ok::<CleanupStep, (StartupErrorCode, Seq<char>)>(
            CleanupStep::Forget,
        ),
        tickets[receipt.ticket].receipt == receipt && !name_rebound(
            o.agents,
            receipt.name,
            receipt.terminal_id,
        ) ==> cleanup_outcome(tickets, receipt, o, fresh) == Ok::<
            CleanupStep,
            (StartupErrorCode, Seq<char>),
        >(CleanupStep::AlreadyCleaned),
{
}

/// An unknown ticket fails closed: inspection, launch and cleanup all refuse
/// it as unknown, and nothing is sent or closed.
pub proof fn law_unknown_ticket_fails_closed(
    tickets: Map<Seq<char>, TicketView>,
    receipt: ReceiptView,
    o: ObservationView,
    fresh: ObservationView,
    now: u64,
    timeout_valid: bool,
)
    requires
        !tickets.dom().contains(receipt.ticket),
    ensures
        inspect_outcome(tickets, receipt, o, now) matches Err(e) && e.0
            == StartupErrorCode::TicketUnknown,
        launch_outcome(tickets, receipt, o, timeout_valid) matches Err(e) && e.0
            == StartupErrorCode::TicketUnknown,
        cleanup_outcome(tickets, receipt, o, fresh) matches Err(e) && e.0
            == StartupErrorCode::TicketUnknown,
{
}

/// A receipt that differs from the ticket's in any field proves nothing:
/// inspection, launch and cleanup of a known ticket refuse it as an
/// ownership mismatch.
pub proof fn law_forged_receipt_is_refused(
    tickets: Map<Seq<char>, TicketView>,
    receipt: ReceiptView,
    o: ObservationView,
    fresh: ObservationView,
    now: u64,
    timeout_valid: bool,
)
    requires
        tickets.dom().contains(receipt.ticket),
        tickets[receipt.ticket].receipt != receipt,
    ensures
        retained(tickets[receipt.ticket].closed_at, now) ==> (inspect_outcome(
            tickets,
            receipt,
            o,
            now,
        ) matches Err(e) && e.0 == StartupErrorCode::OwnershipMismatch),
        launch_outcome(tickets, receipt, o, timeout_valid) matches Err(e) && e.0
            == StartupErrorCode::OwnershipMismatch,
        cleanup_outcome(tickets, receipt, o, fresh) matches Err(e) && e.0
            == StartupErrorCode::OwnershipMismatch,
{
}

/// Closed tickets keep their proof for a day and no longer: inspection of a
/// ticket closed at least a day before `now` refuses it as unknown.
pub proof fn law_expired_ticket_loses_authority(
    tickets: Map<Seq<char>, TicketView>,
    receipt: ReceiptView,
    o: ObservationView,
    now: u64,
)
    requires
        tickets.dom().contains(receipt.ticket),
        tickets[receipt.ticket].closed_at matches Some(closed) && closed <= now && now - closed
            >= CLOSED_TICKET_RETENTION_NANOS,
    ensures
        inspect_outcome(tickets, receipt, o, now) matches Err(e) && e.0
            == StartupErrorCode::TicketUnknown,
        !holds_daemon(tickets[receipt.ticket], now),
{
}

/// No two tickets belong to the same terminal.
pub open spec fn one_ticket_per_terminal(tickets: Map<Seq<char>, TicketView>) -> bool {
    forall|a: Seq<char>, b: Seq<char>|
        #[trigger] tickets.dom().contains(a) && #[trigger] tickets.dom().contains(b) && a != b
            ==> tickets[a].terminal_id != tickets[b].terminal_id
}

/// A terminal holds at most one ticket: a prepare stores a ticket only for a
/// terminal that holds none, and every other change to the tickets keeps
/// their terminals (expiry forgets tickets, closing a terminal, recording a
/// submission and completing a cleanup change other fields only).
pub proof fn law_one_ticket_per_terminal(
    tickets: Map<Seq<char>, TicketView>,
    key: Seq<char>,
    ticket: TicketView,
    terminal_id: Seq<char>,
    submitted: bool,
    now: u64,
)
    requires
        one_ticket_per_terminal(tickets),
    ensures
        !terminal_held(tickets, ticket.terminal_id) ==> one_ticket_per_terminal(
            tickets.insert(key, ticket),
        ),
        one_ticket_per_terminal(filter_map_values(tickets, keep_retained(now))),
        one_ticket_per_terminal(filter_map_values(tickets, retire_on(terminal_id, now))),
        tickets.dom().contains(key) ==> one_ticket_per_terminal(
            tickets.insert(key, TicketView { submitted, ..tickets[key] }),
        ),
        tickets.dom().contains(key) ==> one_ticket_per_terminal(
            tickets.insert(key, TicketView { cleanup_completed: true, ..retired(tickets[key], now) }),
        ),
{
    if !terminal_held(tickets, ticket.terminal_id) {
        let t = tickets.insert(key, ticket);
        assert forall|a: Seq<char>, b: Seq<char>|
            #[trigger] t.dom().contains(a) && #[trigger] t.dom().contains(b) && a != b implies t[a].terminal_id
                != t[b].terminal_id by {
            if a == key {
                assert(tickets.dom().contains(b));
            } else if b == key {
                assert(tickets.dom().contains(a));
            } else {
                assert(tickets.dom().contains(a) && tickets.dom().contains(b));
            }
        }
    }
    let kept = filter_map_values(tickets, keep_retained(now));
    assert forall|a: Seq<char>, b: Seq<char>|
        #[trigger] kept.dom().contains(a) && #[trigger] kept.dom().contains(b) && a != b implies kept[a].terminal_id
            != kept[b].terminal_id by {
        assert(tickets.dom().contains(a) && tickets.dom().contains(b));
    }
    let closed = filter_map_values(tickets, retire_on(terminal_id, now));
    assert forall|a: Seq<char>, b: Seq<char>|
        #[trigger] closed.dom().contains(a) && #[trigger] closed.dom().contains(b) && a != b implies closed[a].terminal_id
            != closed[b].terminal_id by {
        assert(tickets.dom().contains(a) && tickets.dom().contains(b));
    }
    if tickets.dom().contains(key) {
        let t1 = tickets.insert(key, TicketView { submitted, ..tickets[key] });
        assert forall|a: Seq<char>, b: Seq<char>|
            #[trigger] t1.dom().contains(a) && #[trigger] t1.dom().contains(b) && a != b implies t1[a].terminal_id
                != t1[b].terminal_id by {
            assert(tickets.dom().contains(a) && tickets.dom().contains(b));
        }
        let t2 = tickets.insert(key, TicketView { cleanup_completed: true, ..retired(tickets[key], now) });
        assert forall|a: Seq<char>, b: Seq<char>|
            #[trigger] t2.dom().contains(a) && #[trigger] t2.dom().contains(b) && a != b implies t2[a].terminal_id
                != t2[b].terminal_id by {
            assert(tickets.dom().contains(a) && tickets.dom().contains(b));
        }
    }
}

/// Inspection answers only what the evidence proves. A state is reported only
/// for a known ticket that still holds its proof, whose receipt is presented
/// unchanged and whose name has not rebound. `Prepared` needs an unsubmitted
/// ticket in a terminal that runs only its original shell; `Finished` needs a
/// submitted ticket whose script finished, in such a terminal; `Submitted`
/// needs a submitted ticket whose script has not finished; `Closed` needs a
/// closed ticket whose pane, terminal and shell are all gone. A submitted
/// ticket whose script finished while its live pane, location, working
/// directory and terminal still match answers `Finished` exactly when the
/// terminal runs only the original shell, and otherwise refuses as an
/// ownership mismatch.
pub proof fn law_inspection_answers_match_the_evidence(
    tickets: Map<Seq<char>, TicketView>,
    receipt: ReceiptView,
    o: ObservationView,
    now: u64,
)
    ensures
        ({
            let t = tickets[receipt.ticket];
            let r = inspect_outcome(tickets, receipt, o, now);
            &&& r is Ok ==> tickets.dom().contains(receipt.ticket) && retained(t.closed_at, now)
                && t.receipt == receipt && !name_rebound(o.agents, receipt.name, receipt.terminal_id)
            &&& r == Ok::<StartupState, (StartupErrorCode, Seq<char>)>(StartupState::Prepared) ==> !t.submitted
                && o.pane is Some && shell_only(t, o) && o.shell_cwd_matches
            &&& r == Ok::<StartupState, (StartupErrorCode, Seq<char>)>(StartupState::Finished) ==> t.submitted
                && o.pane is Some && script_done(t, o) && shell_only(t, o) && o.shell_cwd_matches
            &&& r == Ok::<StartupState, (StartupErrorCode, Seq<char>)>(StartupState::Submitted) ==> t.submitted
                && o.pane is Some && !script_done(t, o) && location_matches(t, o) && o.shell_cwd_matches
            &&& r == Ok::<StartupState, (StartupErrorCode, Seq<char>)>(StartupState::Closed) ==> o.pane is None
                && t.closed_at is Some && !o.terminal_attached && !o.runtime_present && !o.process_exists
            &&& r != Ok::<StartupState, (StartupErrorCode, Seq<char>)>(StartupState::Cleaned)
            &&& (tickets.dom().contains(receipt.ticket) && retained(t.closed_at, now) && t.receipt
                == receipt && !name_rebound(o.agents, receipt.name, receipt.terminal_id) && o.pane is Some
                && location_matches(t, o) && o.shell_cwd_matches && !terminal_claimed_elsewhere(
                o,
                receipt.name,
            ) && t.submitted && script_done(t, o)) ==> if shell_only(t, o) {
                r == Ok::<StartupState, (StartupErrorCode, Seq<char>)>(StartupState::Finished)
            } else {
                r == Err::<StartupState, (StartupErrorCode, Seq<char>)>(
                    (StartupErrorCode::OwnershipMismatch, "original startup identity is not proven"@),
                )
            }
        }),
{
}

} // verus!
