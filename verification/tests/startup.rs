use herdr::startup::{
    AgentBinding, AgentStartParams, CleanupStep, LaunchFiles, LaunchStep, PaneFacts, PaneInfo,
    PrepareObservation, PrepareRefusal, PrepareTarget, ShellRuntime, StartupErrorCode,
    StartupObservation, StartupReceipt, StartupState, StartupTickets, TerminalFacts,
    CLOSED_TICKET_RETENTION_NANOS,
};
use herdr::startup_script::{finish_marker_valid, launch_directory_name};
use herdr::terminal_id::TerminalId;

const NOW: u64 = 1_000_000 * 1_000_000_000;
const SECOND: u64 = 1_000_000_000;
const SHELL_PID: u32 = 4242;
const TICKET: &str = "/tmp/herdr-start-1-a-0";

fn start() -> AgentStartParams {
    AgentStartParams {
        name: "owned".into(),
        kind: "cursor-agent".into(),
        pane_id: "w1:p1".into(),
        args: vec![],
        timeout_ms: Some(6000),
    }
}

fn target() -> PrepareTarget {
    PrepareTarget {
        info: Some(PaneInfo {
            pane_id: "w1:p1".into(),
            workspace_id: "w1".into(),
            terminal_id: "term_1".into(),
            cwd: Some("/tmp".into()),
        }),
        terminal_id: Some(TerminalId::from_text("term_1".into())),
        terminal_has_agent: Some(false),
        runtime: Some(ShellRuntime {
            child_pid: Some(SHELL_PID),
            shell_lifetime: Some("birth-1".into()),
            shell: Some("sh".into()),
        }),
    }
}

fn prepare_observation(timeout_ms: Option<u64>) -> PrepareObservation {
    PrepareObservation {
        timeout_ms,
        kind_label: Some("cursor".into()),
        name_valid: true,
        agents: vec![AgentBinding { name: None, terminal_id: "term_2".into() }],
        target: Some(target()),
    }
}

fn files() -> LaunchFiles {
    LaunchFiles {
        directory: TICKET.into(),
        source_command: format!(". '{TICKET}/launch'"),
    }
}

fn healthy() -> StartupObservation {
    StartupObservation {
        agents: vec![AgentBinding { name: None, terminal_id: "term_2".into() }],
        pane: Some(PaneFacts {
            workspace_id: "w1".into(),
            terminal_id: Some(TerminalId::from_text("term_1".into())),
        }),
        runtime_present: true,
        runtime_pid: Some(SHELL_PID),
        shell_available: true,
        shell_lifetime: Some("birth-1".into()),
        shell_cwd_matches: true,
        terminal: Some(TerminalFacts {
            agent_name: None,
            persisted_agent_session: false,
            foreign_agent: false,
        }),
        session_processes: vec![SHELL_PID],
        terminal_attached: true,
        process_exists: true,
        script_finished: false,
    }
}

fn closed_pane() -> StartupObservation {
    let mut o = healthy();
    o.pane = None;
    o.runtime_present = false;
    o.runtime_pid = None;
    o.terminal_attached = false;
    o.process_exists = false;
    o
}

fn prepared() -> (StartupTickets, StartupReceipt) {
    let mut tickets = StartupTickets::new();
    let ready = match tickets.prepare_startup(&start(), &vec![], prepare_observation(Some(6000))) {
        Ok(ready) => ready,
        Err(_) => panic!("prepare refused"),
    };
    let receipt = tickets
        .finish_prepare(start(), ready, files(), Some("birth-1".into()))
        .unwrap_or_else(|(e, _)| panic!("{}", e.message));
    (tickets, receipt)
}

fn code<T>(r: Result<T, herdr::startup::StartupError>) -> &'static str {
    match r {
        Ok(_) => "ok",
        Err(e) => e.code.as_str(),
    }
}

fn ticket(tickets: &mut StartupTickets) -> &mut herdr::startup::StartupTicket {
    &mut tickets.tickets[0].1
}

#[test]
fn startup_cleanup_observes_changed_identity_session_and_binding() {
    let (mut tickets, receipt) = prepared();
    assert_eq!(receipt.kind, "cursor");
    assert_eq!(receipt.timeout_ms, 6000);
    assert_eq!(receipt.ticket, TICKET);
    // Handoff must retain issuing authority for every unfinished lifecycle,
    // including a submitted launch and a closed pane awaiting reconciliation.
    assert!(tickets.has_handoff_startup_hold(NOW));
    ticket(&mut tickets).submitted = true;
    assert!(tickets.has_handoff_startup_hold(NOW));
    ticket(&mut tickets).closed_at = Some(NOW);
    assert!(tickets.has_handoff_startup_hold(NOW));
    ticket(&mut tickets).cleanup_completed = true;
    assert!(!tickets.has_handoff_startup_hold(NOW));
    ticket(&mut tickets).cleanup_completed = false;
    ticket(&mut tickets).closed_at = Some(NOW - 86_401 * SECOND);
    assert!(!tickets.has_handoff_startup_hold(NOW));
    ticket(&mut tickets).closed_at = None;
    ticket(&mut tickets).submitted = false;

    // Inspect is observation only: a prepared ticket is never submitted.
    assert_eq!(tickets.inspect_startup(&receipt, &healthy(), NOW).ok(), Some(StartupState::Prepared));
    assert!(!tickets.tickets[0].1.submitted);

    // An unchanged cached presentation directory cannot substitute for live proof.
    let mut moved = healthy();
    moved.shell_cwd_matches = false;
    assert_eq!(code(tickets.inspect_startup(&receipt, &moved, NOW)), "startup_ownership_mismatch");
    assert!(tickets.tickets[0].1.receipt.same_as(&receipt));

    let mut unknown = receipt.duplicate();
    unknown.ticket.push_str("-unknown");
    assert_eq!(code(tickets.inspect_startup(&unknown, &healthy(), NOW)), "startup_ticket_unknown");

    ticket(&mut tickets).submitted = true;
    assert_eq!(tickets.inspect_startup(&receipt, &healthy(), NOW).ok(), Some(StartupState::Submitted));
    ticket(&mut tickets).submitted = false;

    // Invalid pre-input timeouts never create or reserve a ticket.
    let empty = StartupTickets::new();
    assert!(matches!(
        empty.prepare_startup(&start(), &vec![], prepare_observation(None)),
        Err(PrepareRefusal::Timeout)
    ));

    // The launch contract is part of the original receipt proof.
    for change_kind in [true, false] {
        let mut forged = receipt.duplicate();
        if change_kind {
            forged.kind = "pi".into();
        } else {
            forged.timeout_ms += 1;
        }
        assert_eq!(code(tickets.inspect_startup(&forged, &healthy(), NOW)), "startup_ownership_mismatch");
        assert_eq!(code(tickets.launch_startup(&forged, &healthy(), true)), "startup_ownership_mismatch");
        assert_eq!(code(tickets.cleanup_startup(&forged, &healthy(), &healthy())), "startup_ownership_mismatch");
        assert!(tickets.tickets[0].1.receipt.same_as(&receipt));
        assert!(!tickets.tickets[0].1.submitted);
    }

    // A different terminal acquiring the reserved name cannot authorize
    // cleanup of either terminal.
    let mut conflict = healthy();
    conflict.agents.push(AgentBinding { name: Some("owned".into()), terminal_id: "term_2".into() });
    // Launch itself leaves the name check to the agent start, which refuses
    // the taken name; the ticket stays unsubmitted.
    assert!(matches!(tickets.launch_startup(&receipt, &conflict, true), Ok(LaunchStep::Start { .. })));
    assert!(!tickets.tickets[0].1.submitted);
    assert_eq!(code(tickets.cleanup_startup(&receipt, &conflict, &conflict)), "startup_ownership_mismatch");
    assert_eq!(code(tickets.inspect_startup(&receipt, &conflict, NOW)), "startup_ownership_mismatch");

    // Positive control makes every refusal below load-bearing.
    assert_eq!(tickets.cleanup_startup(&receipt, &healthy(), &healthy()).ok(), Some(CleanupStep::ClosePane));
    for case in ["lifetime", "session", "agent", "name", "binding"] {
        let mut o = healthy();
        let facts = o.terminal.as_mut().unwrap();
        match case {
            "lifetime" => o.shell_lifetime = Some("simulated-reused-pid-birth".into()),
            "session" => facts.persisted_agent_session = true,
            "agent" => facts.foreign_agent = true,
            "name" => facts.agent_name = Some("different-owner".into()),
            "binding" => {
                o.pane.as_mut().unwrap().terminal_id = Some(TerminalId::from_text("term_2".into()))
            }
            _ => unreachable!(),
        }
        assert_eq!(code(tickets.inspect_startup(&receipt, &o, NOW)), "startup_ownership_mismatch", "{case}");
        assert_eq!(code(tickets.cleanup_startup(&receipt, &o, &o)), "startup_ownership_mismatch", "{case}");
        assert!(tickets.tickets[0].1.script.is_some(), "{case}");
        assert!(tickets.tickets[0].1.receipt.same_as(&receipt));
    }

    assert_eq!(tickets.cleanup_startup(&receipt, &healthy(), &healthy()).ok(), Some(CleanupStep::ClosePane));
    let removed = tickets.complete_cleanup(&receipt.ticket, NOW);
    assert_eq!(removed.map(|f| f.directory), Some(TICKET.to_string()));
    assert!(tickets.tickets[0].1.script.is_none());
    assert_eq!(tickets.inspect_startup(&receipt, &closed_pane(), NOW).ok(), Some(StartupState::Closed));
    // A reused, live pid is never mistaken for the reaped shell.
    let mut reused = closed_pane();
    reused.process_exists = true;
    assert_eq!(code(tickets.inspect_startup(&receipt, &reused, NOW)), "startup_ownership_mismatch");
    // Completed proof ignores the live pid: retries never close again.
    for _ in 0..3 {
        assert_eq!(tickets.cleanup_startup(&receipt, &reused, &reused).ok(), Some(CleanupStep::AlreadyCleaned));
    }
    let mut rebound = closed_pane();
    rebound.agents.push(AgentBinding { name: Some("owned".into()), terminal_id: "term_2".into() });
    assert_eq!(code(tickets.cleanup_startup(&receipt, &rebound, &rebound)), "startup_ownership_mismatch");
    let mut forged = receipt.duplicate();
    forged.shell_lifetime.push('x');
    assert_eq!(code(tickets.cleanup_startup(&forged, &closed_pane(), &closed_pane())), "startup_ownership_mismatch");

    ticket(&mut tickets).closed_at = Some(NOW - 86_401 * SECOND);
    let expired = tickets.expire_closed(NOW);
    assert_eq!(expired.len(), 1);
    assert_eq!(code(tickets.cleanup_startup(&receipt, &closed_pane(), &closed_pane())), "startup_ticket_unknown");
    assert!(tickets.tickets.is_empty());
}

#[test]
fn prepare_refuses_each_invalid_request_in_order() {
    let tickets = StartupTickets::new();
    let refusal = |r: Result<herdr::startup::PrepareReady, PrepareRefusal>| match r {
        Ok(_) => "ok".to_string(),
        Err(PrepareRefusal::Timeout) => "timeout".to_string(),
        Err(PrepareRefusal::Error(e)) => format!("{}: {}", e.code.as_str(), e.message),
    };
    let invalid = "startup_invalid_request: invalid startup name, kind, arguments or preparation";

    let mut o = prepare_observation(Some(6000));
    o.kind_label = None;
    assert_eq!(refusal(tickets.prepare_startup(&start(), &vec![], o)), invalid);

    let mut bad_args = start();
    bad_args.args = vec!["ok".into(), "bell\u{7}".into()];
    assert_eq!(refusal(tickets.prepare_startup(&bad_args, &vec![], prepare_observation(Some(6000)))), invalid);

    let many: Vec<String> = (0..33).map(|i| format!("step {i}")).collect();
    assert_eq!(refusal(tickets.prepare_startup(&start(), &many, prepare_observation(Some(6000)))), invalid);
    let limit: Vec<String> = (0..32).map(|i| format!("step {i}")).collect();
    assert_eq!(refusal(tickets.prepare_startup(&start(), &limit, prepare_observation(Some(6000)))), "ok");

    let nul = vec!["echo\0hi".to_string()];
    assert_eq!(refusal(tickets.prepare_startup(&start(), &nul, prepare_observation(Some(6000)))), invalid);

    let mut taken = prepare_observation(Some(6000));
    taken.agents.push(AgentBinding { name: Some("owned".into()), terminal_id: "term_9".into() });
    assert_eq!(
        refusal(tickets.prepare_startup(&start(), &vec![], taken)),
        "agent_name_taken: startup name already belongs to an agent"
    );

    let mut absent = prepare_observation(Some(6000));
    absent.target = None;
    assert_eq!(refusal(tickets.prepare_startup(&start(), &vec![], absent)), "pane_not_found: startup pane is absent");

    let mut agent = prepare_observation(Some(6000));
    agent.target.as_mut().unwrap().terminal_has_agent = Some(true);
    assert_eq!(
        refusal(tickets.prepare_startup(&start(), &vec![], agent)),
        "startup_ownership_mismatch: terminal already has an agent or startup ticket"
    );

    let mut no_lifetime = prepare_observation(Some(6000));
    no_lifetime.target.as_mut().unwrap().runtime.as_mut().unwrap().shell_lifetime = None;
    assert_eq!(
        refusal(tickets.prepare_startup(&start(), &vec![], no_lifetime)),
        "startup_identity_unavailable: original shell lifetime unavailable on this platform"
    );

    let mut busy = prepare_observation(Some(6000));
    busy.target.as_mut().unwrap().runtime.as_mut().unwrap().shell = None;
    assert_eq!(
        refusal(tickets.prepare_startup(&start(), &vec![], busy)),
        "agent_pane_busy: original shell is still initializing or busy"
    );

    let mut no_cwd = prepare_observation(Some(6000));
    no_cwd.target.as_mut().unwrap().info.as_mut().unwrap().cwd = None;
    assert_eq!(refusal(tickets.prepare_startup(&start(), &vec![], no_cwd)), invalid);
}

#[test]
fn a_terminal_holds_one_ticket_and_a_changed_shell_prepares_none() {
    let (tickets, _) = prepared();
    let again = tickets.prepare_startup(&start(), &vec![], prepare_observation(Some(6000)));
    assert!(matches!(
        again,
        Err(PrepareRefusal::Error(ref e)) if e.code == StartupErrorCode::OwnershipMismatch
    ));

    let mut fresh = StartupTickets::new();
    let ready = match fresh.prepare_startup(&start(), &vec![], prepare_observation(Some(6000))) {
        Ok(ready) => ready,
        Err(_) => panic!("prepare refused"),
    };
    let changed = fresh.finish_prepare(start(), ready, files(), Some("birth-2".into()));
    match changed {
        Err((e, returned)) => {
            assert_eq!(e.code.as_str(), "startup_ownership_mismatch");
            assert_eq!(e.message, "shell changed while preparing startup");
            assert_eq!(returned.directory, TICKET);
        }
        Ok(_) => panic!("a changed shell must refuse"),
    }
    assert!(fresh.tickets.is_empty());
}

fn ready_for(terminal: &str) -> herdr::startup::PrepareReady {
    let mut o = prepare_observation(Some(6000));
    o.target.as_mut().unwrap().terminal_id = Some(TerminalId::from_text(terminal.into()));
    match StartupTickets::new().prepare_startup(&start(), &vec![], o) {
        Ok(ready) => ready,
        Err(_) => panic!("prepare refused"),
    }
}

#[test]
fn finishing_a_prepare_never_replaces_a_ticket() {
    let (mut tickets, receipt) = prepared();
    tickets.record_submission(&receipt.ticket, true);
    // The terminal already holds a ticket: a new launch directory cannot take it over.
    let other = LaunchFiles {
        directory: "/tmp/herdr-start-1-a-1".into(),
        source_command: ". '/tmp/herdr-start-1-a-1/launch'".into(),
    };
    let held = tickets.finish_prepare(start(), ready_for("term_1"), other, Some("birth-1".into()));
    match held {
        Err((e, returned)) => {
            assert_eq!(e.code.as_str(), "startup_ownership_mismatch");
            assert_eq!(e.message, "terminal already has an agent or startup ticket");
            assert_eq!(returned.directory, "/tmp/herdr-start-1-a-1");
        }
        Ok(_) => panic!("a held terminal must refuse"),
    }
    assert_eq!(tickets.tickets.len(), 1);
    assert!(tickets.tickets[0].1.submitted);
}

#[test]
fn launch_submits_once_and_never_after_the_terminal_closed() {
    let (mut tickets, receipt) = prepared();
    match tickets.launch_startup(&receipt, &healthy(), true) {
        Ok(LaunchStep::Start { start, source_command }) => {
            assert_eq!(start.name, "owned");
            assert_eq!(source_command, format!(". '{TICKET}/launch'"));
        }
        _ => panic!("launch refused"),
    }
    assert!(matches!(tickets.launch_startup(&receipt, &healthy(), false), Ok(LaunchStep::RejectTimeout)));
    tickets.record_submission(&receipt.ticket, true);
    let again = tickets.launch_startup(&receipt, &healthy(), true);
    assert_eq!(code(again), "startup_already_submitted");

    let (mut closed, receipt) = prepared();
    let taken = closed.retire_startup_files(&TerminalId::from_text("term_1".into()), NOW);
    assert_eq!(taken.len(), 1);
    assert_eq!(closed.tickets[0].1.closed_at, Some(NOW));
    assert_eq!(code(closed.launch_startup(&receipt, &healthy(), true)), "startup_terminal_closed");
}

#[test]
fn cleanup_waits_for_a_submitted_script_to_finish() {
    let (mut tickets, receipt) = prepared();
    tickets.record_submission(&receipt.ticket, true);
    assert_eq!(code(tickets.cleanup_startup(&receipt, &healthy(), &healthy())), "startup_execution_uncertain");
    let mut finished = healthy();
    finished.script_finished = true;
    assert_eq!(tickets.cleanup_startup(&receipt, &finished, &finished).ok(), Some(CleanupStep::ClosePane));
    assert_eq!(tickets.inspect_startup(&receipt, &finished, NOW).ok(), Some(StartupState::Finished));
    // A pane that is gone with its shell needs no closing.
    assert_eq!(tickets.cleanup_startup(&receipt, &closed_pane(), &closed_pane()).ok(), Some(CleanupStep::Forget));
    let mut attached = closed_pane();
    attached.terminal_attached = true;
    assert_eq!(code(tickets.cleanup_startup(&receipt, &attached, &attached)), "startup_ownership_mismatch");
}

#[test]
fn closed_tickets_keep_their_proof_for_one_day() {
    let (mut tickets, receipt) = prepared();
    tickets.retire_startup_files(&TerminalId::from_text("term_1".into()), NOW);
    let just_before = NOW + CLOSED_TICKET_RETENTION_NANOS - 1;
    assert_eq!(tickets.inspect_startup(&receipt, &closed_pane(), just_before).ok(), Some(StartupState::Closed));
    assert!(tickets.expire_closed(just_before).is_empty());
    let a_day_later = NOW + CLOSED_TICKET_RETENTION_NANOS;
    assert_eq!(code(tickets.inspect_startup(&receipt, &closed_pane(), a_day_later)), "startup_ticket_unknown");
    assert!(!tickets.has_handoff_startup_hold(a_day_later));
    assert_eq!(tickets.expire_closed(a_day_later).len(), 1);
    assert!(tickets.tickets.is_empty());
}

#[test]
fn finished_file_must_hold_an_exit_status() {
    assert!(finish_marker_valid("0\n"));
    assert!(finish_marker_valid(" 255 "));
    assert!(finish_marker_valid("+7"));
    assert!(finish_marker_valid("007"));
    assert!(!finish_marker_valid("256"));
    assert!(!finish_marker_valid(""));
    assert!(!finish_marker_valid("+"));
    assert!(!finish_marker_valid("-1"));
    assert!(!finish_marker_valid("1 2"));
}

#[test]
fn launch_directory_names_carry_pid_stamp_and_sequence() {
    assert_eq!(launch_directory_name(42, 255, 16), "herdr-start-42-ff-10");
    assert_eq!(launch_directory_name(7, 0, 0), "herdr-start-7-0-0");
}

#[test]
fn only_non_inspection_requests_expire_tickets() {
    let (mut tickets, receipt) = prepared();
    tickets.retire_startup_files(&TerminalId::from_text("term_1".into()), NOW);
    let later = NOW + CLOSED_TICKET_RETENTION_NANOS;
    assert!(tickets.begin_request(true, later).is_empty());
    assert_eq!(tickets.tickets.len(), 1);
    assert_eq!(code(tickets.inspect_startup(&receipt, &closed_pane(), later)), "startup_ticket_unknown");
    let expired = tickets.begin_request(false, later);
    assert_eq!(expired.len(), 1);
    assert_eq!(expired[0].0, TICKET);
    assert!(tickets.tickets.is_empty());
}

#[test]
fn cleanup_needs_shell_only_evidence_twice() {
    let (tickets, receipt) = prepared();
    let mut changed = healthy();
    changed.session_processes = vec![SHELL_PID, SHELL_PID + 1];
    assert_eq!(
        code(tickets.cleanup_startup(&receipt, &healthy(), &changed)),
        "startup_ownership_mismatch"
    );
    assert_eq!(
        tickets.cleanup_startup(&receipt, &healthy(), &healthy()).ok(),
        Some(CleanupStep::ClosePane)
    );
}
