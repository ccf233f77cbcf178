use loop_bridge::documents::{
    build_read_document_tool, extract_document_text, plan_document, preview_document,
    read_document_call, DocumentKind, DocumentRead, MAX_DOC_CHARS,
};
use loop_bridge::events::{
    agent_event_to_json, agent_signal, prompt_handler, stream_step, turn_signals, AgentEvent,
    Received, Signal, StreamStep, EVENTS_CHANNEL_CAPACITY,
};
use loop_bridge::json::{json_number, json_text, parse_json, Json};
use loop_bridge::terminal::{
    initial_size, setup_failure_text, shell_command, terminal_step, ResizeMsg, SetupFailure,
    TerminalAction, TerminalEvent, TerminalSize, TerminalState,
};

fn agent(ev: AgentEvent) -> Received {
    Received::Event(agent_signal(ev))
}

fn signal(turn: Option<u64>, event: Json) -> Received {
    Received::Event(Signal { turn, event })
}

fn ended(turn: u64, outcome: Result<(), String>) -> Vec<Received> {
    turn_signals(turn, outcome).into_iter().map(Received::Event).collect()
}

/// What a listener of turn `own` is sent, and whether its stream is open still.
fn listen(own: u64, feed: Vec<Received>) -> (Vec<String>, bool) {
    let mut sent = Vec::new();
    for received in feed {
        match stream_step(own, received) {
            StreamStep::Send { data, last } => {
                sent.push(data);
                if last {
                    return (sent, false);
                }
            }
            StreamStep::Skip(_) | StreamStep::Pass => {}
            StreamStep::Stop => return (sent, false),
        }
    }
    (sent, true)
}

fn event_text(ev: AgentEvent) -> String {
    json_text(&agent_event_to_json(ev))
}

#[test]
fn events_say_their_type() {
    assert_eq!(event_text(AgentEvent::AgentStart), "{\"type\":\"agent_start\"}");
    assert_eq!(event_text(AgentEvent::TurnStart), "{\"type\":\"turn_start\"}");
    assert_eq!(
        event_text(AgentEvent::AgentEnd { messages: Json::Array(vec![]) }),
        "{\"messages\":[],\"type\":\"agent_end\"}"
    );
    assert_eq!(
        event_text(AgentEvent::TurnEnd { message: Json::Null, tool_results: json_number(1) }),
        "{\"message\":null,\"tool_results\":1,\"type\":\"turn_end\"}"
    );
    assert_eq!(
        event_text(AgentEvent::MessageStart { message: Json::text_of("m") }),
        "{\"message\":\"m\",\"type\":\"message_start\"}"
    );
    assert_eq!(
        event_text(AgentEvent::MessageEnd { message: Json::text_of("m") }),
        "{\"message\":\"m\",\"type\":\"message_end\"}"
    );
}

#[test]
fn message_updates_pass_through() {
    let step = parse_json("{\"type\":\"text_delta\",\"delta\":\"hi\"}").unwrap();
    assert_eq!(
        event_text(AgentEvent::MessageUpdate { assistant_message_event: Ok(step) }),
        "{\"delta\":\"hi\",\"type\":\"text_delta\"}"
    );
    assert_eq!(
        event_text(AgentEvent::MessageUpdate { assistant_message_event: Err("bad".to_string()) }),
        "{\"message\":\"serialize failure: bad\",\"type\":\"error\"}"
    );
}

#[test]
fn tool_events_carry_the_call() {
    assert_eq!(
        event_text(AgentEvent::ToolExecutionStart {
            tool_call_id: "c1".to_string(),
            tool_name: "bash".to_string(),
            args: Json::object(),
        }),
        "{\"args\":{},\"id\":\"c1\",\"name\":\"bash\",\"type\":\"tool_execution_start\"}"
    );
    assert_eq!(
        event_text(AgentEvent::ToolExecutionUpdate {
            tool_call_id: "c1".to_string(),
            tool_name: "bash".to_string(),
            args: Json::object(),
            partial_result: Json::text_of("p"),
        }),
        "{\"args\":{},\"id\":\"c1\",\"name\":\"bash\",\"partial_result\":\"p\",\
         \"type\":\"tool_execution_update\"}"
    );
    assert_eq!(
        event_text(AgentEvent::ToolExecutionEnd {
            tool_call_id: "c1".to_string(),
            tool_name: "bash".to_string(),
            result: Json::text_of("r"),
            is_error: true,
        }),
        "{\"id\":\"c1\",\"is_error\":true,\"name\":\"bash\",\"result\":\"r\",\
         \"type\":\"tool_execution_end\"}"
    );
}

#[test]
fn a_busy_agent_takes_no_message() {
    assert_eq!(prompt_handler(true), Ok(()));
    let e = prompt_handler(false).unwrap_err();
    assert_eq!(e.status, 409);
    assert_eq!(e.body.text_member("error"), Some("harness_busy"));
    assert_eq!(
        e.body.text_member("message"),
        Some("Loop is still working on a previous message. Wait for it to finish before sending another.")
    );
}

#[test]
fn turns_end_with_the_end_of_their_stream() {
    assert_eq!(EVENTS_CHANNEL_CAPACITY, 1024);
    let end = || Signal { turn: Some(7), event: Json::object().with("type", Json::text_of("stream_end")) };
    assert_eq!(turn_signals(7, Ok(())), vec![end()]);
    let failed = turn_signals(7, Err("no key".to_string()));
    assert_eq!(failed.len(), 2);
    assert_eq!(failed[0].turn, Some(7));
    assert_eq!(json_text(&failed[0].event), "{\"message\":\"no key\",\"type\":\"error\"}");
    assert_eq!(failed[1], end());
}

#[test]
fn streams_stop_at_their_end() {
    let mut feed = vec![agent(AgentEvent::TurnStart), Received::Lagged(3)];
    feed.extend(ended(1, Ok(())));
    feed.push(agent(AgentEvent::TurnStart));
    let (sent, open) = listen(1, feed);
    assert!(!open);
    assert_eq!(sent, vec!["{\"type\":\"turn_start\"}", "{\"type\":\"stream_end\"}"]);
}

#[test]
fn stream_steps_tell_the_end_from_the_rest() {
    assert_eq!(stream_step(1, Received::Closed), StreamStep::Stop);
    assert_eq!(stream_step(1, Received::Lagged(3)), StreamStep::Skip(3));
    assert_eq!(
        stream_step(1, signal(Some(1), Json::text_of("stream_end"))),
        StreamStep::Send { data: "\"stream_end\"".to_string(), last: false }
    );
    assert_eq!(
        stream_step(1, signal(Some(1), Json::object().with("type", Json::Null))),
        StreamStep::Send { data: "{\"type\":null}".to_string(), last: false }
    );
    let end = || Json::object().with("type", Json::text_of("stream_end"));
    let data = || "{\"type\":\"stream_end\"}".to_string();
    assert_eq!(stream_step(1, signal(Some(1), end())), StreamStep::Send { data: data(), last: true });
    assert_eq!(stream_step(1, signal(None, end())), StreamStep::Send { data: data(), last: false });
    assert_eq!(stream_step(1, signal(Some(2), end())), StreamStep::Pass);
    assert_eq!(
        stream_step(1, signal(Some(2), Json::Null)),
        StreamStep::Send { data: "null".to_string(), last: false }
    );
}

#[test]
fn a_refused_request_does_not_close_the_stream_of_a_running_turn() {
    let mut feed = vec![agent(AgentEvent::AgentStart)];
    feed.extend(ended(2, Err("busy".to_string())));
    feed.push(agent(AgentEvent::TurnStart));
    let (sent, open) = listen(1, feed);
    assert!(open);
    assert_eq!(
        sent,
        vec![
            "{\"type\":\"agent_start\"}",
            "{\"message\":\"busy\",\"type\":\"error\"}",
            "{\"type\":\"turn_start\"}"
        ]
    );
}

#[test]
fn terminal_passes_bytes_both_ways() {
    let run = TerminalState::Running;
    assert_eq!(
        terminal_step(run, TerminalEvent::Output(vec![1, 2])),
        (run, TerminalAction::SendOutput(vec![1, 2]))
    );
    assert_eq!(
        terminal_step(run, TerminalEvent::Keys(vec![3])),
        (run, TerminalAction::WriteKeys(vec![3]))
    );
    assert_eq!(terminal_step(run, TerminalEvent::HandedOn(true)), (run, TerminalAction::Wait));
    assert_eq!(terminal_step(run, TerminalEvent::OtherFrame), (run, TerminalAction::Wait));
    assert_eq!(terminal_step(run, TerminalEvent::Text(None)), (run, TerminalAction::Wait));
}

#[test]
fn terminal_changes_its_size() {
    let size = |rows, cols| TerminalSize { rows, cols, pixel_width: 0, pixel_height: 0 };
    assert_eq!(initial_size(), size(24, 80));
    assert_eq!(
        terminal_step(
            TerminalState::Running,
            TerminalEvent::Text(Some(ResizeMsg { cols: 120, rows: 40 }))
        ),
        (TerminalState::Running, TerminalAction::Resize(size(40, 120)))
    );
}

#[test]
fn terminal_kills_its_shell_once() {
    let ends = vec![
        TerminalEvent::OutputEnded,
        TerminalEvent::Closed,
        TerminalEvent::Failed,
        TerminalEvent::HandedOn(false),
    ];
    for e in ends {
        let (state, action) = terminal_step(TerminalState::Running, e);
        assert_eq!(state, TerminalState::Stopped);
        assert_eq!(action, TerminalAction::KillShell);
        assert_eq!(
            terminal_step(state, TerminalEvent::Closed),
            (TerminalState::Stopped, TerminalAction::Wait)
        );
        assert_eq!(
            terminal_step(state, TerminalEvent::Keys(vec![1])),
            (TerminalState::Stopped, TerminalAction::Wait)
        );
    }
}

#[test]
fn terminal_tells_why_it_did_not_open() {
    let e = || "E".to_string();
    assert_eq!(
        setup_failure_text(SetupFailure::OpenPty(e())),
        "\r\nfailed to open pty: E\r\n"
    );
    assert_eq!(
        setup_failure_text(SetupFailure::Spawn { shell: "/bin/x".to_string(), reason: e() }),
        "\r\nfailed to spawn /bin/x: E\r\n"
    );
    assert_eq!(
        setup_failure_text(SetupFailure::Reader(e())),
        "\r\nfailed to open pty reader: E\r\n"
    );
    assert_eq!(
        setup_failure_text(SetupFailure::Writer(e())),
        "\r\nfailed to open pty writer: E\r\n"
    );
    assert_eq!(shell_command(None), "/bin/bash");
    assert_eq!(shell_command(Some("/bin/zsh")), "/bin/zsh");
}

#[test]
fn documents_are_read_by_kind() {
    assert_eq!(plan_document("a.PDF", true), Ok(DocumentKind::Pdf));
    assert_eq!(plan_document("a.md", true), Ok(DocumentKind::Text));
    assert_eq!(plan_document("a.md", false), Err("file not found: a.md".to_string()));
}

#[test]
fn documents_that_fail_say_why() {
    let e = || "E".to_string();
    assert_eq!(
        extract_document_text("p", DocumentRead::Read("text".to_string())),
        Ok("text".to_string())
    );
    assert_eq!(
        extract_document_text("p", DocumentRead::PdfRefused(e())),
        Err("failed to extract PDF text from p: E".to_string())
    );
    assert_eq!(
        extract_document_text("p", DocumentRead::PdfPanicked(e())),
        Err("pdf extraction task panicked: E".to_string())
    );
    assert_eq!(
        extract_document_text("p", DocumentRead::NotText(e())),
        Err("failed to read p as text (not a .pdf, and not valid UTF-8 text — \
             DOCX/XLSX/PPTX aren't supported yet): E"
            .to_string())
    );
}

#[test]
fn long_documents_are_cut() {
    assert_eq!(MAX_DOC_CHARS, 100000);
    let whole = "é".repeat(100000);
    assert_eq!(preview_document(whole.clone()), whole);
    let long = "é".repeat(100001);
    assert_eq!(
        preview_document(long),
        whole
            + "\n\n[...truncated: document is 100001 characters, \
               exceeds the 100000-character preview limit...]"
    );
}

#[test]
fn read_document_tool_is_announced() {
    let t = build_read_document_tool();
    assert_eq!(t.name, "read_document");
    assert_eq!(t.label, "Read Document");
    assert!(t.description.starts_with("Read and extract text from a document file on disk so it"));
    assert!(t.description.ends_with("DOCX, XLSX, PPTX — returns a clear error for those."));
    assert_eq!(
        json_text(&t.parameters),
        "{\"properties\":{\"path\":{\"description\":\"Absolute path, or path relative to the \
         current working directory, to the document to read.\",\"type\":\"string\"}},\
         \"required\":[\"path\"],\"type\":\"object\"}"
    );
}

#[test]
fn read_document_needs_a_path() {
    let args = parse_json("{\"path\":\"a.txt\"}").unwrap();
    assert_eq!(read_document_call(&args), Ok("a.txt".to_string()));
    let missing = Err("missing required 'path' argument".to_string());
    assert_eq!(read_document_call(&parse_json("{\"path\":1}").unwrap()), missing);
    assert_eq!(read_document_call(&Json::Null), missing);
}

#[test]
fn agent_events_leave_the_stream_open() {
    let end = || Json::object().with("type", Json::text_of("stream_end"));
    let feed = vec![
        agent(AgentEvent::AgentStart),
        agent(AgentEvent::AgentEnd { messages: Json::text_of("stream_end") }),
        agent(AgentEvent::MessageUpdate { assistant_message_event: Err("stream_end".to_string()) }),
        agent(AgentEvent::MessageUpdate { assistant_message_event: Ok(end()) }),
        agent(AgentEvent::ToolExecutionStart {
            tool_call_id: "stream_end".to_string(),
            tool_name: "stream_end".to_string(),
            args: end(),
        }),
    ];
    let (sent, open) = listen(1, feed);
    assert!(open);
    assert_eq!(sent.len(), 5);
}

#[test]
fn a_failed_turn_is_sent_whole() {
    let mut feed = vec![agent(AgentEvent::AgentStart)];
    feed.extend(ended(1, Err("no key".to_string())));
    feed.push(agent(AgentEvent::AgentStart));
    let (sent, open) = listen(1, feed);
    assert!(!open);
    assert_eq!(
        sent,
        vec![
            "{\"type\":\"agent_start\"}",
            "{\"message\":\"no key\",\"type\":\"error\"}",
            "{\"type\":\"stream_end\"}"
        ]
    );
}
