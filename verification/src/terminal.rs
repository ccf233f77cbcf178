//! A terminal in the browser: what is said where it cannot be opened, and what
//! is done about each thing that happens while it is open.

use vstd::prelude::*;
use vstd::string::*;

use crate::text::{join3, opt_text};

verus! {

/// The size of a terminal in rows and columns, and in pixels where known.
#[derive(Debug, Clone, Copy, PartialEq, Eq, Structural)]
pub struct TerminalSize {
    pub rows: u16,
    pub cols: u16,
    pub pixel_width: u16,
    pub pixel_height: u16,
}

/// A request to change the size.
#[derive(Debug, Clone, Copy, PartialEq, Eq, Structural)]
pub struct ResizeMsg {
    pub cols: u16,
    pub rows: u16,
}

/// A size of which nothing is known in pixels.
pub open spec fn size_model(rows: u16, cols: u16) -> TerminalSize {
    TerminalSize { rows, cols, pixel_width: 0, pixel_height: 0 }
}

/// The size that a terminal opens with.
pub fn initial_size() -> (r: TerminalSize)
    ensures
        r == size_model(24, 80),
{
    TerminalSize { rows: 24, cols: 80, pixel_width: 0, pixel_height: 0 }
}

/// The shell to run: the one configured, else `bash`.
pub open spec fn shell_model(configured: Option<Seq<char>>) -> Seq<char> {
    match configured {
        Some(shell) => shell,
        None => "/bin/bash"@,
    }
}

/// The shell to run: the one configured, else `bash`.
pub fn shell_command(configured: Option<&str>) -> (r: String)
    ensures
        r@ == shell_model(opt_text(configured)),
{
    match configured {
        Some(shell) => shell.to_owned(),
        None => "/bin/bash".to_owned(),
    }
}

/// What could not be done to open a terminal, and why.
#[derive(Debug, PartialEq, Eq)]
pub enum SetupFailure {
    OpenPty(String),
    Spawn { shell: String, reason: String },
    Reader(String),
    Writer(String),
}

/// A line of its own on a terminal.
pub open spec fn own_line(text: Seq<char>) -> Seq<char> {
    "\r\n"@ + text + "\r\n"@
}

pub open spec fn failure_model(failure: SetupFailure) -> Seq<char> {
    own_line(
        match failure {
            SetupFailure::OpenPty(e) => "failed to open pty"@ + ": "@ + e@,
            SetupFailure::Spawn { shell, reason } => "failed to spawn "@ + shell@ + ": "@
                + reason@,
            SetupFailure::Reader(e) => "failed to open pty reader"@ + ": "@ + e@,
            SetupFailure::Writer(e) => "failed to open pty writer"@ + ": "@ + e@,
        },
    )
}

/// What the browser is told where a terminal cannot be opened.
pub fn setup_failure_text(failure: SetupFailure) -> (r: String)
    ensures
        r@ == failure_model(failure),
{
    let text = match failure {
        SetupFailure::OpenPty(e) => join3("failed to open pty", ": ", e.as_str()),
        SetupFailure::Spawn { shell, reason } => {
            let mut m = join3("failed to spawn ", shell.as_str(), ": ");
            m.append(reason.as_str());
            m
        },
        SetupFailure::Reader(e) => join3("failed to open pty reader", ": ", e.as_str()),
        SetupFailure::Writer(e) => join3("failed to open pty writer", ": ", e.as_str()),
    };
    join3("\r\n", text.as_str(), "\r\n")
}

/// What happens while a terminal is open.
#[derive(Debug, PartialEq, Eq)]
pub enum TerminalEvent {
    /// The shell wrote these bytes.
    Output(Vec<u8>),
    /// The shell will write no more.
    OutputEnded,
    /// The browser sent keystrokes.
    Keys(Vec<u8>),
    /// The browser sent a text: a request to change the size, or none.
    Text(Option<ResizeMsg>),
    /// The browser sent a frame of another kind.
    OtherFrame,
    /// The browser closed the connection, or it is gone.
    Closed,
    /// The connection failed.
    Failed,
    /// Bytes were handed on, or could not be.
    HandedOn(bool),
}

/// What to do about it.
#[derive(Debug, PartialEq, Eq)]
pub enum TerminalAction {
    /// Send the bytes to the browser.
    SendOutput(Vec<u8>),
    /// Write the bytes to the shell.
    WriteKeys(Vec<u8>),
    /// Change the size.
    Resize(TerminalSize),
    /// Nothing.
    Wait,
    /// Kill the shell.
    KillShell,
}

/// Whether a terminal is still in use.
#[derive(Debug, Clone, Copy, PartialEq, Eq, Structural)]
pub enum TerminalState {
    Running,
    Stopped,
}

pub enum TerminalEventModel {
    Output(Seq<u8>),
    OutputEnded,
    Keys(Seq<u8>),
    Text(Option<ResizeMsg>),
    OtherFrame,
    Closed,
    Failed,
    HandedOn(bool),
}

pub enum TerminalActionModel {
    SendOutput(Seq<u8>),
    WriteKeys(Seq<u8>),
    Resize(TerminalSize),
    Wait,
    KillShell,
}

impl View for TerminalEvent {
    type V = TerminalEventModel;

    open spec fn view(&self) -> TerminalEventModel {
        match self {
            TerminalEvent::Output(b) => TerminalEventModel::Output(b@),
            TerminalEvent::OutputEnded => TerminalEventModel::OutputEnded,
            TerminalEvent::Keys(b) => TerminalEventModel::Keys(b@),
            TerminalEvent::Text(m) => TerminalEventModel::Text(*m),
            TerminalEvent::OtherFrame => TerminalEventModel::OtherFrame,
            TerminalEvent::Closed => TerminalEventModel::Closed,
            TerminalEvent::Failed => TerminalEventModel::Failed,
            TerminalEvent::HandedOn(ok) => TerminalEventModel::HandedOn(*ok),
        }
    }
}

impl View for TerminalAction {
    type V = TerminalActionModel;

    open spec fn view(&self) -> TerminalActionModel {
        match self {
            TerminalAction::SendOutput(b) => TerminalActionModel::SendOutput(b@),
            TerminalAction::WriteKeys(b) => TerminalActionModel::WriteKeys(b@),
            TerminalAction::Resize(s) => TerminalActionModel::Resize(*s),
            TerminalAction::Wait => TerminalActionModel::Wait,
            TerminalAction::KillShell => TerminalActionModel::KillShell,
        }
    }
}

/// Whether an event ends the use of a terminal.
pub open spec fn ends_terminal(event: TerminalEventModel) -> bool {
    match event {
        TerminalEventModel::OutputEnded => true,
        TerminalEventModel::Closed => true,
        TerminalEventModel::Failed => true,
        TerminalEventModel::HandedOn(ok) => !ok,
        _ => false,
    }
}

pub open spec fn terminal_step_model(state: TerminalState, event: TerminalEventModel) -> (
    TerminalState,
    TerminalActionModel,
) {
    if state == TerminalState::Stopped {
        (TerminalState::Stopped, TerminalActionModel::Wait)
    } else if ends_terminal(event) {
        (TerminalState::Stopped, TerminalActionModel::KillShell)
    } else {
        (
            TerminalState::Running,
            match event {
                TerminalEventModel::Output(b) => TerminalActionModel::SendOutput(b),
                TerminalEventModel::Keys(b) => TerminalActionModel::WriteKeys(b),
                TerminalEventModel::Text(Some(m)) => TerminalActionModel::Resize(
                    size_model(m.rows, m.cols),
                ),
                _ => TerminalActionModel::Wait,
            },
        )
    }
}

/// What to do about an event, and whether the terminal stays in use.
pub fn terminal_step(state: TerminalState, event: TerminalEvent) -> (r: (
    TerminalState,
    TerminalAction,
))
    ensures
        (r.0, r.1@) == terminal_step_model(state, event@),
{
    match state {
        TerminalState::Stopped => (TerminalState::Stopped, TerminalAction::Wait),
        TerminalState::Running => match event {
            TerminalEvent::Output(b) => (TerminalState::Running, TerminalAction::SendOutput(b)),
            TerminalEvent::Keys(b) => (TerminalState::Running, TerminalAction::WriteKeys(b)),
            TerminalEvent::Text(Some(m)) => (
                TerminalState::Running,
                TerminalAction::Resize(
                    TerminalSize { rows: m.rows, cols: m.cols, pixel_width: 0, pixel_height: 0 },
                ),
            ),
            TerminalEvent::Text(None) => (TerminalState::Running, TerminalAction::Wait),
            TerminalEvent::OtherFrame => (TerminalState::Running, TerminalAction::Wait),
            TerminalEvent::HandedOn(true) => (TerminalState::Running, TerminalAction::Wait),
            TerminalEvent::HandedOn(false) => (TerminalState::Stopped, TerminalAction::KillShell),
            TerminalEvent::OutputEnded => (TerminalState::Stopped, TerminalAction::KillShell),
            TerminalEvent::Closed => (TerminalState::Stopped, TerminalAction::KillShell),
            TerminalEvent::Failed => (TerminalState::Stopped, TerminalAction::KillShell),
        },
    }
}

/// A terminal's history: its state, the bytes sent either way, its size, and
/// how often the shell was killed.
pub struct SessionModel {
    pub state: TerminalState,
    pub to_browser: Seq<u8>,
    pub to_shell: Seq<u8>,
    pub size: TerminalSize,
    pub kills: nat,
}

/// The history of a terminal in which all this happened, in this order.
pub open spec fn session_model(events: Seq<TerminalEventModel>) -> SessionModel
    decreases events.len(),
{
    if events.len() == 0 {
        SessionModel {
            state: TerminalState::Running,
            to_browser: Seq::empty(),
            to_shell: Seq::empty(),
            size: size_model(24, 80),
            kills: 0,
        }
    } else {
        let before = session_model(events.drop_last());
        let (state, action) = terminal_step_model(before.state, events.last());
        match action {
            TerminalActionModel::SendOutput(b) => SessionModel {
                state,
                to_browser: before.to_browser + b,
                ..before
            },
            TerminalActionModel::WriteKeys(b) => SessionModel {
                state,
                to_shell: before.to_shell + b,
                ..before
            },
            TerminalActionModel::Resize(size) => SessionModel { state, size, ..before },
            TerminalActionModel::Wait => SessionModel { state, ..before },
            TerminalActionModel::KillShell => SessionModel {
                state,
                kills: before.kills + 1,
                ..before
            },
        }
    }
}

/// All that the shell wrote, in order.
pub open spec fn all_output(events: Seq<TerminalEventModel>) -> Seq<u8>
    decreases events.len(),
{
    if events.len() == 0 {
        Seq::empty()
    } else {
        match events.last() {
            TerminalEventModel::Output(b) => all_output(events.drop_last()) + b,
            _ => all_output(events.drop_last()),
        }
    }
}

/// All that was typed, in order.
pub open spec fn all_keys(events: Seq<TerminalEventModel>) -> Seq<u8>
    decreases events.len(),
{
    if events.len() == 0 {
        Seq::empty()
    } else {
        match events.last() {
            TerminalEventModel::Keys(b) => all_keys(events.drop_last()) + b,
            _ => all_keys(events.drop_last()),
        }
    }
}

/// While a terminal is in use, the browser is sent what the shell wrote and
/// the shell gets what was typed: every byte, unchanged and in order; and the
/// shell is left alive.
pub proof fn law_bytes_pass_unchanged(events: Seq<TerminalEventModel>)
    requires
        forall|i: int| 0 <= i < events.len() ==> !ends_terminal(#[trigger] events[i]),
    ensures
        session_model(events).state == TerminalState::Running,
        session_model(events).to_browser == all_output(events),
        session_model(events).to_shell == all_keys(events),
        session_model(events).kills == 0,
    decreases events.len(),
{
    if events.len() > 0 {
        let front = events.drop_last();
        assert forall|i: int| 0 <= i < front.len() implies !ends_terminal(#[trigger] front[i]) by {
            assert(front[i] == events[i]);
        }
        law_bytes_pass_unchanged(front);
        assert(!ends_terminal(events[events.len() - 1]));
    }
}

/// Whatever ends the use of a terminal kills the shell, once; what comes after
/// that changes nothing.
pub proof fn law_shell_is_killed_once(events: Seq<TerminalEventModel>, i: int)
    requires
        0 <= i < events.len(),
        ends_terminal(events[i]),
        forall|j: int| 0 <= j < i ==> !ends_terminal(#[trigger] events[j]),
    ensures
        session_model(events).state == TerminalState::Stopped,
        session_model(events).kills == 1,
        session_model(events).to_browser == all_output(events.take(i)),
        session_model(events).to_shell == all_keys(events.take(i)),
    decreases events.len(),
{
    let front = events.drop_last();
    if i == events.len() - 1 {
        assert forall|j: int| 0 <= j < front.len() implies !ends_terminal(#[trigger] front[j]) by {
            assert(front[j] == events[j]);
        }
        law_bytes_pass_unchanged(front);
        assert(front =~= events.take(i));
    } else {
        assert forall|j: int| 0 <= j < i implies !ends_terminal(#[trigger] front[j]) by {
            assert(front[j] == events[j]);
        }
        assert(front[i] == events[i]);
        law_shell_is_killed_once(front, i);
        assert(front.take(i) =~= events.take(i));
    }
}

/// A shell that is configured is the one that runs, whichever it is.
pub proof fn law_the_configured_shell_runs(shell: Seq<char>)
    ensures
        shell_model(Some(shell)) == shell,
        shell_model(None) == "/bin/bash"@,
{
}

/// What is done about each thing that happens while a terminal is in use: bytes
/// go to the other side as they are, the size becomes the one asked for, and
/// the shell is killed where the shell, the browser or the connection is gone
/// or bytes could not be handed on, and only there.
pub proof fn law_each_event_has_its_action(event: TerminalEventModel)
    ensures
        ({
            let (state, action) = terminal_step_model(TerminalState::Running, event);
            match event {
                TerminalEventModel::Output(bytes) => state == TerminalState::Running && action == (
                TerminalActionModel::SendOutput(bytes)),
                TerminalEventModel::Keys(bytes) => state == TerminalState::Running && action == (
                TerminalActionModel::WriteKeys(bytes)),
                TerminalEventModel::Text(Some(m)) => {
                    &&& state == TerminalState::Running
                    &&& action matches TerminalActionModel::Resize(size)
                    &&& size.rows == m.rows
                    &&& size.cols == m.cols
                    &&& size.pixel_width == 0
                    &&& size.pixel_height == 0
                },
                TerminalEventModel::Text(None) | TerminalEventModel::OtherFrame
                | TerminalEventModel::HandedOn(true) => state == TerminalState::Running
                    && action is Wait,
                TerminalEventModel::OutputEnded | TerminalEventModel::Closed
                | TerminalEventModel::Failed | TerminalEventModel::HandedOn(false) => state
                    == TerminalState::Stopped && action is KillShell,
            }
        }),
        terminal_step_model(TerminalState::Stopped, event).0 == TerminalState::Stopped,
        terminal_step_model(TerminalState::Stopped, event).1 is Wait,
{
}

/// An event after which a terminal is still in use.
pub open spec fn leaves_running(event: TerminalEventModel) -> bool {
    &&& !(event is OutputEnded)
    &&& !(event is Closed)
    &&& !(event is Failed)
    &&& event != TerminalEventModel::HandedOn(false)
}

/// While a terminal is in use its size is the one last asked for: the rows and
/// columns of the last request, whatever happened besides.
pub proof fn law_the_size_is_the_one_last_asked_for(
    events: Seq<TerminalEventModel>,
    i: int,
    m: ResizeMsg,
)
    requires
        0 <= i < events.len(),
        events[i] == TerminalEventModel::Text(Some(m)),
        forall|j: int| 0 <= j < events.len() ==> leaves_running(#[trigger] events[j]),
        forall|j: int|
            i < j < events.len() ==> match #[trigger] events[j] {
                TerminalEventModel::Text(Some(_)) => false,
                _ => true,
            },
    ensures
        session_model(events).size.rows == m.rows,
        session_model(events).size.cols == m.cols,
        session_model(events).size.pixel_width == 0,
        session_model(events).size.pixel_height == 0,
    decreases events.len(),
{
    let front = events.drop_last();
    assert forall|j: int| 0 <= j < front.len() implies leaves_running(#[trigger] front[j]) by {
        assert(front[j] == events[j]);
    }
    assert forall|j: int| 0 <= j < front.len() implies !ends_terminal(#[trigger] front[j]) by {
        assert(leaves_running(front[j]));
    }
    law_bytes_pass_unchanged(front);
    assert(events.last() == events[events.len() - 1]);
    assert(leaves_running(events[events.len() - 1]));
    if i < events.len() - 1 {
        assert(front[i] == events[i]);
        assert forall|j: int| i < j < front.len() implies match #[trigger] front[j] {
            TerminalEventModel::Text(Some(_)) => false,
            _ => true,
        } by {
            assert(front[j] == events[j]);
        }
        law_the_size_is_the_one_last_asked_for(front, i, m);
    }
}

/// A terminal opens with twenty-four rows of eighty columns, and keeps that
/// size as long as no other is asked for.
pub proof fn law_the_first_size_is_kept(events: Seq<TerminalEventModel>)
    requires
        forall|j: int|
            0 <= j < events.len() ==> match #[trigger] events[j] {
                TerminalEventModel::Text(Some(_)) => false,
                _ => true,
            },
    ensures
        session_model(events).size.rows == 24,
        session_model(events).size.cols == 80,
        session_model(events).size.pixel_width == 0,
        session_model(events).size.pixel_height == 0,
    decreases events.len(),
{
    if events.len() > 0 {
        let front = events.drop_last();
        assert forall|j: int| 0 <= j < front.len() implies match #[trigger] front[j] {
            TerminalEventModel::Text(Some(_)) => false,
            _ => true,
        } by {
            assert(front[j] == events[j]);
        }
        law_the_first_size_is_kept(front);
        assert(events.last() == events[events.len() - 1]);
    }
}

/// What one more thing does to a terminal in use: output adds to what the
/// browser was sent, keystrokes add to what the shell got, byte for byte, and
/// nothing else adds to either; once the terminal is stopped nothing does.
pub proof fn law_a_session_grows_by_what_happens(
    events: Seq<TerminalEventModel>,
    next: TerminalEventModel,
)
    ensures
        ({
            let before = session_model(events);
            let after = session_model(events.push(next));
            if before.state == TerminalState::Stopped {
                after == before
            } else {
                match next {
                    TerminalEventModel::Output(bytes) => {
                        &&& after.to_browser == before.to_browser + bytes
                        &&& after.to_shell == before.to_shell
                        &&& after.size == before.size
                        &&& after.kills == before.kills
                        &&& after.state == TerminalState::Running
                    },
                    TerminalEventModel::Keys(bytes) => {
                        &&& after.to_shell == before.to_shell + bytes
                        &&& after.to_browser == before.to_browser
                        &&& after.size == before.size
                        &&& after.kills == before.kills
                        &&& after.state == TerminalState::Running
                    },
                    _ => {
                        &&& after.to_shell == before.to_shell
                        &&& after.to_browser == before.to_browser
                        &&& leaves_running(next) <==> after.state == TerminalState::Running
                        &&& leaves_running(next) <==> after.kills == before.kills
                        &&& !leaves_running(next) ==> after.kills == before.kills + 1
                    },
                }
            }
        }),
{
    assert(events.push(next).drop_last() =~= events);
    assert(events.push(next).last() == next);
}

/// Where a terminal cannot be opened the browser is told what failed and why,
/// in the failure's own words, on a line of its own.
pub proof fn law_a_failed_start_says_why(reason: String, shell: String)
    ensures
        failure_model(SetupFailure::OpenPty(reason)) == "\r\nfailed to open pty: "@ + reason@
            + "\r\n"@,
        failure_model(SetupFailure::Spawn { shell, reason }) == "\r\nfailed to spawn "@ + shell@
            + ": "@ + reason@ + "\r\n"@,
        failure_model(SetupFailure::Reader(reason)) == "\r\nfailed to open pty reader: "@ + reason@
            + "\r\n"@,
        failure_model(SetupFailure::Writer(reason)) == "\r\nfailed to open pty writer: "@ + reason@
            + "\r\n"@,
{
    reveal_strlit("\r\n");
    reveal_strlit(": ");
    reveal_strlit("failed to open pty");
    reveal_strlit("failed to spawn ");
    reveal_strlit("failed to open pty reader");
    reveal_strlit("failed to open pty writer");
    reveal_strlit("\r\nfailed to open pty: ");
    reveal_strlit("\r\nfailed to spawn ");
    reveal_strlit("\r\nfailed to open pty reader: ");
    reveal_strlit("\r\nfailed to open pty writer: ");
    assert("\r\nfailed to open pty: "@ =~= "\r\n"@ + "failed to open pty"@ + ": "@);
    assert("\r\nfailed to spawn "@ =~= "\r\n"@ + "failed to spawn "@);
    assert("\r\nfailed to open pty reader: "@ =~= "\r\n"@ + "failed to open pty reader"@ + ": "@);
    assert("\r\nfailed to open pty writer: "@ =~= "\r\n"@ + "failed to open pty writer"@ + ": "@);
    assert(failure_model(SetupFailure::OpenPty(reason)) =~= "\r\nfailed to open pty: "@ + reason@
        + "\r\n"@);
    assert(failure_model(SetupFailure::Spawn { shell, reason }) =~= "\r\nfailed to spawn "@ + shell@
        + ": "@ + reason@ + "\r\n"@);
    assert(failure_model(SetupFailure::Reader(reason)) =~= "\r\nfailed to open pty reader: "@
        + reason@ + "\r\n"@);
    assert(failure_model(SetupFailure::Writer(reason)) =~= "\r\nfailed to open pty writer: "@
        + reason@ + "\r\n"@);
}

/// Nothing of what happens to a terminal, or of what is done about it, is left
/// out of what is said of it.
pub proof fn law_terminal_events_are_told_apart(
    a: TerminalEvent,
    b: TerminalEvent,
    x: TerminalAction,
    y: TerminalAction,
)
    ensures
        a@ == b@ ==> match (a, b) {
            (TerminalEvent::Output(p), TerminalEvent::Output(q)) => p@ == q@,
            (TerminalEvent::OutputEnded, TerminalEvent::OutputEnded) => true,
            (TerminalEvent::Keys(p), TerminalEvent::Keys(q)) => p@ == q@,
            (TerminalEvent::Text(p), TerminalEvent::Text(q)) => p == q,
            (TerminalEvent::OtherFrame, TerminalEvent::OtherFrame) => true,
            (TerminalEvent::Closed, TerminalEvent::Closed) => true,
            (TerminalEvent::Failed, TerminalEvent::Failed) => true,
            (TerminalEvent::HandedOn(p), TerminalEvent::HandedOn(q)) => p == q,
            _ => false,
        },
        x@ == y@ ==> match (x, y) {
            (TerminalAction::SendOutput(p), TerminalAction::SendOutput(q)) => p@ == q@,
            (TerminalAction::WriteKeys(p), TerminalAction::WriteKeys(q)) => p@ == q@,
            (TerminalAction::Resize(p), TerminalAction::Resize(q)) => p == q,
            (TerminalAction::Wait, TerminalAction::Wait) => true,
            (TerminalAction::KillShell, TerminalAction::KillShell) => true,
            _ => false,
        },
{
}

} // verus!
