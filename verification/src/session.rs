//! One client connection to the agent, as a state machine: greeting, token check,
//! then one command per line until `quit` or the end of input. The caller reads and
//! writes the connection and answers the commands the machine hands out.
use vstd::prelude::*;
use crate::text::{chars_of, eq_ignore_ascii_case, equal_ignoring_ascii_case, trim, trimmed};

verus! {

/// The shared secret a client must send first.
pub const AUTH_TOKEN: &'static str = "ENSPD2026";

/// Where a connection stands.
#[derive(Debug, Clone, Copy, PartialEq, Eq, Structural)]
pub enum SessionState {
    /// Accepted, not yet greeted.
    Fresh,
    /// Greeted; the next line must be the token.
    AwaitingToken,
    /// Authenticated; each line is a command.
    Ready,
    /// Over: refused, or the client left.
    Closed,
}

/// What happened on the connection.
pub enum SessionEvent {
    /// The connection was accepted.
    Connected,
    /// A line arrived (for the token: as read, newline included).
    Line(String),
    /// The input ended or could not be read.
    InputEnded,
}

/// The model of a `SessionEvent`.
pub enum EventSpec {
    Connected,
    Line(Seq<char>),
    InputEnded,
}

impl View for SessionEvent {
    type V = EventSpec;

    open spec fn view(&self) -> EventSpec {
        match self {
            SessionEvent::Connected => EventSpec::Connected,
            SessionEvent::Line(l) => EventSpec::Line(l@),
            SessionEvent::InputEnded => EventSpec::InputEnded,
        }
    }
}

/// What the caller must do after an event.
pub struct SessionOutput {
    /// Text to write to the client.
    pub send: Option<String>,
    /// Messages for the connection journal, in order.
    pub logs: Vec<String>,
    /// How many of `logs` are written before `send`; the others follow it.
    pub logged_before_send: usize,
    /// A command to answer (with `format_response`), the answer to be written
    /// framed by `framed_response`.
    pub dispatch: Option<String>,
}

/// The model of a `SessionOutput`.
pub struct OutputSpec {
    pub send: Option<Seq<char>>,
    pub logs: Seq<Seq<char>>,
    pub logged_before_send: nat,
    pub dispatch: Option<Seq<char>>,
}

impl View for SessionOutput {
    type V = OutputSpec;

    open spec fn view(&self) -> OutputSpec {
        OutputSpec {
            send: match self.send {
                Some(t) => Some(t@),
                None => None,
            },
            logs: self.logs@.map_values(|l: String| l@),
            logged_before_send: self.logged_before_send as nat,
            dispatch: match self.dispatch {
                Some(c) => Some(c@),
                None => None,
            },
        }
    }
}

pub open spec fn quiet() -> OutputSpec {
    OutputSpec { send: None, logs: Seq::empty(), logged_before_send: 0, dispatch: None }
}

/// Whether `line` carries the token.
pub open spec fn token_accepted(line: Seq<char>) -> bool {
    trimmed(line) == AUTH_TOKEN@
}

/// Whether the event is a line carrying the token.
pub open spec fn carries_token(e: EventSpec) -> bool {
    match e {
        EventSpec::Line(l) => token_accepted(l),
        _ => false,
    }
}

/// The next state and what to do, for `event` in `state` on the connection from `peer`.
pub open spec fn session_step(state: SessionState, peer: Seq<char>, event: EventSpec) -> (
    SessionState,
    OutputSpec,
) {
    match (state, event) {
        (SessionState::Fresh, EventSpec::Connected) => (
            SessionState::AwaitingToken,
            OutputSpec {
                send: Some("TOKEN: "@),
                logs: seq!["[+] Connexion de "@ + peer],
                logged_before_send: 1,
                dispatch: None,
            },
        ),
        (SessionState::AwaitingToken, EventSpec::Line(line)) if token_accepted(line) => (
            SessionState::Ready,
            OutputSpec {
                send: Some("OK\n"@),
                logs: seq!["[OK] Authentifie: "@ + peer],
                logged_before_send: 0,
                dispatch: None,
            },
        ),
        (SessionState::AwaitingToken, EventSpec::Line(_))
        | (SessionState::AwaitingToken, EventSpec::InputEnded) => (
            SessionState::Closed,
            OutputSpec {
                send: Some("UNAUTHORIZED\n"@),
                logs: seq!["[!] Acces refuse depuis "@ + peer],
                logged_before_send: 0,
                dispatch: None,
            },
        ),
        (SessionState::Ready, EventSpec::Line(line)) => {
            let cmd = trimmed(line);
            let noted = "["@ + peer + "] commande: '"@ + cmd + "'"@;
            if equal_ignoring_ascii_case(cmd, "quit"@) {
                (
                    SessionState::Closed,
                    OutputSpec {
                        send: Some("BYE\n"@),
                        logs: seq![noted, "[-] Deconnexion de "@ + peer],
                        logged_before_send: 1,
                        dispatch: None,
                    },
                )
            } else {
                (
                    SessionState::Ready,
                    OutputSpec {
                        send: None,
                        logs: seq![noted],
                        logged_before_send: 1,
                        dispatch: Some(cmd),
                    },
                )
            }
        },
        (SessionState::Ready, EventSpec::InputEnded) => (
            SessionState::Closed,
            OutputSpec {
                send: None,
                logs: seq!["[-] Deconnexion de "@ + peer],
                logged_before_send: 1,
                dispatch: None,
            },
        ),
        _ => (state, quiet()),
    }
}

/// A client connection to the agent. Its state changes only through `step`.
pub struct ClientSession {
    peer: String,
    state: SessionState,
}

/// The model of a `ClientSession`: who is connected, and where the connection stands.
pub struct SessionSpec {
    pub peer: Seq<char>,
    pub state: SessionState,
}

impl View for ClientSession {
    type V = SessionSpec;

    closed spec fn view(&self) -> SessionSpec {
        SessionSpec { peer: self.peer@, state: self.state }
    }
}

fn concat(a: &str, b: &str) -> (r: String)
    ensures
        r@ == a@ + b@,
{
    let mut r = String::from_str(a);
    r.append(b);
    r
}

impl ClientSession {
    /// A connection from `peer` that has not been greeted yet.
    pub fn new(peer: String) -> (s: Self)
        ensures
            s@.peer == peer@,
            s@.state == SessionState::Fresh,
    {
        ClientSession { peer, state: SessionState::Fresh }
    }

    /// Where the connection stands.
    pub fn state(&self) -> (r: SessionState)
        ensures
            r == self@.state,
    {
        self.state
    }

    /// Advances the connection by one event.
    pub fn step(&mut self, event: SessionEvent) -> (out: SessionOutput)
        ensures
            final(self)@.peer == old(self)@.peer,
            (final(self)@.state, out@) == session_step(old(self)@.state, old(self)@.peer, event@),
    {
        let peer = self.peer.as_str();
        match (self.state, event) {
            (SessionState::Fresh, SessionEvent::Connected) => {
                self.state = SessionState::AwaitingToken;
                let mut logs: Vec<String> = Vec::new();
                logs.push(concat("[+] Connexion de ", peer));
                let out = SessionOutput {
                    send: Some(String::from_str("TOKEN: ")),
                    logs,
                    logged_before_send: 1,
                    dispatch: None,
                };
                assert(out@.logs =~= seq!["[+] Connexion de "@ + peer@]);
                out
            },
            (SessionState::AwaitingToken, SessionEvent::Line(line)) => {
                let token = trim(line.as_str());
                let v = chars_of(token.as_str());
                let mut logs: Vec<String> = Vec::new();
                if crate::text::chars_equal(&v, AUTH_TOKEN) {
                    self.state = SessionState::Ready;
                    logs.push(concat("[OK] Authentifie: ", peer));
                    let out = SessionOutput {
                        send: Some(String::from_str("OK\n")),
                        logs,
                        logged_before_send: 0,
                        dispatch: None,
                    };
                    assert(out@.logs =~= seq!["[OK] Authentifie: "@ + peer@]);
                    out
                } else {
                    self.state = SessionState::Closed;
                    logs.push(concat("[!] Acces refuse depuis ", peer));
                    let out = SessionOutput {
                        send: Some(String::from_str("UNAUTHORIZED\n")),
                        logs,
                        logged_before_send: 0,
                        dispatch: None,
                    };
                    assert(out@.logs =~= seq!["[!] Acces refuse depuis "@ + peer@]);
                    out
                }
            },
            (SessionState::AwaitingToken, SessionEvent::InputEnded) => {
                self.state = SessionState::Closed;
                let mut logs: Vec<String> = Vec::new();
                logs.push(concat("[!] Acces refuse depuis ", peer));
                let out = SessionOutput {
                    send: Some(String::from_str("UNAUTHORIZED\n")),
                    logs,
                    logged_before_send: 0,
                    dispatch: None,
                };
                assert(out@.logs =~= seq!["[!] Acces refuse depuis "@ + peer@]);
                out
            },
            (SessionState::Ready, SessionEvent::Line(line)) => {
                let cmd = trim(line.as_str());
                let mut noted = concat("[", peer);
                noted.append("] commande: '");
                noted.append(cmd.as_str());
                noted.append("'");
                let mut logs: Vec<String> = Vec::new();
                logs.push(noted);
                let v = chars_of(cmd.as_str());
                if eq_ignore_ascii_case(&v, "quit") {
                    self.state = SessionState::Closed;
                    logs.push(concat("[-] Deconnexion de ", peer));
                    let out = SessionOutput {
                        send: Some(String::from_str("BYE\n")),
                        logs,
                        logged_before_send: 1,
                        dispatch: None,
                    };
                    assert(out@.logs =~= seq![
                        "["@ + peer@ + "] commande: '"@ + cmd@ + "'"@,
                        "[-] Deconnexion de "@ + peer@,
                    ]);
                    out
                } else {
                    let out = SessionOutput { send: None, logs, logged_before_send: 1, dispatch: Some(cmd) };
                    assert(out@.logs =~= seq!["["@ + peer@ + "] commande: '"@ + cmd@ + "'"@]);
                    out
                }
            },
            (SessionState::Ready, SessionEvent::InputEnded) => {
                self.state = SessionState::Closed;
                let mut logs: Vec<String> = Vec::new();
                logs.push(concat("[-] Deconnexion de ", peer));
                let out = SessionOutput { send: None, logs, logged_before_send: 1, dispatch: None };
                assert(out@.logs =~= seq!["[-] Deconnexion de "@ + peer@]);
                out
            },
            _ => {
                let out = SessionOutput {
                    send: None,
                    logs: Vec::new(),
                    logged_before_send: 0,
                    dispatch: None,
                };
                assert(out@.logs =~= Seq::<Seq<char>>::empty());
                out
            },
        }
    }
}

/// The state after the first `n` events of `events`, from a fresh connection.
pub open spec fn state_after(peer: Seq<char>, events: Seq<EventSpec>, n: nat) -> SessionState
    decreases n,
{
    if n == 0 {
        SessionState::Fresh
    } else {
        session_step(state_after(peer, events, (n - 1) as nat), peer, events[n - 1]).0
    }
}

/// A closed connection stays closed and does nothing more.
pub proof fn lemma_closed_is_final(peer: Seq<char>, event: EventSpec)
    ensures
        session_step(SessionState::Closed, peer, event) == (SessionState::Closed, quiet()),
{
}

proof fn lemma_ready_needs_token(peer: Seq<char>, events: Seq<EventSpec>, n: nat)
    requires
        n <= events.len(),
        state_after(peer, events, n) == SessionState::Ready,
    ensures
        exists|j: int| 0 <= j < n && carries_token(#[trigger] events[j]),
    decreases n,
{
    let prev = state_after(peer, events, (n - 1) as nat);
    if prev == SessionState::Ready {
        lemma_ready_needs_token(peer, events, (n - 1) as nat);
        let j = choose|j: int| 0 <= j < n - 1 && carries_token(#[trigger] events[j]);
        assert(carries_token(events[j]));
    } else {
        assert(carries_token(events[n - 1]));
    }
}

/// A command is handed out only on a connection that has sent the token: whatever
/// the events, if the one at `i` dispatches a command, an earlier one was a line
/// carrying the token.
pub proof fn lemma_commands_need_token(peer: Seq<char>, events: Seq<EventSpec>, i: nat)
    requires
        i < events.len(),
        session_step(state_after(peer, events, i), peer, events[i as int]).1.dispatch is Some,
    ensures
        exists|j: int| 0 <= j < i && carries_token(#[trigger] events[j]),
{
    lemma_ready_needs_token(peer, events, i);
}

/// An answer as written to the client: the text, then a line `END`.
pub open spec fn framed(text: Seq<char>) -> Seq<char> {
    text + "\nEND\n"@
}

pub fn framed_response(text: &str) -> (r: String)
    ensures
        r@ == framed(text@),
{
    concat(text, "\nEND\n")
}

} // verus!
