//! The per-connection session: a state machine from inbound frames,
//! heartbeat ticks and hub deliveries to the actions the surrounding
//! transport is to perform. The session owns its liveness clock (`hb`) and
//! its cached display name; it talks to the hub only through the returned
//! actions.

use vstd::prelude::*;

verus! {

use crate::chat_server::{Disconnect, Message, ServerView, has_id, lemma_disconnect_removes, spec_disconnect, view_wf};
use crate::codec::{ClientMessage, WsMessage, decode_ws_message, spec_decode};

/// How often heartbeat pings are sent, in milliseconds.
pub const HEARTBEAT_INTERVAL_MS: u64 = 5000;

/// How long a silent client is tolerated before it is disconnected, in
/// milliseconds.
pub const CLIENT_TIMEOUT_MS: u64 = 10000;

/// Lifecycle of a session.
#[derive(Debug, Clone, Copy, PartialEq, Eq, Structural)]
pub enum SessionState {
    /// Created, waiting for the hub to assign an id.
    Handshaking,
    /// Registered and relaying frames.
    Active,
    /// Shutting down; no further frames are acted on.
    Closing,
    /// Terminal state; the hub has been told to disconnect.
    Closed,
}

/// One inbound event from the transport.
#[derive(Debug, Clone, PartialEq, Eq)]
pub enum Frame {
    /// Ping frame with its payload.
    Ping(Vec<u8>),
    /// Pong frame.
    Pong(Vec<u8>),
    /// Text frame.
    Text(String),
    /// Binary frame (unsupported, discarded).
    Binary(Vec<u8>),
    /// Close frame from the peer.
    Close,
    /// Continuation frame (unsupported, the session stops).
    Continuation,
    /// Empty frame.
    Nop,
    /// Transport-level error.
    Error,
}

/// One action the transport layer is to carry out for the session.
#[derive(Debug, Clone, PartialEq, Eq)]
pub enum Action {
    /// Reply with a pong frame carrying this payload.
    Pong(Vec<u8>),
    /// Send a ping frame carrying this payload.
    Ping(Vec<u8>),
    /// Hand this message to the hub for broadcast.
    Forward(ClientMessage),
    /// Write this text to the peer.
    SendText(String),
    /// Echo the received close frame back to the peer.
    EchoClose,
    /// Stop the session's event loop.
    Stop,
    /// Tell the hub this session is gone.
    HubDisconnect(Disconnect),
}

/// Per-connection session state.
#[derive(Debug, Clone, PartialEq, Eq)]
pub struct WebSocketSession {
    /// Unique session id, 0 until the hub assigns one.
    pub id: u64,
    /// Time of the last recorded heartbeat (ping or pong), in milliseconds.
    pub hb: u64,
    /// Cached peer display name.
    pub name: Option<String>,
    /// Lifecycle state.
    pub state: SessionState,
}

impl WebSocketSession {
    /// A session fresh from the transport handshake: no id yet, the
    /// liveness clock started at `now`.
    pub fn new(name: Option<String>, now: u64) -> (s: WebSocketSession)
        ensures
            s == (WebSocketSession { id: 0, hb: now, name, state: SessionState::Handshaking }),
    {
        WebSocketSession { id: 0, hb: now, name, state: SessionState::Handshaking }
    }

    /// The hub's answer to the registration request: an assigned id makes
    /// the session active; a failed request sends it to `Closing` and stops
    /// it.
    pub fn on_connect_reply(&mut self, reply: Option<u64>) -> (acts: Vec<Action>)
        requires
            old(self).state is Handshaking,
        ensures
            match reply {
                Some(id) => *final(self) == (WebSocketSession {
                    id,
                    state: SessionState::Active,
                    ..*old(self)
                }) && acts@.len() == 0,
                None => *final(self) == (WebSocketSession {
                    state: SessionState::Closing,
                    ..*old(self)
                }) && acts@.len() == 1 && acts@[0] is Stop,
            },
    {
        let mut acts: Vec<Action> = Vec::new();
        match reply {
            Some(id) => {
                self.id = id;
                self.state = SessionState::Active;
            },
            None => {
                self.state = SessionState::Closing;
                acts.push(Action::Stop);
            },
        }
        acts
    }

    /// One inbound frame, at time `now`. Ping and pong record the
    /// heartbeat; a text frame that decodes against the inbound schema
    /// updates the cached name and is forwarded to the hub; one that does
    /// not decode is discarded with no state change; binary frames are
    /// discarded; close, continuation and transport errors stop the
    /// session. Frames arriving when the session is not active are
    /// ignored.
    pub fn handle_frame(&mut self, frame: Frame, now: u64) -> (acts: Vec<Action>)
        ensures
            !(old(self).state is Active) ==> *final(self) == *old(self) && acts@.len() == 0,
            old(self).state is Active ==> match frame {
                Frame::Ping(p) => *final(self) == (WebSocketSession { hb: now, ..*old(self) })
                    && acts@.len() == 1 && (acts@[0] matches Action::Pong(q) && q@ == p@),
                Frame::Pong(_) => *final(self) == (WebSocketSession { hb: now, ..*old(self) })
                    && acts@.len() == 0,
                Frame::Text(t) => match spec_decode(t@) {
                    Some(w) => {
                        &&& final(self).id == old(self).id
                        &&& final(self).hb == old(self).hb
                        &&& final(self).state is Active
                        &&& (final(self).name matches Some(n) && n@ == w.name)
                        &&& acts@.len() == 1
                        &&& (acts@[0] matches Action::Forward(m) && m@.id == old(self).id && (
                        m@.name matches Some(nm)
                            && nm == w.name) && m@.msg == w.msg)
                    },
                    None => *final(self) == *old(self) && acts@.len() == 0,
                },
                Frame::Binary(_) => *final(self) == *old(self) && acts@.len() == 0,
                Frame::Close => *final(self) == (WebSocketSession {
                    state: SessionState::Closing,
                    ..*old(self)
                }) && acts@.len() == 2 && acts@[0] is EchoClose && acts@[1] is Stop,
                Frame::Continuation => *final(self) == (WebSocketSession {
                    state: SessionState::Closing,
                    ..*old(self)
                }) && acts@.len() == 1 && acts@[0] is Stop,
                Frame::Nop => *final(self) == *old(self) && acts@.len() == 0,
                Frame::Error => *final(self) == (WebSocketSession {
                    state: SessionState::Closing,
                    ..*old(self)
                }) && acts@.len() == 1 && acts@[0] is Stop,
            },
    {
        let mut acts: Vec<Action> = Vec::new();
        if !matches!(self.state, SessionState::Active) {
            return acts;
        }
        match frame {
            Frame::Ping(p) => {
                self.hb = now;
                acts.push(Action::Pong(p));
            },
            Frame::Pong(_) => {
                self.hb = now;
            },
            Frame::Text(t) => {
                match decode_ws_message(t.as_str()) {
                    Some(w) => {
                        let WsMessage { name, msg } = w;
                        let name_for_hub = name.clone();
                        self.name = Some(name);
                        acts.push(
                            Action::Forward(
                                ClientMessage { id: self.id, name: Some(name_for_hub), msg },
                            ),
                        );
                    },
                    None => {},
                }
            },
            Frame::Binary(_) => {},
            Frame::Close => {
                self.state = SessionState::Closing;
                acts.push(Action::EchoClose);
                acts.push(Action::Stop);
            },
            Frame::Continuation => {
                self.state = SessionState::Closing;
                acts.push(Action::Stop);
            },
            Frame::Nop => {},
            Frame::Error => {
                self.state = SessionState::Closing;
                acts.push(Action::Stop);
            },
        }
        acts
    }

    /// The recurring heartbeat check, at time `now`: a client silent for
    /// longer than the liveness timeout is reported to the hub and the
    /// session stops, without a final ping; otherwise a ping is sent. Ticks
    /// outside the active state do nothing.
    pub fn heartbeat_tick(&mut self, now: u64) -> (acts: Vec<Action>)
        requires
            old(self).state is Active ==> now >= old(self).hb,
        ensures
            !(old(self).state is Active) ==> *final(self) == *old(self) && acts@.len() == 0,
            old(self).state is Active && now - old(self).hb > CLIENT_TIMEOUT_MS ==> *final(self)
                == (WebSocketSession { state: SessionState::Closing, ..*old(self) })
                && acts@.len() == 2 && (acts@[0] matches Action::HubDisconnect(d) && d.id == old(
                self,
            ).id) && acts@[1] is Stop,
            old(self).state is Active && now - old(self).hb <= CLIENT_TIMEOUT_MS ==> *final(self)
                == *old(self) && acts@.len() == 1 && (acts@[0] matches Action::Ping(q) && q@.len()
                == 0),
    {
        let mut acts: Vec<Action> = Vec::new();
        if !matches!(self.state, SessionState::Active) {
            return acts;
        }
        if now - self.hb > CLIENT_TIMEOUT_MS {
            self.state = SessionState::Closing;
            acts.push(Action::HubDisconnect(Disconnect { id: self.id }));
            acts.push(Action::Stop);
        } else {
            acts.push(Action::Ping(Vec::new()));
        }
        acts
    }

    /// A hub-delivered payload is forwarded verbatim to the peer, in every
    /// state; the transport layer drops it if the peer is gone.
    pub fn on_hub_message(&self, msg: Message) -> (a: Action)
        ensures
            a matches Action::SendText(t) && t@ == msg@,
    {
        Action::SendText(msg.0)
    }

    /// The session is stopping, from any state and on every exit path: it
    /// reaches the terminal state and the hub is owed exactly one
    /// disconnect for this session's id.
    pub fn on_stopping(&mut self) -> (d: Disconnect)
        ensures
            *final(self) == (WebSocketSession { state: SessionState::Closed, ..*old(self) }),
            d.id == old(self).id,
    {
        self.state = SessionState::Closed;
        Disconnect { id: self.id }
    }
}

/// Law: a session that has sent no ping or pong for longer than the
/// liveness timeout since its last recorded heartbeat is disconnected by
/// its own heartbeat check — on exactly these inputs `heartbeat_tick`
/// reports the session's id to the hub and stops the session, by its
/// contract above — and once the hub handles that disconnect its registry
/// no longer contains the session's id.
pub proof fn lemma_liveness_eviction(s: WebSocketSession, hub: ServerView, now: u64)
    requires
        s.state is Active,
        now >= s.hb,
        now - s.hb > CLIENT_TIMEOUT_MS,
        view_wf(hub),
    ensures
        !has_id(spec_disconnect(hub, s.id).sessions, s.id),
        view_wf(spec_disconnect(hub, s.id)),
{
    lemma_disconnect_removes(hub, s.id);
}

} // verus!
