//! The client application's state.

use crate::gameplay::play::{drawn, quit_seen, reconciled, sampled, Frame, GameLogic, InputEvent};
use crate::gameplay::server_game_logic::{Returnable, World};
use crate::networking::server::Inbound;
use crate::wire::{decode_snapshot, packet_text, text_snapshot};
use vstd::prelude::*;

verus! {

/// What the application is doing.
#[derive(Clone, Copy, Debug, PartialEq, Eq, Structural)]
pub enum GameState {
    Playing,
}

/// Whether the application goes on, and in which state.
#[derive(Clone, Copy, Debug, PartialEq, Eq, Structural)]
pub struct AppState {
    pub is_running: bool,
    pub state: GameState,
}

impl AppState {
    /// A running application in its only state.
    pub fn new() -> (s: AppState)
        ensures
            s == (AppState { is_running: true, state: GameState::Playing }),
    {
        AppState { is_running: true, state: GameState::Playing }
    }
}

/// The client application: the size of its window, the server it talks to, and the
/// latest snapshot it received.
pub struct App {
    pub width: u32,
    pub height: u32,
    pub connect_to: String,
    pub received: Option<Returnable>,
}

/// The snapshot that counts as latest after `payload` arrived: the one it holds, or
/// the previous one where it holds none.
pub open spec fn latest(previous: Option<World>, payload: Seq<char>) -> Option<World> {
    match text_snapshot(payload) {
        Some(w) => Some(w),
        None => previous,
    }
}

/// The snapshot that counts as latest after one receive.
pub open spec fn latest_after(previous: Option<World>, inbound: Inbound) -> Option<World> {
    match inbound {
        Inbound::Datagram { source, payload } => latest(previous, payload@),
        _ => previous,
    }
}

impl App {
    /// What holds of every application state: the latest snapshot is a snapshot.
    pub open spec fn wf(self) -> bool {
        self.received matches Some(snapshot) ==> snapshot.wf()
    }

    /// The latest snapshot by its value.
    pub open spec fn snapshot(self) -> Option<World> {
        match self.received {
            Some(snapshot) => Some(snapshot@),
            None => None,
        }
    }

    /// An application that talks to `connect_to` and has received nothing yet.
    pub fn new(width: u32, height: u32, connect_to: String) -> (app: App)
        ensures
            app.wf(),
            app.width == width,
            app.height == height,
            app.connect_to@ == connect_to@,
            app.received is None,
    {
        App { width, height, connect_to, received: None }
    }

    /// Takes in the payload of a datagram: a snapshot becomes the latest one, anything
    /// else is dropped and the previous snapshot stays.
    pub fn receive(&mut self, payload: &str)
        requires
            old(self).wf(),
        ensures
            final(self).wf(),
            final(self).width == old(self).width,
            final(self).height == old(self).height,
            final(self).connect_to == old(self).connect_to,
            final(self).snapshot() == latest(old(self).snapshot(), payload@),
    {
        match decode_snapshot(payload) {
            Some(snapshot) => {
                self.received = Some(snapshot);
            },
            None => {},
        }
    }

    /// One turn of the client's main loop. A failed transport stops the client and
    /// changes nothing. Otherwise the datagram, if there is one, is taken in, and the
    /// game takes its frame with the latest snapshot.
    pub fn render(&mut self, play: &mut GameLogic, app_state: &mut AppState, inbound: Inbound, events: &Vec<InputEvent>) -> (frame:
        Frame)
        requires
            old(self).wf(),
            old(play).wf(),
        ensures
            final(self).wf(),
            final(play).wf(),
            final(self).width == old(self).width,
            final(self).height == old(self).height,
            final(self).connect_to == old(self).connect_to,
            frame.stopped == (inbound is Failed),
            frame.stopped ==> {
                &&& final(self).snapshot() == old(self).snapshot()
                &&& final(play)@ == old(play)@
                &&& *final(app_state) == *old(app_state)
                &&& frame.transmit is None
                &&& frame.rectangles@.len() == 0
            },
            !frame.stopped ==> {
                &&& final(self).snapshot() == latest_after(old(self).snapshot(), inbound)
                &&& frame.transmit is Some == (old(play)@.due() && packet_text(old(play)@.packet()) is Some)
                &&& frame.transmit matches Some(text) ==> packet_text(old(play)@.packet()) == Some(text@)
                &&& final(play)@.last_packet_sent == if frame.transmit is Some {
                    Some(old(play)@.packet())
                } else {
                    old(play)@.last_packet_sent
                }
                &&& final(play)@.instance_id == old(play)@.instance_id
                &&& final(play)@.controls == sampled(old(play)@.controls, events@)
                &&& final(app_state).is_running == (old(app_state).is_running && !quit_seen(events@))
                &&& final(app_state).state == old(app_state).state
                &&& match final(self).snapshot() {
                    Some(w) => {
                        &&& final(play)@.players == reconciled(old(play)@.players, w, w.ids.len() as int)
                        &&& frame.rectangles@ == drawn(old(play)@.players, w, w.ids.len() as int, old(play)@.instance_id)
                    },
                    None => final(play)@.players == old(play)@.players && frame.rectangles@.len() == 0,
                }
            },
    {
        match inbound {
            Inbound::Failed => {
                return Frame { transmit: None, rectangles: Vec::new(), stopped: true };
            },
            Inbound::Silent => {},
            Inbound::Datagram { source, payload } => {
                self.receive(payload.as_str());
            },
        }
        play.update(app_state, events, &self.received)
    }
}

} // verus!
