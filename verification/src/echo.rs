//! A minimal game type: its public state is the last message any member sent,
//! every message counts as a change, and the sender gets the message back.

use vstd::prelude::*;

use crate::game_state::{EventId, Game, GameCommon, Updates};
use crate::json::json_null;
use crate::protocol::PlayerId;

verus! {

#[derive(Clone)]
pub struct EchoGame {
    /// The last message received, `null` before the first one.
    pub last: serde_json::Value,
}

impl EchoGame {
    pub fn new() -> Self {
        EchoGame { last: json_null() }
    }
}

impl Game for EchoGame {
    /// The public state is exactly the last message received.
    fn public_state(&self, _common: &GameCommon) -> (r: serde_json::Value)
        ensures
            r == self.last,
    {
        self.last.clone()
    }

    fn state_for_player(&self, _common: &GameCommon, _player: PlayerId) -> serde_json::Value {
        json_null()
    }

    /// Echo schedules no timers, so a fired event changes nothing.
    fn on_event(&mut self, _common: &GameCommon, _id: EventId) -> (u: Updates)
        ensures
            !u.state_changed,
            u.events@.len() == 0,
    {
        Updates::none()
    }

    /// Store the message as the new public state, report a change, and hand
    /// the sender a copy of its own message back.
    fn on_message_from(
        &mut self,
        _common: &GameCommon,
        _player: PlayerId,
        message: serde_json::Value,
    ) -> (r: (Updates, Result<serde_json::Value, serde_json::Value>))
        ensures
            r.0.state_changed,
            r.0.events@.len() == 0,
            final(self).last == message,
            r.1 == Ok::<serde_json::Value, serde_json::Value>(message),
    {
        let reply = message.clone();
        self.last = message;
        (Updates::changed(), Ok(reply))
    }
}

} // verus!
