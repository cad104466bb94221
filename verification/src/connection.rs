use vstd::prelude::*;

verus! {

/// Per-connection protocol state: one instance per live channel. It
/// holds the identity the connection speaks for and whether the name
/// message has arrived; the channel itself stays outside the library.
pub struct ConnectionHandler {
    /// The identity this connection speaks for, fixed at admission.
    pub player_id: u64,
    /// Whether the display name has been received yet.
    pub named: bool,
}

/// What to do with one incoming text message.
#[derive(Clone, Copy, PartialEq, Eq, Structural, Debug)]
pub enum TextDisposition {
    /// The connection's first message: take it as the display name,
    /// never as a guess.
    UseAsName,
    /// Every later message: resolve it as a guess.
    UseAsGuess,
}

impl ConnectionHandler {
    /// A handler for a freshly admitted connection: no name yet.
    pub fn new(player_id: u64) -> (h: ConnectionHandler)
        ensures
            h.player_id == player_id,
            !h.named,
    {
        ConnectionHandler { player_id, named: false }
    }

    /// Classify one incoming message: the first names the player and
    /// switches the connection into guessing; all later ones are
    /// guesses. The identity never changes.
    pub fn on_text(&mut self) -> (d: TextDisposition)
        ensures
            final(self).player_id == old(self).player_id,
            final(self).named,
            d == (if old(self).named {
                TextDisposition::UseAsGuess
            } else {
                TextDisposition::UseAsName
            }),
    {
        if self.named {
            TextDisposition::UseAsGuess
        } else {
            self.named = true;
            TextDisposition::UseAsName
        }
    }
}

} // verus!
