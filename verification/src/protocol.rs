//! Wire-facing value types.
//!
//! These are the structured forms of what travels between server and
//! players. The JSON framing itself is outside the engine: the host parses
//! incoming payloads into an `Action` (or fails, which still counts as the
//! player having acted) and serializes outgoing `StateView`s.

use vstd::prelude::*;

verus! {

/// One ship movement as submitted by a player: planets are named, not
/// indexed, because a player only sees names.
pub struct Command {
    /// Name of the planet the ships leave from.
    pub origin: String,
    /// Name of the planet the ships head to.
    pub destination: String,
    /// How many ships to move.
    pub ship_count: u64,
}

/// A player's submission for one round: any number of commands, each
/// validated independently.
pub struct Action {
    /// The submitted commands, in submission order.
    pub commands: Vec<Command>,
}

/// A planet as one player sees it: owner ids are rotated so the viewer is
/// always player zero.
pub struct PlanetView {
    /// The planet's name.
    pub name: String,
    /// Owning player in the viewer's rotated numbering, if any.
    pub owner: Option<usize>,
    /// Ships stationed there.
    pub ship_count: u64,
}

/// A fleet in flight as one player sees it.
pub struct ExpeditionView {
    /// Sending player in the viewer's rotated numbering.
    pub owner: usize,
    /// Index of the destination planet.
    pub target: usize,
    /// Ships underway.
    pub ship_count: u64,
}

/// The per-player state dump broadcast at the start of a round. Player ids
/// are rotated so that the receiving player always perceives itself at the
/// canonical position zero; this keeps client logic independent of its own
/// id.
pub struct StateView {
    /// All planets, with rotated owners.
    pub planets: Vec<PlanetView>,
    /// All fleets in flight, with rotated owners.
    pub expeditions: Vec<ExpeditionView>,
    /// Completed simulation steps.
    pub turn: u64,
}

/// Session metadata announced to observers: the display names of the
/// participating players.
pub struct GameInfo {
    /// Display names, in roster order.
    pub players: Vec<String>,
}

} // verus!
