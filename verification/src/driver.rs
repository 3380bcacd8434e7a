//! Game round driver.
//!
//! The driver owns the authoritative game state, validates and applies
//! player commands, and builds the per-player rotated views broadcast at
//! the start of each round. Validation always runs against the current
//! state — commands are checked at apply time, in a fixed order — so a
//! round close is deterministic given the message order.

use vstd::prelude::*;

use crate::barrier::{Barrier, spec_begin_round, spec_set_alive};
use crate::protocol::{Action, Command, ExpeditionView, GameInfo, PlanetView, StateView};
use crate::rules::{
    clone_string, option_eq, spec_advance, spec_dispatch, spec_find_from, spec_find_planet,
    spec_is_finished, spec_sat_add, state_wf, Dispatch, Expedition, Planet, PwState, StateModel,
};

verus! {

/// Why a single command was refused. Any refusal is fatal only to that one
/// command: the round proceeds as if it was never submitted.
#[derive(Clone, Copy, Debug, PartialEq, Eq, Structural)]
pub enum CommandError {
    /// The origin holds fewer ships than the command asks to move.
    NotEnoughShips,
    /// The origin is not owned by the submitting player.
    OriginNotOwned,
    /// The command asks to move zero ships.
    ZeroShipMove,
    /// No planet has the origin name.
    OriginDoesNotExist,
    /// No planet has the destination name.
    DestinationDoesNotExist,
}

/// One participant as the driver sees it: a stable id (the player id) and a
/// display name. The outbound byte sink belongs to the host, not to the
/// engine.
pub struct Client {
    /// Stable player id.
    pub id: usize,
    /// Display name.
    pub player_name: String,
}

/// Static session configuration: the map and the turn bound.
pub struct Config {
    /// The initial planets; owners index the player roster.
    pub planets: Vec<Planet>,
    /// Bound on the number of simulation steps.
    pub max_turns: u64,
}

/// A parsed inbound payload attributed to a player. `action` is `None` when
/// the payload was unparsable — which still counts as the player having
/// acted, so a malformed message can never stall a round.
pub struct PlayerMessage {
    /// The submitting player.
    pub player: usize,
    /// The parsed submission, or `None` for an unparsable payload.
    pub action: Option<Action>,
}

/// Per-command verdicts for one player's submission, or the parse-failure
/// indicator. A parse failure is reported distinctly from any rule error.
pub enum MessageOutcome {
    /// The payload could not be parsed; no command ran.
    ParseFailure,
    /// Verdict per submitted command, in submission order: `None` means
    /// dispatched, `Some` carries the rule error.
    Commands(Vec<Option<CommandError>>),
}

/// The recorded result of executing one player's message.
pub struct MessageReport {
    /// The submitting player.
    pub player: usize,
    /// What became of the submission.
    pub outcome: MessageOutcome,
}

/// The game round driver: authoritative state plus the client roster.
pub struct PwController {
    /// The authoritative game state.
    pub state: PwState,
    /// Clients still addressed by round broadcasts; disconnecting removes a
    /// client here while the player entity lives on in the state.
    pub clients: Vec<Client>,
}

/// Validation of one command against a state, in the fixed order: origin
/// name, destination name, ownership, garrison size, nonzero move.
pub open spec fn spec_parse_command(s: StateModel, player_id: usize, c: Command) -> Result<
    Dispatch,
    CommandError,
> {
    match spec_find_planet(s.planets, c.origin@) {
        None => Err(CommandError::OriginDoesNotExist),
        Some(o) => match spec_find_planet(s.planets, c.destination@) {
            None => Err(CommandError::DestinationDoesNotExist),
            Some(t) => if s.planets[o].owner != Some(player_id) {
                Err(CommandError::OriginNotOwned)
            } else if s.planets[o].ship_count < c.ship_count {
                Err(CommandError::NotEnoughShips)
            } else if c.ship_count == 0 {
                Err(CommandError::ZeroShipMove)
            } else {
                Ok(Dispatch { origin: o as usize, target: t as usize, ship_count: c.ship_count })
            },
        },
    }
}

/// A found planet lies in range and bears the sought name.
pub proof fn lemma_find_in_range(planets: Seq<Planet>, name: Seq<char>, i: int)
    ensures
        match spec_find_from(planets, name, i) {
            Some(j) => i <= j < planets.len() && planets[j].name@ == name,
            None => true,
        },
    decreases planets.len() - i,
{
    if 0 <= i < planets.len() && planets[i].name@ != name {
        lemma_find_in_range(planets, name, i + 1);
    }
}

/// A dispatch produced by validation satisfies every precondition of its
/// application: indices in range, origin owned by the submitter, garrison
/// sufficient, move nonzero.
pub proof fn lemma_parse_ok_valid(s: StateModel, player_id: usize, c: Command)
    requires
        s.planets.len() <= usize::MAX,
    ensures
        match spec_parse_command(s, player_id, c) {
            Ok(d) => d.origin < s.planets.len() && d.target < s.planets.len()
                && s.planets[d.origin as int].owner == Some(player_id) && d.ship_count
                <= s.planets[d.origin as int].ship_count && d.ship_count > 0,
            Err(_) => true,
        },
{
    lemma_find_in_range(s.planets, c.origin@, 0);
    lemma_find_in_range(s.planets, c.destination@, 0);
}

/// A planet lookup is unaffected by an update that preserves the planet's
/// name.
proof fn lemma_find_update_same_name(
    planets: Seq<Planet>,
    i: int,
    p: Planet,
    name: Seq<char>,
    k: int,
)
    requires
        0 <= i < planets.len(),
        p.name@ == planets[i].name@,
    ensures
        spec_find_from(planets.update(i, p), name, k) == spec_find_from(planets, name, k),
    decreases planets.len() - k,
{
    if 0 <= k < planets.len() {
        lemma_find_update_same_name(planets, i, p, name, k + 1);
    }
}

/// Validation order matters only for shared-resource exhaustion: of two
/// commands each requesting an origin's entire garrison, the one processed
/// first is dispatched and the second is refused with `NotEnoughShips` —
/// the second command sees the garrison the first one emptied.
pub proof fn lemma_exhaustion_order(s: StateModel, pid: usize, c: Command)
    requires
        s.planets.len() <= usize::MAX,
        spec_parse_command(s, pid, c) matches Ok(d) && d.ship_count == s.planets[d.origin as int].ship_count,
    ensures
        spec_report(s, pid, c) is None,
        spec_report(spec_exec_upto(s, pid, seq![c, c], 1), pid, c) == Some(
            CommandError::NotEnoughShips,
        ),
        spec_exec_upto(s, pid, seq![c, c], 2) == spec_exec_upto(s, pid, seq![c, c], 1),
{
    lemma_parse_ok_valid(s, pid, c);
    let d = spec_parse_command(s, pid, c)->Ok_0;
    let s1 = spec_dispatch(s, d);
    assert(spec_exec_upto(s, pid, seq![c, c], 0) == s);
    assert(seq![c, c][0] == c);
    assert(seq![c, c][1] == c);
    assert(spec_exec_upto(s, pid, seq![c, c], 1) == s1);
    lemma_find_update_same_name(
        s.planets,
        d.origin as int,
        s1.planets[d.origin as int],
        c.origin@,
        0,
    );
    lemma_find_update_same_name(
        s.planets,
        d.origin as int,
        s1.planets[d.origin as int],
        c.destination@,
        0,
    );
    lemma_find_in_range(s.planets, c.origin@, 0);
    assert(s1.planets[d.origin as int].ship_count == 0);
    assert(s1.planets[d.origin as int].owner == Some(pid));
    assert(spec_parse_command(s1, pid, c) == Err::<Dispatch, CommandError>(
        CommandError::NotEnoughShips,
    ));
}

/// State after executing the first `k` commands of one player's action:
/// each command is validated against the state left by its predecessors and
/// dispatched if valid, dropped if not.
pub open spec fn spec_exec_upto(s: StateModel, pid: usize, cmds: Seq<Command>, k: int) -> StateModel
    decreases k,
{
    if k <= 0 {
        s
    } else {
        let prev = spec_exec_upto(s, pid, cmds, k - 1);
        match spec_parse_command(prev, pid, cmds[k - 1]) {
            Ok(d) => spec_dispatch(prev, d),
            Err(_) => prev,
        }
    }
}

/// The verdict recorded for one command: `None` when dispatched, the rule
/// error otherwise.
pub open spec fn spec_report(s: StateModel, pid: usize, c: Command) -> Option<CommandError> {
    match spec_parse_command(s, pid, c) {
        Ok(_) => None,
        Err(e) => Some(e),
    }
}

/// State after one whole message: unchanged for an unparsable payload, the
/// command fold otherwise.
pub open spec fn spec_message_state(s: StateModel, pid: usize, action: Option<Action>) -> StateModel {
    match action {
        Option::None => s,
        Option::Some(a) => spec_exec_upto(s, pid, a.commands@, a.commands@.len() as int),
    }
}

/// State after the first `k` buffered messages, in buffer order.
pub open spec fn spec_msgs_upto(s: StateModel, msgs: Seq<PlayerMessage>, k: int) -> StateModel
    decreases k,
{
    if k <= 0 {
        s
    } else {
        spec_message_state(spec_msgs_upto(s, msgs, k - 1), msgs[k - 1].player, msgs[k - 1].action)
    }
}

/// One planet after regeneration: an owned planet gains one ship.
pub open spec fn spec_repop_planet(p: Planet) -> Planet {
    if p.owner is Some {
        Planet { ship_count: spec_sat_add(p.ship_count, 1), ..p }
    } else {
        p
    }
}

/// The state after regeneration.
pub open spec fn spec_repop_state(s: StateModel) -> StateModel {
    StateModel { planets: Seq::new(s.planets.len(), |i: int| spec_repop_planet(s.planets[i])), ..s }
}

/// The whole effect of closing a round: regeneration, then all buffered
/// messages in buffer order, then one simulation step.
pub open spec fn spec_round_state(s: StateModel, msgs: Seq<PlayerMessage>) -> StateModel {
    spec_advance(spec_msgs_upto(spec_repop_state(s), msgs, msgs.len() as int))
}

/// Closing a round is deterministic: the same starting state and the same
/// message sequence always yield the same resulting state.
pub proof fn lemma_round_deterministic(
    s1: StateModel,
    s2: StateModel,
    m1: Seq<PlayerMessage>,
    m2: Seq<PlayerMessage>,
)
    requires
        s1 == s2,
        m1 == m2,
    ensures
        spec_round_state(s1, m1) == spec_round_state(s2, m2),
{
}

/// The players that are still alive, as a set of ids.
pub open spec fn living_set(alive: Seq<bool>) -> Set<usize> {
    Set::new(|p: usize| p < alive.len() && alive[p as int])
}

/// The players a new round waits on: alive players that still have a
/// client. Players without a client cannot act; players without life may
/// not.
pub open spec fn actors_set(clients: Seq<Client>, alive: Seq<bool>) -> Set<usize> {
    Set::new(
        |p: usize| (exists|i: int| 0 <= i < clients.len() && clients[i].id == p) && p
            < alive.len() && alive[p as int],
    )
}

/// Owner relabeling for a rotated view: the viewer becomes player zero and
/// all ids keep their cyclic order among `n` players.
pub open spec fn spec_rotate_id(owner: usize, viewer: usize, n: usize) -> usize {
    if owner >= viewer {
        (owner - viewer) as usize
    } else {
        (n - (viewer - owner)) as usize
    }
}

/// The branch formula above is exactly the cyclic rotation
/// `(owner + n - viewer) % n`, the offset that maps the viewer to zero.
pub proof fn lemma_rotate_is_cyclic(owner: usize, viewer: usize, n: usize)
    requires
        owner < n,
        viewer < n,
    ensures
        spec_rotate_id(owner, viewer, n) == (owner + n - viewer) % (n as int),
{
    if owner >= viewer {
        vstd::arithmetic::div_mod::lemma_mod_add_multiples_vanish(owner - viewer, n as int);
        vstd::arithmetic::div_mod::lemma_small_mod((owner - viewer) as nat, n as nat);
    } else {
        vstd::arithmetic::div_mod::lemma_small_mod((owner + n - viewer) as nat, n as nat);
    }
}

/// Exec counterpart of `spec_rotate_id`.
fn rotate_id(owner: usize, viewer: usize, n: usize) -> (r: usize)
    requires
        owner < n,
        viewer < n,
    ensures
        r == spec_rotate_id(owner, viewer, n),
        r < n,
{
    if owner >= viewer {
        owner - viewer
    } else {
        n - (viewer - owner)
    }
}

/// What a correct per-player view contains: every planet and fleet of the
/// state, with ship counts and names intact and all owner ids rotated so
/// the viewer is player zero.
pub open spec fn spec_view_ok(s: StateModel, viewer: usize, v: StateView) -> bool {
    let n = s.alive.len() as usize;
    &&& v.turn == s.turn
    &&& v.planets@.len() == s.planets.len()
    &&& forall|i: int|
        0 <= i < s.planets.len() ==> {
            &&& (#[trigger] v.planets@[i]).name@ == s.planets[i].name@
            &&& v.planets@[i].ship_count == s.planets[i].ship_count
            &&& v.planets@[i].owner == match s.planets[i].owner {
                Some(o) => Some(spec_rotate_id(o, viewer, n)),
                None => None::<usize>,
            }
        }
    &&& v.expeditions@.len() == s.expeditions.len()
    &&& forall|i: int|
        0 <= i < s.expeditions.len() ==> {
            &&& (#[trigger] v.expeditions@[i]).owner == spec_rotate_id(
                s.expeditions[i].owner,
                viewer,
                n,
            )
            &&& v.expeditions@[i].target == s.expeditions[i].target
            &&& v.expeditions@[i].ship_count == s.expeditions[i].ship_count
        }
}

impl PwController {
    /// Driver invariant: the state invariant, a duplicate-free client
    /// roster, and every client standing for a player of the roster.
    pub open spec fn wf(&self) -> bool {
        &&& state_wf(self.state@)
        &&& forall|i: int, j: int|
            0 <= i < self.clients@.len() && 0 <= j < self.clients@.len() && i != j
                ==> (#[trigger] self.clients@[i]).id != (#[trigger] self.clients@[j]).id
        &&& forall|i: int|
            0 <= i < self.clients@.len() ==> (#[trigger] self.clients@[i]).id
                < self.state@.alive.len()
    }

    /// Create the driver: the configured map, every player alive, no fleet
    /// in flight, turn zero.
    pub fn new(conf: Config, clients: Vec<Client>) -> (r: PwController)
        requires
            forall|i: int, j: int|
                0 <= i < conf.planets@.len() && 0 <= j < conf.planets@.len() && i != j
                    ==> conf.planets@[i].name@ != conf.planets@[j].name@,
            forall|i: int|
                0 <= i < conf.planets@.len() ==> match #[trigger] conf.planets@[i].owner {
                    Some(p) => p < clients@.len(),
                    None => true,
                },
            forall|i: int, j: int|
                0 <= i < clients@.len() && 0 <= j < clients@.len() && i != j
                    ==> (#[trigger] clients@[i]).id != (#[trigger] clients@[j]).id,
            forall|i: int| 0 <= i < clients@.len() ==> (#[trigger] clients@[i]).id < clients@.len(),
        ensures
            r.wf(),
            r.state@.planets == conf.planets@,
            r.state@.alive.len() == clients@.len(),
            forall|p: int| 0 <= p < clients@.len() ==> r.state@.alive[p],
            r.state@.expeditions == Seq::<Expedition>::empty(),
            r.state@.turn == 0,
            r.state@.max_turns == conf.max_turns,
            r.clients@ == clients@,
    {
        let n = clients.len();
        let mut alive: Vec<bool> = Vec::new();
        let mut i: usize = 0;
        while i < n
            invariant
                i <= n,
                alive@.len() == i,
                forall|p: int| 0 <= p < i ==> alive@[p],
            decreases n - i,
        {
            alive.push(true);
            i = i + 1;
        }
        PwController {
            state: PwState {
                planets: conf.planets,
                alive,
                expeditions: Vec::new(),
                turn: 0,
                max_turns: conf.max_turns,
            },
            clients,
        }
    }

    /// The announced session metadata: player display names in roster
    /// order.
    pub fn game_info(&self) -> (r: GameInfo)
        ensures
            r.players@.len() == self.clients@.len(),
            forall|i: int|
                0 <= i < self.clients@.len() ==> (#[trigger] r.players@[i])@
                    == self.clients@[i].player_name@,
    {
        let n = self.clients.len();
        let mut players: Vec<String> = Vec::new();
        let mut i: usize = 0;
        while i < n
            invariant
                n == self.clients@.len(),
                i <= n,
                players@.len() == i,
                forall|j: int|
                    0 <= j < i ==> (#[trigger] players@[j])@ == self.clients@[j].player_name@,
            decreases n - i,
        {
            players.push(clone_string(&self.clients[i].player_name));
            i = i + 1;
        }
        GameInfo { players }
    }

    /// Validate one command against the current state. Checks run in a
    /// fixed order; the first failure is the verdict.
    pub fn parse_command(&self, player_id: usize, mv: &Command) -> (r: Result<
        Dispatch,
        CommandError,
    >)
        ensures
            r == spec_parse_command(self.state@, player_id, *mv),
    {
        let origin_id = match self.state.find_planet(&mv.origin) {
            Some(i) => i,
            None => {
                return Err(CommandError::OriginDoesNotExist);
            },
        };
        let target_id = match self.state.find_planet(&mv.destination) {
            Some(i) => i,
            None => {
                return Err(CommandError::DestinationDoesNotExist);
            },
        };
        if !option_eq(self.state.planets[origin_id].owner, Some(player_id)) {
            return Err(CommandError::OriginNotOwned);
        }
        if self.state.planets[origin_id].ship_count < mv.ship_count {
            return Err(CommandError::NotEnoughShips);
        }
        if mv.ship_count == 0 {
            return Err(CommandError::ZeroShipMove);
        }
        Ok(Dispatch { origin: origin_id, target: target_id, ship_count: mv.ship_count })
    }

    /// Execute one player's commands in submission order, each validated
    /// against the state its predecessors left. Returns the verdict per
    /// command; an invalid command is dropped, it never aborts the rest.
    pub fn execute_action(&mut self, player_id: usize, action: &Action) -> (r: Vec<
        Option<CommandError>,
    >)
        requires
            old(self).wf(),
        ensures
            final(self).wf(),
            final(self).clients@ == old(self).clients@,
            final(self).state@ == spec_exec_upto(
                old(self).state@,
                player_id,
                action.commands@,
                action.commands@.len() as int,
            ),
            r@.len() == action.commands@.len(),
            forall|i: int|
                0 <= i < r@.len() ==> r@[i] == spec_report(
                    spec_exec_upto(old(self).state@, player_id, action.commands@, i),
                    player_id,
                    action.commands@[i],
                ),
            final(self).state@.alive == old(self).state@.alive,
            final(self).state@.turn == old(self).state@.turn,
            final(self).state@.max_turns == old(self).state@.max_turns,
    {
        let ghost s0 = self.state@;
        let n = action.commands.len();
        let mut r: Vec<Option<CommandError>> = Vec::new();
        let mut k: usize = 0;
        while k < n
            invariant
                self.wf(),
                n == action.commands@.len(),
                k <= n,
                self.clients@ == old(self).clients@,
                self.state@ == spec_exec_upto(s0, player_id, action.commands@, k as int),
                self.state@.alive == s0.alive,
                self.state@.turn == s0.turn,
                self.state@.max_turns == s0.max_turns,
                r@.len() == k,
                forall|i: int|
                    0 <= i < k ==> r@[i] == spec_report(
                        spec_exec_upto(s0, player_id, action.commands@, i),
                        player_id,
                        action.commands@[i],
                    ),
            decreases n - k,
        {
            let cmd = &action.commands[k];
            match self.parse_command(player_id, cmd) {
                Ok(d) => {
                    proof {
                        vstd::std_specs::vec::axiom_spec_len(&self.state.planets);
                        lemma_parse_ok_valid(self.state@, player_id, *cmd);
                    }
                    self.state.dispatch(&d);
                    r.push(None);
                },
                Err(e) => {
                    r.push(Some(e));
                },
            }
            k = k + 1;
        }
        r
    }

    /// Execute one player's message: an unparsable payload leaves the state
    /// untouched and is reported as a parse failure — distinctly from any
    /// rule error — while a parsed action runs command by command.
    pub fn execute_message(&mut self, player_id: usize, action: &Option<Action>) -> (r:
        MessageOutcome)
        requires
            old(self).wf(),
        ensures
            final(self).wf(),
            final(self).clients@ == old(self).clients@,
            final(self).state@ == spec_message_state(old(self).state@, player_id, *action),
            final(self).state@.alive == old(self).state@.alive,
            final(self).state@.turn == old(self).state@.turn,
            final(self).state@.max_turns == old(self).state@.max_turns,
            match *action {
                Option::None => r is ParseFailure,
                Option::Some(a) => r matches MessageOutcome::Commands(v) && v@.len()
                    == a.commands@.len() && forall|i: int|
                    0 <= i < v@.len() ==> v@[i] == spec_report(
                        spec_exec_upto(old(self).state@, player_id, a.commands@, i),
                        player_id,
                        a.commands@[i],
                    ),
            },
    {
        match action {
            Some(a) => MessageOutcome::Commands(self.execute_action(player_id, a)),
            None => MessageOutcome::ParseFailure,
        }
    }

    /// Execute every buffered message in buffer order, recording one report
    /// per message.
    pub fn execute_messages(&mut self, msgs: &Vec<PlayerMessage>) -> (r: Vec<MessageReport>)
        requires
            old(self).wf(),
        ensures
            final(self).wf(),
            final(self).clients@ == old(self).clients@,
            final(self).state@ == spec_msgs_upto(old(self).state@, msgs@, msgs@.len() as int),
            final(self).state@.alive == old(self).state@.alive,
            final(self).state@.turn == old(self).state@.turn,
            final(self).state@.max_turns == old(self).state@.max_turns,
            r@.len() == msgs@.len(),
            forall|i: int|
                0 <= i < r@.len() ==> (#[trigger] r@[i]).player == msgs@[i].player && (match msgs@[i].action {
                    Option::None => r@[i].outcome is ParseFailure,
                    Option::Some(a) => r@[i].outcome matches MessageOutcome::Commands(v) && v@.len()
                        == a.commands@.len() && forall|j: int|
                        0 <= j < v@.len() ==> v@[j] == spec_report(
                            spec_exec_upto(
                                spec_msgs_upto(old(self).state@, msgs@, i),
                                msgs@[i].player,
                                a.commands@,
                                j,
                            ),
                            msgs@[i].player,
                            a.commands@[j],
                        ),
                }),
    {
        let ghost s0 = self.state@;
        let n = msgs.len();
        let mut r: Vec<MessageReport> = Vec::new();
        let mut k: usize = 0;
        while k < n
            invariant
                self.wf(),
                n == msgs@.len(),
                k <= n,
                self.clients@ == old(self).clients@,
                self.state@ == spec_msgs_upto(s0, msgs@, k as int),
                self.state@.alive == s0.alive,
                self.state@.turn == s0.turn,
                self.state@.max_turns == s0.max_turns,
                r@.len() == k,
                forall|i: int|
                    0 <= i < k ==> (#[trigger] r@[i]).player == msgs@[i].player && (match msgs@[i].action {
                        Option::None => r@[i].outcome is ParseFailure,
                        Option::Some(a) => r@[i].outcome matches MessageOutcome::Commands(v)
                            && v@.len() == a.commands@.len() && forall|j: int|
                            0 <= j < v@.len() ==> v@[j] == spec_report(
                                spec_exec_upto(
                                    spec_msgs_upto(s0, msgs@, i),
                                    msgs@[i].player,
                                    a.commands@,
                                    j,
                                ),
                                msgs@[i].player,
                                a.commands@[j],
                            ),
                    }),
            decreases n - k,
        {
            let m = &msgs[k];
            let outcome = self.execute_message(m.player, &m.action);
            r.push(MessageReport { player: m.player, outcome });
            k = k + 1;
        }
        r
    }

    /// Regenerate every owned planet's garrison by one ship.
    fn repopulate(&mut self)
        requires
            old(self).wf(),
        ensures
            final(self).wf(),
            final(self).clients@ == old(self).clients@,
            final(self).state@ == spec_repop_state(old(self).state@),
    {
        let ghost s0 = self.state@;
        let n = self.state.planets.len();
        let mut i: usize = 0;
        while i < n
            invariant
                self.wf(),
                n == self.state@.planets.len(),
                i <= n,
                self.clients@ == old(self).clients@,
                self.state@.alive == s0.alive,
                self.state@.expeditions == s0.expeditions,
                self.state@.turn == s0.turn,
                self.state@.max_turns == s0.max_turns,
                self.state@.planets.len() == s0.planets.len(),
                forall|j: int|
                    0 <= j < i ==> self.state@.planets[j] == spec_repop_planet(#[trigger] s0.planets[j]),
                forall|j: int| i <= j < n ==> self.state@.planets[j] == s0.planets[j],
            decreases n - i,
        {
            let p = &self.state.planets[i];
            if p.owner.is_some() {
                let updated = Planet {
                    name: clone_string(&p.name),
                    owner: p.owner,
                    ship_count: crate::rules::sat_add(p.ship_count, 1),
                };
                self.state.planets[i] = updated;
            }
            i = i + 1;
        }
        proof {
            assert(self.state@.planets =~= spec_repop_state(s0).planets);
            assert(self.state@ =~= spec_repop_state(s0));
        }
    }

    /// Build one player's rotated view of the current state.
    fn build_view(&self, viewer: usize) -> (v: StateView)
        requires
            self.wf(),
            viewer < self.state@.alive.len(),
        ensures
            spec_view_ok(self.state@, viewer, v),
    {
        let n_players = self.state.alive.len();
        let n = self.state.planets.len();
        let mut planets: Vec<PlanetView> = Vec::new();
        let mut i: usize = 0;
        while i < n
            invariant
                self.wf(),
                n == self.state@.planets.len(),
                n_players == self.state@.alive.len(),
                viewer < n_players,
                i <= n,
                planets@.len() == i,
                forall|j: int|
                    0 <= j < i ==> {
                        &&& (#[trigger] planets@[j]).name@ == self.state@.planets[j].name@
                        &&& planets@[j].ship_count == self.state@.planets[j].ship_count
                        &&& planets@[j].owner == match self.state@.planets[j].owner {
                            Some(o) => Some(spec_rotate_id(o, viewer, n_players)),
                            None => None::<usize>,
                        }
                    },
            decreases n - i,
        {
            let p = &self.state.planets[i];
            let owner = match p.owner {
                Some(o) => Some(rotate_id(o, viewer, n_players)),
                None => None,
            };
            planets.push(
                PlanetView { name: clone_string(&p.name), owner, ship_count: p.ship_count },
            );
            i = i + 1;
        }
        let m = self.state.expeditions.len();
        let mut expeditions: Vec<ExpeditionView> = Vec::new();
        let mut k: usize = 0;
        while k < m
            invariant
                self.wf(),
                m == self.state@.expeditions.len(),
                n_players == self.state@.alive.len(),
                viewer < n_players,
                k <= m,
                expeditions@.len() == k,
                forall|j: int|
                    0 <= j < k ==> {
                        &&& (#[trigger] expeditions@[j]).owner == spec_rotate_id(
                            self.state@.expeditions[j].owner,
                            viewer,
                            n_players,
                        )
                        &&& expeditions@[j].target == self.state@.expeditions[j].target
                        &&& expeditions@[j].ship_count == self.state@.expeditions[j].ship_count
                    },
            decreases m - k,
        {
            let e = self.state.expeditions[k];
            expeditions.push(
                ExpeditionView {
                    owner: rotate_id(e.owner, viewer, n_players),
                    target: e.target,
                    ship_count: e.ship_count,
                },
            );
            k = k + 1;
        }
        StateView { planets, expeditions, turn: self.state.turn }
    }

    /// Open a round: build one rotated view per alive client and tell the
    /// barrier to wait on exactly those players. Returns the views for the
    /// host to send.
    pub fn prompt_players(&self, lock: &mut Barrier) -> (r: Vec<(usize, StateView)>)
        requires
            self.wf(),
            old(lock).wf(),
        ensures
            final(lock).wf(),
            final(lock)@ == spec_begin_round(
                old(lock)@,
                actors_set(self.clients@, self.state@.alive),
            ),
            forall|i: int|
                0 <= i < r@.len() ==> spec_view_ok(self.state@, (#[trigger] r@[i]).0, r@[i].1),
            forall|i: int|
                0 <= i < r@.len() ==> actors_set(self.clients@, self.state@.alive).contains(
                    (#[trigger] r@[i]).0,
                ),
            forall|p: usize|
                actors_set(self.clients@, self.state@.alive).contains(p)
                    ==> exists|i: int| 0 <= i < r@.len() && (#[trigger] r@[i]).0 == p,
    {
        let n = self.clients.len();
        let mut expected: Vec<usize> = Vec::new();
        let mut views: Vec<(usize, StateView)> = Vec::new();
        let mut i: usize = 0;
        while i < n
            invariant
                self.wf(),
                n == self.clients@.len(),
                i <= n,
                expected@.no_duplicates(),
                expected@.len() == views@.len(),
                forall|k: int| 0 <= k < views@.len() ==> (#[trigger] views@[k]).0 == expected@[k],
                forall|p: usize|
                    #[trigger] expected@.contains(p) <==> ((exists|j: int|
                        0 <= j < i && (#[trigger] self.clients@[j]).id == p) && p
                        < self.state@.alive.len() && self.state@.alive[p as int]),
                forall|k: int|
                    0 <= k < views@.len() ==> spec_view_ok(
                        self.state@,
                        (#[trigger] views@[k]).0,
                        views@[k].1,
                    ),
            decreases n - i,
        {
            let id = self.clients[i].id;
            if self.state.alive[id] {
                let ghost e0 = expected@;
                proof {
                    if e0.contains(id) {
                        let j = choose|j: int|
                            0 <= j < i && (#[trigger] self.clients@[j]).id == id;
                        assert(self.clients@[j].id == self.clients@[i as int].id);
                        assert(false);
                    }
                }
                let view = self.build_view(id);
                expected.push(id);
                views.push((id, view));
                proof {
                    crate::barrier::lemma_push_contains(e0, id);
                    crate::barrier::lemma_push_no_duplicates(e0, id);
                }
            }
            i = i + 1;
        }
        proof {
            assert(expected@.to_set() =~= actors_set(self.clients@, self.state@.alive));
        }
        lock.begin_round(&expected);
        proof {
            assert forall|p: usize|
                actors_set(self.clients@, self.state@.alive).contains(p)
                implies exists|k: int| 0 <= k < views@.len() && (#[trigger] views@[k]).0 == p by {
                assert(expected@.contains(p));
                let k = choose|k: int| 0 <= k < expected@.len() && expected@[k] == p;
                assert(views@[k].0 == p);
            }
        }
        views
    }

    /// Open the first round.
    pub fn init(&self, lock: &mut Barrier) -> (r: Vec<(usize, StateView)>)
        requires
            self.wf(),
            old(lock).wf(),
        ensures
            final(lock).wf(),
            final(lock)@ == spec_begin_round(
                old(lock)@,
                actors_set(self.clients@, self.state@.alive),
            ),
            forall|i: int|
                0 <= i < r@.len() ==> spec_view_ok(self.state@, (#[trigger] r@[i]).0, r@[i].1),
            forall|i: int|
                0 <= i < r@.len() ==> actors_set(self.clients@, self.state@.alive).contains(
                    (#[trigger] r@[i]).0,
                ),
            forall|p: usize|
                actors_set(self.clients@, self.state@.alive).contains(p)
                    ==> exists|i: int| 0 <= i < r@.len() && (#[trigger] r@[i]).0 == p,
    {
        self.prompt_players(lock)
    }

    /// Close the round and advance one turn: regeneration, every buffered
    /// message in buffer order, one simulation step; then, unless the game
    /// is over, open the next round. Returns the per-message reports and
    /// the views to send out.
    pub fn step(&mut self, lock: &mut Barrier, messages: &Vec<PlayerMessage>) -> (r: (
        Vec<MessageReport>,
        Vec<(usize, StateView)>,
    ))
        requires
            old(self).wf(),
            old(lock).wf(),
            !spec_is_finished(old(self).state@),
        ensures
            final(self).wf(),
            final(lock).wf(),
            final(self).clients@ == old(self).clients@,
            final(self).state@ == spec_round_state(old(self).state@, messages@),
            r.0@.len() == messages@.len(),
            forall|i: int| 0 <= i < r.0@.len() ==> (#[trigger] r.0@[i]).player == messages@[i].player,
            forall|i: int|
                0 <= i < r.0@.len() ==> ((#[trigger] r.0@[i]).outcome is ParseFailure
                    <==> messages@[i].action is None),
            forall|i: int|
                0 <= i < r.0@.len() ==> (match messages@[i].action {
                    Option::None => (#[trigger] r.0@[i]).outcome is ParseFailure,
                    Option::Some(a) => r.0@[i].outcome matches MessageOutcome::Commands(v)
                        && v@.len() == a.commands@.len() && forall|j: int|
                        0 <= j < v@.len() ==> v@[j] == spec_report(
                            spec_exec_upto(
                                spec_msgs_upto(spec_repop_state(old(self).state@), messages@, i),
                                messages@[i].player,
                                a.commands@,
                                j,
                            ),
                            messages@[i].player,
                            a.commands@[j],
                        ),
                }),
            spec_is_finished(final(self).state@) ==> r.1@.len() == 0 && final(lock)@ == spec_set_alive(
                old(lock)@,
                living_set(final(self).state@.alive),
            ),
            !spec_is_finished(final(self).state@) ==> {
                &&& final(lock)@ == spec_begin_round(
                    spec_set_alive(old(lock)@, living_set(final(self).state@.alive)),
                    actors_set(final(self).clients@, final(self).state@.alive),
                )
                &&& forall|i: int|
                    0 <= i < r.1@.len() ==> spec_view_ok(
                        final(self).state@,
                        (#[trigger] r.1@[i]).0,
                        r.1@[i].1,
                    )
                &&& forall|i: int|
                    0 <= i < r.1@.len() ==> actors_set(final(self).clients@, final(self).state@.alive)
                        .contains((#[trigger] r.1@[i]).0)
                &&& forall|p: usize|
                    actors_set(final(self).clients@, final(self).state@.alive).contains(p)
                        ==> exists|i: int| 0 <= i < r.1@.len() && (#[trigger] r.1@[i]).0 == p
            },
    {
        self.repopulate();
        let reports = self.execute_messages(messages);
        self.state.step();
        let living = self.state.living_players();
        proof {
            assert(living@.to_set() =~= living_set(self.state@.alive));
        }
        lock.set_alive(&living);
        if !self.state.is_finished() {
            let views = self.prompt_players(lock);
            let ghost vs = views@;
            let r = (reports, views);
            proof {
                assert forall|p: usize|
                    actors_set(self.clients@, self.state@.alive).contains(p) implies exists|i: int|
                    0 <= i < r.1@.len() && (#[trigger] r.1@[i]).0 == p by {
                    let i = choose|i: int| 0 <= i < vs.len() && (#[trigger] vs[i]).0 == p;
                    assert(r.1@[i].0 == p);
                }
            }
            r
        } else {
            (reports, Vec::new())
        }
    }

    /// The terminal outcome: the ranked list of surviving players once the
    /// game is over, nothing before that.
    pub fn outcome(&self) -> (r: Option<Vec<usize>>)
        ensures
            match r {
                Some(v) => spec_is_finished(self.state@) && v@.no_duplicates() && (forall|p: usize|
                    #[trigger] v@.contains(p) <==> (p < self.state@.alive.len()
                        && self.state@.alive[p as int])) && (forall|i: int, j: int|
                    0 <= i < j < v@.len() ==> v@[i] < v@[j]),
                None => !spec_is_finished(self.state@),
            },
    {
        if self.state.is_finished() {
            Some(self.state.living_players())
        } else {
            None
        }
    }

    /// Stop addressing a client: future rounds no longer send them views or
    /// wait on them. Their player entity lives on in the state until the
    /// rules eliminate it.
    pub fn handle_disconnect(&mut self, client_id: usize)
        requires
            old(self).wf(),
        ensures
            final(self).wf(),
            final(self).state@ == old(self).state@,
            final(self).clients@ == old(self).clients@.filter(keeps(client_id)),
    {
        let ghost c0 = self.clients@;
        proof {
            reveal(Seq::filter);
            assert(c0.take(0).filter(keeps(client_id)) =~= Seq::<Client>::empty());
        }
        let n = self.clients.len();
        let mut kept: Vec<Client> = Vec::new();
        let mut i: usize = 0;
        while i < n
            invariant
                n == self.clients@.len(),
                self.clients@ == c0,
                i <= n,
                kept@ == c0.take(i as int).filter(keeps(client_id)),
            decreases n - i,
        {
            proof {
                reveal(Seq::filter);
                assert(c0.take(i + 1) =~= c0.take(i as int).push(c0[i as int]));
                c0.take(i as int).lemma_filter_push(c0[i as int], keeps(client_id));
            }
            let c = &self.clients[i];
            if c.id != client_id {
                let copy = clone_client(c);
                let ghost k0 = kept@;
                kept.push(copy);
                proof {
                    assert(copy == c0[i as int]);
                    assert(keeps(client_id)(c0[i as int]));
                    assert(kept@ == k0.push(c0[i as int]));
                    assert(c0.take(i as int).push(c0[i as int]).filter(keeps(client_id)) == k0.push(
                        c0[i as int],
                    ));
                    assert(kept@ == c0.take(i + 1).filter(keeps(client_id)));
                }
            } else {
                proof {
                    assert(!(keeps(client_id)(c0[i as int])));
                    assert(c0.take(i + 1).filter(keeps(client_id)) == c0.take(i as int).filter(keeps(client_id)));
                }
            }
            i = i + 1;
        }
        proof {
            assert(c0.take(n as int) =~= c0);
        }
        self.clients = kept;
        proof {
            lemma_filter_keeps_roster_wf(c0, keeps(client_id));
            assert forall|i: int|
                0 <= i < self.clients@.len() implies (#[trigger] self.clients@[i]).id
                < self.state@.alive.len() by {
                assert(c0.contains(self.clients@[i]));
                let j = choose|j: int| 0 <= j < c0.len() && c0[j] == self.clients@[i];
            }
        }
    }
}

/// The roster predicate that survives a disconnect: every client but the
/// disconnected one.
pub open spec fn keeps(client_id: usize) -> spec_fn(Client) -> bool {
    |c: Client| c.id != client_id
}

/// Copy a client, preserving the value exactly.
pub fn clone_client(c: &Client) -> (r: Client)
    ensures
        r == *c,
{
    Client { id: c.id, player_name: clone_string(&c.player_name) }
}

/// Filtering a roster with unique ids yields a roster of members of the
/// original whose ids are still unique.
proof fn lemma_filter_keeps_roster_wf(clients: Seq<Client>, pred: spec_fn(Client) -> bool)
    requires
        forall|i: int, j: int|
            0 <= i < clients.len() && 0 <= j < clients.len() && i != j
                ==> (#[trigger] clients[i]).id != (#[trigger] clients[j]).id,
    ensures
        forall|k: int|
            0 <= k < clients.filter(pred).len() ==> clients.contains(
                #[trigger] clients.filter(pred)[k],
            ),
        forall|k: int, l: int|
            0 <= k < clients.filter(pred).len() && 0 <= l < clients.filter(pred).len() && k != l
                ==> (#[trigger] clients.filter(pred)[k]).id != (#[trigger] clients.filter(
                pred,
            )[l]).id,
    decreases clients.len(),
{
    reveal(Seq::filter);
    if clients.len() > 0 {
        let d = clients.drop_last();
        let f = clients.filter(pred);
        let fd = d.filter(pred);
        lemma_filter_keeps_roster_wf(d, pred);
        assert forall|k: int| 0 <= k < fd.len() implies clients.contains(#[trigger] fd[k]) by {
            assert(d.contains(fd[k]));
            let j = choose|j: int| 0 <= j < d.len() && d[j] == fd[k];
            assert(clients[j] == fd[k]);
        }
        if pred(clients.last()) {
            assert(f == fd.push(clients.last()));
            assert forall|k: int, l: int|
                0 <= k < f.len() && 0 <= l < f.len() && k != l implies (#[trigger] f[k]).id
                != (#[trigger] f[l]).id by {
                if k < fd.len() && l < fd.len() {
                    assert(fd[k] == f[k]);
                    assert(fd[l] == f[l]);
                } else if k < fd.len() {
                    assert(f[l] == clients.last());
                    assert(d.contains(fd[k]));
                    let j = choose|j: int| 0 <= j < d.len() && d[j] == fd[k];
                    assert(clients[j] == f[k]);
                    assert(clients[clients.len() - 1] == f[l]);
                } else {
                    assert(f[k] == clients.last());
                    assert(d.contains(fd[l]));
                    let j = choose|j: int| 0 <= j < d.len() && d[j] == fd[l];
                    assert(clients[j] == f[l]);
                    assert(clients[clients.len() - 1] == f[k]);
                }
            }
        } else {
            assert(f == fd);
        }
    }
}

} // verus!
