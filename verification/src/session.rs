//! Session controller decisions.
//!
//! The controller is the single logical owner of the barrier, the round
//! driver and the per-round message buffer. The host feeds it one inbound
//! event at a time — a payload, a connect, a disconnect — and repeatedly
//! asks it to close ready rounds; the controller decides everything, the
//! host only moves bytes. Events are consumed strictly serially, so no
//! state is ever mutated concurrently.

use vstd::prelude::*;

use crate::barrier::{
    spec_begin_round, spec_connect, spec_disconnect, spec_set_alive, spec_submit, Barrier,
};
use crate::driver::{
    actors_set, keeps, living_set, spec_exec_upto, spec_msgs_upto, spec_repop_state, spec_report,
    spec_round_state, spec_view_ok, Client, Config, MessageOutcome, MessageReport, PlayerMessage,
    PwController,
};
use crate::protocol::{Action, StateView};
use crate::rules::spec_is_finished;

verus! {

/// One inbound event from a client, as the transport layer reports it.
pub enum Message {
    /// A payload arrived; `None` stands for one that did not parse. Either
    /// way the player has acted for this round.
    Data(Option<Action>),
    /// The client's connection closed.
    Disconnected,
    /// The client became reachable.
    Connected,
}

/// An inbound event attributed to its client.
pub struct ClientMessage {
    /// The client the event came from.
    pub client_id: usize,
    /// The event itself.
    pub message: Message,
}

/// Everything one closed round hands back to the host: the per-message
/// reports to log and the views to send out for the next round.
pub struct RoundOutput {
    /// One report per buffered message, in buffer order.
    pub reports: Vec<MessageReport>,
    /// The next round's view per player expected to act; empty when the
    /// game just ended.
    pub views: Vec<(usize, StateView)>,
}

/// What one attempt to close a round decided.
pub enum StepOutcome {
    /// Some waited-on player still owes a command; nothing changed.
    NotReady,
    /// The game is over: the ranked surviving players, produced exactly
    /// once.
    Finished(Vec<usize>),
    /// One round was closed and the next one opened.
    RoundClosed(RoundOutput),
}

/// How a session ends when the inbound event stream itself terminates.
pub enum SessionEnd {
    /// The game had already reached its terminal condition.
    Outcome(Vec<usize>),
    /// The stream ended mid-game: the distinct incomplete-session signal,
    /// never silently swallowed.
    Incomplete,
}

/// The ids of a client roster, as a set.
pub open spec fn client_id_set(clients: Seq<Client>) -> Set<usize> {
    Set::new(|p: usize| exists|i: int| 0 <= i < clients.len() && clients[i].id == p)
}

/// The buffer holds at most one pending message per player.
pub open spec fn buf_wf(buf: Seq<PlayerMessage>) -> bool {
    forall|i: int, j: int|
        0 <= i < buf.len() && 0 <= j < buf.len() && i != j ==> (#[trigger] buf[i]).player != (
        #[trigger] buf[j]).player
}

/// Position of a player's pending message, scanning from `i`.
pub open spec fn spec_buf_find(buf: Seq<PlayerMessage>, player: usize, i: int) -> Option<int>
    decreases buf.len() - i,
{
    if i < 0 || i >= buf.len() {
        None
    } else if buf[i].player == player {
        Some(i)
    } else {
        spec_buf_find(buf, player, i + 1)
    }
}

/// Effect of buffering a message: a resubmission replaces the player's
/// pending message in place — first come, first applied — and a first
/// submission is appended in arrival order.
pub open spec fn spec_buf_put(buf: Seq<PlayerMessage>, m: PlayerMessage) -> Seq<PlayerMessage> {
    match spec_buf_find(buf, m.player, 0) {
        Some(i) => buf.update(i, m),
        None => buf.push(m),
    }
}

/// When the scan finds nothing, no entry from the scanned suffix has the
/// player.
proof fn lemma_buf_find_none(buf: Seq<PlayerMessage>, player: usize, i: int)
    requires
        0 <= i,
        spec_buf_find(buf, player, i) is None,
    ensures
        forall|j: int| i <= j < buf.len() ==> (#[trigger] buf[j]).player != player,
    decreases buf.len() - i,
{
    if 0 <= i < buf.len() {
        lemma_buf_find_none(buf, player, i + 1);
    }
}

/// The session controller: the bridge between game rules and clients. It
/// owns the barrier, the round driver and the message buffer, and is the
/// only writer of any of them.
pub struct Controller {
    /// The turn synchronization barrier.
    pub lock: Barrier,
    /// The game round driver.
    pub game_controller: PwController,
    /// The pending message per player for the round in flight, in arrival
    /// order.
    pub buffer: Vec<PlayerMessage>,
}

impl Controller {
    /// Controller invariant: both components well-formed and at most one
    /// buffered message per player.
    pub open spec fn wf(&self) -> bool {
        &&& self.lock.wf()
        &&& self.game_controller.wf()
        &&& buf_wf(self.buffer@)
    }

    /// Create a session over an initial roster of already-connected
    /// clients: every client starts connected and alive, the game state is
    /// freshly configured, and no round is open yet.
    pub fn new(clients: Vec<Client>, conf: Config) -> (r: Controller)
        requires
            forall|i: int, j: int|
                0 <= i < conf.planets@.len() && 0 <= j < conf.planets@.len() && i != j
                    ==> conf.planets@[i].name@ != conf.planets@[j].name@,
            forall|i: int|
                0 <= i < conf.planets@.len() ==> match #[trigger] conf.planets@[i].owner {
                    Some(p) => p < clients@.len(),
                    None => true,
                },
            forall|i: int, j: int|
                0 <= i < clients@.len() && 0 <= j < clients@.len() && i != j
                    ==> (#[trigger] clients@[i]).id != (#[trigger] clients@[j]).id,
            forall|i: int| 0 <= i < clients@.len() ==> (#[trigger] clients@[i]).id < clients@.len(),
        ensures
            r.wf(),
            r.game_controller.clients@ == clients@,
            r.game_controller.state@.planets == conf.planets@,
            r.game_controller.state@.alive.len() == clients@.len(),
            forall|p: int| 0 <= p < clients@.len() ==> r.game_controller.state@.alive[p],
            r.game_controller.state@.turn == 0,
            r.game_controller.state@.max_turns == conf.max_turns,
            r.lock@.waiting == Set::<usize>::empty(),
            r.lock@.connected == client_id_set(clients@),
            r.lock@.alive == client_id_set(clients@),
            r.buffer@ == Seq::<PlayerMessage>::empty(),
    {
        let n = clients.len();
        let mut ids: Vec<usize> = Vec::new();
        let mut i: usize = 0;
        while i < n
            invariant
                n == clients@.len(),
                i <= n,
                ids@.len() == i,
                forall|k: int| 0 <= k < i ==> ids@[k] == (#[trigger] clients@[k]).id,
                forall|i2: int, j2: int|
                    0 <= i2 < clients@.len() && 0 <= j2 < clients@.len() && i2 != j2
                        ==> (#[trigger] clients@[i2]).id != (#[trigger] clients@[j2]).id,
            decreases n - i,
        {
            ids.push(clients[i].id);
            i = i + 1;
        }
        proof {
            assert forall|i2: int, j2: int|
                0 <= i2 < ids@.len() && 0 <= j2 < ids@.len() && i2 != j2 implies ids@[i2]
                != ids@[j2] by {
                assert(clients@[i2].id != clients@[j2].id);
            }
            assert forall|p: usize| ids@.contains(p) implies client_id_set(clients@).contains(
                p,
            ) by {
                let k = choose|k: int| 0 <= k < ids@.len() && ids@[k] == p;
                assert(clients@[k].id == p);
            }
            assert forall|p: usize| client_id_set(clients@).contains(p) implies ids@.contains(
                p,
            ) by {
                let k = choose|k: int| 0 <= k < clients@.len() && clients@[k].id == p;
                assert(ids@[k] == p);
            }
            assert(ids@.to_set() =~= client_id_set(clients@));
        }
        let lock = Barrier::new(&ids);
        let game_controller = PwController::new(conf, clients);
        Controller { lock, game_controller, buffer: Vec::new() }
    }

    /// Open the first round: build every alive client's view and tell the
    /// barrier whom to wait on.
    pub fn start(&mut self) -> (r: Vec<(usize, StateView)>)
        requires
            old(self).wf(),
        ensures
            final(self).wf(),
            final(self).game_controller == old(self).game_controller,
            final(self).buffer@ == old(self).buffer@,
            final(self).lock@ == spec_begin_round(
                old(self).lock@,
                actors_set(
                    old(self).game_controller.clients@,
                    old(self).game_controller.state@.alive,
                ),
            ),
            forall|i: int|
                0 <= i < r@.len() ==> spec_view_ok(
                    old(self).game_controller.state@,
                    (#[trigger] r@[i]).0,
                    r@[i].1,
                ),
            forall|p: usize|
                actors_set(
                    old(self).game_controller.clients@,
                    old(self).game_controller.state@.alive,
                ).contains(p) ==> exists|i: int| 0 <= i < r@.len() && (#[trigger] r@[i]).0 == p,
    {
        self.game_controller.init(&mut self.lock)
    }

    /// Handle one inbound event.
    ///
    /// A payload — parsable or not — buffers the submission and discharges
    /// the player at the barrier: a malformed message still counts as the
    /// player having acted, so it can never stall the round. A disconnect
    /// discharges the player too and stops addressing their client; a
    /// connect only marks them reachable again.
    pub fn handle_message(&mut self, client_id: usize, msg: Message)
        requires
            old(self).wf(),
        ensures
            final(self).wf(),
            match msg {
                Message::Data(a) => {
                    &&& final(self).lock@ == spec_submit(old(self).lock@, client_id)
                    &&& final(self).game_controller == old(self).game_controller
                    &&& final(self).buffer@ == spec_buf_put(
                        old(self).buffer@,
                        PlayerMessage { player: client_id, action: a },
                    )
                },
                Message::Disconnected => {
                    &&& final(self).lock@ == spec_disconnect(old(self).lock@, client_id)
                    &&& final(self).game_controller.state@ == old(self).game_controller.state@
                    &&& final(self).game_controller.clients@ == old(
                        self,
                    ).game_controller.clients@.filter(keeps(client_id))
                    &&& final(self).buffer@ == old(self).buffer@
                },
                Message::Connected => {
                    &&& final(self).lock@ == spec_connect(old(self).lock@, client_id)
                    &&& final(self).game_controller == old(self).game_controller
                    &&& final(self).buffer@ == old(self).buffer@
                },
            },
    {
        match msg {
            Message::Data(a) => {
                self.attach_command(PlayerMessage { player: client_id, action: a });
                self.lock.submit(client_id);
            },
            Message::Disconnected => {
                self.lock.disconnect(client_id);
                self.game_controller.handle_disconnect(client_id);
            },
            Message::Connected => {
                self.lock.connect(client_id);
            },
        }
    }

    /// Buffer one player's submission: replace their pending message if
    /// they already have one, append otherwise.
    fn attach_command(&mut self, m: PlayerMessage)
        requires
            old(self).wf(),
        ensures
            final(self).wf(),
            final(self).lock == old(self).lock,
            final(self).game_controller == old(self).game_controller,
            final(self).buffer@ == spec_buf_put(old(self).buffer@, m),
    {
        let ghost b0 = self.buffer@;
        let player = m.player;
        let n = self.buffer.len();
        let mut i: usize = 0;
        while i < n
            invariant
                old(self).wf(),
                n == self.buffer@.len(),
                self.buffer@ == b0,
                b0 == old(self).buffer@,
                self.lock == old(self).lock,
                self.game_controller == old(self).game_controller,
                buf_wf(b0),
                m.player == player,
                i <= n,
                spec_buf_find(b0, player, 0) == spec_buf_find(b0, player, i as int),
            decreases n - i,
        {
            if self.buffer[i].player == player {
                self.buffer[i] = m;
                proof {
                    assert(m.player == b0[i as int].player);
                    assert forall|k: int| 0 <= k < self.buffer@.len() implies (
                    #[trigger] self.buffer@[k]).player == b0[k].player by {}
                    assert forall|i2: int, j2: int|
                        0 <= i2 < self.buffer@.len() && 0 <= j2 < self.buffer@.len() && i2 != j2
                        implies (#[trigger] self.buffer@[i2]).player != (
                    #[trigger] self.buffer@[j2]).player by {
                        assert(b0[i2].player != b0[j2].player);
                    }
                }
                return ;
            }
            i = i + 1;
        }
        proof {
            lemma_buf_find_none(b0, player, 0);
            crate::barrier::lemma_push_contains(b0, m);
        }
        self.buffer.push(m);
        proof {
            assert forall|i2: int, j2: int|
                0 <= i2 < self.buffer@.len() && 0 <= j2 < self.buffer@.len() && i2 != j2 implies (
            #[trigger] self.buffer@[i2]).player != (#[trigger] self.buffer@[j2]).player by {
                if i2 < b0.len() && j2 < b0.len() {
                    assert(b0[i2].player != b0[j2].player);
                }
            }
        }
    }

    /// Try to close the round. Nothing happens while some waited-on player
    /// still owes a command. Once nobody does: if the game is over, the
    /// outcome is produced; otherwise the whole buffered round is applied —
    /// regeneration, every buffered message in buffer order, one simulation
    /// step — the buffer is cleared and the next round opened. The host
    /// calls this until it returns `NotReady` or `Finished`.
    pub fn do_step(&mut self) -> (r: StepOutcome)
        requires
            old(self).wf(),
        ensures
            final(self).wf(),
            match r {
                StepOutcome::NotReady => {
                    &&& !old(self).lock@.waiting.is_empty()
                    &&& *final(self) == *old(self)
                },
                StepOutcome::Finished(v) => {
                    &&& old(self).lock@.waiting.is_empty()
                    &&& spec_is_finished(old(self).game_controller.state@)
                    &&& *final(self) == *old(self)
                    &&& v@.no_duplicates()
                    &&& forall|p: usize|
                        #[trigger] v@.contains(p) <==> (p
                            < old(self).game_controller.state@.alive.len() && old(
                            self,
                        ).game_controller.state@.alive[p as int])
                    &&& forall|i: int, j: int| 0 <= i < j < v@.len() ==> v@[i] < v@[j]
                },
                StepOutcome::RoundClosed(out) => {
                    &&& old(self).lock@.waiting.is_empty()
                    &&& !spec_is_finished(old(self).game_controller.state@)
                    &&& final(self).game_controller.state@ == spec_round_state(
                        old(self).game_controller.state@,
                        old(self).buffer@,
                    )
                    &&& final(self).game_controller.clients@ == old(self).game_controller.clients@
                    &&& final(self).buffer@ == Seq::<PlayerMessage>::empty()
                    &&& out.reports@.len() == old(self).buffer@.len()
                    &&& forall|i: int|
                        0 <= i < out.reports@.len() ==> (#[trigger] out.reports@[i]).player == old(
                            self,
                        ).buffer@[i].player
                    &&& forall|i: int|
                        0 <= i < out.reports@.len() ==> ((#[trigger] out.reports@[i]).outcome
                            is ParseFailure <==> old(self).buffer@[i].action is None)
                    &&& forall|i: int|
                        0 <= i < out.reports@.len() ==> (match old(self).buffer@[i].action {
                            Option::None => (#[trigger] out.reports@[i]).outcome is ParseFailure,
                            Option::Some(a) => out.reports@[i].outcome matches MessageOutcome::Commands(v)
                                && v@.len() == a.commands@.len() && forall|j: int|
                                0 <= j < v@.len() ==> v@[j] == spec_report(
                                    spec_exec_upto(
                                        spec_msgs_upto(
                                            spec_repop_state(old(self).game_controller.state@),
                                            old(self).buffer@,
                                            i,
                                        ),
                                        old(self).buffer@[i].player,
                                        a.commands@,
                                        j,
                                    ),
                                    old(self).buffer@[i].player,
                                    a.commands@[j],
                                ),
                        })
                    &&& spec_is_finished(final(self).game_controller.state@) ==> {
                        &&& out.views@.len() == 0
                        &&& final(self).lock@ == spec_set_alive(
                            old(self).lock@,
                            living_set(final(self).game_controller.state@.alive),
                        )
                    }
                    &&& !spec_is_finished(final(self).game_controller.state@) ==> {
                        &&& final(self).lock@ == spec_begin_round(
                            spec_set_alive(
                                old(self).lock@,
                                living_set(final(self).game_controller.state@.alive),
                            ),
                            actors_set(
                                final(self).game_controller.clients@,
                                final(self).game_controller.state@.alive,
                            ),
                        )
                        &&& forall|i: int|
                            0 <= i < out.views@.len() ==> spec_view_ok(
                                final(self).game_controller.state@,
                                (#[trigger] out.views@[i]).0,
                                out.views@[i].1,
                            )
                        &&& forall|p: usize|
                            actors_set(
                                final(self).game_controller.clients@,
                                final(self).game_controller.state@.alive,
                            ).contains(p) ==> exists|i: int|
                                0 <= i < out.views@.len() && (#[trigger] out.views@[i]).0 == p
                    }
                },
            },
    {
        if !self.lock.is_ready() {
            return StepOutcome::NotReady;
        }
        match self.game_controller.outcome() {
            Some(v) => StepOutcome::Finished(v),
            None => {
                let (reports, views) = self.game_controller.step(&mut self.lock, &self.buffer);
                self.buffer = Vec::new();
                let ghost vs = views@;
                let out = RoundOutput { reports, views };
                proof {
                    if !spec_is_finished(self.game_controller.state@) {
                        assert forall|p: usize|
                            actors_set(
                                self.game_controller.clients@,
                                self.game_controller.state@.alive,
                            ).contains(p) implies exists|i: int|
                            0 <= i < out.views@.len() && (#[trigger] out.views@[i]).0 == p by {
                            let i = choose|i: int|
                                0 <= i < vs.len() && (#[trigger] vs[i]).0 == p;
                            assert(out.views@[i].0 == p);
                        }
                    }
                }
                StepOutcome::RoundClosed(out)
            },
        }
    }

    /// What the session yields when no further inbound events can arrive:
    /// a finished game still yields its outcome, anything else is the
    /// distinct incomplete-session signal.
    pub fn stream_ended(&self) -> (r: SessionEnd)
        ensures
            match r {
                SessionEnd::Outcome(v) => {
                    &&& spec_is_finished(self.game_controller.state@)
                    &&& v@.no_duplicates()
                    &&& forall|p: usize|
                        #[trigger] v@.contains(p) <==> (p
                            < self.game_controller.state@.alive.len()
                            && self.game_controller.state@.alive[p as int])
                    &&& forall|i: int, j: int| 0 <= i < j < v@.len() ==> v@[i] < v@[j]
                },
                SessionEnd::Incomplete => !spec_is_finished(self.game_controller.state@),
            },
    {
        match self.game_controller.outcome() {
            Some(v) => SessionEnd::Outcome(v),
            None => SessionEnd::Incomplete,
        }
    }
}

} // verus!
