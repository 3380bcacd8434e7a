//! Turn synchronization barrier.
//!
//! The barrier decides when a round's command-collection phase is complete:
//! it tracks which players still owe a command this round (`waiting`), which
//! players are currently reachable (`connected`), and which players are still
//! in the game (`alive`). A round may close exactly when `waiting` is empty.
//!
//! The load-bearing liveness policy: only connected, alive players are ever
//! waited on, and disconnecting a player removes them from `waiting`, so a
//! vanished peer can never block round advancement.

use vstd::prelude::*;

verus! {

/// Mathematical model of the barrier: three sets of player ids.
#[verifier::ext_equal]
pub struct BarrierModel {
    /// Players that must still submit before the round may close.
    pub waiting: Set<usize>,
    /// Players currently reachable.
    pub connected: Set<usize>,
    /// Players still in the game.
    pub alive: Set<usize>,
}

/// The model invariant: all sets are finite and the barrier only ever waits
/// on players that are both connected and alive.
pub open spec fn model_wf(s: BarrierModel) -> bool {
    &&& s.waiting.finite()
    &&& s.connected.finite()
    &&& s.alive.finite()
    &&& s.waiting.subset_of(s.connected)
    &&& s.waiting.subset_of(s.alive)
}

/// Effect of a player connecting: reachable from now on. Reconnecting does
/// not retroactively require a submission for the round already in flight,
/// so `waiting` is untouched.
pub open spec fn spec_connect(s: BarrierModel, id: usize) -> BarrierModel {
    BarrierModel { connected: s.connected.insert(id), ..s }
}

/// Effect of a player disconnecting: no longer reachable, and no longer
/// waited on — a disconnected player can never block round advancement.
pub open spec fn spec_disconnect(s: BarrierModel, id: usize) -> BarrierModel {
    BarrierModel { connected: s.connected.remove(id), waiting: s.waiting.remove(id), ..s }
}

/// Effect of a player submitting a command: they no longer owe one.
/// Duplicate submissions are tolerated silently (`remove` of an absent
/// element is a no-op).
pub open spec fn spec_submit(s: BarrierModel, id: usize) -> BarrierModel {
    BarrierModel { waiting: s.waiting.remove(id), ..s }
}

/// Effect of opening a round: the barrier waits on exactly the supplied
/// players that are also connected and alive.
pub open spec fn spec_begin_round(s: BarrierModel, expected: Set<usize>) -> BarrierModel {
    BarrierModel { waiting: expected.intersect(s.connected).intersect(s.alive), ..s }
}

/// Effect of the rules eliminating players: `alive` is replaced by the new
/// roster, and players no longer in it are no longer waited on.
pub open spec fn spec_set_alive(s: BarrierModel, roster: Set<usize>) -> BarrierModel {
    BarrierModel { alive: roster, waiting: s.waiting.intersect(roster), ..s }
}

/// The turn synchronization barrier.
///
/// Player ids are stored as duplicate-free vectors; the view abstracts them
/// to the sets of `BarrierModel`.
pub struct Barrier {
    waiting: Vec<usize>,
    connected: Vec<usize>,
    alive: Vec<usize>,
}

impl View for Barrier {
    type V = BarrierModel;

    closed spec fn view(&self) -> BarrierModel {
        BarrierModel {
            waiting: self.waiting@.to_set(),
            connected: self.connected@.to_set(),
            alive: self.alive@.to_set(),
        }
    }
}

impl Barrier {
    /// Ids are stored without duplicates.
    spec fn rep_wf(&self) -> bool {
        &&& self.waiting@.no_duplicates()
        &&& self.connected@.no_duplicates()
        &&& self.alive@.no_duplicates()
    }

    /// Representation invariant: no duplicate ids, and the model invariant.
    pub closed spec fn wf(&self) -> bool {
        &&& self.rep_wf()
        &&& model_wf(self@)
    }

    /// A well-formed barrier satisfies the model invariant; in particular it
    /// only ever waits on connected, alive players.
    pub proof fn lemma_wf_model(&self)
        requires
            self.wf(),
        ensures
            model_wf(self@),
    {
    }

    /// A fresh barrier for the given roster. The roster is the session's
    /// initial client list: those players start connected and alive, and
    /// nobody owes a command until a round is opened.
    pub fn new(roster: &Vec<usize>) -> (b: Barrier)
        requires
            roster@.no_duplicates(),
        ensures
            b.wf(),
            b@.waiting == Set::<usize>::empty(),
            b@.connected == roster@.to_set(),
            b@.alive == roster@.to_set(),
    {
        let connected = clone_ids(roster);
        let alive = clone_ids(roster);
        let b = Barrier { waiting: Vec::new(), connected, alive };
        proof {
            assert(b.waiting@.to_set() =~= Set::<usize>::empty());
            lemma_to_set_finite(b.connected@);
            lemma_to_set_finite(b.alive@);
        }
        b
    }

    /// True exactly when nobody owes a command: the round may close.
    pub fn is_ready(&self) -> (r: bool)
        ensures
            r <==> self@.waiting.is_empty(),
    {
        let r = self.waiting.len() == 0;
        proof {
            if self.waiting@.len() == 0 {
                assert(self@.waiting =~= Set::<usize>::empty());
            } else {
                assert(self@.waiting.contains(self.waiting@[0]));
            }
        }
        r
    }

    /// Record that a player became reachable.
    pub fn connect(&mut self, id: usize)
        requires
            old(self).wf(),
        ensures
            final(self).wf(),
            final(self)@ == spec_connect(old(self)@, id),
    {
        vec_insert_id(&mut self.connected, id);
        proof {
            assert(self@ =~= spec_connect(old(self)@, id));
            lemma_to_set_finite(self.connected@);
        }
    }

    /// Record that a player became unreachable. They are no longer waited
    /// on: a disconnected player can never block round advancement.
    pub fn disconnect(&mut self, id: usize)
        requires
            old(self).wf(),
        ensures
            final(self).wf(),
            final(self)@ == spec_disconnect(old(self)@, id),
    {
        vec_remove_id(&mut self.connected, id);
        vec_remove_id(&mut self.waiting, id);
        proof {
            assert(self@ =~= spec_disconnect(old(self)@, id));
            lemma_to_set_finite(self.waiting@);
            lemma_to_set_finite(self.connected@);
        }
    }

    /// Record that a player submitted a command this round. A duplicate or
    /// unsolicited submission is a silent no-op.
    pub fn submit(&mut self, id: usize)
        requires
            old(self).wf(),
        ensures
            final(self).wf(),
            final(self)@ == spec_submit(old(self)@, id),
    {
        vec_remove_id(&mut self.waiting, id);
        proof {
            assert(self@ =~= spec_submit(old(self)@, id));
            lemma_to_set_finite(self.waiting@);
        }
    }

    /// Open a round: wait on exactly the supplied players that are also
    /// connected and alive. The round driver supplies the players expected
    /// to act; the barrier filters out anyone it could never hear from.
    pub fn begin_round(&mut self, expected: &Vec<usize>)
        requires
            old(self).wf(),
            expected@.no_duplicates(),
        ensures
            final(self).wf(),
            final(self)@ == spec_begin_round(old(self)@, expected@.to_set()),
    {
        let mut waiting: Vec<usize> = Vec::new();
        let n = expected.len();
        let mut i: usize = 0;
        while i < n
            invariant
                n == expected@.len(),
                i <= n,
                expected@.no_duplicates(),
                waiting@.no_duplicates(),
                forall|x: usize|
                    #[trigger] waiting@.contains(x) <==> (expected@.take(i as int).contains(x)
                        && self.connected@.contains(x) && self.alive@.contains(x)),
            decreases n - i,
        {
            let id = expected[i];
            proof {
                assert(expected@.take(i + 1) =~= expected@.take(i as int).push(id));
                lemma_push_contains(expected@.take(i as int), id);
                if expected@.take(i as int).contains(id) {
                    let j = choose|j: int|
                        0 <= j < i && expected@.take(i as int)[j] == id;
                    assert(expected@[j] == expected@[i as int]);
                    assert(false);
                }
            }
            if vec_contains_id(&self.connected, id) && vec_contains_id(&self.alive, id) {
                let ghost w0 = waiting@;
                waiting.push(id);
                proof {
                    lemma_push_contains(w0, id);
                    lemma_push_no_duplicates(w0, id);
                }
            }
            i = i + 1;
        }
        proof {
            assert(expected@.take(n as int) =~= expected@);
        }
        self.waiting = waiting;
        proof {
            assert(self.waiting@.to_set() =~= expected@.to_set().intersect(
                self.connected@.to_set(),
            ).intersect(self.alive@.to_set()));
            assert(self@ =~= spec_begin_round(old(self)@, expected@.to_set()));
            lemma_to_set_finite(self.waiting@);
        }
    }

    /// Replace the alive roster after the rules eliminated players; anyone
    /// eliminated is no longer waited on.
    pub fn set_alive(&mut self, roster: &Vec<usize>)
        requires
            old(self).wf(),
            roster@.no_duplicates(),
        ensures
            final(self).wf(),
            final(self)@ == spec_set_alive(old(self)@, roster@.to_set()),
    {
        let ghost v0 = self.waiting@;
        let mut waiting: Vec<usize> = Vec::new();
        let n = self.waiting.len();
        let mut i: usize = 0;
        while i < n
            invariant
                n == self.waiting@.len(),
                self.waiting@ == v0,
                i <= n,
                v0.no_duplicates(),
                waiting@.no_duplicates(),
                forall|x: usize|
                    #[trigger] waiting@.contains(x) <==> (v0.take(i as int).contains(x)
                        && roster@.contains(x)),
            decreases n - i,
        {
            let id = self.waiting[i];
            proof {
                assert(v0.take(i + 1) =~= v0.take(i as int).push(id));
                lemma_push_contains(v0.take(i as int), id);
                if v0.take(i as int).contains(id) {
                    let j = choose|j: int| 0 <= j < i && v0.take(i as int)[j] == id;
                    assert(v0[j] == v0[i as int]);
                    assert(false);
                }
            }
            if vec_contains_id(roster, id) {
                let ghost w0 = waiting@;
                waiting.push(id);
                proof {
                    lemma_push_contains(w0, id);
                    lemma_push_no_duplicates(w0, id);
                }
            }
            i = i + 1;
        }
        proof {
            assert(v0.take(n as int) =~= v0);
        }
        self.waiting = waiting;
        self.alive = clone_ids(roster);
        proof {
            assert(self.waiting@.to_set() =~= v0.to_set().intersect(roster@.to_set()));
            assert(self@ =~= spec_set_alive(old(self)@, roster@.to_set()));
            lemma_to_set_finite(self.waiting@);
            lemma_to_set_finite(self.alive@);
        }
    }
}

/// One piece of barrier traffic while a round's commands are being
/// collected.
pub enum BarrierOp {
    Connect(usize),
    Disconnect(usize),
    Submit(usize),
}

/// Effect of one piece of traffic on the barrier model.
pub open spec fn apply_op(s: BarrierModel, op: BarrierOp) -> BarrierModel {
    match op {
        BarrierOp::Connect(id) => spec_connect(s, id),
        BarrierOp::Disconnect(id) => spec_disconnect(s, id),
        BarrierOp::Submit(id) => spec_submit(s, id),
    }
}

/// Effect of a whole sequence of traffic, first element first.
pub open spec fn apply_ops(s: BarrierModel, ops: Seq<BarrierOp>) -> BarrierModel
    decreases ops.len(),
{
    if ops.len() == 0 {
        s
    } else {
        apply_ops(apply_op(s, ops[0]), ops.drop_first())
    }
}

/// Whether an operation discharges a player's obligation to act: both a
/// submission and a disconnect do.
pub open spec fn clears(op: BarrierOp, id: usize) -> bool {
    op == BarrierOp::Disconnect(id) || op == BarrierOp::Submit(id)
}

/// Mid-round traffic never adds to the waiting set: it grows only when a new
/// round is opened.
pub proof fn lemma_op_never_grows_waiting(s: BarrierModel, op: BarrierOp)
    ensures
        apply_op(s, op).waiting.subset_of(s.waiting),
{
}

/// Lifts `lemma_op_never_grows_waiting` to a sequence of traffic.
pub proof fn lemma_ops_never_grow_waiting(s: BarrierModel, ops: Seq<BarrierOp>)
    ensures
        apply_ops(s, ops).waiting.subset_of(s.waiting),
    decreases ops.len(),
{
    if ops.len() > 0 {
        lemma_op_never_grows_waiting(s, ops[0]);
        lemma_ops_never_grow_waiting(apply_op(s, ops[0]), ops.drop_first());
    }
}

/// Once a player's obligation was discharged mid-round — by a submission or
/// a disconnect — no further mid-round traffic makes the barrier wait on
/// them again.
pub proof fn lemma_cleared_stays_cleared(s: BarrierModel, ops: Seq<BarrierOp>, id: usize, j: int)
    requires
        0 <= j < ops.len(),
        clears(ops[j], id),
    ensures
        !apply_ops(s, ops).waiting.contains(id),
    decreases ops.len(),
{
    if j == 0 {
        lemma_ops_never_grow_waiting(apply_op(s, ops[0]), ops.drop_first());
    } else {
        lemma_cleared_stays_cleared(apply_op(s, ops[0]), ops.drop_first(), id, j - 1);
    }
}

/// Liveness of the barrier: for any sequence of connects, disconnects and
/// submissions that discharges every player the barrier is waiting on —
/// each by a submission or by a disconnect — the barrier is ready
/// afterwards. Readiness therefore needs at most as many further operations
/// as there are waiting players, and never an operation from a disconnected
/// player: a disconnect discharges exactly as well as a submission.
pub proof fn lemma_barrier_progress(s: BarrierModel, ops: Seq<BarrierOp>)
    requires
        forall|id: usize|
            s.waiting.contains(id) ==> exists|j: int|
                0 <= j < ops.len() && clears(#[trigger] ops[j], id),
    ensures
        apply_ops(s, ops).waiting.is_empty(),
{
    assert forall|id: usize| !apply_ops(s, ops).waiting.contains(id) by {
        if apply_ops(s, ops).waiting.contains(id) {
            lemma_ops_never_grow_waiting(s, ops);
            assert(s.waiting.contains(id));
            let j = choose|j: int| 0 <= j < ops.len() && clears(#[trigger] ops[j], id);
            lemma_cleared_stays_cleared(s, ops, id, j);
        }
    }
    assert(apply_ops(s, ops).waiting =~= Set::<usize>::empty());
}

/// Mid-round traffic preserves the model invariant: the barrier never waits
/// on a player that is not connected and alive.
pub proof fn lemma_op_preserves_model_wf(s: BarrierModel, op: BarrierOp)
    requires
        model_wf(s),
    ensures
        model_wf(apply_op(s, op)),
{
}

/// Disconnecting a player who is not waited on — in particular one already
/// counted as submitted — leaves the waiting set untouched: removal is
/// idempotent.
pub proof fn lemma_disconnect_after_submit_no_op(s: BarrierModel, id: usize)
    requires
        !s.waiting.contains(id),
    ensures
        spec_disconnect(s, id).waiting == s.waiting,
{
    assert(spec_disconnect(s, id).waiting =~= s.waiting);
}

/// A round opened when every expected player is already disconnected — in
/// particular when all alive players have disconnected — is immediately
/// ready, with zero submissions.
pub proof fn lemma_round_of_disconnected_players_is_ready(s: BarrierModel, expected: Set<usize>)
    requires
        forall|id: usize|
            expected.contains(id) && s.alive.contains(id) ==> !s.connected.contains(id),
    ensures
        spec_begin_round(s, expected).waiting.is_empty(),
{
    assert(spec_begin_round(s, expected).waiting =~= Set::<usize>::empty());
}

/// A pushed sequence contains exactly the original elements plus the pushed
/// one.
pub proof fn lemma_push_contains<A>(s: Seq<A>, elt: A)
    ensures
        forall|x: A| #[trigger] s.push(elt).contains(x) <==> (s.contains(x) || x == elt),
{
    assert forall|x: A| #[trigger] s.push(elt).contains(x) implies (s.contains(x) || x == elt) by {
        let j = choose|j: int| 0 <= j < s.push(elt).len() && s.push(elt)[j] == x;
        if j < s.len() {
            assert(s[j] == x);
        }
    }
    assert forall|x: A| (s.contains(x) || x == elt) implies #[trigger] s.push(elt).contains(x) by {
        if s.contains(x) {
            let j = choose|j: int| 0 <= j < s.len() && s[j] == x;
            assert(s.push(elt)[j] == x);
        } else {
            assert(s.push(elt)[s.len() as int] == x);
        }
    }
}

/// Pushing an element that is not yet present keeps a sequence
/// duplicate-free.
pub proof fn lemma_push_no_duplicates<A>(s: Seq<A>, elt: A)
    requires
        s.no_duplicates(),
        !s.contains(elt),
    ensures
        s.push(elt).no_duplicates(),
{
    assert forall|i: int, j: int|
        0 <= i < s.push(elt).len() && 0 <= j < s.push(elt).len() && i != j
        implies s.push(elt)[i] != s.push(elt)[j] by {
        if i < s.len() && j < s.len() {
        } else if i < s.len() {
            assert(s.contains(s[i]));
        } else if j < s.len() {
            assert(s.contains(s[j]));
        }
    }
}

/// The set of elements of a sequence is finite.
proof fn lemma_to_set_finite<A>(s: Seq<A>)
    ensures
        s.to_set().finite(),
    decreases s.len(),
{
    if s.len() == 0 {
        assert(s.to_set() =~= Set::<A>::empty());
    } else {
        lemma_to_set_finite(s.drop_last());
        lemma_push_contains(s.drop_last(), s.last());
        assert(s =~= s.drop_last().push(s.last()));
        assert(s.to_set() =~= s.drop_last().to_set().insert(s.last()));
    }
}

/// Linear membership test on a vector of player ids.
fn vec_contains_id(v: &Vec<usize>, id: usize) -> (r: bool)
    ensures
        r == v@.contains(id),
{
    let mut i: usize = 0;
    while i < v.len()
        invariant
            i <= v@.len(),
            forall|j: int| 0 <= j < i ==> v@[j] != id,
        decreases v@.len() - i,
    {
        if v[i] == id {
            return true;
        }
        i = i + 1;
    }
    false
}

/// Copy a vector of player ids.
fn clone_ids(v: &Vec<usize>) -> (r: Vec<usize>)
    ensures
        r@ == v@,
{
    let mut r: Vec<usize> = Vec::new();
    let mut i: usize = 0;
    while i < v.len()
        invariant
            i <= v@.len(),
            r@ == v@.take(i as int),
        decreases v@.len() - i,
    {
        r.push(v[i]);
        proof {
            assert(v@.take(i + 1) =~= v@.take(i as int).push(v@[i as int]));
        }
        i = i + 1;
    }
    proof {
        assert(v@.take(v@.len() as int) =~= v@);
    }
    r
}

/// Insert an id into a duplicate-free vector unless already present.
fn vec_insert_id(v: &mut Vec<usize>, id: usize)
    requires
        old(v)@.no_duplicates(),
    ensures
        final(v)@.no_duplicates(),
        final(v)@.to_set() == old(v)@.to_set().insert(id),
{
    if vec_contains_id(v, id) {
        proof {
            assert(v@.to_set() =~= v@.to_set().insert(id));
        }
    } else {
        v.push(id);
        proof {
            lemma_push_contains(old(v)@, id);
            lemma_push_no_duplicates(old(v)@, id);
            assert(v@.to_set() =~= old(v)@.to_set().insert(id));
        }
    }
}

/// Remove an id from a duplicate-free vector; a no-op if absent.
fn vec_remove_id(v: &mut Vec<usize>, id: usize)
    requires
        old(v)@.no_duplicates(),
    ensures
        final(v)@.no_duplicates(),
        final(v)@.to_set() == old(v)@.to_set().remove(id),
{
    let ghost v0 = v@;
    let mut r: Vec<usize> = Vec::new();
    let n = v.len();
    let mut i: usize = 0;
    while i < n
        invariant
            n == v@.len(),
            v@ == v0,
            i <= n,
            v0.no_duplicates(),
            r@.no_duplicates(),
            forall|x: usize|
                #[trigger] r@.contains(x) <==> (v0.take(i as int).contains(x) && x != id),
        decreases n - i,
    {
        let e = v[i];
        proof {
            assert(v0.take(i + 1) =~= v0.take(i as int).push(e));
            lemma_push_contains(v0.take(i as int), e);
            if v0.take(i as int).contains(e) {
                let j = choose|j: int| 0 <= j < i && v0.take(i as int)[j] == e;
                assert(v0[j] == v0[i as int]);
                assert(false);
            }
        }
        if e != id {
            let ghost r0 = r@;
            r.push(e);
            proof {
                lemma_push_contains(r0, e);
                lemma_push_no_duplicates(r0, e);
            }
        }
        i = i + 1;
    }
    proof {
        assert(v0.take(n as int) =~= v0);
    }
    *v = r;
    proof {
        assert(v@.to_set() =~= v0.to_set().remove(id));
    }
}

} // verus!
