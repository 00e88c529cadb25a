//! The abstraction boundary of the engine: the contract a game environment
//! must satisfy, the contract an agent must satisfy, and the driver that
//! plays one full game by alternating control among a list of agents.

use vstd::prelude::*;

use crate::tictactoe::AgentId;
use crate::tictactoe::Action;

verus! {

/// One finite enumeration of currently legal actions, handed out lazily.
pub trait ActionIterator: Sized {
    /// Internal consistency of the enumerator's cursor state.
    spec fn inv(&self) -> bool;

    /// The actions this enumerator has yet to yield, in order.
    spec fn remaining(&self) -> Seq<Action>;

    /// Yields the next action, or `None` once the enumeration is exhausted.
    fn next(&mut self) -> (r: Option<Action>)
        requires
            old(self).inv(),
        ensures
            final(self).inv(),
            old(self).remaining().len() > 0 ==> r == Some(old(self).remaining()[0])
                && final(self).remaining() == old(self).remaining().skip(1),
            old(self).remaining().len() == 0 ==> r is None
                && final(self).remaining() == Seq::<Action>::empty(),
    ;
}

/// The contract a game state must satisfy: turn ownership, validity of a
/// proposed action, the state transition, and terminal and winner queries.
pub trait Environment: Sized {
    /// The enumerator type returned by `valid_actions`.
    type ActionIter: ActionIterator;

    /// Well-formedness of the state; established at creation, kept by `update`.
    spec fn inv(&self) -> bool;

    /// The canonical starting position.
    spec fn spec_initial() -> Self;

    /// Whose move is next.
    spec fn spec_turn(&self) -> AgentId;

    /// Whether applying `a` from this state is legal.
    spec fn spec_valid(&self, a: Action) -> bool;

    /// The state reached by applying the legal action `a`.
    spec fn spec_after(&self, a: Action) -> Self;

    /// Whether no further moves are expected: a win or a full board.
    spec fn spec_is_terminal(&self) -> bool;

    /// The player who completed a winning line, if any.
    spec fn spec_winner(&self) -> Option<AgentId>;

    /// The actions `valid_actions` yields from this state, in order.
    spec fn spec_actions(&self) -> Seq<Action>;

    /// Produces the canonical starting position; always succeeds.
    fn initial_state() -> (r: Self)
        ensures
            r.inv(),
            r == Self::spec_initial(),
    ;

    /// Whose move is next. Pure; meaningful only while not terminal.
    fn turn(&self) -> (r: AgentId)
        requires
            self.inv(),
        ensures
            r == self.spec_turn(),
    ;

    /// True iff applying `a` from the current state is legal.
    fn is_valid(&self, a: &Action) -> (r: bool)
        requires
            self.inv(),
        ensures
            r == self.spec_valid(*a),
    ;

    /// If `a` is valid, advances the state and returns true; otherwise
    /// leaves the state exactly as it was and returns false.
    fn update(&mut self, a: &Action) -> (r: bool)
        requires
            old(self).inv(),
        ensures
            final(self).inv(),
            r == old(self).spec_valid(*a),
            r ==> *final(self) == old(self).spec_after(*a),
            !r ==> *final(self) == *old(self),
    ;

    /// The hypothetical result of `update` with `a`, leaving `self` untouched;
    /// equals `self` when `a` is invalid.
    fn what_if(&self, a: &Action) -> (r: Self)
        requires
            self.inv(),
        ensures
            r.inv(),
            self.spec_valid(*a) ==> r == self.spec_after(*a),
            !self.spec_valid(*a) ==> r == *self,
    ;

    /// Enumerates the currently legal actions, in ascending order; yields
    /// nothing once the position is terminal.
    fn valid_actions(&self) -> (r: Self::ActionIter)
        requires
            self.inv(),
        ensures
            r.inv(),
            r.remaining() == self.spec_actions(),
    ;

    /// True iff a player has completed a winning line or every cell is taken.
    fn is_terminal(&self) -> (r: bool)
        requires
            self.inv(),
        ensures
            r == self.spec_is_terminal(),
    ;

    /// The winning player, if one has completed a winning line; `None` covers
    /// both draws and unfinished games.
    fn winner(&self) -> (r: Option<AgentId>)
        requires
            self.inv(),
        ensures
            r == self.spec_winner(),
    ;
}

/// The contract a participant must satisfy: a stable seat identity, and an
/// action choice given a read-only view of the environment. The chosen action
/// need not be valid; the driver submits it and lets the environment decide.
pub trait Agent<T: Environment>: Sized {
    /// The agent's fixed seat.
    spec fn spec_identity(&self) -> AgentId;

    /// The agent's choice relation: asked in state `env`, an agent in state
    /// `pre` may answer `a` and move to private state `post`. `action` is
    /// bound to it, so a driver's log can be tied to what the agents chose.
    /// The default permits every choice; deterministic agents narrow it.
    open spec fn chooses(pre: Self, env: T, a: Action, post: Self) -> bool {
        true
    }

    /// Returns the agent's seat.
    fn identity(&self) -> (r: AgentId)
        ensures
            r == self.spec_identity(),
    ;

    /// Chooses the next action to submit; may consult private mutable state,
    /// but never changes the agent's identity.
    fn action(&mut self, env: &T) -> (a: Action)
        requires
            env.inv(),
        ensures
            final(self).spec_identity() == old(self).spec_identity(),
            Self::chooses(*old(self), *env, a, *final(self)),
    ;
}

/// The state reached by submitting `a`: the successor when `a` is valid,
/// the same state when it is not.
pub open spec fn step_state<T: Environment>(s: T, a: Action) -> T {
    if s.spec_valid(a) {
        s.spec_after(a)
    } else {
        s
    }
}

/// The state reached from `s` by submitting every logged action in order.
pub open spec fn replay<T: Environment>(s: T, log: Seq<(AgentId, Action)>) -> T
    decreases log.len(),
{
    if log.len() == 0 {
        s
    } else {
        replay(step_state(s, log[0].1), log.skip(1))
    }
}

/// Chronological well-formedness of a game log: each entry was submitted by
/// the agent whose turn it was in the state reached by the entries before it.
pub open spec fn log_wf<T: Environment>(s: T, log: Seq<(AgentId, Action)>) -> bool
    decreases log.len(),
{
    log.len() == 0 || (log[0].0 == s.spec_turn() && log_wf(step_state(s, log[0].1), log.skip(1)))
}

/// Appending one entry to a log extends the replayed state by one submission,
/// and keeps the log well-formed when the entry names the player to move.
pub proof fn lemma_log_push<T: Environment>(s: T, log: Seq<(AgentId, Action)>, e: (AgentId, Action))
    ensures
        replay(s, log.push(e)) == step_state(replay(s, log), e.1),
        log_wf(s, log) && e.0 == replay(s, log).spec_turn() ==> log_wf(s, log.push(e)),
    decreases log.len(),
{
    let whole = log.push(e);
    if log.len() == 0 {
        assert(whole[0] == e);
        assert(whole.skip(1) =~= Seq::<(AgentId, Action)>::empty());
        assert(replay(s, whole) == replay(step_state(s, e.1), whole.skip(1)));
        assert(replay(step_state(s, e.1), whole.skip(1)) == step_state(s, e.1));
        assert(replay(s, log) == s);
        assert(log_wf(step_state(s, e.1), whole.skip(1)));
    } else {
        let stepped = step_state(s, log[0].1);
        assert(whole[0] == log[0]);
        assert(whole.skip(1) =~= log.skip(1).push(e));
        lemma_log_push(stepped, log.skip(1), e);
        assert(replay(s, whole) == replay(stepped, whole.skip(1)));
        assert(replay(s, log) == replay(stepped, log.skip(1)));
        if log_wf(s, log) && e.0 == replay(s, log).spec_turn() {
            assert(log_wf(stepped, log.skip(1)));
            assert(log_wf(stepped, log.skip(1).push(e)));
            assert(log_wf(s, whole));
        }
    }
}

/// In a well-formed log, each entry names the player whose turn it is in
/// the state that the entries before it reach.
pub proof fn lemma_log_wf_turns<T: Environment>(s: T, log: Seq<(AgentId, Action)>)
    requires
        log_wf(s, log),
    ensures
        forall|m: int|
            0 <= m < log.len() ==> (#[trigger] log[m]).0 == replay(s, log.take(m)).spec_turn(),
    decreases log.len(),
{
    if log.len() > 0 {
        let s2 = step_state(s, log[0].1);
        lemma_log_wf_turns(s2, log.skip(1));
        assert forall|m: int|
            0 <= m < log.len() implies (#[trigger] log[m]).0 == replay(
            s,
            log.take(m),
        ).spec_turn() by {
            if m == 0 {
                assert(log.take(0) =~= Seq::<(AgentId, Action)>::empty());
            } else {
                let prefix = log.take(m);
                assert(prefix[0] == log[0]);
                assert(prefix.skip(1) =~= log.skip(1).take(m - 1));
                assert(replay(s, prefix) == replay(s2, log.skip(1).take(m - 1)));
                assert(log.skip(1)[m - 1] == log[m]);
            }
        }
    }
}

/// The event history of the seat `id` through a game log: starting from
/// state `s` with the agent in private state `pre`, every log entry carrying
/// `id` is a choice that agent made (per its `chooses` relation, asked in
/// the state the earlier entries reach), every other entry leaves it alone,
/// and the agent ends in private state `post`.
pub open spec fn agent_trace<T: Environment, R: Agent<T>>(
    s: T,
    log: Seq<(AgentId, Action)>,
    id: AgentId,
    pre: R,
    post: R,
) -> bool
    decreases log.len(),
{
    if log.len() == 0 {
        pre == post
    } else if log[0].0 == id {
        exists|mid: R|
            #[trigger] R::chooses(pre, s, log[0].1, mid) && agent_trace(
                step_state(s, log[0].1),
                log.skip(1),
                id,
                mid,
                post,
            )
    } else {
        agent_trace(step_state(s, log[0].1), log.skip(1), id, pre, post)
    }
}

/// Appending one entry to a log extends a seat's event history: by one
/// choice of that seat's agent when the entry carries its identity, and by
/// nothing when it does not.
pub proof fn lemma_trace_push<T: Environment, R: Agent<T>>(
    s: T,
    log: Seq<(AgentId, Action)>,
    e: (AgentId, Action),
    id: AgentId,
    pre: R,
    cur: R,
    next: R,
)
    requires
        agent_trace(s, log, id, pre, cur),
    ensures
        e.0 == id && R::chooses(cur, replay(s, log), e.1, next) ==> agent_trace(
            s,
            log.push(e),
            id,
            pre,
            next,
        ),
        e.0 != id ==> agent_trace(s, log.push(e), id, pre, cur),
    decreases log.len(),
{
    let whole = log.push(e);
    if log.len() == 0 {
        assert(whole[0] == e);
        assert(whole.skip(1) =~= Seq::<(AgentId, Action)>::empty());
        assert(replay(s, log) == s);
        assert(pre == cur);
        if e.0 == id && R::chooses(cur, s, e.1, next) {
            assert(agent_trace(step_state(s, e.1), whole.skip(1), id, next, next));
            assert(R::chooses(pre, s, whole[0].1, next));
            assert(agent_trace(s, whole, id, pre, next));
        }
        if e.0 != id {
            assert(agent_trace(step_state(s, e.1), whole.skip(1), id, pre, cur));
            assert(agent_trace(s, whole, id, pre, cur));
        }
    } else {
        assert(whole[0] == log[0]);
        assert(whole.skip(1) =~= log.skip(1).push(e));
        let s2 = step_state(s, log[0].1);
        assert(replay(s, log) == replay(s2, log.skip(1)));
        if log[0].0 == id {
            let mid = choose|mid: R|
                #[trigger] R::chooses(pre, s, log[0].1, mid) && agent_trace(
                    s2,
                    log.skip(1),
                    id,
                    mid,
                    cur,
                );
            lemma_trace_push(s2, log.skip(1), e, id, mid, cur, next);
            if e.0 == id && R::chooses(cur, replay(s, log), e.1, next) {
                assert(agent_trace(s2, log.skip(1).push(e), id, mid, next));
                assert(agent_trace(s, whole, id, pre, next));
            } else if e.0 != id {
                assert(agent_trace(s2, log.skip(1).push(e), id, mid, cur));
                assert(agent_trace(s, whole, id, pre, cur));
            }
        } else {
            lemma_trace_push(s2, log.skip(1), e, id, pre, cur, next);
        }
    }
}

/// Plays a game in `env` with the agents in `agents` and returns the
/// chronological log of `(identity, action)` pairs, one per submission,
/// accepted or not.
///
/// Each pass scans the agent list in order; an agent whose identity matches
/// the environment's turn is asked for one action, which is submitted and
/// logged whether or not the environment accepted it. A rejected action
/// leaves the turn unchanged, and the scan simply moves on to the next agent;
/// the stalled player is asked again only on the next pass.
///
/// Every run of this driver terminates: it gives up after `max_passes` scans
/// of the agent list, since agents that keep submitting invalid actions
/// would otherwise stall the game forever. A game among agents that play
/// legal moves ends long before any generous cap; callers tell a finished
/// game from an abandoned one with `is_terminal`, as they must anyway.
/// The driver never gives up early: when both seats are represented in the
/// list, every pass logs at least one submission, so on return the game is
/// terminal or all `max_passes` scans were spent.
///
/// Whatever the agents did, the log returned is a faithful record of the
/// game: replaying it from the starting state, one submission at a time,
/// reaches exactly the state the environment was left in; each entry names
/// the player whose turn it was when the entry was logged; and, when no two
/// agents share a seat, each seat's entries are exactly the choices its own
/// agent made (its `agent_trace`), asked in the states the log reaches.
pub fn play_game<T: Environment, R: Agent<T>>(
    env: &mut T,
    agents: &mut Vec<R>,
    max_passes: usize,
) -> (game_log: Vec<(AgentId, Action)>)
    requires
        old(env).inv(),
    ensures
        final(env).inv(),
        log_wf(*old(env), game_log@),
        replay(*old(env), game_log@) == *final(env),
        final(agents)@.len() == old(agents)@.len(),
        forall|k: int|
            0 <= k < old(agents)@.len() ==> #[trigger] final(agents)@[k].spec_identity()
                == old(agents)@[k].spec_identity(),
        max_passes > 0 && !old(env).spec_is_terminal() && (exists|k: int|
            0 <= k < old(agents)@.len()
                && #[trigger] old(agents)@[k].spec_identity() == old(env).spec_turn())
            ==> game_log@.len() > 0,
        max_passes > 0 && (exists|k: int|
            0 <= k < old(agents)@.len()
                && #[trigger] old(agents)@[k].spec_identity() == AgentId::X) && (exists|k: int|
            0 <= k < old(agents)@.len()
                && #[trigger] old(agents)@[k].spec_identity() == AgentId::O)
            ==> final(env).spec_is_terminal() || game_log@.len() >= max_passes,
        (forall|k1: int, k2: int|
            0 <= k1 < k2 < old(agents)@.len() ==> #[trigger] old(agents)@[k1].spec_identity()
                != #[trigger] old(agents)@[k2].spec_identity()) ==> forall|k: int|
            0 <= k < old(agents)@.len() ==> #[trigger] agent_trace(
                *old(env),
                game_log@,
                old(agents)@[k].spec_identity(),
                old(agents)@[k],
                final(agents)@[k],
            ),
{
    let ghost env0 = *env;
    let ghost agents0 = agents@;
    let ghost ids0 = agents@.map_values(|r: R| r.spec_identity());
    let ghost cover_x = exists|k: int| 0 <= k < ids0.len() && #[trigger] ids0[k] == AgentId::X;
    let ghost cover_o = exists|k: int| 0 <= k < ids0.len() && #[trigger] ids0[k] == AgentId::O;
    let ghost distinct = forall|k1: int, k2: int|
        #![trigger ids0[k1], ids0[k2]]
        0 <= k1 < k2 < ids0.len() ==> ids0[k1] != ids0[k2];
    let mut game_log: Vec<(AgentId, Action)> = Vec::new();
    let mut pass: usize = 0;

    proof {
        assert forall|k: int|
            0 <= k < ids0.len() implies #[trigger] agent_trace(
            env0,
            game_log@,
            ids0[k],
            agents0[k],
            agents@[k],
        ) by {
            assert(agents0[k] == agents@[k]);
        }
    }

    while pass < max_passes && !env.is_terminal()
        invariant
            env.inv(),
            log_wf(env0, game_log@),
            replay(env0, game_log@) == *env,
            agents@.len() == ids0.len(),
            agents0.len() == ids0.len(),
            cover_x == (exists|k: int|
                0 <= k < ids0.len() && #[trigger] ids0[k] == AgentId::X),
            cover_o == (exists|k: int|
                0 <= k < ids0.len() && #[trigger] ids0[k] == AgentId::O),
            distinct == (forall|k1: int, k2: int|
                #![trigger ids0[k1], ids0[k2]]
                0 <= k1 < k2 < ids0.len() ==> ids0[k1] != ids0[k2]),
            forall|k: int|
                0 <= k < agents@.len() ==> #[trigger] agents@[k].spec_identity() == ids0[k],
            pass > 0 && game_log@.len() == 0 ==> forall|k: int|
                0 <= k < ids0.len() ==> #[trigger] ids0[k] != env0.spec_turn(),
            cover_x && cover_o ==> game_log@.len() >= pass,
            distinct ==> forall|k: int|
                0 <= k < ids0.len() ==> #[trigger] agent_trace(
                    env0,
                    game_log@,
                    ids0[k],
                    agents0[k],
                    agents@[k],
                ),
        decreases max_passes - pass,
    {
        pass += 1;
        let ghost log_at_pass = game_log@;
        let ghost env_at_pass = *env;
        proof {
            if cover_x && cover_o {
                assert(log_at_pass.len() >= pass - 1);
            }
        }
        let n = agents.len();
        let mut i: usize = 0;
        while i < n
            invariant
                i <= n,
                n == agents@.len(),
                env.inv(),
                log_wf(env0, game_log@),
                replay(env0, game_log@) == *env,
                agents@.len() == ids0.len(),
                agents0.len() == ids0.len(),
                cover_x == (exists|k: int|
                    0 <= k < ids0.len() && #[trigger] ids0[k] == AgentId::X),
                cover_o == (exists|k: int|
                    0 <= k < ids0.len() && #[trigger] ids0[k] == AgentId::O),
                distinct == (forall|k1: int, k2: int|
                    #![trigger ids0[k1], ids0[k2]]
                    0 <= k1 < k2 < ids0.len() ==> ids0[k1] != ids0[k2]),
                forall|k: int|
                    0 <= k < agents@.len() ==> #[trigger] agents@[k].spec_identity() == ids0[k],
                game_log@.len() >= log_at_pass.len(),
                game_log@.len() == log_at_pass.len() ==> game_log@ == log_at_pass && *env
                    == env_at_pass && (forall|j: int|
                    0 <= j < i ==> #[trigger] ids0[j] != env_at_pass.spec_turn()),
                distinct ==> forall|k: int|
                    0 <= k < ids0.len() ==> #[trigger] agent_trace(
                        env0,
                        game_log@,
                        ids0[k],
                        agents0[k],
                        agents@[k],
                    ),
            ensures
                env.inv(),
                log_wf(env0, game_log@),
                replay(env0, game_log@) == *env,
                agents@.len() == ids0.len(),
                forall|k: int|
                    0 <= k < agents@.len() ==> #[trigger] agents@[k].spec_identity() == ids0[k],
                game_log@.len() >= log_at_pass.len(),
                game_log@.len() == log_at_pass.len() ==> game_log@ == log_at_pass && *env
                    == env_at_pass && (forall|j: int|
                    0 <= j < n ==> #[trigger] ids0[j] != env_at_pass.spec_turn()),
                distinct ==> forall|k: int|
                    0 <= k < ids0.len() ==> #[trigger] agent_trace(
                        env0,
                        game_log@,
                        ids0[k],
                        agents0[k],
                        agents@[k],
                    ),
            decreases n - i,
        {
            let ghost pre = agents@;
            let mut agent = agents.remove(i);
            let identity = agent.identity();
            let mut done = false;
            let ghost old_log = game_log@;
            let ghost polled = false;
            let ghost entry = (identity, 0u8);
            if identity == env.turn() {
                let ghost env_before = *env;
                let action = agent.action(env);
                proof {
                    polled = true;
                    entry = (identity, action);
                    lemma_log_push(env0, game_log@, entry);
                }
                env.update(&action);
                game_log.push((identity, action));
                done = env.is_terminal();
            }
            let ghost ag = agent;
            agents.insert(i, agent);
            proof {
                assert(agents@ =~= pre.update(i as int, ag));
                if distinct {
                    assert forall|k: int|
                        0 <= k < ids0.len() implies #[trigger] agent_trace(
                        env0,
                        game_log@,
                        ids0[k],
                        agents0[k],
                        agents@[k],
                    ) by {
                        if polled {
                            lemma_trace_push(env0, old_log, entry, ids0[k], agents0[k], pre[k], ag);
                            if k != i {
                                if k < i as int {
                                    assert(ids0[k] != ids0[i as int]);
                                } else {
                                    assert(ids0[i as int] != ids0[k]);
                                }
                                assert(agents@[k] == pre[k]);
                            }
                        } else {
                            assert(agents@[k] == pre[k]);
                        }
                    }
                }
            }
            if done {
                break ;
            }
            i += 1;
        }
        proof {
            if cover_x && cover_o && game_log@.len() == log_at_pass.len() {
                let seat = env_at_pass.spec_turn();
                if seat == AgentId::X {
                    let k = choose|k: int|
                        0 <= k < ids0.len() && #[trigger] ids0[k] == AgentId::X;
                    assert(ids0[k] != seat);
                    assert(false);
                } else {
                    assert(seat == AgentId::O);
                    let k = choose|k: int|
                        0 <= k < ids0.len() && #[trigger] ids0[k] == AgentId::O;
                    assert(ids0[k] != seat);
                    assert(false);
                }
            }
            if game_log@.len() == 0 {
                assert(log_at_pass =~= game_log@);
                assert(env_at_pass == *env);
                assert(replay(env0, game_log@) == env0);
            }
        }
    }
    proof {
        if max_passes > 0 && !env0.spec_is_terminal() && game_log@.len() == 0 {
            assert(*env == env0);
            assert(pass > 0);
            assert forall|k: int|
                0 <= k < old(agents)@.len() implies #[trigger] old(agents)@[k].spec_identity()
                != old(env).spec_turn() by {
                assert(ids0[k] == old(agents)@[k].spec_identity());
                assert(ids0[k] != env0.spec_turn());
            }
        }
        if exists|k: int|
            0 <= k < old(agents)@.len() && #[trigger] old(agents)@[k].spec_identity()
                == AgentId::X {
            let k = choose|k: int|
                0 <= k < old(agents)@.len() && #[trigger] old(agents)@[k].spec_identity()
                    == AgentId::X;
            assert(ids0[k] == AgentId::X);
            assert(cover_x);
        }
        if exists|k: int|
            0 <= k < old(agents)@.len() && #[trigger] old(agents)@[k].spec_identity()
                == AgentId::O {
            let k = choose|k: int|
                0 <= k < old(agents)@.len() && #[trigger] old(agents)@[k].spec_identity()
                    == AgentId::O;
            assert(ids0[k] == AgentId::O);
            assert(cover_o);
        }
        if forall|k1: int, k2: int|
            0 <= k1 < k2 < old(agents)@.len() ==> #[trigger] old(agents)@[k1].spec_identity()
                != #[trigger] old(agents)@[k2].spec_identity() {
            assert forall|k1: int, k2: int|
                0 <= k1 < k2 < ids0.len() implies ids0[k1] != ids0[k2] by {
                assert(ids0[k1] == old(agents)@[k1].spec_identity());
                assert(ids0[k2] == old(agents)@[k2].spec_identity());
            }
            assert(distinct);
            assert forall|k: int|
                0 <= k < old(agents)@.len() implies #[trigger] agent_trace(
                env0,
                game_log@,
                old(agents)@[k].spec_identity(),
                old(agents)@[k],
                agents@[k],
            ) by {
                assert(ids0[k] == old(agents)@[k].spec_identity());
                assert(agents0[k] == old(agents)@[k]);
                assert(agent_trace(env0, game_log@, ids0[k], agents0[k], agents@[k]));
            }
        }
    }
    game_log
}

} // verus!
