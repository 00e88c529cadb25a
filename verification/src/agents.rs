//! Agents: participants that hold a seat identity and choose actions.
//!
//! The human seat keeps only its identity here; the console loop that shows
//! the board and reads a person's move is I/O glue and lives with the binary,
//! outside the verified library. The scripted agent plays a fixed move list
//! and is a complete, verified implementation of the agent contract.

use vstd::prelude::*;

use crate::abstract_game::Agent;
use crate::abstract_game::Environment;
use crate::tictactoe::Action;
use crate::tictactoe::AgentId;

verus! {

/// A human-driven seat: the identity under which a person plays. Asking the
/// person for a move is console I/O and stays outside the library; a binary
/// wraps this type and supplies the reading loop.
pub struct HumanPlayer {
    agent_id: AgentId,
}

impl HumanPlayer {
    /// The seat this player occupies.
    pub closed spec fn spec_identity(&self) -> AgentId {
        self.agent_id
    }

    /// Creates a player for the given seat.
    pub fn new(agent_id: AgentId) -> (r: Self)
        ensures
            r.spec_identity() == agent_id,
    {
        Self { agent_id }
    }

    /// Returns the seat this player occupies.
    pub fn identity(&self) -> (r: AgentId)
        ensures
            r == self.spec_identity(),
    {
        self.agent_id
    }
}

/// An agent that submits a fixed list of moves, one per query, in order.
/// Once the script is exhausted it submits cell 9, which no environment
/// over a nine-cell board accepts.
pub struct ScriptedAgent {
    agent_id: AgentId,
    moves: Vec<Action>,
    next_move: usize,
}

impl ScriptedAgent {
    /// The seat this agent plays.
    pub closed spec fn seat(&self) -> AgentId {
        self.agent_id
    }

    /// The scripted moves.
    pub closed spec fn script(&self) -> Seq<Action> {
        self.moves@
    }

    /// How many moves of the script have been submitted so far.
    pub closed spec fn submitted(&self) -> int {
        self.next_move as int
    }

    /// Creates an agent for the given seat that will play `moves` in order.
    pub fn new(agent_id: AgentId, moves: Vec<Action>) -> (r: Self)
        ensures
            r.seat() == agent_id,
            r.script() == moves@,
            r.submitted() == 0,
    {
        Self { agent_id, moves, next_move: 0 }
    }
}

impl<T: Environment> Agent<T> for ScriptedAgent {
    open spec fn spec_identity(&self) -> AgentId {
        self.seat()
    }

    /// A scripted agent's choice is deterministic, whatever the state it is
    /// asked in: the next unplayed move of its script, or cell 9 once the
    /// script is spent.
    open spec fn chooses(pre: Self, env: T, a: Action, post: Self) -> bool {
        &&& post.seat() == pre.seat()
        &&& post.script() == pre.script()
        &&& if pre.submitted() < pre.script().len() {
            a == pre.script()[pre.submitted()] && post.submitted() == pre.submitted() + 1
        } else {
            a == 9 && post.submitted() == pre.submitted()
        }
    }

    fn identity(&self) -> (r: AgentId) {
        self.agent_id
    }

    /// Returns the next scripted move, or cell 9 once the script is spent.
    fn action(&mut self, env: &T) -> (a: Action)
        ensures
            old(self).submitted() < old(self).script().len() ==> a == old(self).script()[old(self).submitted()],
            old(self).submitted() < old(self).script().len() ==> final(self).submitted() == old(self).submitted() + 1,
            old(self).submitted() >= old(self).script().len() ==> a == 9,
            old(self).submitted() >= old(self).script().len() ==> final(self).submitted() == old(self).submitted(),
            final(self).seat() == old(self).seat(),
            final(self).script() == old(self).script(),
    {
        if self.next_move < self.moves.len() {
            let a = self.moves[self.next_move];
            self.next_move = self.next_move + 1;
            a
        } else {
            9
        }
    }
}

} // verus!
