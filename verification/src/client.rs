//! The agent's state between broadcasts and what it does on each one.

use vstd::prelude::*;
use vstd::string::StringSliceAdditionalSpecFns;
use crate::board::{
    all_empty, empty_board, first_n_moves, in_bounds, legal_cells, legal_moves, opening_cells,
    valid_player, Board,
};
use crate::error::{decode_error_text, mismatch_text, ReversiError};
use crate::strategy::ReversiStrategy;
use crate::text::{fields, field_number, number_or, split_fields};
use crate::wire::{
    board_wf, decode, decoded, is_game_over, is_truncated, wire_cell, wire_turn, DecodeError,
    GameState,
};

verus! {

/// The port on which the server awaits player 0; each player's port lies
/// that player's number above it.
pub const BASE_PORT: i32 = 3333;

/// What the agent does after a broadcast.
#[derive(Debug, Clone, Copy, PartialEq, Eq, Structural)]
pub enum Step {
    /// It is the agent's turn: send this move, row then column.
    Move(i8, i8),
    /// It is the agent's turn and no move is legal: send nothing.
    Pass,
    /// It is not the agent's turn.
    NotOurTurn,
    /// The message was refused: keep listening.
    Malformed,
    /// The game has ended: stop.
    GameOver,
}

/// The agent: which player it is, how it chooses, the last board it saw,
/// and how far it is into the opening.
pub struct ReversiClient<S: ReversiStrategy> {
    pub player_number: i8,
    pub strategy: S,
    pub board: Board,
    pub past_4_turns: bool,
    pub num_turns: u8,
}

/// The player whom a greeting names: its first field, fields being parted
/// by spaces, or -1 where that is no integer of eight bits.
pub open spec fn greeting_player(greeting: Seq<u8>) -> int {
    number_or(fields(greeting, 32)[0], -128, 127, -1)
}

/// The candidate moves on the agent's turn: during its first four turns the
/// free centre cells, if any; else the cells that the flanking rule allows.
pub open spec fn candidates(past_4_turns: bool, num_turns: u8, board: Board, player: i8) -> Seq<(i8, i8)> {
    if !past_4_turns && num_turns < 4 && opening_cells(board).len() > 0 {
        opening_cells(board)
    } else {
        legal_cells(board, player)
    }
}

/// The port of the server for this player.
pub fn server_port(player_number: i8) -> (port: i32)
    ensures
        port == BASE_PORT + player_number,
{
    BASE_PORT + player_number as i32
}

/// Reads the player's number from the server's greeting.
pub fn read_greeting_player(greeting: &[u8]) -> (player: i8)
    ensures
        player == greeting_player(greeting@),
{
    let bounds: Vec<(usize, usize)> = split_fields(greeting, 32);
    field_number(greeting, 32, &bounds, 0, -128, 127, -1) as i8
}

impl<S: ReversiStrategy> ReversiClient<S> {
    /// The agent plays as player one or two, and the opening is behind it
    /// from its fifth turn on, where the count of its turns stands still.
    pub open spec fn wf(&self) -> bool {
        &&& valid_player(self.player_number)
        &&& self.num_turns <= 5
        &&& self.past_4_turns == (self.num_turns == 5)
    }

    /// Whether the agent's state is one that its own steps can have led to.
    pub fn is_well_formed(&self) -> (ok: bool)
        ensures
            ok == self.wf(),
    {
        (self.player_number == 1 || self.player_number == 2) && self.num_turns <= 5
            && self.past_4_turns == (self.num_turns == 5)
    }

    /// The opening state after one more turn of the agent.
    pub open spec fn after_turn(self) -> (bool, u8) {
        if self.past_4_turns {
            (true, self.num_turns)
        } else {
            (self.num_turns >= 4, (self.num_turns + 1) as u8)
        }
    }

    /// An agent before its first broadcast: an empty board, the opening ahead.
    pub fn new(player_number: i8, strategy: S) -> (client: Self)
        requires
            valid_player(player_number),
        ensures
            client.wf(),
            client.player_number == player_number,
            client.strategy == strategy,
            all_empty(client.board),
            !client.past_4_turns,
            client.num_turns == 0,
    {
        ReversiClient { player_number, strategy, board: empty_board(), past_4_turns: false, num_turns: 0 }
    }

    /// Checks the server's greeting against the player that the agent was
    /// set up as, and gives the agent where they agree.
    pub fn from_greeting(greeting: &[u8], player_number: i8, strategy: S) -> (result: Result<Self, ReversiError>)
        requires
            valid_player(player_number),
        ensures
            match result {
                Ok(client) => greeting_player(greeting@) == player_number && client.wf()
                    && client.player_number == player_number && client.strategy == strategy
                    && all_empty(client.board) && !client.past_4_turns && client.num_turns == 0,
                Err(e) => greeting_player(greeting@) != player_number
                    && e.is_protocol(mismatch_text(player_number as int, greeting_player(greeting@))),
            },
    {
        let greeted: i8 = read_greeting_player(greeting);
        if greeted != player_number {
            return Err(ReversiError::player_mismatch(player_number, greeted));
        }
        Ok(Self::new(player_number, strategy))
    }

    /// The moves that the flanking rule allows `player` on `board`.
    pub fn get_valid_moves(&self, board: &Board, player: i8) -> (moves: Vec<(i8, i8)>)
        requires
            valid_player(player),
        ensures
            moves@ == legal_cells(*board, player),
    {
        legal_moves(board, player)
    }

    /// The free centre cells of `board`.
    pub fn get_valid_moves_first_4(&self, board: &Board) -> (moves: Vec<(i8, i8)>)
        ensures
            moves@ == opening_cells(*board),
    {
        first_n_moves(board)
    }

    /// Reads a broadcast and, where it gives a game state, remembers its board.
    pub fn parse_message(&mut self, message: &str) -> (result: Result<GameState, ReversiError>)
        ensures
            final(self).player_number == old(self).player_number,
            final(self).strategy == old(self).strategy,
            final(self).past_4_turns == old(self).past_4_turns,
            final(self).num_turns == old(self).num_turns,
            match result {
                Ok(state) => !is_game_over(message.spec_bytes()) && !is_truncated(message.spec_bytes())
                    && decoded(message.spec_bytes(), state) && board_wf(state.board)
                    && final(self).board == state.board,
                Err(e) => final(self).board == old(self).board
                    && (is_game_over(message.spec_bytes()) || is_truncated(message.spec_bytes()))
                    && e.is_protocol(
                    decode_error_text(
                        if is_game_over(message.spec_bytes()) {
                            DecodeError::GameOver
                        } else {
                            DecodeError::Truncated
                        },
                    ),
                ),
            },
    {
        match decode(message.as_bytes()) {
            Ok(state) => {
                self.board = state.board;
                Ok(state)
            },
            Err(e) => Err(ReversiError::from_decode(e)),
        }
    }

    /// The agent's turn on the board it last saw: counts the turn, and gives
    /// the candidates among which the strategy is to choose.
    pub fn take_turn(&mut self) -> (moves: Vec<(i8, i8)>)
        requires
            old(self).wf(),
        ensures
            final(self).wf(),
            final(self).player_number == old(self).player_number,
            final(self).strategy == old(self).strategy,
            final(self).board == old(self).board,
            (final(self).past_4_turns, final(self).num_turns) == old(self).after_turn(),
            moves@ == candidates(old(self).past_4_turns, old(self).num_turns, old(self).board, old(self).player_number),
    {
        if !self.past_4_turns {
            self.num_turns = self.num_turns + 1;
            if self.num_turns <= 4 {
                let opening: Vec<(i8, i8)> = first_n_moves(&self.board);
                if opening.len() > 0 {
                    return opening;
                }
            } else {
                self.past_4_turns = true;
            }
        }
        legal_moves(&self.board, self.player_number)
    }

    /// `chosen` is what the agent's strategy answered when it was asked to
    /// choose among exactly the candidates `moves`.
    pub open spec fn chose(self, moves: Seq<(i8, i8)>, chosen: (i8, i8)) -> bool {
        exists|asked: &[(i8, i8)]|
            asked@ == moves && #[trigger] call_ensures(S::choose_move, (&self.strategy, asked), chosen)
    }

    /// What a broadcast does: `next` is the agent after the message `raw`, and
    /// `step` what it does. A refused message changes nothing. An accepted
    /// one replaces the board; on the agent's turn it also counts the turn,
    /// and the move, if any is to be sent, is one of the candidates.
    pub open spec fn steps_to(self, raw: Seq<u8>, next: Self, step: Step) -> bool {
        &&& next.player_number == self.player_number
        &&& next.strategy == self.strategy
        &&& is_game_over(raw) ==> step == Step::GameOver && next == self
        &&& !is_game_over(raw) && is_truncated(raw) ==> step == Step::Malformed && next == self
        &&& !is_game_over(raw) && !is_truncated(raw) ==> {
            &&& board_wf(next.board)
            &&& forall|r: int, c: int| in_bounds(r, c) ==> #[trigger] next.board[r][c] == wire_cell(raw, r, c)
            &&& if wire_turn(raw) != self.player_number {
                &&& step == Step::NotOurTurn
                &&& next.past_4_turns == self.past_4_turns
                &&& next.num_turns == self.num_turns
            } else {
                let moves = candidates(self.past_4_turns, self.num_turns, next.board, self.player_number);
                &&& (next.past_4_turns, next.num_turns) == self.after_turn()
                &&& if moves.len() == 0 {
                    step == Step::Pass
                } else {
                    step matches Step::Move(row, col) && moves.contains((row, col)) && self.chose(
                        moves,
                        (row, col),
                    )
                }
            }
        }
    }

    /// One broadcast: what the agent does, and what it remembers afterwards.
    pub fn on_message(&mut self, raw: &[u8]) -> (step: Step)
        requires
            old(self).wf(),
        ensures
            final(self).wf(),
            old(self).steps_to(raw@, *final(self), step),
    {
        match decode(raw) {
            Err(DecodeError::GameOver) => Step::GameOver,
            Err(DecodeError::Truncated) => Step::Malformed,
            Ok(state) => {
                self.board = state.board;
                if state.turn != self.player_number {
                    return Step::NotOurTurn;
                }
                let moves: Vec<(i8, i8)> = self.take_turn();
                if moves.len() == 0 {
                    Step::Pass
                } else {
                    let asked: &[(i8, i8)] = moves.as_slice();
                    let chosen: (i8, i8) = self.strategy.choose_move(asked);
                    assert(call_ensures(S::choose_move, (&self.strategy, asked), chosen));
                    Step::Move(chosen.0, chosen.1)
                }
            },
        }
    }

    /// One read from the connection. An empty read means that the peer has
    /// closed it, which ends the agent; anything else is a broadcast.
    pub fn on_read(&mut self, raw: &[u8]) -> (result: Result<Step, ReversiError>)
        requires
            old(self).wf(),
        ensures
            final(self).wf(),
            match result {
                Ok(step) => raw@.len() > 0 && old(self).steps_to(raw@, *final(self), step),
                Err(e) => raw@.len() == 0 && *final(self) == *old(self)
                    && e.is_connection("Connection closed"@),
            },
    {
        if raw.len() == 0 {
            return Err(ReversiError::connection_closed());
        }
        Ok(self.on_message(raw))
    }
}

} // verus!
