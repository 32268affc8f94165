//! The server's broadcast, read into a game state, and the reply that
//! carries a move.

use vstd::prelude::*;
use crate::board::{in_bounds, Board};
use crate::text::{
    bounds_of, copy_field, decimal_text, field_number, fields, lemma_decimal_round_trip,
    lemma_fields_of_two_lines, number_or, parse_decimal, parse_i32, parse_within, push_decimal,
    split_fields,
};

verus! {

/// The number of fields in a broadcast: four header fields and 64 cells.
/// Text after the last line feed counts as one more field.
pub const FIELD_COUNT: usize = 69;

/// The turn value that announces the end of the game.
pub const GAME_OVER_TURN: i32 = -999;

/// One broadcast of the server. The two clocks are kept as the server wrote
/// them: the seconds left to player one and to player two, as decimal text.
#[derive(Debug, Clone)]
pub struct GameState {
    pub turn: i8,
    pub round: i32,
    pub t1: Vec<u8>,
    pub t2: Vec<u8>,
    pub board: Board,
}

/// Why a broadcast gave no game state.
#[derive(Debug, Clone, Copy, PartialEq, Eq, Structural)]
pub enum DecodeError {
    /// The turn field holds the end-of-game value.
    GameOver,
    /// The message has fewer fields than a broadcast.
    Truncated,
}

/// The message's first field is the end-of-game value.
pub open spec fn is_game_over(raw: Seq<u8>) -> bool {
    parse_decimal(fields(raw, 10)[0]) == Some(GAME_OVER_TURN as int)
}

/// The message has too few fields to hold a board.
pub open spec fn is_truncated(raw: Seq<u8>) -> bool {
    fields(raw, 10).len() < FIELD_COUNT
}

/// The turn owner that a message names: the first field where it is an
/// integer of eight bits, else -1 for "nobody".
pub open spec fn wire_turn(raw: Seq<u8>) -> int {
    number_or(fields(raw, 10)[0], -128, 127, -1)
}

/// The round that a message names, 0 where the field is no 32-bit integer.
pub open spec fn wire_round(raw: Seq<u8>) -> int {
    number_or(fields(raw, 10)[1], i32::MIN as int, i32::MAX as int, 0)
}

/// The cell `(r, c)` that a message carries: fields 4 onwards hold the board
/// row by row, and a field that is not 0, 1 or 2 reads as empty.
pub open spec fn wire_cell(raw: Seq<u8>, r: int, c: int) -> int {
    number_or(fields(raw, 10)[4 + 8 * r + c], 0, 2, 0)
}

/// Every cell is empty or holds a piece of player one or two.
pub open spec fn board_wf(b: Board) -> bool {
    forall|r: int, c: int| in_bounds(r, c) ==> 0 <= #[trigger] b[r][c] <= 2
}

/// `state` is what the message `raw` says.
pub open spec fn decoded(raw: Seq<u8>, state: GameState) -> bool {
    &&& state.turn == wire_turn(raw)
    &&& state.round == wire_round(raw)
    &&& state.t1@ == fields(raw, 10)[2]
    &&& state.t2@ == fields(raw, 10)[3]
    &&& forall|r: int, c: int| in_bounds(r, c) ==> #[trigger] state.board[r][c] == wire_cell(raw, r, c)
}

/// Reads one broadcast. The end-of-game value in the first field wins over
/// everything else; then a message with too few fields is refused; in a
/// message of the right shape every field that cannot be read gets its default.
pub fn decode(raw: &[u8]) -> (result: Result<GameState, DecodeError>)
    ensures
        match result {
            Ok(state) => !is_game_over(raw@) && !is_truncated(raw@) && decoded(raw@, state)
                && board_wf(state.board),
            Err(DecodeError::GameOver) => is_game_over(raw@),
            Err(DecodeError::Truncated) => !is_game_over(raw@) && is_truncated(raw@),
        },
{
    let bounds: Vec<(usize, usize)> = split_fields(raw, 10);
    let head: (usize, usize) = bounds[0];
    assert(fields(raw@, 10)[0] == raw@.subrange(head.0 as int, head.1 as int));
    let turn: Option<i32> = parse_i32(raw, head.0, head.1);
    if turn == Some(GAME_OVER_TURN) {
        return Err(DecodeError::GameOver);
    }
    if bounds.len() < FIELD_COUNT {
        return Err(DecodeError::Truncated);
    }
    let mut board: Board = [[0i8; 8]; 8];
    let mut index: usize = 0;
    while index < 64
        invariant
            index <= 64,
            bounds_of(raw@, 10, bounds@),
            bounds@.len() >= FIELD_COUNT,
            forall|r: int, c: int| in_bounds(r, c) && 8 * r + c < index ==> #[trigger] board[r][c] == wire_cell(raw@, r, c),
        decreases 64 - index,
    {
        let r: usize = index / 8;
        let c: usize = index % 8;
        let value: i32 = field_number(raw, 10, &bounds, 4 + index, 0, 2, 0);
        board[r][c] = value as i8;
        index = index + 1;
    }
    let state = GameState {
        turn: field_number(raw, 10, &bounds, 0, -128, 127, -1) as i8,
        round: field_number(raw, 10, &bounds, 1, i32::MIN, i32::MAX, 0),
        t1: copy_field(raw, bounds[2].0, bounds[2].1),
        t2: copy_field(raw, bounds[3].0, bounds[3].1),
        board,
    };
    assert(fields(raw@, 10)[2] == raw@.subrange(bounds@[2].0 as int, bounds@[2].1 as int));
    assert(fields(raw@, 10)[3] == raw@.subrange(bounds@[3].0 as int, bounds@[3].1 as int));
    Ok(state)
}

/// A move on the wire: the row, a line feed, the column, a line feed.
pub open spec fn move_text(row: int, col: int) -> Seq<u8> {
    decimal_text(row).push(10) + decimal_text(col).push(10)
}

/// Writes a move as the server expects it.
pub fn encode_move(row: i8, col: i8) -> (out: Vec<u8>)
    ensures
        out@ == move_text(row as int, col as int),
{
    let mut out: Vec<u8> = Vec::new();
    push_decimal(&mut out, row);
    out.push(10);
    push_decimal(&mut out, col);
    out.push(10);
    assert(out@ =~= move_text(row as int, col as int));
    out
}

/// The move that a reply names: its first two fields, each an integer from 0 to 7.
pub open spec fn parse_move(raw: Seq<u8>) -> Option<(i8, i8)> {
    let f = fields(raw, 10);
    if f.len() >= 2 && parse_within(f[0], 0, 7) is Some && parse_within(f[1], 0, 7) is Some {
        Some((parse_within(f[0], 0, 7).unwrap() as i8, parse_within(f[1], 0, 7).unwrap() as i8))
    } else {
        None
    }
}

/// Reads a move back from its two lines.
pub fn decode_move(raw: &[u8]) -> (result: Option<(i8, i8)>)
    ensures
        result == parse_move(raw@),
{
    let bounds: Vec<(usize, usize)> = split_fields(raw, 10);
    if bounds.len() < 2 {
        return None;
    }
    let row: i32 = field_number(raw, 10, &bounds, 0, 0, 7, -1);
    let col: i32 = field_number(raw, 10, &bounds, 1, 0, 7, -1);
    if row < 0 || col < 0 {
        None
    } else {
        Some((row as i8, col as i8))
    }
}

/// A move on the board, written and read back, is the same move.
pub proof fn lemma_move_round_trip(row: i8, col: i8)
    requires
        0 <= row <= 7,
        0 <= col <= 7,
    ensures
        parse_move(move_text(row as int, col as int)) == Some((row, col)),
{
    lemma_decimal_round_trip(row as int);
    lemma_decimal_round_trip(col as int);
    lemma_fields_of_two_lines(decimal_text(row as int), decimal_text(col as int));
}

} // verus!
