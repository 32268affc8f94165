//! What can go wrong between the agent and the server.

use vstd::prelude::*;
use vstd::string::StringExecFns;
use crate::text::{decimal_digits, decimal_text};
use crate::wire::DecodeError;

verus! {

/// A failure of the connection, of the transport beneath it, or of the
/// protocol spoken over it, each with a description.
#[derive(Debug)]
pub enum ReversiError {
    ConnectionError(String),
    IoError(String),
    ProtocolError(String),
}

/// The description that goes with each reason for refusing a broadcast.
pub open spec fn decode_error_text(e: DecodeError) -> Seq<char> {
    match e {
        DecodeError::GameOver => "Game over"@,
        DecodeError::Truncated => "Message was too short to contain the board"@,
    }
}

/// An integer written in decimal, as characters.
pub open spec fn decimal_chars(v: int) -> Seq<char> {
    Seq::new(decimal_text(v).len(), |i: int| decimal_text(v)[i] as char)
}

/// The description of a greeting that names another player than expected.
pub open spec fn mismatch_text(expected: int, got: int) -> Seq<char> {
    "Player number mismatch: expected "@ + decimal_chars(expected) + ", got "@ + decimal_chars(got)
}

/// The numeral of one decimal digit.
pub fn digit_str(d: u8) -> (s: &'static str)
    requires
        d < 10,
    ensures
        s@ == seq![(48 + d) as u8 as char],
{
    proof {
        reveal_strlit("0");
        reveal_strlit("1");
        reveal_strlit("2");
        reveal_strlit("3");
        reveal_strlit("4");
        reveal_strlit("5");
        reveal_strlit("6");
        reveal_strlit("7");
        reveal_strlit("8");
        reveal_strlit("9");
    }
    let s: &'static str = match d {
        0 => "0",
        1 => "1",
        2 => "2",
        3 => "3",
        4 => "4",
        5 => "5",
        6 => "6",
        7 => "7",
        8 => "8",
        _ => "9",
    };
    assert(s@ =~= seq![(48 + d) as u8 as char]);
    s
}

/// Appends `v` in decimal to `out`.
pub fn append_decimal(out: &mut String, v: i8)
    ensures
        final(out)@ == old(out)@ + decimal_chars(v as int),
{
    reveal_with_fuel(decimal_digits, 3);
    proof {
        reveal_strlit("-");
    }
    let wide: i16 = v as i16;
    let m: u8 = if v < 0 { (-wide) as u8 } else { v as u8 };
    if v < 0 {
        out.append("-");
    }
    if m >= 100 {
        out.append(digit_str(m / 100));
    }
    if m >= 10 {
        out.append(digit_str((m / 10) % 10));
    }
    out.append(digit_str(m % 10));
    assert(final(out)@ =~= old(out)@ + decimal_chars(v as int));
}

impl ReversiError {
    /// This is a protocol error described by `text`.
    pub open spec fn is_protocol(self, text: Seq<char>) -> bool {
        self matches ReversiError::ProtocolError(t) && t@ == text
    }

    /// This is a connection error described by `text`.
    pub open spec fn is_connection(self, text: Seq<char>) -> bool {
        self matches ReversiError::ConnectionError(t) && t@ == text
    }

    /// A refused broadcast as a protocol error.
    pub fn from_decode(e: DecodeError) -> (err: ReversiError)
        ensures
            err.is_protocol(decode_error_text(e)),
    {
        match e {
            DecodeError::GameOver => ReversiError::ProtocolError("Game over".to_owned()),
            DecodeError::Truncated => ReversiError::ProtocolError(
                "Message was too short to contain the board".to_owned(),
            ),
        }
    }

    /// The peer closed the connection.
    pub fn connection_closed() -> (err: ReversiError)
        ensures
            err.is_connection("Connection closed"@),
    {
        ReversiError::ConnectionError("Connection closed".to_owned())
    }

    /// The server greeted player `got` where the agent plays as `expected`.
    pub fn player_mismatch(expected: i8, got: i8) -> (err: ReversiError)
        ensures
            err.is_protocol(mismatch_text(expected as int, got as int)),
    {
        let mut text: String = "Player number mismatch: expected ".to_owned();
        append_decimal(&mut text, expected);
        text.append(", got ");
        append_decimal(&mut text, got);
        ReversiError::ProtocolError(text)
    }
}

} // verus!
