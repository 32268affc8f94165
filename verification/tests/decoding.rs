use reversi_client::wire::{decode, decode_move, encode_move, DecodeError};
use reversi_client::{RandomStrategy, ReversiClient, ReversiError};

fn clock(text: &[u8]) -> f32 {
    std::str::from_utf8(text).unwrap().parse::<f32>().unwrap_or(0.0)
}

fn broadcast(turn: &str, round: &str, cells: &[&str]) -> String {
    let mut message = format!("{}\n{}\n12.5\n7.25\n", turn, round);
    for cell in cells {
        message.push_str(cell);
        message.push('\n');
    }
    message
}

#[test]
fn test_parse_message_valid() {
    let mut client = ReversiClient::new(1, RandomStrategy);

    let message = "1\n0\n0.0\n0.0\n0\n0\n0\n0\n0\n0\n0\n0\n0\n0\n0\n0\n0\n0\n0\n0\n0\n0\n0\n0\n0\n0\n0\n0\n0\n0\n0\n0\n0\n0\n0\n0\n0\n0\n0\n0\n0\n0\n0\n0\n0\n0\n0\n0\n0\n0\n0\n0\n0\n0\n0\n0\n0\n0\n0\n0\n0\n0\n0\n0\n0\n0\n0\n0\n0\n0\n0\n0\n0\n0\n0\n0\n0\n0\n";
    let state = client.parse_message(message).unwrap();

    assert_eq!(state.turn, 1);
    assert_eq!(state.round, 0);
    assert_eq!(clock(&state.t1), 0.0);
    assert_eq!(clock(&state.t2), 0.0);
    assert_eq!(state.board, [[0; 8]; 8]);
}

#[test]
fn test_parse_message_invalid() {
    let mut client = ReversiClient::new(1, RandomStrategy);

    let message = "invalid\nmessage\n";
    let result = client.parse_message(message);

    assert!(result.is_err());
}

#[test]
fn test_parse_message_game_over() {
    let mut client = ReversiClient::new(1, RandomStrategy);

    let message = "-999\n";
    let result = client.parse_message(message);
    if let Err(ReversiError::ProtocolError(ref e)) = result {
        assert_eq!(e, "Game over");
    } else {
        panic!("Expected ProtocolError with 'Game over'");
    }
}

#[test]
fn test_send_move() {
    assert_eq!(encode_move(3, 4), b"3\n4\n".to_vec());
}

#[test]
fn truncated_message_is_a_protocol_error() {
    let mut client = ReversiClient::new(2, RandomStrategy);
    match client.parse_message("1\n0\n0.0\n0.0\n0\n0\n") {
        Err(ReversiError::ProtocolError(text)) => {
            assert_eq!(text, "Message was too short to contain the board")
        }
        _ => panic!("a short message must be refused"),
    }
}

#[test]
fn decode_tells_game_over_from_truncated() {
    assert_eq!(decode(b"-999\n").unwrap_err(), DecodeError::GameOver);
    assert_eq!(decode(b"-999").unwrap_err(), DecodeError::GameOver);
    assert_eq!(decode(b"-0999\nrest").unwrap_err(), DecodeError::GameOver);
    assert_eq!(decode(b"").unwrap_err(), DecodeError::Truncated);
    assert_eq!(decode(b"1\n2\n3\n").unwrap_err(), DecodeError::Truncated);
    assert_eq!(decode(b"invalid\nmessage\n").unwrap_err(), DecodeError::Truncated);
}

#[test]
fn game_over_wins_over_a_full_message() {
    let message = broadcast("-999", "3", &["0"; 64]);
    assert_eq!(decode(message.as_bytes()).unwrap_err(), DecodeError::GameOver);
}

#[test]
fn sixty_eight_fields_are_too_few_and_sixty_nine_enough() {
    let mut short = String::from("1\n0\n0.0\n0.0");
    for _ in 0..63 {
        short.push_str("\n0");
    }
    assert_eq!(short.split('\n').count(), 67);
    short.push_str("\n0");
    assert_eq!(short.split('\n').count(), 68);
    assert_eq!(decode(short.as_bytes()).unwrap_err(), DecodeError::Truncated);
    short.push('\n');
    assert_eq!(short.split('\n').count(), 69);
    assert!(decode(short.as_bytes()).is_ok());
}

#[test]
fn decode_reads_header_and_board() {
    let mut cells = ["0"; 64];
    cells[0] = "1";
    cells[7] = "2";
    cells[8] = "2";
    cells[27] = "1";
    cells[63] = "2";
    let message = broadcast("2", "17", &cells);
    let state = decode(message.as_bytes()).unwrap();
    assert_eq!(state.turn, 2);
    assert_eq!(state.round, 17);
    assert_eq!(state.t1, b"12.5".to_vec());
    assert_eq!(state.t2, b"7.25".to_vec());
    assert_eq!(clock(&state.t1), 12.5);
    assert_eq!(clock(&state.t2), 7.25);
    let mut expected = [[0i8; 8]; 8];
    expected[0][0] = 1;
    expected[0][7] = 2;
    expected[1][0] = 2;
    expected[3][3] = 1;
    expected[7][7] = 2;
    assert_eq!(state.board, expected);
}

#[test]
fn unreadable_fields_get_their_defaults() {
    let mut cells = ["0"; 64];
    cells[0] = "x";
    cells[1] = "3";
    cells[2] = "-1";
    cells[3] = "";
    cells[4] = " 1";
    cells[5] = "+2";
    cells[6] = "01";
    cells[7] = "99999999999999999999";
    let message = broadcast("who", "soon", &cells);
    let state = decode(message.as_bytes()).unwrap();
    assert_eq!(state.turn, -1);
    assert_eq!(state.round, 0);
    assert_eq!(state.board[0], [0, 0, 0, 0, 0, 2, 1, 0]);
}

#[test]
fn turn_outside_eight_bits_reads_as_nobody() {
    for (text, turn) in [("127", 127i8), ("-128", -128), ("128", -1), ("257", -1), ("-129", -1), ("4294967297", -1), ("-", -1), ("+", -1), ("1 ", -1)] {
        let message = broadcast(text, "0", &["0"; 64]);
        assert_eq!(decode(message.as_bytes()).unwrap().turn, turn);
    }
}

#[test]
fn round_is_a_thirty_two_bit_integer() {
    for (text, round) in [("2147483647", 2147483647i32), ("-2147483648", -2147483648), ("2147483648", 0), ("-2147483649", 0), ("+15", 15), ("0012", 12), ("1.5", 0)] {
        let message = broadcast("1", text, &["0"; 64]);
        assert_eq!(decode(message.as_bytes()).unwrap().round, round);
    }
}

#[test]
fn parse_message_remembers_the_board_only_on_success() {
    let mut client = ReversiClient::new(1, RandomStrategy);
    let mut cells = ["0"; 64];
    cells[27] = "2";
    let message = broadcast("2", "1", &cells);
    let state = client.parse_message(&message).unwrap();
    assert_eq!(client.board, state.board);
    assert_eq!(client.board[3][3], 2);
    assert!(client.parse_message("junk").is_err());
    assert_eq!(client.board[3][3], 2);
    assert!(client.parse_message("-999\n").is_err());
    assert_eq!(client.board[3][3], 2);
}

#[test]
fn every_move_survives_the_wire() {
    for r in 0..8i8 {
        for c in 0..8i8 {
            let text = encode_move(r, c);
            assert_eq!(text, format!("{}\n{}\n", r, c).into_bytes());
            assert_eq!(decode_move(&text), Some((r, c)));
        }
    }
}

#[test]
fn encode_move_writes_any_eight_bit_pair() {
    assert_eq!(encode_move(-128, 127), b"-128\n127\n".to_vec());
    assert_eq!(encode_move(-7, 10), b"-7\n10\n".to_vec());
    assert_eq!(encode_move(100, -100), b"100\n-100\n".to_vec());
    assert_eq!(encode_move(0, 99), b"0\n99\n".to_vec());
}

#[test]
fn decode_move_refuses_what_is_no_move() {
    assert_eq!(decode_move(b"3\n4\n"), Some((3, 4)));
    assert_eq!(decode_move(b"3\n4"), Some((3, 4)));
    assert_eq!(decode_move(b"3"), None);
    assert_eq!(decode_move(b""), None);
    assert_eq!(decode_move(b"8\n0\n"), None);
    assert_eq!(decode_move(b"0\n-1\n"), None);
    assert_eq!(decode_move(b"a\n1\n"), None);
}
