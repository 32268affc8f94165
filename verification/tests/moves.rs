use reversi_client::board::{first_n_moves, is_legal_move, legal_moves, opponent};
use reversi_client::{RandomStrategy, ReversiClient, ReversiStrategy};

fn opening_position() -> [[i8; 8]; 8] {
    let mut board = [[0; 8]; 8];
    board[3][3] = 2;
    board[3][4] = 1;
    board[4][3] = 1;
    board[4][4] = 2;
    board
}

#[test]
fn test_get_valid_moves_first_4() {
    let client = ReversiClient::new(1, RandomStrategy);

    let board = [[0; 8]; 8];
    let valid_moves = client.get_valid_moves_first_4(&board);

    assert_eq!(valid_moves, vec![(3, 3), (3, 4), (4, 3), (4, 4)]);
}

#[test]
fn test_get_valid_moves() {
    let client = ReversiClient::new(1, RandomStrategy);

    let mut board = [[0; 8]; 8];
    board[3][3] = 2;
    board[3][4] = 1;
    board[4][3] = 1;
    board[4][4] = 2;

    let valid_moves = client.get_valid_moves(&board, 1);

    assert_eq!(valid_moves, vec![(2, 3), (3, 2), (4, 5), (5, 4)]);
}

#[test]
fn opponent_is_the_other_player() {
    assert_eq!(opponent(1), 2);
    assert_eq!(opponent(2), 1);
}

#[test]
fn opening_moves_skip_occupied_centre_cells() {
    let mut board = [[0i8; 8]; 8];
    board[3][4] = 1;
    assert_eq!(first_n_moves(&board), vec![(3, 3), (4, 3), (4, 4)]);
    board[4][3] = 2;
    assert_eq!(first_n_moves(&board), vec![(3, 3), (4, 4)]);
    board[3][3] = 2;
    board[4][4] = 1;
    assert_eq!(first_n_moves(&board), vec![]);
    board[0][0] = 1;
    assert_eq!(first_n_moves(&board), vec![]);
}

#[test]
fn second_player_moves_in_the_opening_position() {
    assert_eq!(legal_moves(&opening_position(), 2), vec![(2, 4), (3, 5), (4, 2), (5, 3)]);
}

#[test]
fn no_moves_on_an_empty_or_one_sided_board() {
    assert_eq!(legal_moves(&[[0; 8]; 8], 1), vec![]);
    assert_eq!(legal_moves(&[[1; 8]; 8], 1), vec![]);
    let mut board = [[0i8; 8]; 8];
    board[2][2] = 1;
    board[2][3] = 1;
    assert_eq!(legal_moves(&board, 1), vec![]);
    assert_eq!(legal_moves(&board, 2), vec![]);
}

#[test]
fn legal_moves_are_empty_cells() {
    let board = opening_position();
    for player in [1i8, 2] {
        for (r, c) in legal_moves(&board, player) {
            assert_eq!(board[r as usize][c as usize], 0);
        }
    }
}

#[test]
fn legal_moves_are_the_cells_that_pass_the_rule() {
    let mut board = opening_position();
    board[2][3] = 1;
    board[5][5] = 1;
    board[0][0] = 2;
    for player in [1i8, 2] {
        let moves = legal_moves(&board, player);
        for r in 0..8usize {
            for c in 0..8usize {
                assert_eq!(
                    moves.contains(&(r as i8, c as i8)),
                    is_legal_move(&board, player, r, c)
                );
            }
        }
    }
}

#[test]
fn runs_of_every_length_flank_in_every_direction() {
    let directions: [(i8, i8); 8] =
        [(-1, -1), (-1, 0), (-1, 1), (0, -1), (0, 1), (1, -1), (1, 0), (1, 1)];
    for (dr, dc) in directions {
        let r0: i8 = if dr > 0 { 0 } else if dr < 0 { 7 } else { 3 };
        let c0: i8 = if dc > 0 { 0 } else if dc < 0 { 7 } else { 3 };
        for run in 0..=6i8 {
            let mut board = [[0i8; 8]; 8];
            for k in 1..=run {
                board[(r0 + k * dr) as usize][(c0 + k * dc) as usize] = 2;
            }
            let end = ((r0 + (run + 1) * dr) as usize, (c0 + (run + 1) * dc) as usize);
            assert!(!is_legal_move(&board, 1, r0 as usize, c0 as usize));
            board[end.0][end.1] = 1;
            assert_eq!(is_legal_move(&board, 1, r0 as usize, c0 as usize), run >= 1);
            assert_eq!(legal_moves(&board, 1).contains(&(r0, c0)), run >= 1);
            assert!(!is_legal_move(&board, 2, r0 as usize, c0 as usize));
        }
    }
}

#[test]
fn a_run_that_reaches_the_edge_does_not_flank() {
    let mut board = [[0i8; 8]; 8];
    for c in 1..8 {
        board[0][c] = 2;
    }
    assert_eq!(legal_moves(&board, 1), vec![]);
    board[0][7] = 1;
    assert_eq!(legal_moves(&board, 1), vec![(0, 0)]);
}

#[test]
fn a_gap_in_the_run_breaks_it() {
    let mut board = [[0i8; 8]; 8];
    board[4][1] = 2;
    board[4][3] = 2;
    board[4][4] = 1;
    assert_eq!(legal_moves(&board, 1), vec![(4, 2)]);
}

#[test]
fn cells_that_hold_neither_player_stop_a_run() {
    let mut board = [[0i8; 8]; 8];
    board[4][1] = 2;
    board[4][2] = 5;
    board[4][3] = 1;
    assert_eq!(legal_moves(&board, 1), vec![]);
}

#[test]
fn legal_moves_twice_gives_the_same_and_leaves_the_board() {
    let board = opening_position();
    let before = board;
    let first = legal_moves(&board, 1);
    let second = legal_moves(&board, 1);
    assert_eq!(first, second);
    assert_eq!(board, before);
    let copy = board;
    assert_eq!(legal_moves(&copy, 1), first);
}

#[test]
fn random_strategy_chooses_among_the_candidates() {
    let candidates = vec![(2i8, 3i8), (3, 2), (4, 5), (5, 4)];
    for _ in 0..200 {
        assert!(candidates.contains(&RandomStrategy.choose_move(&candidates)));
    }
    assert_eq!(RandomStrategy.choose_move(&[(6, 1)]), (6, 1));
}

#[test]
fn random_strategy_does_not_always_take_the_first() {
    let candidates: Vec<(i8, i8)> = (0..8).map(|c| (0i8, c as i8)).collect();
    let mut other = false;
    for _ in 0..400 {
        if RandomStrategy.choose_move(&candidates) != candidates[0] {
            other = true;
        }
    }
    assert!(other);
}

#[test]
fn pick_takes_the_candidate_at_the_index() {
    let candidates = [(2i8, 3i8), (3, 2), (4, 5)];
    assert_eq!(reversi_client::strategy::pick(&candidates, 0), (2, 3));
    assert_eq!(reversi_client::strategy::pick(&candidates, 2), (4, 5));
}
