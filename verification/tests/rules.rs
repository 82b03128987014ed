//! End-to-end tests of the rules engine: win detection on raw bitboards,
//! lobby sequencing, turn order, every rejection, the vertical-win scenario
//! and the full 42-move draw.

use connect_four::{
    create, has_won, make_move, new_game_with_opponent, ConnectFour, Game, GameError, GameResult,
    GameStatus, Player,
};

fn p1() -> Player {
    Player(1, 0, 0, 0)
}

fn p2() -> Player {
    Player(0xdead_beef, 7, 42, u64::MAX)
}

fn new_game(lobby: &mut ConnectFour) -> Game {
    new_game_with_opponent(lobby, p1(), p2()).expect("players differ")
}

fn play(lobby: &ConnectFour, game: &mut Game, player: Player, column: u8) {
    assert_eq!(make_move(lobby, game, player, column), Ok(()));
}

fn bits(indices: &[u64]) -> u64 {
    let mut board: u64 = 0;
    for &i in indices {
        board |= 1u64 << i;
    }
    board
}

#[test]
fn has_won_empty_and_short_runs() {
    assert!(!has_won(0));
    assert!(!has_won(bits(&[0])));
    assert!(!has_won(bits(&[0, 1, 2])));
    assert!(!has_won(bits(&[0, 7, 14])));
    assert!(!has_won(bits(&[0, 8, 16])));
    assert!(!has_won(bits(&[3, 9, 15])));
}

#[test]
fn has_won_vertical() {
    assert!(has_won(bits(&[0, 1, 2, 3])));
    assert!(has_won(bits(&[44, 45, 46, 47])));
}

#[test]
fn has_won_horizontal() {
    assert!(has_won(bits(&[0, 7, 14, 21])));
    assert!(has_won(bits(&[26, 33, 40, 47])));
}

#[test]
fn has_won_diagonals() {
    // rising: (0,0) (1,1) (2,2) (3,3)
    assert!(has_won(bits(&[0, 8, 16, 24])));
    // falling: (0,3) (1,2) (2,1) (3,0)
    assert!(has_won(bits(&[3, 9, 15, 21])));
}

#[test]
fn has_won_no_false_positive_at_column_boundaries() {
    // two discs atop column 0 and two at the bottom of column 1: adjacent in
    // the grid's sense nowhere, and the sentinel gap keeps the vertical
    // stride from wrapping
    assert!(!has_won(bits(&[4, 5, 7, 8])));
    // three discs atop column 0 and one at the bottom of column 1
    assert!(!has_won(bits(&[3, 4, 5, 7])));
    // top rows of columns 0..3 with holes that only wraparound would bridge
    assert!(!has_won(bits(&[5, 12, 19, 27])));
}

#[test]
fn has_won_is_bit_exact_on_raw_words() {
    // on a raw word (never a committed board) a run across the sentinel is
    // still a stride-1 hit: the detector is pure bit logic
    assert!(has_won(bits(&[5, 6, 7, 8])));
}

#[test]
fn create_sets_geometry() {
    let lobby = create();
    assert_eq!(lobby.game_count, 0);
    assert_eq!(lobby.top_row, 283691315109952);
    assert_eq!(
        lobby.initial_next_cell_index_by_column,
        [0, 7, 14, 21, 28, 35, 42]
    );
}

#[test]
fn self_play_rejected() {
    let mut lobby = create();
    assert_eq!(
        new_game_with_opponent(&mut lobby, p1(), p1()),
        Err(GameError::SamePlayers)
    );
    assert_eq!(
        new_game_with_opponent(&mut lobby, p2(), p2()),
        Err(GameError::SamePlayers)
    );
    assert_eq!(lobby.game_count, 0);
}

#[test]
fn new_game_initializes_and_sequences_ids() {
    let mut lobby = create();
    let game = new_game(&mut lobby);
    assert_eq!(game.game_id, 0);
    assert_eq!(game.player1, p1());
    assert_eq!(game.player2, p2());
    assert_eq!(game.next_cell_index_by_column, [0, 7, 14, 21, 28, 35, 42]);
    assert_eq!(game.board, [0, 0]);
    assert_eq!(game.move_count, 0);
    assert_eq!(game.status, GameStatus::Ongoing);
    let second = new_game(&mut lobby);
    assert_eq!(second.game_id, 1);
    assert_eq!(lobby.game_count, 2);
}

#[test]
fn turns_alternate_and_wrong_identity_changes_nothing() {
    let mut lobby = create();
    let mut game = new_game(&mut lobby);
    let stranger = Player(9, 9, 9, 9);
    // 1st move belongs to player 1
    assert_eq!(
        make_move(&lobby, &mut game, p2(), 3),
        Err(GameError::NotPlayerTurn)
    );
    assert_eq!(
        make_move(&lobby, &mut game, stranger, 3),
        Err(GameError::NotPlayerTurn)
    );
    assert_eq!(game.move_count, 0);
    assert_eq!(game.board, [0, 0]);
    play(&lobby, &mut game, p1(), 3);
    // 2nd move belongs to player 2
    assert_eq!(
        make_move(&lobby, &mut game, p1(), 3),
        Err(GameError::NotPlayerTurn)
    );
    let snapshot = game;
    assert_eq!(
        make_move(&lobby, &mut game, stranger, 0),
        Err(GameError::NotPlayerTurn)
    );
    assert_eq!(game, snapshot);
    play(&lobby, &mut game, p2(), 3);
    assert_eq!(game.move_count, 2);
}

#[test]
fn column_out_of_bounds_rejected() {
    let mut lobby = create();
    let mut game = new_game(&mut lobby);
    for column in [7u8, 8, 100, u8::MAX] {
        assert_eq!(
            make_move(&lobby, &mut game, p1(), column),
            Err(GameError::InvalidColumnInput)
        );
        assert_eq!(game.move_count, 0);
        assert_eq!(game.board, [0, 0]);
    }
    // still rejected later in the game, on the mover's turn
    play(&lobby, &mut game, p1(), 0);
    assert_eq!(
        make_move(&lobby, &mut game, p2(), 7),
        Err(GameError::InvalidColumnInput)
    );
}

#[test]
fn seventh_disc_in_a_column_rejected() {
    let mut lobby = create();
    let mut game = new_game(&mut lobby);
    // six successful moves into column 2, alternating players
    play(&lobby, &mut game, p1(), 2);
    play(&lobby, &mut game, p2(), 2);
    play(&lobby, &mut game, p1(), 2);
    play(&lobby, &mut game, p2(), 2);
    play(&lobby, &mut game, p1(), 2);
    play(&lobby, &mut game, p2(), 2);
    assert_eq!(game.next_cell_index_by_column[2], 20);
    assert_eq!(game.status, GameStatus::Ongoing);
    let snapshot = game;
    assert_eq!(
        make_move(&lobby, &mut game, p1(), 2),
        Err(GameError::ColumnAlreadyFull)
    );
    assert_eq!(game, snapshot);
    // another column still accepts the move
    play(&lobby, &mut game, p1(), 3);
}

#[test]
fn vertical_win_on_seventh_move() {
    let mut lobby = create();
    let mut game = new_game(&mut lobby);
    play(&lobby, &mut game, p1(), 0);
    play(&lobby, &mut game, p2(), 1);
    play(&lobby, &mut game, p1(), 0);
    play(&lobby, &mut game, p2(), 1);
    play(&lobby, &mut game, p1(), 0);
    play(&lobby, &mut game, p2(), 1);
    assert_eq!(game.status, GameStatus::Ongoing);
    play(&lobby, &mut game, p1(), 0);
    assert_eq!(game.status, GameStatus::Finished(GameResult::Player1Won));
    assert_eq!(game.move_count, 7);
    assert_eq!(game.board[0], bits(&[0, 1, 2, 3]));
    assert_eq!(game.board[1], bits(&[7, 8, 9]));
}

#[test]
fn finished_game_locks_out_every_move() {
    let mut lobby = create();
    let mut game = new_game(&mut lobby);
    for _ in 0..3 {
        play(&lobby, &mut game, p1(), 0);
        play(&lobby, &mut game, p2(), 1);
    }
    play(&lobby, &mut game, p1(), 0);
    assert_eq!(game.status, GameStatus::Finished(GameResult::Player1Won));
    let snapshot = game;
    // any actor, any column, even an out-of-range one
    for (player, column) in [(p2(), 1u8), (p1(), 0), (p2(), 9), (p1(), 6)] {
        assert_eq!(
            make_move(&lobby, &mut game, player, column),
            Err(GameError::GameAlreadyFinished)
        );
        assert_eq!(game, snapshot);
    }
}

#[test]
fn forty_two_moves_without_a_line_end_in_a_draw() {
    let mut lobby = create();
    let mut game = new_game(&mut lobby);
    // fill column pairs so that every run stops at three:
    // columns 2k get P1P1P1 P2P2P2, columns 2k+1 the reverse, and
    // column 6 alternates
    let mut moves: Vec<u8> = Vec::new();
    for pair in 0..3u8 {
        let (a, b) = (2 * pair, 2 * pair + 1);
        moves.extend([a, b, a, b, a, b]);
        moves.extend([b, a, b, a, b, a]);
    }
    moves.extend([6, 6, 6, 6, 6, 6]);
    assert_eq!(moves.len(), 42);
    for (k, &column) in moves.iter().enumerate() {
        assert_eq!(game.status, GameStatus::Ongoing);
        let mover = if k % 2 == 0 { p1() } else { p2() };
        play(&lobby, &mut game, mover, column);
    }
    assert_eq!(game.move_count, 42);
    assert_eq!(game.status, GameStatus::Finished(GameResult::Draw));
    // the whole 49-bit space below the sentinels is exactly covered
    assert_eq!(game.board[0] & game.board[1], 0);
    assert_eq!(game.board[0] | game.board[1], !lobby.top_row & ((1u64 << 49) - 1));
}
