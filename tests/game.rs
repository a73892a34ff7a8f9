use connect4::{Board, Cell, GameState, PlayerId, PlayerType, COLS, ROWS};

fn play_moves(board: &mut Board, moves: &[usize]) {
    for &col in moves {
        board.play_move(col);
    }
}

fn play_move_draw(board: &mut Board, moves: Vec<Vec<usize>>, player: PlayerId) {
    for (row, cols) in moves.iter().enumerate() {
        for &col in cols {
            board.place_piece(col, row, player);
        }
    }
}

#[test]
fn game_test_board_initialization() {
    let board = Board::new(PlayerType::Human, PlayerType::Human);

    for col in 0..COLS {
        for row in 0..ROWS {
            assert_eq!(board.get_board()[col][row], Cell::Empty);
        }
    }

    assert_eq!(*board.get_game_state(), GameState::InProgress);
}

#[test]
fn test_drop_piece() {
    let mut board = Board::new(PlayerType::Human, PlayerType::Human);
    let pos = board.drop_piece(0);
    assert!(pos.is_some());

    let pos = pos.unwrap();

    assert_eq!(pos.position.col, 0);
    assert_eq!(pos.position.row, ROWS - 1);
    assert_ne!(board.get_board()[0][ROWS - 1], Cell::Empty);
}

#[test]
fn test_play_move() {
    let mut board = Board::new(PlayerType::Human, PlayerType::Human);
    let pos = board.play_move(0);
    assert!(pos.is_some());

    let pos = pos.unwrap();

    assert_eq!(pos.position.col, 0);
    assert_eq!(pos.position.row, ROWS - 1);
    assert_ne!(board.get_board()[0][ROWS - 1], Cell::Empty);
}

#[test]
fn game_test_invalid_column() {
    let mut board = Board::new(PlayerType::Human, PlayerType::Human);
    assert_eq!(board.drop_piece(COLS), None);
    assert_eq!(board.play_move(COLS), None);
}

#[test]
fn game_test_vertical_win() {
    let mut board = Board::new(PlayerType::Human, PlayerType::Human);
    play_moves(&mut board, &[0, 1, 0, 1, 0, 1, 0]);
    assert_eq!(*board.get_game_state(), GameState::Win(PlayerId::One));
}

#[test]
fn game_test_horizontal_win() {
    let mut board = Board::new(PlayerType::Human, PlayerType::Human);
    play_moves(&mut board, &[0, 0, 1, 1, 2, 2, 3]);
    assert_eq!(*board.get_game_state(), GameState::Win(PlayerId::One));
}

#[test]
fn game_test_diagonal_1_win() {
    let mut board = Board::new(PlayerType::Human, PlayerType::Human);
    play_moves(&mut board, &[0, 1, 1, 2, 2, 3, 2, 3, 3, 2, 3]);
    assert_eq!(*board.get_game_state(), GameState::Win(PlayerId::One));
}

#[test]
fn game_test_diagonal_2_win() {
    let mut board = Board::new(PlayerType::Human, PlayerType::Human);
    play_moves(
        &mut board,
        &[0, 0, 0, 0, 0, 0, 1, 1, 1, 1, 2, 1, 2, 2, 5, 2, 5, 3, 3, 3],
    );
    assert_eq!(*board.get_game_state(), GameState::Win(PlayerId::Two));
}

#[test]
fn game_test_draw() {
    let mut board = Board::new_human_vs_human();

    let moves_player1: Vec<Vec<usize>> = vec![
        vec![0, 1, 2, 4, 5, 6],
        vec![3],
        vec![0, 1, 5],
        vec![2, 3, 6],
        vec![0, 1, 4, 5],
        vec![0, 1, 4, 6],
    ];

    let moves_player2: Vec<Vec<usize>> = vec![
        vec![3],
        vec![0, 1, 2, 4, 5, 6],
        vec![2, 3, 4, 6],
        vec![0, 1, 4, 5],
        vec![2, 3, 6],
        vec![2, 3, 5],
    ];

    let first = board.get_current_player().id;
    play_move_draw(&mut board, moves_player1, first);
    play_move_draw(&mut board, moves_player2, first.opponent());
    assert_eq!(*board.get_game_state(), GameState::Draw);
}

#[test]
fn vertical_line_wins_on_seventh_drop() {
    let mut board = Board::new_human_vs_human();
    play_moves(&mut board, &[0, 1, 0, 1, 0, 1]);
    assert_eq!(*board.get_game_state(), GameState::InProgress);
    let m = board.drop_piece(0).unwrap();
    assert_eq!(m.player.id, PlayerId::One);
    assert_eq!(m.position.row, ROWS - 4);
    assert_eq!(*board.get_game_state(), GameState::Win(PlayerId::One));
    for row in ROWS - 4..ROWS {
        assert_eq!(board.get_board()[0][row], Cell::Player(PlayerId::One));
    }
}

#[test]
fn turns_alternate_between_drops() {
    let mut board = Board::new_human_vs_human();
    assert_eq!(board.get_current_player().id, PlayerId::One);
    board.drop_piece(2);
    assert_eq!(board.get_current_player().id, PlayerId::Two);
    assert_eq!(board.drop_piece(9), None);
    assert_eq!(board.get_current_player().id, PlayerId::Two);
    board.drop_piece(2);
    assert_eq!(board.get_current_player().id, PlayerId::One);
}

#[test]
fn drops_stack_from_the_bottom() {
    let mut board = Board::new_human_vs_human();
    for i in 0..ROWS {
        let m = board.drop_piece(4).unwrap();
        assert_eq!(m.position.row, ROWS - 1 - i);
        assert_eq!(m.position.col, 4);
    }
    assert!(!board.valid_move(4));
    assert_eq!(board.drop_piece(4), None);
    assert_eq!(board.get_board()[4][0], Cell::Player(PlayerId::Two));
    assert_eq!(board.get_board()[4][ROWS - 1], Cell::Player(PlayerId::One));
}

#[test]
fn legal_drops() {
    let mut board = Board::new_human_vs_human();
    for col in 0..COLS {
        assert!(board.valid_move(col));
    }
    assert!(!board.valid_move(COLS));
    assert!(!board.valid_move(usize::MAX));
    for _ in 0..ROWS - 1 {
        board.drop_piece(0);
    }
    assert!(board.valid_move(0));
    board.drop_piece(0);
    assert!(!board.valid_move(0));
}

#[test]
fn finished_game_stays_finished() {
    let mut board = Board::new_human_vs_human();
    play_moves(&mut board, &[0, 1, 0, 1, 0, 1, 0]);
    let before = board;
    assert_eq!(board.drop_piece(2), None);
    assert_eq!(board.play_move(1), None);
    assert_eq!(board.place_piece(5, 5, PlayerId::Two), None);
    assert_eq!(board, before);
    assert_eq!(*board.get_game_state(), GameState::Win(PlayerId::One));
}

#[test]
fn place_piece_refuses_taken_or_outside_squares() {
    let mut board = Board::new_human_vs_human();
    assert!(board.place_piece(2, 0, PlayerId::Two).is_some());
    assert_eq!(board.get_board()[2][0], Cell::Player(PlayerId::Two));
    assert_eq!(board.get_current_player().id, PlayerId::One);
    assert_eq!(board.place_piece(2, 0, PlayerId::One), None);
    assert_eq!(board.place_piece(COLS, 0, PlayerId::One), None);
    assert_eq!(board.place_piece(0, ROWS, PlayerId::One), None);
}

#[test]
fn constructors_seat_the_right_kinds() {
    let b = Board::new_human_vs_ai(1);
    assert_eq!(b.get_current_player().kind, PlayerType::Human);
    let b = Board::new_ai_vs_human(3);
    assert_eq!(
        b.get_current_player().kind,
        PlayerType::AI(connect4::AI { depth: 8 })
    );
    let b = Board::new_ai_vs_ai(2, 7);
    assert_eq!(
        b.get_current_player().kind,
        PlayerType::AI(connect4::AI { depth: 6 })
    );
    let mut b = Board::new_human_vs_ai(1);
    b.set_first_player(PlayerId::Two);
    assert_eq!(b.get_current_player().id, PlayerId::Two);
    assert_eq!(
        b.get_current_player().kind,
        PlayerType::AI(connect4::AI { depth: 4 })
    );
}

#[test]
fn random_first_player_keeps_the_board() {
    let mut b = Board::new_human_vs_human();
    b.choose_first_player();
    let id = b.get_current_player().id;
    assert!(id == PlayerId::One || id == PlayerId::Two);
    assert_eq!(*b.get_game_state(), GameState::InProgress);
    assert_eq!(b.get_board()[0][0], Cell::Empty);
}

#[test]
fn render_shows_pieces() {
    let mut board = Board::new_human_vs_human();
    board.drop_piece(0);
    board.drop_piece(6);
    let text: String = board.render().into_iter().collect();
    let lines: Vec<&str> = text.lines().collect();
    assert_eq!(lines.len(), ROWS);
    assert_eq!(lines[0], "_ _ _ _ _ _ _ ");
    assert_eq!(lines[ROWS - 1], "X _ _ _ _ _ O ");
    assert_eq!(text.len(), ROWS * 15);
}
