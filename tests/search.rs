use connect4::ai::TurnAction;
use connect4::eval::{BLOCK_PENALTY, FOUR_IN_A_ROW, THREE_IN_A_ROW, TWO_IN_A_ROW};
use connect4::{Board, Cell, PlayerId, AI, COLS};

fn board_after(moves: &[usize]) -> Board {
    let mut board = Board::new_human_vs_human();
    for &col in moves {
        board.play_move(col);
    }
    board
}

#[test]
fn test_best_move_basic() {
    let mut board = Board::new_human_vs_human();

    board.play_move(0);
    board.play_move(1);
    board.play_move(0);
    board.play_move(1);

    let ai = AI { depth: 5 };
    let best_col = ai.best_move(&board);

    assert!(best_col.is_some());
    assert!(best_col.unwrap() < COLS);
}

#[test]
fn test_ai_blocks_win() {
    let mut board = Board::new_human_vs_human();

    board.play_move(0);
    board.play_move(4);
    board.play_move(1);
    board.play_move(4);
    board.play_move(2);

    let ai = AI { depth: 5 };
    let best = ai.best_move(&board);

    assert_eq!(best, Some(3));
}

#[test]
fn search_completes_own_three() {
    let board = board_after(&[0, 6, 1, 6, 2, 5]);
    assert_eq!(AI { depth: 2 }.best_move(&board), Some(3));
    assert_eq!(AI { depth: 3 }.best_move(&board), Some(3));
}

#[test]
fn search_blocks_vertical_threat() {
    let board = board_after(&[0, 6, 0, 6, 1, 6]);
    assert_eq!(AI { depth: 3 }.best_move(&board), Some(6));
}

#[test]
fn search_on_finished_game_finds_nothing() {
    let board = board_after(&[0, 1, 0, 1, 0, 1, 0]);
    assert_eq!(AI { depth: 3 }.best_move(&board), None);
}

#[test]
fn search_avoids_full_columns() {
    let board = board_after(&[0, 0, 0, 0, 0, 0]);
    let col = AI { depth: 1 }.best_move(&board).unwrap();
    assert_ne!(col, 0);
    assert!(board.valid_move(col));
}

#[test]
fn difficulty_maps_to_depth() {
    assert_eq!(AI::new(1).depth, 4);
    assert_eq!(AI::new(2).depth, 6);
    assert_eq!(AI::new(3).depth, 8);
    assert_eq!(AI::new(10).depth, 10);
    assert_eq!(AI::new(0).depth, 6);
    assert_eq!(AI::new(42).depth, 6);
}

#[test]
fn evaluate_scores() {
    let empty = Board::new_human_vs_human();
    let one = *empty.get_current_player();
    assert_eq!(empty.evaluate(one), 0);

    let center = board_after(&[3]);
    let mut two = one;
    two.id = PlayerId::Two;
    assert_eq!(center.evaluate(one), 3);
    assert_eq!(center.evaluate(two), 0);

    let threat = board_after(&[0, 6, 1, 6, 2, 5]);
    assert_eq!(threat.evaluate(one), 5500);
    assert_eq!(threat.evaluate(two), -3000);
}

#[test]
fn evaluate_twice_gives_the_same_score() {
    let board = board_after(&[0, 4, 1, 4, 2]);
    let p = *board.get_current_player();
    let first = board.evaluate(p);
    let second = board.evaluate(p);
    assert_eq!(first, second);
    assert_eq!(first, -3500);
}

#[test]
fn window_scores() {
    let x = Cell::Player(PlayerId::One);
    let o = Cell::Player(PlayerId::Two);
    let e = Cell::Empty;
    assert_eq!(Board::score_window(&[x, x, x, x], PlayerId::One), FOUR_IN_A_ROW);
    assert_eq!(Board::score_window(&[x, e, x, x], PlayerId::One), THREE_IN_A_ROW);
    assert_eq!(Board::score_window(&[e, x, x, e], PlayerId::One), TWO_IN_A_ROW);
    assert_eq!(Board::score_window(&[o, o, e, o], PlayerId::One), -BLOCK_PENALTY);
    assert_eq!(Board::score_window(&[o, x, x, x], PlayerId::One), 0);
    assert_eq!(Board::score_window(&[o, o, o, o], PlayerId::One), 0);
    assert_eq!(Board::score_window(&[e, e, e, x], PlayerId::One), 0);
}

#[test]
fn next_action_follows_the_seat() {
    let human = Board::new_human_vs_human();
    assert_eq!(human.next_action(), TurnAction::AskHuman);

    let mut board = Board::new_ai_vs_human(1);
    for &col in &[0, 6, 1, 6, 2, 5] {
        board.play_move(col);
    }
    assert_eq!(
        board.next_action(),
        TurnAction::Drop(AI { depth: 4 }.best_move(&board).unwrap())
    );

    let mut done = Board::new_ai_vs_ai(1, 1);
    for &col in &[0, 1, 0, 1, 0, 1, 0] {
        done.play_move(col);
    }
    assert_eq!(done.next_action(), TurnAction::GameOver);
}
