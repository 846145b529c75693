use ds210::life::{calculate_liveness, count_neighbors, next_generation, BOARD_SIZE};

#[test]
fn test_newgeneration() {
    let mut board = vec![vec![0; BOARD_SIZE]; BOARD_SIZE];
    board[0][1] = 1;
    board[1][2] = 1;
    board[2][0] = 1;
    board[2][1] = 1;
    board[2][2] = 1;
    let new_board = next_generation(&board);
    let mut expected_board = new_board.clone();
    expected_board[1][0] = 1;
    expected_board[0][1] = 0;
    expected_board[2][0] = 0;
    expected_board[3][1] = 1;

    assert_eq!(new_board, expected_board);
}

#[test]
fn test_blinker_oscillator() {
    let mut board = vec![vec![0; BOARD_SIZE]; BOARD_SIZE];

    board[1][2] = 1;
    board[1][3] = 1;
    board[1][4] = 1;

    let new_board = next_generation(&board);

    let mut expected_board = vec![vec![0; BOARD_SIZE]; BOARD_SIZE];
    expected_board[0][3] = 1;
    expected_board[1][3] = 1;
    expected_board[2][3] = 1;

    assert_eq!(new_board, expected_board);
}

#[test]
fn test_calculate_liveness() {
    assert_eq!(calculate_liveness(1, 2), 1);
    assert_eq!(calculate_liveness(0, 2), 0);
    assert_eq!(calculate_liveness(0, 3), 1);
    assert_eq!(calculate_liveness(1, 3), 1);
    assert_eq!(calculate_liveness(1, 4), 0);
    assert_eq!(calculate_liveness(1, 1), 0);
    assert_eq!(calculate_liveness(0, 0), 0);
}

#[test]
fn neighbor_count_wraps_around_the_edges() {
    let mut board = vec![vec![0; BOARD_SIZE]; BOARD_SIZE];
    board[0][0] = 1;
    board[BOARD_SIZE - 1][BOARD_SIZE - 1] = 1;
    // The two live cells are diagonal neighbors across both edges.
    assert_eq!(count_neighbors(&board, 0, 0), 1);
    assert_eq!(count_neighbors(&board, BOARD_SIZE - 1, BOARD_SIZE - 1), 1);
    assert_eq!(count_neighbors(&board, 1, 1), 1);
}
