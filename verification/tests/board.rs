use game_engine::abstract_game::ActionIterator;
use game_engine::abstract_game::Environment;
use game_engine::tictactoe::is_filled;
use game_engine::tictactoe::is_winning;
use game_engine::tictactoe::AgentId;
use game_engine::tictactoe::Board;

/// Plays a manual game and checks that the board updates accordingly.
#[test]
fn manual_game() {
    let mut board = Board::initial_state();
    assert_eq!(board.moves_x, 0);
    assert_eq!(board.moves_o, 0);
    assert_eq!(board.turn(), AgentId::X);

    assert_eq!(board.update(&4), true);
    assert_eq!(board.moves_x, 0b10000);
    assert_eq!(board.turn, AgentId::O);

    assert_eq!(board.update(&5), true);
    assert_eq!(board.moves_o, 0b100000);
    assert_eq!(board.turn, AgentId::X);

    assert_eq!(board.update(&0), true);
    assert_eq!(board.moves_x, 0b10001);
    assert_eq!(board.turn, AgentId::O);

    assert_eq!(board.update(&0), false);

    assert_eq!(board.update(&1), true);
    assert_eq!(board.moves_o, 0b100010);
    assert_eq!(board.turn, AgentId::X);

    assert_eq!(board.update(&8), true);
    assert_eq!(board.moves_x, 0b100010001);
    assert_eq!(board.turn, AgentId::O);

    assert_eq!(is_filled(&board), false);
    assert_eq!(is_winning(board.moves_o), false);
    assert_eq!(is_winning(board.moves_x), true);
    assert_eq!(board.is_terminal(), true);
}

/// An opening move in the center succeeds, marks cell 4 for X and passes the
/// turn to O.
#[test]
fn scenario_center_opening() {
    let mut board = Board::initial_state();
    assert_eq!(board.update(&4), true);
    assert_eq!(board.moves_x, 0b10000);
    assert_eq!(board.moves_o, 0);
    assert_eq!(board.turn(), AgentId::O);
}

/// Replaying an occupied cell is rejected and leaves the board untouched.
#[test]
fn scenario_occupied_cell_rejected() {
    let mut board = Board::initial_state();
    assert_eq!(board.update(&4), true);
    assert_eq!(board.update(&5), true);
    assert_eq!(board.update(&0), true);

    let before = board;
    assert_eq!(board.update(&0), false);
    assert_eq!(board, before);
    assert_eq!(board.moves_x & 1, 1);
    assert_eq!(board.turn(), AgentId::O);
}

/// X completes the top row and wins.
#[test]
fn scenario_top_row_win() {
    let mut board = Board::initial_state();
    for a in [0u8, 3, 1, 4, 2] {
        assert_eq!(board.update(&a), true);
    }
    assert_eq!(board.is_terminal(), true);
    assert_eq!(board.winner(), Some(AgentId::X));
}

/// A full board with no three-in-a-row is terminal with no winner.
#[test]
fn scenario_full_board_draw() {
    let mut board = Board::initial_state();
    // X takes 0, 2, 3, 7, 8 and O takes 1, 4, 5, 6: no line for either.
    for a in [0u8, 1, 2, 4, 3, 5, 7, 6, 8] {
        assert_eq!(board.update(&a), true);
    }
    assert_eq!(is_filled(&board), true);
    assert_eq!(board.is_terminal(), true);
    assert_eq!(board.winner(), None);
}

/// The hypothetical successor equals the updated copy, and the board asked
/// is itself unchanged by asking.
#[test]
fn what_if_matches_update() {
    let mut board = Board::initial_state();
    assert_eq!(board.update(&4), true);
    let before = board;

    let hypothetical = board.what_if(&7);
    let mut updated = board;
    assert_eq!(updated.update(&7), true);
    assert_eq!(hypothetical, updated);
    assert_eq!(board, before);

    // An invalid action hypothesizes no change at all.
    assert_eq!(board.what_if(&4), board);
    assert_eq!(board.what_if(&9), board);
}

/// The enumerator lists exactly the cells `is_valid` accepts, ascending.
#[test]
fn valid_actions_lists_free_cells() {
    let mut board = Board::initial_state();
    assert_eq!(board.update(&4), true);
    assert_eq!(board.update(&7), true);

    let mut actions = board.valid_actions();
    let mut collected: Vec<u8> = Vec::new();
    while let Some(a) = actions.next() {
        collected.push(a);
    }
    assert_eq!(collected, vec![0, 1, 2, 3, 5, 6, 8]);
    for a in 0u8..9 {
        assert_eq!(board.is_valid(&a), a != 4 && a != 7);
    }
    assert_eq!(board.is_valid(&9), false);
    assert_eq!(board.is_valid(&255), false);
}

/// Enumerating twice on the same unmutated board yields identical sequences.
#[test]
fn valid_actions_twice_identical() {
    let mut board = Board::initial_state();
    assert_eq!(board.update(&0), true);
    assert_eq!(board.update(&8), true);

    let mut first = board.valid_actions();
    let mut second = board.valid_actions();
    let mut first_seen: Vec<u8> = Vec::new();
    let mut second_seen: Vec<u8> = Vec::new();
    while let Some(a) = first.next() {
        first_seen.push(a);
    }
    while let Some(a) = second.next() {
        second_seen.push(a);
    }
    assert_eq!(first_seen, second_seen);
    assert_eq!(first_seen, vec![1, 2, 3, 4, 5, 6, 7]);
}

/// A terminal position enumerates nothing, even though free cells remain.
#[test]
fn terminal_board_enumerates_nothing() {
    let mut board = Board::initial_state();
    for a in [0u8, 3, 1, 4, 2] {
        assert_eq!(board.update(&a), true);
    }
    assert_eq!(board.is_terminal(), true);
    // Cell 5 is free, and unaffected by terminality as far as is_valid goes.
    assert_eq!(board.is_valid(&5), true);
    let mut actions = board.valid_actions();
    assert_eq!(actions.next(), None);
    assert_eq!(actions.next(), None);
}

/// Each of the eight winning masks wins; near misses do not.
#[test]
fn winning_masks() {
    for mask in [
        0b111u16,
        0b111000,
        0b111000000,
        0b1001001,
        0b10010010,
        0b100100100,
        0b100010001,
        0b1010100,
    ] {
        assert_eq!(is_winning(mask), true);
    }
    assert_eq!(is_winning(0), false);
    assert_eq!(is_winning(0b110), false);
    assert_eq!(is_winning(0b11000000), false);
    assert_eq!(is_winning(0b100010000), false);
    // A superset of a line still wins.
    assert_eq!(is_winning(0b111 | 0b1000000), true);
}

/// The grid rendering: blank cells, marks, rows closed by line breaks, and
/// the end marker; a doubly-claimed cell renders the defensive sentinel.
#[test]
fn renders_grid() {
    let board = Board::initial_state();
    assert_eq!(
        board.render(),
        "|   ||   ||   |\n|   ||   ||   |\n|   ||   ||   |\nEnd of board"
    );

    let mut played = Board::initial_state();
    assert_eq!(played.update(&4), true);
    assert_eq!(played.update(&5), true);
    assert_eq!(
        played.render(),
        "|   ||   ||   |\n|   || X || O |\n|   ||   ||   |\nEnd of board"
    );

    let corrupt = Board { moves_x: 1, moves_o: 1, turn: AgentId::X };
    assert_eq!(
        corrupt.render(),
        "| ? ||   ||   |\n|   ||   ||   |\n|   ||   ||   |\nEnd of board"
    );
}

/// The seats carry their one-letter names.
#[test]
fn agent_id_names() {
    assert_eq!(AgentId::X.name(), "X");
    assert_eq!(AgentId::O.name(), "O");
    assert_ne!(AgentId::X, AgentId::O);
}
