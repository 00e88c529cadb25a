use game_engine::abstract_game::play_game;
use game_engine::abstract_game::Environment;
use game_engine::agents::HumanPlayer;
use game_engine::agents::ScriptedAgent;
use game_engine::tictactoe::AgentId;
use game_engine::tictactoe::Board;

/// Two agents playing fixed legal scripts produce a strictly alternating
/// log, one entry per move, ending exactly when the game is decided.
#[test]
fn scripted_game_alternates() {
    let mut board = Board::initial_state();
    let mut agents = vec![
        ScriptedAgent::new(AgentId::X, vec![0, 1, 2]),
        ScriptedAgent::new(AgentId::O, vec![3, 4]),
    ];
    let log = play_game(&mut board, &mut agents, 20);
    assert_eq!(
        log,
        vec![
            (AgentId::X, 0),
            (AgentId::O, 3),
            (AgentId::X, 1),
            (AgentId::O, 4),
            (AgentId::X, 2),
        ]
    );
    assert_eq!(board.is_terminal(), true);
    assert_eq!(board.winner(), Some(AgentId::X));
}

/// An invalid submission is logged but changes neither the turn nor the
/// board; the stalled player is asked again only on the next pass, so the
/// game still runs to its end.
#[test]
fn invalid_action_logged_without_turn_change() {
    let mut board = Board::initial_state();
    let mut agents = vec![
        ScriptedAgent::new(AgentId::X, vec![0, 1, 2]),
        ScriptedAgent::new(AgentId::O, vec![0, 3, 4]),
    ];
    let log = play_game(&mut board, &mut agents, 20);
    assert_eq!(
        log,
        vec![
            (AgentId::X, 0),
            (AgentId::O, 0),
            (AgentId::O, 3),
            (AgentId::X, 1),
            (AgentId::O, 4),
            (AgentId::X, 2),
        ]
    );
    assert_eq!(board.winner(), Some(AgentId::X));
}

/// A rejected submission leaves the board exactly as it was.
#[test]
fn invalid_action_leaves_board_unchanged() {
    let mut board = Board::initial_state();
    assert_eq!(board.update(&6), true);
    let before = board;
    let mut agents = vec![ScriptedAgent::new(AgentId::O, vec![6])];
    let log = play_game(&mut board, &mut agents, 1);
    assert_eq!(log, vec![(AgentId::O, 6)]);
    assert_eq!(board, before);
    assert_eq!(board.turn(), AgentId::O);
}

/// The driver gives up after its cap of passes when agents never submit a
/// valid action; the abandoned game is told from a finished one by
/// `is_terminal`.
#[test]
fn driver_stops_at_pass_cap() {
    let mut board = Board::initial_state();
    // An exhausted script submits cell 9, which the board always rejects.
    let mut agents = vec![ScriptedAgent::new(AgentId::X, vec![])];
    let log = play_game(&mut board, &mut agents, 3);
    assert_eq!(log, vec![(AgentId::X, 9), (AgentId::X, 9), (AgentId::X, 9)]);
    assert_eq!(board.is_terminal(), false);
    assert_eq!(board, Board::initial_state());
}

/// A game with no agent for the seat to move logs nothing and ends at the
/// pass cap.
#[test]
fn driver_without_matching_agent_logs_nothing() {
    let mut board = Board::initial_state();
    let mut agents = vec![ScriptedAgent::new(AgentId::O, vec![0, 1])];
    let log = play_game(&mut board, &mut agents, 4);
    assert_eq!(log, vec![]);
    assert_eq!(board, Board::initial_state());
}

/// A human seat keeps the identity it was created with.
#[test]
fn human_player_identity() {
    let human = HumanPlayer::new(AgentId::O);
    assert_eq!(human.identity(), AgentId::O);
    let other = HumanPlayer::new(AgentId::X);
    assert_eq!(other.identity(), AgentId::X);
}
