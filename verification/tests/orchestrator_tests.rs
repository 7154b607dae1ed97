use tictactoe::Agent;
use tictactoe::Board;
use tictactoe::Cell;
use tictactoe::REWARD_UNIT;
use tictactoe::human_field;
use tictactoe::minimax_search;
use tictactoe::play_multiple;
use tictactoe::terminal_reward;
use tictactoe::train;
use tictactoe::train_with_minimax;

#[test]
fn rewards_follow_the_outcome() {
    assert_eq!(terminal_reward(Some(Cell::X), Cell::X), Some(REWARD_UNIT));
    assert_eq!(terminal_reward(Some(Cell::O), Cell::X), Some(-REWARD_UNIT));
    assert_eq!(terminal_reward(Some(Cell::O), Cell::O), Some(REWARD_UNIT));
    assert_eq!(terminal_reward(Some(Cell::X), Cell::O), Some(-REWARD_UNIT));
}

#[test]
fn only_the_o_side_is_paid_for_a_draw() {
    assert_eq!(terminal_reward(None, Cell::O), Some(REWARD_UNIT / 2));
    assert_eq!(terminal_reward(None, Cell::X), None);
}

#[test]
fn human_fields_are_one_indexed() {
    assert_eq!(human_field(1), Some(0));
    assert_eq!(human_field(5), Some(4));
    assert_eq!(human_field(9), Some(8));
    assert_eq!(human_field(0), None);
    assert_eq!(human_field(10), None);
}

#[test]
fn training_returns_a_clean_agent() {
    let agent = train("trainee", 6);
    assert!(agent.states.is_empty());
    assert_eq!(agent.name, "trainee");
}

#[test]
fn zero_training_cycles_yield_an_untrained_table() {
    let agent = train("idle", 0);
    assert!(agent.states.is_empty());
    assert!(agent.states_values.is_empty());
}

#[test]
fn training_against_minimax_returns_a_clean_agent() {
    let agent = train_with_minimax("trainee", 2);
    assert!(agent.states.is_empty());
}

#[test]
fn a_hundred_games_are_tallied_for_both_agents() {
    let a = Agent::new("left");
    let b = Agent::new("right");
    let (a, b, ra, rb) = play_multiple(a, b);
    assert!(a.states.is_empty());
    assert!(b.states.is_empty());
    assert_eq!(ra.playing_x.sum() + ra.playing_o.sum(), 100);
    assert_eq!(rb.playing_x.sum() + rb.playing_o.sum(), 100);
    // The two tallies are dual: wins pair with losses, draws with draws.
    assert_eq!(ra.playing_x.wins, rb.playing_o.losts);
    assert_eq!(rb.playing_x.wins, ra.playing_o.losts);
    assert_eq!(ra.playing_x.draws, rb.playing_o.draws);
    assert_eq!(rb.playing_x.draws, ra.playing_o.draws);
    assert_eq!(ra.playing_x.losts, 0);
    assert_eq!(ra.playing_o.wins, 0);
}

#[test]
fn minimax_as_o_never_loses_to_the_center_opening() {
    // The agent opens in the center as X; a perfect O must reach at least
    // a draw from there.
    let agent = Agent::new("challenger");
    let mut board = Board::new();
    board.play_move(4, Cell::X).unwrap();
    loop {
        let (finished, winner) = board.get_winner();
        if finished {
            assert_ne!(winner, Some(Cell::X));
            break;
        }
        let turn = board.get_turn();
        let p = if turn == Cell::X {
            agent.get_greedy_action(&board, turn)
        } else {
            minimax_search(&board, Cell::O)
        };
        board.play_move(p, turn).unwrap();
    }
}
