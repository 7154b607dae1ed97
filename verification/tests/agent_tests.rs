use tictactoe::Agent;
use tictactoe::Board;
use tictactoe::Cell;
use tictactoe::ModelError;
use tictactoe::REWARD_UNIT;
use tictactoe::save_load_round_trip;

#[test]
fn a_fresh_agent_values_every_state_at_zero() {
    let agent = Agent::new("fresh");
    assert_eq!(agent.get_value(0), 0);
    assert_eq!(agent.get_value(12345), 0);
    assert!(agent.states.is_empty());
}

#[test]
fn add_state_records_the_board_hash() {
    let mut agent = Agent::new("tracer");
    let mut board = Board::new();
    board.play_move(0, Cell::X).unwrap();
    agent.add_state(&board);
    assert_eq!(agent.states, vec![board.get_hash()]);
    agent.reset();
    assert!(agent.states.is_empty());
}

#[test]
fn feed_reward_sweeps_backward_through_the_trace() {
    // Trace [h1, h2, h3] in visited order, every value 0, reward +1.
    // h3 moves a fifth toward the reward, h2 a fifth toward the fresh h3
    // value, h1 a fifth toward the fresh h2 value.
    let mut agent = Agent::new("learner");
    let (h1, h2, h3) = (11u64, 22u64, 33u64);
    agent.states = vec![h1, h2, h3];
    agent.feed_reward(REWARD_UNIT);
    assert_eq!(agent.get_value(h3), 200_000);
    assert_eq!(agent.get_value(h2), 40_000);
    assert_eq!(agent.get_value(h1), 8_000);
}

#[test]
fn feed_reward_updates_existing_values() {
    let mut agent = Agent::new("learner");
    let (h1, h2, h3) = (1u64, 2u64, 3u64);
    agent.states_values.insert(h3, 100_000);
    agent.states_values.insert(h2, 50_000);
    agent.states = vec![h1, h2, h3];
    agent.feed_reward(REWARD_UNIT);
    // 100_000 + (1_000_000 - 100_000) / 5
    assert_eq!(agent.get_value(h3), 280_000);
    // 50_000 + (280_000 - 50_000) / 5
    assert_eq!(agent.get_value(h2), 96_000);
    // 0 + 96_000 / 5
    assert_eq!(agent.get_value(h1), 19_200);
}

#[test]
fn a_negative_reward_pushes_values_down() {
    let mut agent = Agent::new("learner");
    agent.states = vec![7u64];
    agent.feed_reward(-REWARD_UNIT);
    assert_eq!(agent.get_value(7), -200_000);
}

#[test]
fn the_greedy_action_takes_the_highest_valued_move() {
    let mut agent = Agent::new("greedy");
    let board = Board::new();
    let lure = board.with_move(5, Cell::X);
    agent.states_values.insert(lure.get_hash(), 300_000);
    assert_eq!(agent.get_greedy_action(&board, Cell::X), 5);
}

#[test]
fn the_greedy_action_keeps_the_first_of_equal_values() {
    let agent = Agent::new("greedy");
    let mut board = Board::new();
    board.play_move(0, Cell::X).unwrap();
    // All lookahead values are 0: the lowest available index wins.
    assert_eq!(agent.get_greedy_action(&board, Cell::O), 1);
}

#[test]
fn get_best_action_always_returns_an_empty_cell() {
    let agent = Agent::new("picker");
    let mut board = Board::new();
    board.play_move(0, Cell::X).unwrap();
    board.play_move(4, Cell::O).unwrap();
    for _ in 0..100 {
        let p = agent.get_best_action(&board, Cell::X);
        assert!(p < 9);
        assert_eq!(board.cell_at(p), Cell::Empty);
    }
}

#[test]
fn a_saved_model_loads_back_unchanged() {
    // The round trip over a non-empty table reproduces it exactly.
    let mut agent = Agent::new("saver");
    agent.states_values.insert(3, 250_000);
    agent.states_values.insert(19682, -1_000_000);
    agent.states_values.insert(0, 1_000_000);
    let text = agent.save_model();

    let mut loaded = Agent::new("loader");
    loaded.load_model(&text).unwrap();
    assert_eq!(loaded.get_value(3), 250_000);
    assert_eq!(loaded.get_value(19682), -1_000_000);
    assert_eq!(loaded.get_value(0), 1_000_000);
    assert_eq!(loaded.states_values.len(), 3);
}

#[test]
fn the_round_trip_helper_reproduces_the_table() {
    let mut agent = Agent::new("saver");
    agent.states_values.insert(40, 123_456);
    agent.states_values.insert(41, -7);
    let mut other = Agent::new("loader");
    save_load_round_trip(&agent, &mut other);
    assert_eq!(other.states_values, agent.states_values);
}

#[test]
fn loading_garbage_is_refused() {
    let mut agent = Agent::new("loader");
    let refused = agent.load_model("this is not a value table");
    assert!(matches!(refused, Err(ModelError::DeserializationFailure)));
    assert!(agent.states_values.is_empty());
}

#[test]
fn loading_out_of_range_values_is_refused() {
    let mut agent = Agent::new("loader");
    let refused = agent.load_model("{\"5\":2000000}");
    assert!(matches!(refused, Err(ModelError::DeserializationFailure)));
    assert!(agent.states_values.is_empty());
}

#[test]
fn model_errors_describe_themselves() {
    assert!(!ModelError::ModelNotFound.value().is_empty());
    assert!(!ModelError::DeserializationFailure.value().is_empty());
}
