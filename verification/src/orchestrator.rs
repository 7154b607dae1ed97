use vstd::prelude::*;

use crate::agent::Agent;
use crate::agent::random_below;
use crate::board::Board;
use crate::board::Cell;
use crate::board::has_win;
use crate::board::num_empty;
use crate::minimax::minimax_search;
use crate::stats::Results;

verus! {

/// The terminal reward owed to the player of `my_symbol`: a win pays
/// `REWARD_UNIT`, a loss its negative. A draw pays half a win to the O
/// side only; the X side gets nothing for a draw.
pub fn terminal_reward(winner: Option<Cell>, my_symbol: Cell) -> (r: Option<i64>)
    ensures
        match winner {
            Some(w) => r == Some(
                if w == my_symbol {
                    1_000_000i64
                } else {
                    -1_000_000i64
                },
            ),
            None => r == (if my_symbol is O {
                Some(500_000i64)
            } else {
                None::<i64>
            }),
        },
        r is Some ==> -1_000_000 <= r.unwrap() <= 1_000_000,
{
    match winner {
        Some(w) => {
            if w == my_symbol {
                Some(1_000_000)
            } else {
                Some(-1_000_000)
            }
        },
        None => {
            if my_symbol == Cell::O {
                Some(500_000)
            } else {
                None
            }
        },
    }
}

/// Convert the 1-to-9 console choice into a 0-indexed cell position;
/// refused outside that range.
pub fn human_field(choice: u64) -> (r: Option<usize>)
    ensures
        match r {
            Some(p) => 1 <= choice <= 9 && p as int == choice - 1,
            None => !(1 <= choice <= 9),
        },
{
    if 1 <= choice && choice <= 9 {
        Some((choice - 1) as usize)
    } else {
        None
    }
}

/// Self-play training: two fresh agents play `cycles` games against each
/// other, exchanging roles at the midpoint, each learning from every
/// finished game. The agent that finishes in the O seat — the one worth
/// persisting — is returned with its trace cleared.
pub fn train(name: &str, cycles: usize) -> (r: Agent)
    ensures
        r.wf(),
        r.states@.len() == 0,
        cycles > 0 ==> r.name@ == name@,
{
    let mut p1 = Agent::new(name);
    let mut p2 = Agent::new("");

    let mut i: usize = 0;
    while i < cycles
        invariant
            p1.wf(),
            p2.wf(),
            p1.states@.len() == 0,
            p2.states@.len() == 0,
            i <= cycles,
            i <= cycles / 2 ==> p1.name@ == name@,
            i > cycles / 2 ==> p2.name@ == name@,
        decreases cycles - i,
    {
        if i == cycles / 2 {
            let tmp = p1;
            p1 = p2;
            p2 = tmp;
        }
        let ghost n1 = p1.name;
        let ghost n2 = p2.name;

        let mut board = Board::new();
        let mut finished = false;
        let mut the_winner: Option<Cell> = None;

        while !finished
            invariant
                board.wf(),
                p1.wf(),
                p2.wf(),
                p1.name == n1,
                p2.name == n2,
                !finished ==> !has_win(board@, Cell::X) && !has_win(board@, Cell::O) && num_empty(
                    board@,
                ) > 0,
            decreases num_empty(board@),
        {
            let turn = board.get_turn();

            let action = if turn == Cell::X {
                p1.get_best_action(&board, turn)
            } else {
                p2.get_best_action(&board, turn)
            };

            let res = board.play_move(action, turn);
            proof {
                assert(res is Ok);
            }

            if turn == Cell::X {
                p1.add_state(&board);
            } else {
                p2.add_state(&board);
            }

            let (is_finished, winner) = board.get_winner();
            if is_finished {
                finished = true;
                the_winner = winner;
            }
        }

        if let Some(rw) = terminal_reward(the_winner, Cell::X) {
            p1.feed_reward(rw);
        }
        if let Some(rw) = terminal_reward(the_winner, Cell::O) {
            p2.feed_reward(rw);
        }

        p1.reset();
        p2.reset();
        i = i + 1;
    }
    p2
}

/// Training against the perfect player: the agent and the minimax
/// searcher play `cycles` games, exchanging symbols at the midpoint; only
/// the agent learns. The trained agent is returned with its trace cleared.
pub fn train_with_minimax(name: &str, cycles: usize) -> (r: Agent)
    ensures
        r.wf(),
        r.states@.len() == 0,
        r.name@ == name@,
{
    let mut p1 = Agent::new(name);

    let mut agent_sym = Cell::X;
    let mut mm_sym = Cell::O;

    let mut i: usize = 0;
    while i < cycles
        invariant
            p1.wf(),
            p1.states@.len() == 0,
            p1.name@ == name@,
            (agent_sym is X && mm_sym is O) || (agent_sym is O && mm_sym is X),
        decreases cycles - i,
    {
        if i == cycles / 2 {
            agent_sym = Cell::O;
            mm_sym = Cell::X;
        }

        let mut board = Board::new();
        let mut finished = false;
        let mut the_winner: Option<Cell> = None;

        while !finished
            invariant
                board.wf(),
                p1.wf(),
                p1.name@ == name@,
                (agent_sym is X && mm_sym is O) || (agent_sym is O && mm_sym is X),
                !finished ==> !has_win(board@, Cell::X) && !has_win(board@, Cell::O) && num_empty(
                    board@,
                ) > 0,
            decreases num_empty(board@),
        {
            let turn = board.get_turn();

            let action = if turn == agent_sym {
                p1.get_best_action(&board, agent_sym)
            } else {
                minimax_search(&board, mm_sym)
            };

            let res = board.play_move(action, turn);
            proof {
                assert(res is Ok);
            }

            if turn == agent_sym {
                p1.add_state(&board);
            }

            let (is_finished, winner) = board.get_winner();
            if is_finished {
                finished = true;
                the_winner = winner;
            }
        }

        if let Some(rw) = terminal_reward(the_winner, agent_sym) {
            p1.feed_reward(rw);
        }

        p1.reset();
        i = i + 1;
    }
    p1
}

/// Evaluation: 100 games between the loaded agent and the minimax
/// searcher, the agent moving first in the first half. The winner of a
/// game is tallied under `playing_x` and the loser under `playing_o`, a
/// draw under the first mover's `playing_x` and the other's `playing_o`;
/// each participant is counted exactly once per game, and the two tallies
/// are dual: one side's wins are the other's losses, and draws appear in
/// both. The agent keeps learning from the outcomes.
pub fn play_agent_vs_minimax(p1: Agent) -> (r: (Agent, Results, Results))
    requires
        p1.wf(),
        p1.states@.len() == 0,
    ensures
        r.0.wf(),
        r.0.states@.len() == 0,
        r.0.name == p1.name,
        r.1.total() == 100,
        r.2.total() == 100,
        r.1.playing_x.wins == r.2.playing_o.losts,
        r.2.playing_x.wins == r.1.playing_o.losts,
        r.1.playing_x.draws == r.2.playing_o.draws,
        r.2.playing_x.draws == r.1.playing_o.draws,
        r.1.playing_x.losts == 0 && r.1.playing_o.wins == 0,
        r.2.playing_x.losts == 0 && r.2.playing_o.wins == 0,
{
    let ghost n1 = p1.name;
    let mut p1 = p1;
    let mut agent_res = Results::new();
    let mut mm_res = Results::new();

    let mut i: usize = 0;
    while i < 100
        invariant
            p1.wf(),
            p1.states@.len() == 0,
            p1.name == n1,
            i <= 100,
            agent_res.total() == i as int,
            mm_res.total() == i as int,
            agent_res.playing_x.wins == mm_res.playing_o.losts,
            mm_res.playing_x.wins == agent_res.playing_o.losts,
            agent_res.playing_x.draws == mm_res.playing_o.draws,
            mm_res.playing_x.draws == agent_res.playing_o.draws,
            agent_res.playing_x.losts == 0 && agent_res.playing_o.wins == 0,
            mm_res.playing_x.losts == 0 && mm_res.playing_o.wins == 0,
        decreases 100 - i,
    {
        let agent_begins = i < 50;
        let agent_sym = if agent_begins {
            Cell::X
        } else {
            Cell::O
        };
        let mm_sym = if agent_begins {
            Cell::O
        } else {
            Cell::X
        };

        let mut board = Board::new();
        let mut finished = false;
        let mut the_winner: Option<Cell> = None;

        while !finished
            invariant
                board.wf(),
                p1.wf(),
                p1.name == n1,
                (agent_sym is X && mm_sym is O) || (agent_sym is O && mm_sym is X),
                !finished ==> !has_win(board@, Cell::X) && !has_win(board@, Cell::O) && num_empty(
                    board@,
                ) > 0,
            decreases num_empty(board@),
        {
            let turn = board.get_turn();

            let action = if turn == agent_sym {
                p1.get_best_action(&board, turn)
            } else {
                minimax_search(&board, mm_sym)
            };

            let res = board.play_move(action, turn);
            proof {
                assert(res is Ok);
            }

            if turn == agent_sym {
                p1.add_state(&board);
            }

            let (is_finished, winner) = board.get_winner();
            if is_finished {
                finished = true;
                the_winner = winner;
            }
        }

        match the_winner {
            Some(w) => {
                if w == agent_sym {
                    agent_res.playing_x.record(1, 0, 0);
                    mm_res.playing_o.record(0, 0, 1);
                } else {
                    mm_res.playing_x.record(1, 0, 0);
                    agent_res.playing_o.record(0, 0, 1);
                }
            },
            None => {
                if agent_begins {
                    agent_res.playing_x.record(0, 1, 0);
                    mm_res.playing_o.record(0, 1, 0);
                } else {
                    mm_res.playing_x.record(0, 1, 0);
                    agent_res.playing_o.record(0, 1, 0);
                }
            },
        }

        if let Some(rw) = terminal_reward(the_winner, agent_sym) {
            p1.feed_reward(rw);
        }

        p1.reset();
        i = i + 1;
    }
    (p1, agent_res, mm_res)
}

/// Evaluation: 100 games between two loaded agents, the first mover drawn
/// at random each game. Tallied as in `play_agent_vs_minimax`, with the
/// same duality; both agents keep learning from the outcomes.
pub fn play_multiple(p1: Agent, p2: Agent) -> (r: (Agent, Agent, Results, Results))
    requires
        p1.wf(),
        p1.states@.len() == 0,
        p2.wf(),
        p2.states@.len() == 0,
    ensures
        r.0.wf(),
        r.0.states@.len() == 0,
        r.0.name == p1.name,
        r.1.wf(),
        r.1.states@.len() == 0,
        r.1.name == p2.name,
        r.2.total() == 100,
        r.3.total() == 100,
        r.2.playing_x.wins == r.3.playing_o.losts,
        r.3.playing_x.wins == r.2.playing_o.losts,
        r.2.playing_x.draws == r.3.playing_o.draws,
        r.3.playing_x.draws == r.2.playing_o.draws,
        r.2.playing_x.losts == 0 && r.2.playing_o.wins == 0,
        r.3.playing_x.losts == 0 && r.3.playing_o.wins == 0,
{
    let ghost n1 = p1.name;
    let ghost n2 = p2.name;
    let mut p1 = p1;
    let mut p2 = p2;
    let mut r1_res = Results::new();
    let mut r2_res = Results::new();

    let mut i: usize = 0;
    while i < 100
        invariant
            p1.wf(),
            p1.states@.len() == 0,
            p1.name == n1,
            p2.wf(),
            p2.states@.len() == 0,
            p2.name == n2,
            i <= 100,
            r1_res.total() == i as int,
            r2_res.total() == i as int,
            r1_res.playing_x.wins == r2_res.playing_o.losts,
            r2_res.playing_x.wins == r1_res.playing_o.losts,
            r1_res.playing_x.draws == r2_res.playing_o.draws,
            r2_res.playing_x.draws == r1_res.playing_o.draws,
            r1_res.playing_x.losts == 0 && r1_res.playing_o.wins == 0,
            r2_res.playing_x.losts == 0 && r2_res.playing_o.wins == 0,
        decreases 100 - i,
    {
        let agent1_begins = random_below(2) == 0;
        let p1_sym = if agent1_begins {
            Cell::X
        } else {
            Cell::O
        };
        let p2_sym = if agent1_begins {
            Cell::O
        } else {
            Cell::X
        };

        let mut board = Board::new();
        let mut finished = false;
        let mut the_winner: Option<Cell> = None;

        while !finished
            invariant
                board.wf(),
                p1.wf(),
                p2.wf(),
                p1.name == n1,
                p2.name == n2,
                (p1_sym is X && p2_sym is O) || (p1_sym is O && p2_sym is X),
                !finished ==> !has_win(board@, Cell::X) && !has_win(board@, Cell::O) && num_empty(
                    board@,
                ) > 0,
            decreases num_empty(board@),
        {
            let turn = board.get_turn();

            let action = if turn == p1_sym {
                p1.get_best_action(&board, turn)
            } else {
                p2.get_best_action(&board, turn)
            };

            let res = board.play_move(action, turn);
            proof {
                assert(res is Ok);
            }

            if turn == p1_sym {
                p1.add_state(&board);
            } else {
                p2.add_state(&board);
            }

            let (is_finished, winner) = board.get_winner();
            if is_finished {
                finished = true;
                the_winner = winner;
            }
        }

        match the_winner {
            Some(w) => {
                if w == p1_sym {
                    r1_res.playing_x.record(1, 0, 0);
                    r2_res.playing_o.record(0, 0, 1);
                } else {
                    r2_res.playing_x.record(1, 0, 0);
                    r1_res.playing_o.record(0, 0, 1);
                }
            },
            None => {
                if agent1_begins {
                    r1_res.playing_x.record(0, 1, 0);
                    r2_res.playing_o.record(0, 1, 0);
                } else {
                    r2_res.playing_x.record(0, 1, 0);
                    r1_res.playing_o.record(0, 1, 0);
                }
            },
        }

        if let Some(rw) = terminal_reward(the_winner, p1_sym) {
            p1.feed_reward(rw);
        }
        if let Some(rw) = terminal_reward(the_winner, p2_sym) {
            p2.feed_reward(rw);
        }

        p1.reset();
        p2.reset();
        i = i + 1;
    }
    (p1, p2, r1_res, r2_res)
}

} // verus!
