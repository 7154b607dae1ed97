use vstd::prelude::*;

use crate::board::Board;
use crate::board::Cell;
use crate::board::has_win;
use crate::board::lemma_count_upto_bounds;
use crate::board::lemma_num_empty_exists;
use crate::board::lemma_num_empty_update;
use crate::board::num_empty;
use crate::board::opponent;

verus! {

/// Terminal score of `b` seen by `me`: +10 a win, -10 a loss, 0 a full
/// board without a line, `None` while the game goes on.
pub open spec fn terminal_score(b: Seq<Cell>, me: Cell) -> Option<int> {
    if has_win(b, me) {
        Some(10int)
    } else if has_win(b, opponent(me)) {
        Some(-10int)
    } else if num_empty(b) == 0 {
        Some(0int)
    } else {
        None
    }
}

/// Boards reached by play never show completed lines for both players.
pub open spec fn at_most_one_winner(b: Seq<Cell>) -> bool {
    !(has_win(b, Cell::X) && has_win(b, Cell::O))
}

/// Game-theoretic value of `b` when `me` is about to place a symbol and
/// plays to maximize the terminal score.
pub open spec fn mm_max(b: Seq<Cell>, me: Cell) -> int
    decreases num_empty(b), 10int,
{
    match terminal_score(b, me) {
        Some(s) => s,
        None => mm_max_from(b, me, 0),
    }
}

/// Greatest value `me` can force by placing into one of the empty cells
/// at position `p` or later; -100 when no such cell remains.
pub open spec fn mm_max_from(b: Seq<Cell>, me: Cell, p: int) -> int
    decreases num_empty(b), 9 - p,
    via mm_max_from_decreases
{
    if p < 0 || p >= 9 || b.len() != 9 || me is Empty {
        -100
    } else if b[p] is Empty {
        let v = mm_min(b.update(p, me), me);
        let rest = mm_max_from(b, me, p + 1);
        if v >= rest {
            v
        } else {
            rest
        }
    } else {
        mm_max_from(b, me, p + 1)
    }
}

#[via_fn]
proof fn mm_max_from_decreases(b: Seq<Cell>, me: Cell, p: int) {
    if !(p < 0 || p >= 9 || b.len() != 9 || me is Empty) && b[p] is Empty {
        lemma_num_empty_update(b, p, me);
        lemma_count_upto_bounds(b.update(p, me), Cell::Empty, 9);
    }
}

/// Game-theoretic value of `b`, seen by `me`, when the opponent is about
/// to place a symbol and plays to minimize `me`'s terminal score.
pub open spec fn mm_min(b: Seq<Cell>, me: Cell) -> int
    decreases num_empty(b), 10int,
{
    match terminal_score(b, me) {
        Some(s) => s,
        None => mm_min_from(b, me, 0),
    }
}

/// Least value the opponent can force by placing into one of the empty
/// cells at position `p` or later; 100 when no such cell remains.
pub open spec fn mm_min_from(b: Seq<Cell>, me: Cell, p: int) -> int
    decreases num_empty(b), 9 - p,
    via mm_min_from_decreases
{
    if p < 0 || p >= 9 || b.len() != 9 {
        100
    } else if b[p] is Empty {
        let v = mm_max(b.update(p, opponent(me)), me);
        let rest = mm_min_from(b, me, p + 1);
        if v <= rest {
            v
        } else {
            rest
        }
    } else {
        mm_min_from(b, me, p + 1)
    }
}

#[via_fn]
proof fn mm_min_from_decreases(b: Seq<Cell>, me: Cell, p: int) {
    if !(p < 0 || p >= 9 || b.len() != 9) && b[p] is Empty {
        lemma_num_empty_update(b, p, opponent(me));
        lemma_count_upto_bounds(b.update(p, opponent(me)), Cell::Empty, 9);
    }
}

/// The suffix maximum dominates the value of every empty cell it covers.
pub proof fn lemma_mm_max_from_ge(b: Seq<Cell>, me: Cell, p: int, q: int)
    requires
        b.len() == 9,
        me is X || me is O,
        0 <= p <= q < 9,
        b[q] is Empty,
    ensures
        mm_max_from(b, me, p) >= mm_min(b.update(q, me), me),
    decreases q - p,
{
    if p < q {
        lemma_mm_max_from_ge(b, me, p + 1, q);
    }
}

/// The suffix maximum is either the sentinel or the value of one of the
/// empty cells it covers.
pub proof fn lemma_mm_max_from_achieved(b: Seq<Cell>, me: Cell, p: int)
    requires
        b.len() == 9,
        me is X || me is O,
        0 <= p <= 9,
    ensures
        mm_max_from(b, me, p) == -100 || exists|q: int|
            p <= q < 9 && b[q] is Empty && mm_max_from(b, me, p) == mm_min(b.update(q, me), me),
    decreases 9 - p,
{
    if p < 9 {
        lemma_mm_max_from_achieved(b, me, p + 1);
        if b[p] is Empty && mm_min(b.update(p, me), me) >= mm_max_from(b, me, p + 1) {
            assert(p <= p < 9 && b[p] is Empty && mm_max_from(b, me, p) == mm_min(
                b.update(p, me),
                me,
            ));
        }
    }
}

/// The suffix minimum is dominated by the value of every empty cell it
/// covers.
pub proof fn lemma_mm_min_from_le(b: Seq<Cell>, me: Cell, p: int, q: int)
    requires
        b.len() == 9,
        0 <= p <= q < 9,
        b[q] is Empty,
    ensures
        mm_min_from(b, me, p) <= mm_max(b.update(q, opponent(me)), me),
    decreases q - p,
{
    if p < q {
        lemma_mm_min_from_le(b, me, p + 1, q);
    }
}

/// The suffix minimum is either the sentinel or the value of one of the
/// empty cells it covers.
pub proof fn lemma_mm_min_from_achieved(b: Seq<Cell>, me: Cell, p: int)
    requires
        b.len() == 9,
        0 <= p <= 9,
    ensures
        mm_min_from(b, me, p) == 100 || exists|q: int|
            p <= q < 9 && b[q] is Empty && mm_min_from(b, me, p) == mm_max(
                b.update(q, opponent(me)),
                me,
            ),
    decreases 9 - p,
{
    if p < 9 {
        lemma_mm_min_from_achieved(b, me, p + 1);
        if b[p] is Empty && mm_max(b.update(p, opponent(me)), me) <= mm_min_from(b, me, p + 1) {
            assert(p <= p < 9 && b[p] is Empty && mm_min_from(b, me, p) == mm_max(
                b.update(p, opponent(me)),
                me,
            ));
        }
    }
}

/// A move on a board without a completed line cannot complete a line for
/// the player who did not move.
pub proof fn lemma_no_win_for_other(b: Seq<Cell>, p: int, s: Cell)
    requires
        b.len() == 9,
        0 <= p < 9,
        s is X || s is O,
        !has_win(b, Cell::X),
        !has_win(b, Cell::O),
    ensures
        !has_win(b.update(p, s), opponent(s)),
        at_most_one_winner(b.update(p, s)),
{
}

/// Three identical, non-empty cells: the test behind every line check.
pub fn equals_3(a: Cell, b: Cell, c: Cell) -> (r: bool)
    ensures
        r == (a == b && b == c && !(a is Empty)),
{
    a == b && b == c && a != Cell::Empty
}

/// All empty positions of the board, in ascending order.
pub fn get_availables(board: &Board) -> (r: Vec<usize>)
    requires
        board.wf(),
    ensures
        forall|j: int| 0 <= j < r@.len() ==> r@[j] < 9 && board@[r@[j] as int] is Empty,
        forall|j: int, k: int| 0 <= j < k < r@.len() ==> r@[j] < r@[k],
        forall|q: int|
            0 <= q < 9 && board@[q] is Empty ==> exists|j: int| 0 <= j < r@.len() && r@[j] == q,
        r@.len() == num_empty(board@),
{
    board.get_available()
}

/// Terminal test from `my_sign`'s side: `Some(±10)` on a completed line,
/// `Some(0)` on a full board, `None` while the game goes on.
pub fn check_winner(board: &Board, my_sign: Cell) -> (r: Option<i32>)
    requires
        board.wf(),
        at_most_one_winner(board@),
        my_sign is X || my_sign is O,
    ensures
        match r {
            Some(v) => terminal_score(board@, my_sign) == Some(v as int),
            None => terminal_score(board@, my_sign) is None,
        },
{
    let b = &board.board;
    if equals_3(b[0], b[3], b[6]) {
        return if b[0] == my_sign {
            Some(10)
        } else {
            Some(-10)
        };
    }
    if equals_3(b[0], b[1], b[2]) {
        return if b[0] == my_sign {
            Some(10)
        } else {
            Some(-10)
        };
    }
    if equals_3(b[1], b[4], b[7]) {
        return if b[1] == my_sign {
            Some(10)
        } else {
            Some(-10)
        };
    }
    if equals_3(b[3], b[4], b[5]) {
        return if b[3] == my_sign {
            Some(10)
        } else {
            Some(-10)
        };
    }
    if equals_3(b[2], b[5], b[8]) {
        return if b[2] == my_sign {
            Some(10)
        } else {
            Some(-10)
        };
    }
    if equals_3(b[6], b[7], b[8]) {
        return if b[6] == my_sign {
            Some(10)
        } else {
            Some(-10)
        };
    }
    if equals_3(b[0], b[4], b[8]) {
        return if b[0] == my_sign {
            Some(10)
        } else {
            Some(-10)
        };
    }
    if equals_3(b[2], b[4], b[6]) {
        return if b[2] == my_sign {
            Some(10)
        } else {
            Some(-10)
        };
    }
    if board.count_symbol(Cell::Empty) == 0 {
        return Some(0);
    }
    None
}

/// The game-theoretically optimal move for `my_sign` on `board`, assuming
/// optimal counter-play, found by alpha-beta search. The returned cell is
/// empty, and placing there achieves the minimax value of the board.
pub fn minimax_search(board: &Board, my_sign: Cell) -> (r: usize)
    requires
        board.wf(),
        at_most_one_winner(board@),
        my_sign is X || my_sign is O,
        terminal_score(board@, my_sign) is None,
    ensures
        r < 9,
        board@[r as int] is Empty,
        mm_min(board@.update(r as int, my_sign), my_sign) == mm_max(board@, my_sign),
        forall|q: int|
            0 <= q < r && board@[q] is Empty ==> mm_min(board@.update(q, my_sign), my_sign)
                < mm_max(board@, my_sign),
{
    let (v, action) = max_value(board, i32::MIN, i32::MAX, my_sign);
    match action {
        Some(p) => p,
        None => {
            proof {
                assert(false);
            }
            0
        },
    }
}

/// Alpha-beta search for the maximizing player: `my_sign` places a symbol.
/// The returned score relates to the minimax value as a fail-soft bound:
/// exact when it falls strictly inside the window, a one-sided bound when
/// it falls on or outside it.
pub fn max_value(board: &Board, alpha: i32, beta: i32, my_sign: Cell) -> (r: (i32, Option<usize>))
    requires
        board.wf(),
        at_most_one_winner(board@),
        my_sign is X || my_sign is O,
        alpha < beta,
    ensures
        r.0 == -10 || r.0 == 0 || r.0 == 10,
        r.0 <= alpha ==> mm_max(board@, my_sign) <= r.0 as int,
        alpha < r.0 < beta ==> r.0 as int == mm_max(board@, my_sign),
        r.0 >= beta ==> mm_max(board@, my_sign) >= r.0 as int,
        terminal_score(board@, my_sign) is Some ==> r.0 as int == terminal_score(
            board@,
            my_sign,
        ).unwrap() && r.1 is None,
        terminal_score(board@, my_sign) is None ==> match r.1 {
            Some(p) => p < 9 && board@[p as int] is Empty && (alpha < r.0 < beta
                ==> mm_min(board@.update(p as int, my_sign), my_sign) == r.0 as int && (forall|
                q: int,
            |
                0 <= q < p && board@[q] is Empty ==> mm_min(board@.update(q, my_sign), my_sign) < (
                r.0 as int))),
            None => false,
        },
    decreases num_empty(board@),
{
    let w = check_winner(board, my_sign);
    if let Some(result) = w {
        return (result, None);
    }

    let mut alpha_c = alpha;
    let mut max: i32 = i32::MIN;
    let mut action: Option<usize> = None;

    let positions = get_availables(board);
    let ghost b = board@;
    let ghost ps = positions@;
    let ghost mut best_idx: int = 0;
    let mut idx: usize = 0;

    proof {
        lemma_count_upto_bounds(b, Cell::Empty, 9);
    }

    while idx < positions.len()
        invariant
            board.wf(),
            at_most_one_winner(b),
            my_sign is X || my_sign is O,
            b == board@,
            ps == positions@,
            terminal_score(b, my_sign) is None,
            alpha < beta,
            forall|j: int| 0 <= j < ps.len() ==> ps[j] < 9 && b[ps[j] as int] is Empty,
            forall|q: int|
                0 <= q < 9 && b[q] is Empty ==> exists|j: int| 0 <= j < ps.len() && ps[j] == q,
            ps.len() == num_empty(b),
            idx <= ps.len(),
            idx == 0 ==> max == i32::MIN && action is None && alpha_c == alpha,
            idx > 0 ==> (max == -10 || max == 0 || max == 10) && action is Some,
            max as int <= alpha_c as int,
            alpha_c == (if max > alpha { max } else { alpha }),
            alpha_c < beta,
            forall|j: int|
                0 <= j < idx ==> mm_min(b.update(ps[j] as int, my_sign), my_sign) <= max as int,
            match action {
                Some(a) => a < 9 && b[a as int] is Empty && 0 <= best_idx < idx && ps[best_idx]
                    == a && (forall|k: int|
                    0 <= k < best_idx ==> #[trigger] mm_min(b.update(ps[k] as int, my_sign), my_sign)
                        < max as int) && (alpha < max < beta ==> mm_min(
                    b.update(a as int, my_sign),
                    my_sign,
                ) == max as int),
                None => idx == 0,
            },
        decreases ps.len() - idx,
    {
        let p = positions[idx];
        let new_board = board.with_move(p, my_sign);
        proof {
            lemma_no_win_for_other(b, p as int, my_sign);
            lemma_num_empty_update(b, p as int, my_sign);
        }
        let (v, _) = min_value(&new_board, alpha_c, beta, my_sign);

        if v > max {
            max = v;
            action = Some(p);
            proof {
                best_idx = idx as int;
                assert(ps[idx as int] == p);
                assert forall|k: int| 0 <= k < idx implies #[trigger] mm_min(
                    b.update(ps[k] as int, my_sign),
                    my_sign,
                ) < max as int by {}
            }
        }
        if v > alpha_c {
            alpha_c = v;
        }
        if beta <= alpha_c {
            proof {
                assert(mm_min(b.update(p as int, my_sign), my_sign) >= v as int);
                lemma_mm_max_from_ge(b, my_sign, 0, p as int);
            }
            return (max, action);
        }
        idx = idx + 1;
    }

    proof {
        lemma_num_empty_exists(b, 9);
        assert(ps.len() > 0);
        lemma_mm_max_from_achieved(b, my_sign, 0);
        if mm_max_from(b, my_sign, 0) != -100 {
            let q = choose|q: int|
                0 <= q < 9 && b[q] is Empty && mm_max_from(b, my_sign, 0) == mm_min(
                    b.update(q, my_sign),
                    my_sign,
                );
            let j = choose|j: int| 0 <= j < ps.len() && ps[j] == q;
            assert(mm_min(b.update(ps[j] as int, my_sign), my_sign) <= max as int);
        }
        assert(mm_max(b, my_sign) <= max as int);
        if alpha < max < beta {
            let a = action.unwrap();
            lemma_mm_max_from_ge(b, my_sign, 0, a as int);
            assert forall|q: int| 0 <= q < a as int && b[q] is Empty implies mm_min(
                b.update(q, my_sign),
                my_sign,
            ) < max as int by {
                let k = choose|k: int| 0 <= k < ps.len() && ps[k] == q;
                if k >= best_idx {
                    assert(ps[k] >= ps[best_idx]) by {
                        if k > best_idx {
                            assert(ps[best_idx] < ps[k]);
                        }
                    }
                    assert(false);
                }
                assert(mm_min(b.update(ps[k] as int, my_sign), my_sign) < max as int);
            }
        }
    }
    (max, action)
}

/// Alpha-beta search for the minimizing player: the opponent of `my_sign`
/// places a symbol. Fail-soft, mirror image of `max_value`.
pub fn min_value(board: &Board, alpha: i32, beta: i32, my_sign: Cell) -> (r: (i32, Option<usize>))
    requires
        board.wf(),
        at_most_one_winner(board@),
        my_sign is X || my_sign is O,
        alpha < beta,
    ensures
        r.0 == -10 || r.0 == 0 || r.0 == 10,
        r.0 <= alpha ==> mm_min(board@, my_sign) <= r.0 as int,
        alpha < r.0 < beta ==> r.0 as int == mm_min(board@, my_sign),
        r.0 >= beta ==> mm_min(board@, my_sign) >= r.0 as int,
        terminal_score(board@, my_sign) is Some ==> r.0 as int == terminal_score(
            board@,
            my_sign,
        ).unwrap() && r.1 is None,
        terminal_score(board@, my_sign) is None ==> match r.1 {
            Some(p) => p < 9 && board@[p as int] is Empty && (alpha < r.0 < beta ==> mm_max(
                board@.update(p as int, opponent(my_sign)),
                my_sign,
            ) == r.0 as int && (forall|q: int|
                0 <= q < p && board@[q] is Empty ==> mm_max(
                    board@.update(q, opponent(my_sign)),
                    my_sign,
                ) > (r.0 as int))),
            None => false,
        },
    decreases num_empty(board@),
{
    let w = check_winner(board, my_sign);
    if let Some(result) = w {
        return (result, None);
    }

    let mut beta_c = beta;
    let mut min: i32 = i32::MAX;
    let mut action: Option<usize> = None;

    let positions = get_availables(board);
    let ghost b = board@;
    let ghost ps = positions@;
    let ghost mut best_idx: int = 0;
    let mut idx: usize = 0;

    let other = if my_sign == Cell::X {
        Cell::O
    } else {
        Cell::X
    };

    proof {
        lemma_count_upto_bounds(b, Cell::Empty, 9);
        assert(other == opponent(my_sign));
    }

    while idx < positions.len()
        invariant
            board.wf(),
            at_most_one_winner(b),
            my_sign is X || my_sign is O,
            other == opponent(my_sign),
            b == board@,
            ps == positions@,
            terminal_score(b, my_sign) is None,
            alpha < beta,
            forall|j: int| 0 <= j < ps.len() ==> ps[j] < 9 && b[ps[j] as int] is Empty,
            forall|q: int|
                0 <= q < 9 && b[q] is Empty ==> exists|j: int| 0 <= j < ps.len() && ps[j] == q,
            ps.len() == num_empty(b),
            idx <= ps.len(),
            idx == 0 ==> min == i32::MAX && action is None && beta_c == beta,
            idx > 0 ==> (min == -10 || min == 0 || min == 10) && action is Some,
            min as int >= beta_c as int,
            beta_c == (if min < beta { min } else { beta }),
            alpha < beta_c,
            forall|j: int|
                0 <= j < idx ==> mm_max(b.update(ps[j] as int, other), my_sign) >= min as int,
            match action {
                Some(a) => a < 9 && b[a as int] is Empty && 0 <= best_idx < idx && ps[best_idx]
                    == a && (forall|k: int|
                    0 <= k < best_idx ==> #[trigger] mm_max(b.update(ps[k] as int, other), my_sign)
                        > min as int) && (alpha < min < beta ==> mm_max(
                    b.update(a as int, other),
                    my_sign,
                ) == min as int),
                None => idx == 0,
            },
        decreases ps.len() - idx,
    {
        let p = positions[idx];
        let new_board = board.with_move(p, other);
        proof {
            lemma_no_win_for_other(b, p as int, other);
            lemma_num_empty_update(b, p as int, other);
        }
        let (v, _) = max_value(&new_board, alpha, beta_c, my_sign);

        if v < min {
            min = v;
            action = Some(p);
            proof {
                best_idx = idx as int;
                assert(ps[idx as int] == p);
                assert forall|k: int| 0 <= k < idx implies #[trigger] mm_max(
                    b.update(ps[k] as int, other),
                    my_sign,
                ) > min as int by {}
            }
        }
        if v < beta_c {
            beta_c = v;
        }
        if beta_c <= alpha {
            proof {
                assert(mm_max(b.update(p as int, other), my_sign) <= v as int);
                lemma_mm_min_from_le(b, my_sign, 0, p as int);
            }
            return (min, action);
        }
        idx = idx + 1;
    }

    proof {
        lemma_num_empty_exists(b, 9);
        assert(ps.len() > 0);
        lemma_mm_min_from_achieved(b, my_sign, 0);
        if mm_min_from(b, my_sign, 0) != 100 {
            let q = choose|q: int|
                0 <= q < 9 && b[q] is Empty && mm_min_from(b, my_sign, 0) == mm_max(
                    b.update(q, other),
                    my_sign,
                );
            let j = choose|j: int| 0 <= j < ps.len() && ps[j] == q;
            assert(mm_max(b.update(ps[j] as int, other), my_sign) >= min as int);
        }
        assert(mm_min(b, my_sign) >= min as int);
        if alpha < min < beta {
            let a = action.unwrap();
            lemma_mm_min_from_le(b, my_sign, 0, a as int);
            assert forall|q: int| 0 <= q < a as int && b[q] is Empty implies mm_max(
                b.update(q, other),
                my_sign,
            ) > min as int by {
                let k = choose|k: int| 0 <= k < ps.len() && ps[k] == q;
                if k >= best_idx {
                    assert(ps[k] >= ps[best_idx]) by {
                        if k > best_idx {
                            assert(ps[best_idx] < ps[k]);
                        }
                    }
                    assert(false);
                }
                assert(mm_max(b.update(ps[k] as int, other), my_sign) > min as int);
            }
        }
    }
    (min, action)
}

} // verus!
