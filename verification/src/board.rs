use vstd::prelude::*;

verus! {

/// One cell of the 3x3 grid: empty, or marked by one of the two players.
#[derive(Clone, Copy, PartialEq, Eq, Structural, Debug)]
pub enum Cell {
    Empty,
    X,
    O,
}

/// The other player's symbol; meaningful for `X` and `O` only.
pub open spec fn opponent(s: Cell) -> Cell {
    if s is X {
        Cell::O
    } else {
        Cell::X
    }
}

/// Number of cells equal to `s` among the first `n` cells of `b`.
pub open spec fn count_upto(b: Seq<Cell>, s: Cell, n: int) -> int
    decreases n,
{
    if n <= 0 {
        0
    } else {
        count_upto(b, s, n - 1) + if b[n - 1] == s {
            1int
        } else {
            0int
        }
    }
}

/// Number of empty cells on the board.
pub open spec fn num_empty(b: Seq<Cell>) -> int {
    count_upto(b, Cell::Empty, 9)
}

/// Number of moves already played on the board.
pub open spec fn move_count(b: Seq<Cell>) -> int {
    9 - num_empty(b)
}

/// Whether the three cells of one of the 8 lines (3 rows, 3 columns,
/// 2 diagonals) all hold the player symbol `s`.
pub open spec fn has_win(b: Seq<Cell>, s: Cell) -> bool {
    !(s is Empty) && ((b[0] == s && b[1] == s && b[2] == s) || (b[3] == s && b[4] == s && b[5] == s)
        || (b[6] == s && b[7] == s && b[8] == s) || (b[0] == s && b[3] == s && b[6] == s) || (b[1]
        == s && b[4] == s && b[7] == s) || (b[2] == s && b[5] == s && b[8] == s) || (b[0] == s
        && b[4] == s && b[8] == s) || (b[2] == s && b[4] == s && b[6] == s))
}

/// The symbol whose turn it is: `X` moves first, turns alternate, so the
/// parity of the number of empty cells decides.
pub open spec fn turn_spec(b: Seq<Cell>) -> Cell {
    if num_empty(b) % 2 == 1 {
        Cell::X
    } else {
        Cell::O
    }
}

/// Base-3 digit of a cell, for the canonical hash.
pub open spec fn cell_digit(c: Cell) -> int {
    match c {
        Cell::Empty => 0,
        Cell::X => 1,
        Cell::O => 2,
    }
}

/// Base-3 value of the first `n` cells of `b`, first cell most significant.
pub open spec fn hash_upto(b: Seq<Cell>, n: int) -> int
    decreases n,
{
    if n <= 0 {
        0
    } else {
        3 * hash_upto(b, n - 1) + cell_digit(b[n - 1])
    }
}

/// Canonical hash of a board: the base-3 encoding of its 9 cells.
pub open spec fn hash_of(b: Seq<Cell>) -> int {
    hash_upto(b, 9)
}

pub open spec fn pow3(n: int) -> int
    decreases n,
{
    if n <= 0 {
        1
    } else {
        3 * pow3(n - 1)
    }
}

/// Counting a prefix never gives a negative result, nor more than the
/// prefix length.
pub proof fn lemma_count_upto_bounds(b: Seq<Cell>, s: Cell, n: int)
    requires
        n >= 0,
    ensures
        0 <= count_upto(b, s, n) <= n,
    decreases n,
{
    if n > 0 {
        lemma_count_upto_bounds(b, s, n - 1);
    }
}

/// How writing one cell changes a prefix count.
pub proof fn lemma_count_upto_update(b: Seq<Cell>, s: Cell, p: int, v: Cell, n: int)
    requires
        0 <= p < b.len(),
        n <= b.len(),
    ensures
        count_upto(b.update(p, v), s, n) == count_upto(b, s, n) + (if p < n && v == s && b[p] != s {
            1int
        } else {
            0int
        }) - (if p < n && b[p] == s && v != s {
            1int
        } else {
            0int
        }),
    decreases n,
{
    if n > 0 {
        lemma_count_upto_update(b, s, p, v, n - 1);
    }
}

/// Playing a symbol into an empty cell removes exactly one empty cell.
pub proof fn lemma_num_empty_update(b: Seq<Cell>, p: int, v: Cell)
    requires
        b.len() == 9,
        0 <= p < 9,
        b[p] is Empty,
        !(v is Empty),
    ensures
        num_empty(b.update(p, v)) == num_empty(b) - 1,
{
    lemma_count_upto_update(b, Cell::Empty, p, v, 9);
}

/// A positive empty count means some cell is empty, and conversely.
pub proof fn lemma_num_empty_exists(b: Seq<Cell>, n: int)
    requires
        0 <= n,
    ensures
        count_upto(b, Cell::Empty, n) > 0 ==> exists|q: int| 0 <= q < n && b[q] is Empty,
        (exists|q: int| 0 <= q < n && b[q] is Empty) ==> count_upto(b, Cell::Empty, n) > 0,
    decreases n,
{
    if n > 0 {
        lemma_num_empty_exists(b, n - 1);
        if count_upto(b, Cell::Empty, n) > 0 {
            if b[n - 1] is Empty {
                assert(0 <= n - 1 < n && b[n - 1] is Empty);
            }
        }
        if exists|q: int| 0 <= q < n && b[q] is Empty {
            let q = choose|q: int| 0 <= q < n && b[q] is Empty;
            lemma_count_upto_bounds(b, Cell::Empty, n - 1);
            if q == n - 1 {
            } else {
                assert(0 <= q < n - 1 && b[q] is Empty);
            }
        }
    }
}

/// The turn is `X` exactly when an even number of moves has been played:
/// starting from the empty board, legal play alternates strictly.
pub proof fn lemma_turn_alternates(b: Seq<Cell>)
    requires
        b.len() == 9,
    ensures
        (turn_spec(b) == Cell::X) <==> (move_count(b) % 2 == 0),
{
    lemma_count_upto_bounds(b, Cell::Empty, 9);
}

/// Turns alternate strictly: every move hands the turn to the other side.
pub proof fn lemma_turn_flips(b: Seq<Cell>, p: int, s: Cell)
    requires
        b.len() == 9,
        0 <= p < 9,
        b[p] is Empty,
        !(s is Empty),
    ensures
        turn_spec(b.update(p, s)) == opponent(turn_spec(b)),
{
    lemma_num_empty_update(b, p, s);
    lemma_count_upto_bounds(b, Cell::Empty, 9);
}

/// A canonical hash is at most `pow3(n) - 1` over `n` cells.
pub proof fn lemma_hash_upto_bound(b: Seq<Cell>, n: int)
    requires
        0 <= n,
    ensures
        0 <= hash_upto(b, n) < pow3(n),
    decreases n,
{
    if n > 0 {
        lemma_hash_upto_bound(b, n - 1);
    }
}

/// The canonical hash is injective: two 9-cell boards with the same hash
/// hold the same cells.
pub proof fn lemma_hash_injective(b1: Seq<Cell>, b2: Seq<Cell>, n: int)
    requires
        b1.len() == 9,
        b2.len() == 9,
        0 <= n <= 9,
        hash_upto(b1, n) == hash_upto(b2, n),
    ensures
        forall|i: int| 0 <= i < n ==> b1[i] == b2[i],
    decreases n,
{
    if n > 0 {
        lemma_hash_upto_bound(b1, n - 1);
        lemma_hash_upto_bound(b2, n - 1);
        assert(cell_digit(b1[n - 1]) == cell_digit(b2[n - 1])) by {
            assert(hash_upto(b1, n) == 3 * hash_upto(b1, n - 1) + cell_digit(b1[n - 1]));
            assert(hash_upto(b2, n) == 3 * hash_upto(b2, n - 1) + cell_digit(b2[n - 1]));
        }
        assert(b1[n - 1] == b2[n - 1]);
        lemma_hash_injective(b1, b2, n - 1);
    }
}

/// The 3x3 grid, stored row by row as 9 cells.
pub struct Board {
    pub board: Vec<Cell>,
}

/// A move was refused.
#[derive(Debug)]
pub enum BoardError {
    PositionError(String),
}

impl BoardError {
    pub open spec fn message(&self) -> Seq<char> {
        match self {
            BoardError::PositionError(s) => s@,
        }
    }

    pub fn value(&self) -> (r: String)
        ensures
            r@ == self.message(),
    {
        match self {
            BoardError::PositionError(s) => s.clone(),
        }
    }
}

/// Relies on `format!` of std to render the refusal message for an
/// occupied cell.
#[verifier::external_body]
fn occupied_message(position: usize, occupant: char) -> String {
    format!("Position {} is occupied by {}", position, occupant)
}

impl View for Board {
    type V = Seq<Cell>;

    open spec fn view(&self) -> Seq<Cell> {
        self.board@
    }
}

impl Board {
    /// A board is well formed when it has exactly 9 cells.
    pub open spec fn wf(&self) -> bool {
        self@.len() == 9
    }

    pub fn new() -> (b: Board)
        ensures
            b.wf(),
            forall|i: int| 0 <= i < 9 ==> b@[i] is Empty,
            num_empty(b@) == 9,
    {
        let mut v: Vec<Cell> = Vec::new();
        v.push(Cell::Empty);
        v.push(Cell::Empty);
        v.push(Cell::Empty);
        v.push(Cell::Empty);
        v.push(Cell::Empty);
        v.push(Cell::Empty);
        v.push(Cell::Empty);
        v.push(Cell::Empty);
        v.push(Cell::Empty);
        proof {
            reveal_with_fuel(count_upto, 10);
            assert(num_empty(v@) == 9);
        }
        Board { board: v }
    }

    /// The printable symbol of a cell.
    pub fn symbol_char(c: Cell) -> (r: char)
        ensures
            r == (match c {
                Cell::Empty => ' ',
                Cell::X => 'X',
                Cell::O => 'O',
            }),
    {
        match c {
            Cell::Empty => ' ',
            Cell::X => 'X',
            Cell::O => 'O',
        }
    }

    /// Read one cell.
    pub fn cell_at(&self, i: usize) -> (r: Cell)
        requires
            self.wf(),
            i < 9,
        ensures
            r == self@[i as int],
    {
        self.board[i]
    }

    /// All empty positions, in ascending order.
    pub fn get_available(&self) -> (r: Vec<usize>)
        requires
            self.wf(),
        ensures
            forall|j: int| 0 <= j < r@.len() ==> r@[j] < 9 && self@[r@[j] as int] is Empty,
            forall|j: int, k: int| 0 <= j < k < r@.len() ==> r@[j] < r@[k],
            forall|q: int|
                0 <= q < 9 && self@[q] is Empty ==> exists|j: int|
                    0 <= j < r@.len() && r@[j] == q,
            r@.len() == num_empty(self@),
    {
        let mut r: Vec<usize> = Vec::new();
        for i in 0..9usize
            invariant
                self.wf(),
                forall|j: int| 0 <= j < r@.len() ==> r@[j] < i && self@[r@[j] as int] is Empty,
                forall|j: int, k: int| 0 <= j < k < r@.len() ==> r@[j] < r@[k],
                forall|q: int|
                    0 <= q < i && self@[q] is Empty ==> exists|j: int|
                        0 <= j < r@.len() && r@[j] == q,
                r@.len() == count_upto(self@, Cell::Empty, i as int),
        {
            proof {
                lemma_count_upto_bounds(self@, Cell::Empty, i as int);
            }
            if self.board[i] == Cell::Empty {
                let ghost prev = r@;
                r.push(i);
                proof {
                    assert forall|q: int| 0 <= q < i + 1 && self@[q] is Empty implies exists|
                        j: int,
                    | 0 <= j < r@.len() && r@[j] == q by {
                        if q < i {
                            let j = choose|j: int| 0 <= j < prev.len() && prev[j] == q;
                            assert(r@[j] == q);
                        } else {
                            assert(r@[r@.len() - 1] == q);
                        }
                    }
                }
            }
        }
        r
    }

    /// Write `player` into `position`; refused when the cell is occupied.
    pub fn play_move(&mut self, position: usize, player: Cell) -> (r: Result<(), BoardError>)
        requires
            old(self).wf(),
            position < 9,
        ensures
            final(self).wf(),
            r is Ok <==> old(self)@[position as int] is Empty,
            r is Ok ==> final(self)@ == old(self)@.update(position as int, player),
            r is Err ==> final(self)@ == old(self)@,
            (r is Ok && !(player is Empty)) ==> num_empty(final(self)@) == num_empty(old(self)@)
                - 1,
    {
        if self.board[position] != Cell::Empty {
            let occupant = Self::symbol_char(self.board[position]);
            return Err(BoardError::PositionError(occupied_message(position, occupant)));
        }
        proof {
            if !(player is Empty) {
                lemma_num_empty_update(self@, position as int, player);
            }
        }
        self.board.set(position, player);
        Ok(())
    }

    /// Terminal test: a completed line wins; a full board with no line is a
    /// draw; otherwise the game goes on.
    pub fn get_winner(&self) -> (r: (bool, Option<Cell>))
        requires
            self.wf(),
        ensures
            r.0 == (has_win(self@, Cell::X) || has_win(self@, Cell::O) || num_empty(self@) == 0),
            match r.1 {
                Some(s) => has_win(self@, s),
                None => !has_win(self@, Cell::X) && !has_win(self@, Cell::O),
            },
            (has_win(self@, Cell::X) && !has_win(self@, Cell::O)) ==> r.1 == Some(Cell::X),
            (has_win(self@, Cell::O) && !has_win(self@, Cell::X)) ==> r.1 == Some(Cell::O),
    {
        let b = &self.board;
        if b[0] == b[3] && b[0] == b[6] && b[0] != Cell::Empty {
            return (true, Some(b[0]));
        }
        if b[0] == b[1] && b[0] == b[2] && b[0] != Cell::Empty {
            return (true, Some(b[0]));
        }
        if b[1] == b[4] && b[1] == b[7] && b[1] != Cell::Empty {
            return (true, Some(b[1]));
        }
        if b[3] == b[4] && b[3] == b[5] && b[3] != Cell::Empty {
            return (true, Some(b[3]));
        }
        if b[2] == b[5] && b[2] == b[8] && b[2] != Cell::Empty {
            return (true, Some(b[2]));
        }
        if b[6] == b[7] && b[6] == b[8] && b[6] != Cell::Empty {
            return (true, Some(b[6]));
        }
        if b[0] == b[4] && b[0] == b[8] && b[0] != Cell::Empty {
            return (true, Some(b[0]));
        }
        if b[2] == b[4] && b[2] == b[6] && b[2] != Cell::Empty {
            return (true, Some(b[2]));
        }
        if self.count_symbol(Cell::Empty) == 0 {
            return (true, None);
        }
        (false, None)
    }

    /// The symbol to move, derived from the parity of the empty-cell count.
    pub fn get_turn(&self) -> (r: Cell)
        requires
            self.wf(),
        ensures
            r == turn_spec(self@),
    {
        let free = self.count_symbol(Cell::Empty);
        proof {
            lemma_count_upto_bounds(self@, Cell::Empty, 9);
        }
        if free % 2 > 0 {
            Cell::X
        } else {
            Cell::O
        }
    }

    /// How many cells hold `symbol`.
    pub fn count_symbol(&self, symbol: Cell) -> (r: usize)
        requires
            self.wf(),
        ensures
            r == count_upto(self@, symbol, 9),
    {
        let mut count: usize = 0;
        for i in 0..9usize
            invariant
                self.wf(),
                count == count_upto(self@, symbol, i as int),
                count <= i,
        {
            if self.board[i] == symbol {
                count = count + 1;
            }
        }
        count
    }

    /// A copy of the board with `player` written into `position`; the board
    /// itself is left untouched. Lookahead works on such copies.
    pub fn with_move(&self, position: usize, player: Cell) -> (r: Board)
        requires
            self.wf(),
            position < 9,
        ensures
            r.wf(),
            r@ == self@.update(position as int, player),
    {
        let mut v: Vec<Cell> = Vec::new();
        for i in 0..9usize
            invariant
                self.wf(),
                v@.len() == i,
                forall|j: int| 0 <= j < i ==> v@[j] == self@[j],
        {
            v.push(self.board[i]);
        }
        v.set(position, player);
        proof {
            assert(v@ =~= self@.update(position as int, player));
        }
        Board { board: v }
    }

    /// The canonical hash: the base-3 value of the 9 cells. It identifies
    /// the position exactly (see `lemma_hash_injective`).
    pub fn get_hash(&self) -> (r: u64)
        requires
            self.wf(),
        ensures
            r as int == hash_of(self@),
            r < 19683,
    {
        let mut h: u64 = 0;
        for i in 0..9usize
            invariant
                self.wf(),
                h as int == hash_upto(self@, i as int),
                (h as int) < pow3(i as int),
        {
            proof {
                lemma_hash_upto_bound(self@, i as int);
                reveal_with_fuel(pow3, 10);
                lemma_pow3_mono(i as int, 9);
            }
            let d: u64 = match self.board[i] {
                Cell::Empty => 0,
                Cell::X => 1,
                Cell::O => 2,
            };
            h = 3 * h + d;
        }
        proof {
            reveal_with_fuel(pow3, 10);
        }
        h
    }
}

pub proof fn lemma_pow3_mono(m: int, n: int)
    requires
        0 <= m <= n,
    ensures
        pow3(m) <= pow3(n),
    decreases n - m,
{
    if m < n {
        lemma_pow3_mono(m, n - 1);
        lemma_pow3_pos(n - 1);
    }
}

pub proof fn lemma_pow3_pos(n: int)
    ensures
        pow3(n) >= 1,
    decreases n,
{
    if n > 0 {
        lemma_pow3_pos(n - 1);
    }
}

} // verus!
