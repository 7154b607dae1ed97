use vstd::prelude::*;

use std::collections::HashMap;

use crate::board::Board;
use crate::board::Cell;
use crate::board::hash_of;
use crate::board::num_empty;

verus! {

broadcast use vstd::std_specs::hash::group_hash_axioms;

/// Rewards and value estimates are fixed-point numbers in units of one
/// millionth: a win pays `REWARD_UNIT`, a loss `-REWARD_UNIT`.
pub const REWARD_UNIT: i64 = 1_000_000;

/// The canonical hash of a board as the key type of the value table.
pub open spec fn hash64(b: Seq<Cell>) -> u64 {
    hash_of(b) as u64
}

/// The value a table stores for a hash; unseen states count as 0.
pub open spec fn stored_value(m: Map<u64, i64>, h: u64) -> int {
    if m.contains_key(h) {
        m[h] as int
    } else {
        0
    }
}

/// Every estimate in the table lies between loss and win.
pub open spec fn values_in_range(m: Map<u64, i64>) -> bool {
    forall|h: u64| #[trigger] m.contains_key(h) ==> -1_000_000 <= m[h] <= 1_000_000
}

/// One temporal-difference step with learning rate 1/5: the estimate moves
/// one fifth of the way toward the target, rounding toward the estimate.
pub open spec fn td_update(v: int, r: int) -> int {
    if r >= v {
        v + (r - v) / 5
    } else {
        v - (v - r) / 5
    }
}

/// The backward sweep of a terminal reward over a trace of visited hashes:
/// the most recent state is updated with the reward, and each earlier state
/// with the just-updated value of its successor.
pub open spec fn propagate(m: Map<u64, i64>, trace: Seq<u64>, r: int) -> Map<u64, i64>
    decreases trace.len(),
{
    if trace.len() == 0 {
        m
    } else {
        let h = trace.last();
        let v1 = td_update(stored_value(m, h), r);
        propagate(m.insert(h, v1 as i64), trace.drop_last(), v1)
    }
}

/// A temporal-difference step lands between the estimate and the target.
pub proof fn lemma_td_update_between(v: int, r: int)
    ensures
        v <= r ==> v <= td_update(v, r) <= r,
        r <= v ==> r <= td_update(v, r) <= v,
{
    if r >= v {
        assert(0 <= (r - v) / 5 <= r - v) by (nonlinear_arith)
            requires
                r - v >= 0,
        ;
    } else {
        assert(0 <= (v - r) / 5 <= v - r) by (nonlinear_arith)
            requires
                v - r >= 0,
        ;
    }
}

/// Names the JSON text that serde_json produces for a value table.
pub uninterp spec fn json_of(m: Map<u64, i64>) -> Seq<char>;

/// Relies on serde_json::to_string over an ordered copy of the table: a
/// JSON object with the keys in ascending numeric order, so the text is a
/// function of the table contents alone. It writes integer keys as quoted
/// decimals into an in-memory buffer and cannot fail for such a table, so
/// the encoding always succeeds.
#[verifier::external_body]
fn encode_values(m: &HashMap<u64, i64>) -> (r: String)
    ensures
        r@ == json_of(m@),
{
    let ordered: std::collections::BTreeMap<u64, i64> = m.iter().map(|(k, v)| (*k, *v)).collect();
    match serde_json::to_string(&ordered) {
        Ok(s) => s,
        Err(_) => String::new(),
    }
}

/// Relies on serde_json::from_str: parsing the JSON text that serde_json
/// wrote for a table of integer keys and values yields that table back.
#[verifier::external_body]
fn decode_values(s: &str) -> (r: Option<HashMap<u64, i64>>)
    ensures
        forall|m: Map<u64, i64>| s@ == #[trigger] json_of(m) ==> r is Some && r.unwrap()@ == m,
{
    match serde_json::from_str::<HashMap<u64, i64>>(s) {
        Ok(m) => Some(m),
        Err(_) => None,
    }
}

/// Relies on HashMap::iter visiting each entry exactly once: the returned
/// pairs are the entries of the table, in no promised order.
#[verifier::external_body]
fn table_pairs(m: &HashMap<u64, i64>) -> (r: Vec<(u64, i64)>)
    ensures
        forall|k: u64, v: i64| r@.contains((k, v)) <==> m@.contains_pair(k, v),
{
    m.iter().map(|(k, v)| (*k, *v)).collect()
}

/// Relies on rand's RngExt::random_range over the thread-local generator:
/// the sample lies in the given non-empty range.
#[verifier::external_body]
pub(crate) fn random_below(n: u32) -> (r: u32)
    requires
        n > 0,
    ensures
        r < n,
{
    rand::RngExt::random_range(&mut rand::rng(), 0..n)
}

/// Loading a model can fail; a missing model file is reported by the
/// caller that reads the file, a malformed text by the library.
#[derive(Debug)]
pub enum ModelError {
    ModelNotFound,
    DeserializationFailure,
}

impl ModelError {
    pub fn value(&self) -> String {
        match self {
            ModelError::ModelNotFound => "no stored model was found under this name".to_owned(),
            ModelError::DeserializationFailure => "could not decode the stored value table".to_owned(),
        }
    }
}

/// The value the table assigns to the board that results from placing
/// `turn` at `p`.
pub open spec fn lookahead_value(m: Map<u64, i64>, b: Seq<Cell>, turn: Cell, p: int) -> int {
    stored_value(m, hash64(b.update(p, turn)))
}

/// `p` is the greedy choice on `b`: an empty cell whose lookahead value no
/// other empty cell exceeds, and that strictly beats every earlier one.
pub open spec fn is_greedy_choice(m: Map<u64, i64>, b: Seq<Cell>, turn: Cell, p: int) -> bool {
    &&& 0 <= p < 9
    &&& b[p] is Empty
    &&& forall|q: int|
        0 <= q < 9 && b[q] is Empty ==> #[trigger] lookahead_value(m, b, turn, q)
            <= lookahead_value(m, b, turn, p)
    &&& forall|q: int|
        0 <= q < p && b[q] is Empty ==> #[trigger] lookahead_value(m, b, turn, q)
            < lookahead_value(m, b, turn, p)
}

/// A tabular learning agent: a value estimate per visited board hash,
/// updated backward along the trace of each finished game. The learning
/// rate is 1/5 and the exploration rate 1/10.
pub struct Agent {
    pub name: String,
    pub states: Vec<u64>,
    pub states_values: HashMap<u64, i64>,
}

impl Agent {
    pub open spec fn wf(&self) -> bool {
        values_in_range(self.states_values@)
    }

    pub fn new(name: &str) -> (r: Agent)
        ensures
            r.wf(),
            r.name@ == name@,
            r.states@ =~= Seq::<u64>::empty(),
            r.states_values@ =~= Map::<u64, i64>::empty(),
    {
        Agent { name: name.to_owned(), states: Vec::new(), states_values: HashMap::new() }
    }

    /// The stored estimate of a hash; unseen states count as 0.
    pub fn get_value(&self, h: u64) -> (r: i64)
        ensures
            r as int == stored_value(self.states_values@, h),
    {
        match self.states_values.get(&h) {
            Some(v) => *v,
            None => 0,
        }
    }

    /// Record the board's hash on this game's trace.
    pub fn add_state(&mut self, board: &Board)
        requires
            board.wf(),
        ensures
            final(self).states@ == old(self).states@.push(hash64(board@)),
            final(self).states_values == old(self).states_values,
            final(self).name == old(self).name,
    {
        let h = board.get_hash();
        self.states.push(h);
    }

    /// Forget the trace after a finished game; the learned values stay.
    pub fn reset(&mut self)
        ensures
            final(self).states@ =~= Seq::<u64>::empty(),
            final(self).states_values == old(self).states_values,
            final(self).name == old(self).name,
    {
        self.states = Vec::new();
    }

    /// Propagate a terminal reward backward through the trace: the latest
    /// state moves toward the reward, each earlier state toward the fresh
    /// value of its successor.
    pub fn feed_reward(&mut self, reward: i64)
        requires
            old(self).wf(),
            -1_000_000 <= reward <= 1_000_000,
        ensures
            final(self).wf(),
            final(self).states_values@ == propagate(
                old(self).states_values@,
                old(self).states@,
                reward as int,
            ),
            final(self).states == old(self).states,
            final(self).name == old(self).name,
    {
        let ghost m0 = self.states_values@;
        let ghost trace = self.states@;
        let ghost r0 = reward as int;
        let mut reward = reward;
        let mut idx: usize = self.states.len();
        proof {
            assert(trace.take(idx as int) =~= trace);
        }
        while idx > 0
            invariant
                values_in_range(self.states_values@),
                -1_000_000 <= reward <= 1_000_000,
                idx <= trace.len(),
                self.states@ == trace,
                self.states == old(self).states,
                self.name == old(self).name,
                propagate(m0, trace, r0) == propagate(
                    self.states_values@,
                    trace.take(idx as int),
                    reward as int,
                ),
            decreases idx,
        {
            idx = idx - 1;
            let h = self.states[idx];
            let v0 = self.get_value(h);
            let v1 = if reward >= v0 {
                let step = (((reward - v0) as u64) / 5) as i64;
                v0 + step
            } else {
                let step = (((v0 - reward) as u64) / 5) as i64;
                v0 - step
            };
            proof {
                lemma_td_update_between(v0 as int, reward as int);
                assert(v1 as int == td_update(v0 as int, reward as int));
                let prefix = trace.take(idx + 1);
                assert(prefix.last() == trace[idx as int]);
                assert(prefix.drop_last() =~= trace.take(idx as int));
            }
            let ghost before = self.states_values@;
            self.states_values.insert(h, v1);
            proof {
                assert(self.states_values@ == before.insert(h, v1));
                assert(values_in_range(self.states_values@)) by {
                    assert(forall|k: u64| #[trigger]
                        self.states_values@.contains_key(k) ==> (k == h
                            || before.contains_key(k)));
                }
            }
            reward = v1;
        }
        proof {
            assert(trace.take(0) =~= Seq::<u64>::empty());
        }
    }

    /// The greedy half of action selection: place the own symbol in every
    /// empty cell in turn, look the resulting hash up in the value table,
    /// and keep the first position with the greatest stored value.
    pub fn get_greedy_action(&self, board: &Board, turn: Cell) -> (r: usize)
        requires
            board.wf(),
            num_empty(board@) > 0,
        ensures
            is_greedy_choice(self.states_values@, board@, turn, r as int),
    {
        let ghost m = self.states_values@;
        let ghost b = board@;
        let positions = board.get_available();
        let ghost ps = positions@;
        let first = positions[0];
        let nb = board.with_move(first, turn);
        let mut best_pos = first;
        let mut best_val = self.get_value(nb.get_hash());
        let mut j: usize = 1;
        while j < positions.len()
            invariant
                board.wf(),
                b == board@,
                ps == positions@,
                m == self.states_values@,
                forall|k: int| 0 <= k < ps.len() ==> ps[k] < 9 && b[ps[k] as int] is Empty,
                forall|k: int, l: int| 0 <= k < l < ps.len() ==> ps[k] < ps[l],
                forall|q: int|
                    0 <= q < 9 && b[q] is Empty ==> exists|k: int| 0 <= k < ps.len() && ps[k] == q,
                1 <= j <= ps.len(),
                exists|jj: int|
                    0 <= jj < j && best_pos == ps[jj] && (forall|k: int|
                        0 <= k < jj ==> #[trigger] lookahead_value(m, b, turn, ps[k] as int)
                            < best_val as int),
                best_pos < 9 && b[best_pos as int] is Empty,
                best_val as int == lookahead_value(m, b, turn, best_pos as int),
                forall|k: int|
                    0 <= k < j ==> #[trigger] lookahead_value(m, b, turn, ps[k] as int)
                        <= best_val as int,
            decreases ps.len() - j,
        {
            let p = positions[j];
            let nb = board.with_move(p, turn);
            let v = self.get_value(nb.get_hash());
            if v > best_val {
                best_pos = p;
                best_val = v;
                proof {
                    assert forall|k: int|
                        0 <= k < j implies #[trigger] lookahead_value(m, b, turn, ps[k] as int)
                        < best_val as int by {}
                }
            }
            j = j + 1;
        }
        proof {
            let jj = choose|jj: int|
                0 <= jj < ps.len() && best_pos == ps[jj] && (forall|k: int|
                    0 <= k < jj ==> #[trigger] lookahead_value(m, b, turn, ps[k] as int) < (
                    best_val as int));
            assert forall|q: int| 0 <= q < 9 && b[q] is Empty implies #[trigger] lookahead_value(
                m,
                b,
                turn,
                q,
            ) <= lookahead_value(m, b, turn, best_pos as int) by {
                let k = choose|k: int| 0 <= k < ps.len() && ps[k] == q;
            }
            assert forall|q: int| 0 <= q < best_pos as int && b[q] is Empty implies #[trigger]
            lookahead_value(m, b, turn, q) < lookahead_value(m, b, turn, best_pos as int) by {
                let k = choose|k: int| 0 <= k < ps.len() && ps[k] == q;
                if k >= jj {
                    assert(ps[k] >= ps[jj]) by {
                        if k > jj {
                            assert(ps[jj] < ps[k]);
                        }
                    }
                    assert(false);
                }
            }
        }
        best_pos
    }

    /// Epsilon-greedy action selection: with probability 1/10 a uniformly
    /// random available position, otherwise the greedy choice. Either way
    /// the returned cell is empty.
    pub fn get_best_action(&self, board: &Board, turn: Cell) -> (r: usize)
        requires
            board.wf(),
            num_empty(board@) > 0,
        ensures
            r < 9,
            board@[r as int] is Empty,
    {
        let roll = random_below(10);
        if roll == 0 {
            let positions = board.get_available();
            proof {
                crate::board::lemma_count_upto_bounds(board@, Cell::Empty, 9);
            }
            let k = random_below(positions.len() as u32);
            positions[k as usize]
        } else {
            self.get_greedy_action(board, turn)
        }
    }

    /// The value table as its persisted text; encoding a table never
    /// fails.
    pub fn save_model(&self) -> (r: String)
        ensures
            r@ == json_of(self.states_values@),
    {
        encode_values(&self.states_values)
    }

    /// Replace the value table by the one decoded from `data`; refused,
    /// with the table untouched, when the text does not decode to a table
    /// of estimates between loss and win.
    pub fn load_model(&mut self, data: &str) -> (r: Result<(), ModelError>)
        requires
            old(self).wf(),
        ensures
            final(self).wf(),
            final(self).states == old(self).states,
            final(self).name == old(self).name,
            r is Err ==> final(self).states_values == old(self).states_values,
            forall|m: Map<u64, i64>|
                data@ == #[trigger] json_of(m) && values_in_range(m) ==> r is Ok
                    && final(self).states_values@ == m,
    {
        let decoded = decode_values(data);
        match decoded {
            None => Err(ModelError::DeserializationFailure),
            Some(table) => {
                let pairs = table_pairs(&table);
                let mut i: usize = 0;
                while i < pairs.len()
                    invariant
                        self == old(self),
                        self.wf(),
                        forall|m: Map<u64, i64>| data@ == #[trigger] json_of(m) ==> table@ == m,
                        i <= pairs@.len(),
                        forall|k: int|
                            0 <= k < i ==> -1_000_000 <= (#[trigger] pairs@[k]).1 <= 1_000_000,
                        forall|k: u64, v: i64|
                            pairs@.contains((k, v)) <==> table@.contains_pair(k, v),
                    decreases pairs@.len() - i,
                {
                    let entry = pairs[i];
                    if entry.1 < -1_000_000 || entry.1 > 1_000_000 {
                        proof {
                            assert(pairs@.contains((entry.0, entry.1)));
                            assert(table@.contains_pair(entry.0, entry.1));
                            assert forall|m: Map<u64, i64>|
                                data@ == #[trigger] json_of(m) implies !values_in_range(m) by {
                                assert(table@ == m);
                                assert(m.contains_key(entry.0) && m[entry.0] == entry.1);
                            }
                        }
                        return Err(ModelError::DeserializationFailure);
                    }
                    i = i + 1;
                }
                proof {
                    assert forall|h: u64| #[trigger]
                        table@.contains_key(h) implies -1_000_000 <= table@[h]
                        <= 1_000_000 by {
                        assert(table@.contains_pair(h, table@[h]));
                        assert(pairs@.contains((h, table@[h])));
                        let k = choose|k: int| 0 <= k < pairs@.len() && pairs@[k] == (h, table@[h]);
                    }
                }
                self.states_values = table;
                Ok(())
            },
        }
    }
}

/// Round trip of persistence: saving always succeeds, loading the saved
/// text always succeeds, and the loaded value table equals the saved one.
pub fn save_load_round_trip(a: &Agent, b: &mut Agent)
    requires
        a.wf(),
        old(b).wf(),
    ensures
        final(b).wf(),
        final(b).states_values@ == a.states_values@,
{
    let text = a.save_model();
    let res = b.load_model(text.as_str());
    proof {
        assert(text@ == json_of(a.states_values@));
        assert(res is Ok);
    }
}

} // verus!
