//! Tic-tac-toe against the computer, with three levels of play.
use vstd::prelude::*;
use rand::seq::IndexedRandom as _;
use crate::text::owned;

verus! {

/// A square of the board.
#[derive(Clone, Copy, Debug, PartialEq, Eq, Structural)]
pub enum Cell {
    Empty,
    X,
    O,
}

/// How hard the computer plays.
#[derive(Clone, Copy, Debug, PartialEq, Eq, Structural)]
pub enum Difficulty {
    Easy,
    Difficult,
    GoodLuck,
}

impl Difficulty {
    /// Every level, from the easiest.
    pub fn all() -> (res: &'static [Difficulty])
        ensures
            res@ == seq![Difficulty::Easy, Difficulty::Difficult, Difficulty::GoodLuck],
    {
        &[Difficulty::Easy, Difficulty::Difficult, Difficulty::GoodLuck]
    }

    /// The name of the level as the game shows it.
    pub fn to_string(&self) -> (res: String)
        ensures
            res@ == match *self {
                Difficulty::Easy => "Easy"@,
                Difficulty::Difficult => "Difficult"@,
                Difficulty::GoodLuck => "Good Luck"@,
            },
    {
        match self {
            Difficulty::Easy => owned("Easy"),
            Difficulty::Difficult => owned("Difficult"),
            Difficulty::GoodLuck => owned("Good Luck"),
        }
    }
}

impl Cell {
    /// The mark of the square as the game shows it.
    pub fn to_string(&self) -> (res: String)
        ensures
            res@ == match *self {
                Cell::Empty => " "@,
                Cell::X => "X"@,
                Cell::O => "O"@,
            },
    {
        match self {
            Cell::Empty => owned(" "),
            Cell::X => owned("X"),
            Cell::O => owned("O"),
        }
    }
}

/// What the board says once the game is over: the player holds X.
pub fn verdict(winner: Option<Cell>) -> (res: &'static str)
    ensures
        res@ == match winner {
            Some(Cell::X) => "You win!"@,
            Some(Cell::O) => "You lost!"@,
            _ => "Draw!"@,
        },
{
    match winner {
        Some(Cell::X) => "You win!",
        Some(Cell::O) => "You lost!",
        _ => "Draw!",
    }
}

/// The eight lines of three: rows, columns and diagonals, in the order they are checked.
pub open spec fn three_rows() -> Seq<(int, int, int)> {
    seq![(0, 1, 2), (3, 4, 5), (6, 7, 8), (0, 3, 6), (1, 4, 7), (2, 5, 8), (0, 4, 8), (2, 4, 6)]
}

/// The mark on the first complete line from line `k` on.
pub open spec fn winner_from(cells: Seq<Cell>, k: int) -> Option<Cell>
    decreases 8 - k,
{
    if k < 0 || k >= 8 {
        None
    } else {
        let (a, b, c) = three_rows()[k];
        if cells[a] == cells[b] && cells[b] == cells[c] && cells[a] != Cell::Empty {
            Some(cells[a])
        } else {
            winner_from(cells, k + 1)
        }
    }
}

/// The mark that has a complete line, looking at the lines in order.
pub open spec fn winner(cells: Seq<Cell>) -> Option<Cell> {
    winner_from(cells, 0)
}

/// Whether every square is taken.
pub open spec fn full(cells: Seq<Cell>) -> bool {
    forall|i: int| 0 <= i < 9 ==> cells[i] != Cell::Empty
}

/// Whether the game has ended: someone has a line, or the board is full.
pub open spec fn over(cells: Seq<Cell>) -> bool {
    winner(cells) is Some || full(cells)
}

/// The squares among `idx` that are empty, in order.
pub open spec fn empties_of(cells: Seq<Cell>, idx: Seq<u8>) -> Seq<u8>
    decreases idx.len(),
{
    if idx.len() == 0 {
        Seq::empty()
    } else {
        let r = empties_of(cells, idx.drop_last());
        if cells[idx.last() as int] == Cell::Empty {
            r.push(idx.last())
        } else {
            r
        }
    }
}

/// The squares `0..n` that are empty, in order.
pub open spec fn empty_squares(cells: Seq<Cell>, n: nat) -> Seq<u8>
    decreases n,
{
    if n == 0 {
        Seq::empty()
    } else {
        let r = empty_squares(cells, (n - 1) as nat);
        if cells[n - 1] == Cell::Empty {
            r.push((n - 1) as u8)
        } else {
            r
        }
    }
}

/// The number of squares among `0..n` that hold `c`.
pub open spec fn count_of(cells: Seq<Cell>, c: Cell, n: nat) -> nat
    decreases n,
{
    if n == 0 {
        0
    } else {
        count_of(cells, c, (n - 1) as nat) + if cells[n - 1] == c { 1nat } else { 0nat }
    }
}

pub open spec fn table_view(v: Seq<(Vec<u8>, Vec<u8>)>) -> Seq<(Seq<u8>, Seq<u8>)> {
    Seq::new(v.len(), |i: int| (v[i].0@, v[i].1@))
}

/// Every square named in a strategy table is on the board.
pub open spec fn table_on_board(t: Seq<(Seq<u8>, Seq<u8>)>) -> bool {
    forall|k: int, j: int|
        0 <= k < t.len() ==> (0 <= j < t[k].0.len() ==> t[k].0[j] < 9) && (0 <= j < t[k].1.len()
            ==> t[k].1[j] < 9)
}

/// Whether `target` holds every square of `idx`.
pub open spec fn all_hold(cells: Seq<Cell>, idx: Seq<u8>, target: Cell) -> bool {
    forall|j: int| 0 <= j < idx.len() ==> cells[idx[j] as int] == target
}

/// The empty answers of the first rule of the table, from rule `k` on, whose
/// squares `target` all holds and which has an empty answer; nothing when
/// no rule applies.
pub open spec fn find_match_from(cells: Seq<Cell>, t: Seq<(Seq<u8>, Seq<u8>)>, target: Cell, k: int) -> Seq<u8>
    decreases t.len() - k,
{
    if k < 0 || k >= t.len() {
        Seq::empty()
    } else if all_hold(cells, t[k].0, target) && empties_of(cells, t[k].1).len() > 0 {
        empties_of(cells, t[k].1)
    } else {
        find_match_from(cells, t, target, k + 1)
    }
}

/// The squares the computer picks its move from: on the easy level any empty
/// square; otherwise the answer to the player's first move, else a winning
/// square, else a blocking square, else (on the hardest level) a counter to
/// the player's strategy, and failing all of these any empty square.
pub open spec fn move_choices_spec(cells: Seq<Cell>, difficulty: Difficulty) -> Seq<u8> {
    if difficulty == Difficulty::Easy {
        empty_squares(cells, 9)
    } else {
        let choices = if count_of(cells, Cell::X, 9) == 1 && count_of(cells, Cell::O, 9) == 0 {
            find_match_from(cells, first_moves_table(), Cell::X, 0)
        } else {
            let win = find_match_from(cells, checkmates_table(), Cell::O, 0);
            if win.len() > 0 {
                win
            } else {
                let block = find_match_from(cells, checkmates_table(), Cell::X, 0);
                if block.len() > 0 {
                    block
                } else if difficulty == Difficulty::GoodLuck {
                    find_match_from(cells, counter_strats_table(), Cell::X, 0)
                } else {
                    Seq::empty()
                }
            }
        };
        if choices.len() > 0 {
            choices
        } else {
            empty_squares(cells, 9)
        }
    }
}

pub open spec fn checkmates_table() -> Seq<(Seq<u8>, Seq<u8>)> {
    seq![
        (seq![0u8, 4u8], seq![8u8]),
        (seq![0u8, 8u8], seq![4u8]),
        (seq![4u8, 8u8], seq![0u8]),
        (seq![2u8, 4u8], seq![6u8]),
        (seq![2u8, 6u8], seq![4u8]),
        (seq![4u8, 6u8], seq![2u8]),
        (seq![0u8, 1u8], seq![2u8]),
        (seq![0u8, 2u8], seq![1u8]),
        (seq![1u8, 2u8], seq![0u8]),
        (seq![3u8, 4u8], seq![5u8]),
        (seq![3u8, 5u8], seq![4u8]),
        (seq![4u8, 5u8], seq![3u8]),
        (seq![6u8, 7u8], seq![8u8]),
        (seq![6u8, 8u8], seq![7u8]),
        (seq![7u8, 8u8], seq![6u8]),
        (seq![0u8, 3u8], seq![6u8]),
        (seq![0u8, 6u8], seq![3u8]),
        (seq![3u8, 6u8], seq![0u8]),
        (seq![1u8, 4u8], seq![7u8]),
        (seq![1u8, 7u8], seq![4u8]),
        (seq![4u8, 7u8], seq![1u8]),
        (seq![2u8, 5u8], seq![8u8]),
        (seq![2u8, 8u8], seq![5u8]),
        (seq![5u8, 8u8], seq![2u8]),
    ]
}

fn checkmates() -> (res: Vec<(Vec<u8>, Vec<u8>)>)
    ensures
        table_view(res@) == checkmates_table(),
{
    let res = vec![
        (vec![0u8, 4u8], vec![8u8]),
        (vec![0u8, 8u8], vec![4u8]),
        (vec![4u8, 8u8], vec![0u8]),
        (vec![2u8, 4u8], vec![6u8]),
        (vec![2u8, 6u8], vec![4u8]),
        (vec![4u8, 6u8], vec![2u8]),
        (vec![0u8, 1u8], vec![2u8]),
        (vec![0u8, 2u8], vec![1u8]),
        (vec![1u8, 2u8], vec![0u8]),
        (vec![3u8, 4u8], vec![5u8]),
        (vec![3u8, 5u8], vec![4u8]),
        (vec![4u8, 5u8], vec![3u8]),
        (vec![6u8, 7u8], vec![8u8]),
        (vec![6u8, 8u8], vec![7u8]),
        (vec![7u8, 8u8], vec![6u8]),
        (vec![0u8, 3u8], vec![6u8]),
        (vec![0u8, 6u8], vec![3u8]),
        (vec![3u8, 6u8], vec![0u8]),
        (vec![1u8, 4u8], vec![7u8]),
        (vec![1u8, 7u8], vec![4u8]),
        (vec![4u8, 7u8], vec![1u8]),
        (vec![2u8, 5u8], vec![8u8]),
        (vec![2u8, 8u8], vec![5u8]),
        (vec![5u8, 8u8], vec![2u8]),
    ];
    assert(table_view(res@) =~~= checkmates_table());
    res
}

pub open spec fn first_moves_table() -> Seq<(Seq<u8>, Seq<u8>)> {
    seq![
        (seq![4u8], seq![0u8, 2u8, 6u8, 8u8]),
        (seq![0u8], seq![4u8]),
        (seq![2u8], seq![4u8]),
        (seq![6u8], seq![4u8]),
        (seq![8u8], seq![4u8]),
        (seq![1u8], seq![4u8]),
        (seq![3u8], seq![4u8]),
        (seq![5u8], seq![4u8]),
        (seq![7u8], seq![4u8]),
    ]
}

fn first_moves() -> (res: Vec<(Vec<u8>, Vec<u8>)>)
    ensures
        table_view(res@) == first_moves_table(),
{
    let res = vec![
        (vec![4u8], vec![0u8, 2u8, 6u8, 8u8]),
        (vec![0u8], vec![4u8]),
        (vec![2u8], vec![4u8]),
        (vec![6u8], vec![4u8]),
        (vec![8u8], vec![4u8]),
        (vec![1u8], vec![4u8]),
        (vec![3u8], vec![4u8]),
        (vec![5u8], vec![4u8]),
        (vec![7u8], vec![4u8]),
    ];
    assert(table_view(res@) =~~= first_moves_table());
    res
}

pub open spec fn counter_strats_table() -> Seq<(Seq<u8>, Seq<u8>)> {
    seq![
        (seq![0u8, 8u8], seq![1u8, 3u8, 5u8, 7u8]),
        (seq![2u8, 6u8], seq![1u8, 3u8, 5u8, 7u8]),
        (seq![5u8, 0u8], seq![2u8]),
        (seq![5u8, 6u8], seq![8u8]),
        (seq![7u8, 0u8], seq![2u8]),
        (seq![7u8, 2u8], seq![8u8]),
        (seq![3u8, 2u8], seq![0u8]),
        (seq![3u8, 8u8], seq![6u8]),
        (seq![1u8, 6u8], seq![0u8]),
        (seq![1u8, 8u8], seq![2u8]),
        (seq![1u8, 5u8], seq![2u8]),
        (seq![5u8, 7u8], seq![8u8]),
        (seq![7u8, 3u8], seq![6u8]),
        (seq![3u8, 1u8], seq![0u8]),
        (seq![4u8, 0u8], seq![2u8, 6u8]),
        (seq![4u8, 2u8], seq![8u8, 0u8]),
        (seq![4u8, 6u8], seq![8u8, 0u8]),
        (seq![4u8, 8u8], seq![2u8, 6u8]),
    ]
}

fn counter_strats() -> (res: Vec<(Vec<u8>, Vec<u8>)>)
    ensures
        table_view(res@) == counter_strats_table(),
{
    let res = vec![
        (vec![0u8, 8u8], vec![1u8, 3u8, 5u8, 7u8]),
        (vec![2u8, 6u8], vec![1u8, 3u8, 5u8, 7u8]),
        (vec![5u8, 0u8], vec![2u8]),
        (vec![5u8, 6u8], vec![8u8]),
        (vec![7u8, 0u8], vec![2u8]),
        (vec![7u8, 2u8], vec![8u8]),
        (vec![3u8, 2u8], vec![0u8]),
        (vec![3u8, 8u8], vec![6u8]),
        (vec![1u8, 6u8], vec![0u8]),
        (vec![1u8, 8u8], vec![2u8]),
        (vec![1u8, 5u8], vec![2u8]),
        (vec![5u8, 7u8], vec![8u8]),
        (vec![7u8, 3u8], vec![6u8]),
        (vec![3u8, 1u8], vec![0u8]),
        (vec![4u8, 0u8], vec![2u8, 6u8]),
        (vec![4u8, 2u8], vec![8u8, 0u8]),
        (vec![4u8, 6u8], vec![8u8, 0u8]),
        (vec![4u8, 8u8], vec![2u8, 6u8]),
    ];
    assert(table_view(res@) =~~= counter_strats_table());
    res
}

/// Calls `IndexedRandom::choose` of `rand` with the thread's generator.
/// Trusted: no choice exactly when there is nothing to choose from, and a
/// choice is one of the candidates. Which one depends on chance.
#[verifier::external_body]
fn choose_random(choices: &Vec<u8>) -> (res: Option<u8>)
    ensures
        res is None <==> choices@.len() == 0,
        res matches Some(x) ==> choices@.contains(x),
{
    choices.choose(&mut rand::rng()).copied()
}

/// A game: the level and the nine squares, row by row.
pub struct Board {
    pub difficulty: Difficulty,
    pub cells: [Cell; 9],
}

impl Board {
    /// An empty board at the given level.
    pub fn new(difficulty: Difficulty) -> (res: Self)
        ensures
            res.difficulty == difficulty,
            res.cells@ == Seq::new(9, |i: int| Cell::Empty),
            turns_alternate(res.cells@),
    {
        let b = Board { difficulty, cells: [Cell::Empty; 9] };
        assert(b.cells@ =~= Seq::new(9, |i: int| Cell::Empty));
        proof {
            lemma_empty_board_turns();
        }
        b
    }

    /// The mark that has a complete line, if any (lines are checked in order).
    pub fn calculate_winner(&self) -> (res: Option<Cell>)
        ensures
            res == winner(self.cells@),
    {
        let rows: [(usize, usize, usize); 8] = [(0, 1, 2), (3, 4, 5), (6, 7, 8), (0, 3, 6), (1, 4, 7), (2, 5, 8), (0, 4, 8), (2, 4, 6)];
        let mut k: usize = 0;
        while k < 8
            invariant
                k <= 8,
                rows@ == seq![(0usize, 1usize, 2usize), (3, 4, 5), (6, 7, 8), (0, 3, 6), (1, 4, 7), (2, 5, 8), (0, 4, 8), (2, 4, 6)],
                winner(self.cells@) == winner_from(self.cells@, k as int),
            decreases 8 - k,
        {
            let (a, b, c) = rows[k];
            assert(three_rows()[k as int] == (a as int, b as int, c as int));
            if self.cells[a] == self.cells[b] && self.cells[b] == self.cells[c] && self.cells[a] != Cell::Empty {
                return Some(self.cells[a]);
            }
            k = k + 1;
        }
        None
    }

    /// Whether the game has ended.
    pub fn game_over(&self) -> (res: bool)
        ensures
            res == over(self.cells@),
    {
        if self.calculate_winner().is_some() {
            return true;
        }
        let mut i: usize = 0;
        while i < 9
            invariant
                i <= 9,
                winner(self.cells@) is None,
                forall|j: int| 0 <= j < i ==> self.cells@[j] != Cell::Empty,
            decreases 9 - i,
        {
            if self.cells[i] == Cell::Empty {
                assert(self.cells@[i as int] == Cell::Empty);
                assert(!full(self.cells@));
                return false;
            }
            i = i + 1;
        }
        true
    }

    fn empty_squares(&self) -> (res: Vec<u8>)
        ensures
            res@ == empty_squares(self.cells@, 9),
    {
        let mut res: Vec<u8> = Vec::new();
        let mut i: usize = 0;
        while i < 9
            invariant
                i <= 9,
                res@ == empty_squares(self.cells@, i as nat),
            decreases 9 - i,
        {
            if self.cells[i] == Cell::Empty {
                res.push(i as u8);
            }
            i = i + 1;
        }
        res
    }

    fn count(&self, c: Cell) -> (res: usize)
        ensures
            res == count_of(self.cells@, c, 9),
    {
        let mut n: usize = 0;
        let mut i: usize = 0;
        while i < 9
            invariant
                i <= 9,
                n == count_of(self.cells@, c, i as nat),
                n <= i,
            decreases 9 - i,
        {
            if self.cells[i] == c {
                n = n + 1;
            }
            i = i + 1;
        }
        n
    }

    /// The empty answers of the first rule of `io` that applies to `target`.
    fn find_match(&self, io: &Vec<(Vec<u8>, Vec<u8>)>, target: Cell) -> (res: Vec<u8>)
        requires
            table_on_board(table_view(io@)),
        ensures
            res@ == find_match_from(self.cells@, table_view(io@), target, 0),
    {
        let ghost t = table_view(io@);
        let mut k: usize = 0;
        while k < io.len()
            invariant
                k <= io@.len(),
                t == table_view(io@),
                table_on_board(t),
                find_match_from(self.cells@, t, target, 0) == find_match_from(self.cells@, t, target, k as int),
            decreases io@.len() - k,
        {
            let inputs = &io[k].0;
            let outputs = &io[k].1;
            assert(inputs@ == t[k as int].0 && outputs@ == t[k as int].1);
            let mut all = true;
            let mut j: usize = 0;
            while j < inputs.len()
                invariant
                    j <= inputs@.len(),
                    inputs@ == t[k as int].0,
                    forall|m: int| 0 <= m < inputs@.len() ==> inputs@[m] < 9,
                    all == (forall|m: int| 0 <= m < j ==> self.cells@[inputs@[m] as int] == target),
                decreases inputs@.len() - j,
            {
                if self.cells[inputs[j] as usize] != target {
                    all = false;
                }
                j = j + 1;
            }
            if all {
                let mut available: Vec<u8> = Vec::new();
                let mut j: usize = 0;
                while j < outputs.len()
                    invariant
                        j <= outputs@.len(),
                        outputs@ == t[k as int].1,
                        forall|m: int| 0 <= m < outputs@.len() ==> outputs@[m] < 9,
                        available@ == empties_of(self.cells@, outputs@.take(j as int)),
                    decreases outputs@.len() - j,
                {
                    assert(outputs@.take(j + 1).drop_last() =~= outputs@.take(j as int));
                    if self.cells[outputs[j] as usize] == Cell::Empty {
                        available.push(outputs[j]);
                    }
                    j = j + 1;
                }
                assert(outputs@.take(outputs@.len() as int) =~= outputs@);
                if available.len() > 0 {
                    return available;
                }
            }
            k = k + 1;
        }
        Vec::new()
    }

    /// The squares the computer chooses its next move from.
    pub fn move_choices(&self) -> (res: Vec<u8>)
        ensures
            res@ == move_choices_spec(self.cells@, self.difficulty),
    {
        if self.difficulty == Difficulty::Easy {
            return self.empty_squares();
        }
        let x_moves = self.count(Cell::X);
        let o_moves = self.count(Cell::O);
        let ghost cm = checkmates_table();
        let choices = if x_moves == 1 && o_moves == 0 {
            let t = first_moves();
            assert(table_on_board(table_view(t@)));
            self.find_match(&t, Cell::X)
        } else {
            let t = checkmates();
            assert(table_on_board(table_view(t@)));
            let win = self.find_match(&t, Cell::O);
            if win.len() > 0 {
                win
            } else {
                let block = self.find_match(&t, Cell::X);
                if block.len() > 0 {
                    block
                } else if self.difficulty == Difficulty::GoodLuck {
                    let c = counter_strats();
                    assert(table_on_board(table_view(c@)));
                    self.find_match(&c, Cell::X)
                } else {
                    Vec::new()
                }
            }
        };
        if choices.len() > 0 {
            choices
        } else {
            self.empty_squares()
        }
    }

    /// The computer's next move: nothing once the game is over, otherwise one
    /// of `move_choices`, picked at random.
    pub fn calculate_move(&self) -> (res: Option<u8>)
        ensures
            over(self.cells@) <==> res is None,
            res matches Some(m) ==> move_choices_spec(self.cells@, self.difficulty).contains(m),
    {
        if self.game_over() {
            return None;
        }
        let choices = self.move_choices();
        proof {
            lemma_move_choices(self.cells@, self.difficulty);
        }
        choose_random(&choices)
    }

    /// The player (X) takes square `index`, and the computer (O) answers,
    /// unless the game is over or the square is taken, when nothing happens.
    pub fn play(&mut self, index: u8)
        requires
            index < 9,
        ensures
            final(self).difficulty == old(self).difficulty,
            over(old(self).cells@) || old(self).cells@[index as int] != Cell::Empty ==> final(self).cells@
                == old(self).cells@,
            !over(old(self).cells@) && old(self).cells@[index as int] == Cell::Empty ==> ({
                let after = old(self).cells@.update(index as int, Cell::X);
                &&& over(after) ==> final(self).cells@ == after
                &&& !over(after) ==> exists|m: u8|
                    #![trigger move_choices_spec(after, old(self).difficulty).contains(m)]
                    move_choices_spec(after, old(self).difficulty).contains(m) && final(self).cells@
                        == after.update(m as int, Cell::O)
            }),
            turns_alternate(old(self).cells@) ==> turns_alternate(final(self).cells@),
    {
        if self.game_over() || self.cells[index as usize] != Cell::Empty {
            return;
        }
        let ghost before = self.cells@;
        self.cells[index as usize] = Cell::X;
        let ghost after = self.cells@;
        proof {
            assert(after == before.update(index as int, Cell::X));
            lemma_count_update(before, index as int, Cell::X, 9);
            lemma_count_update(before, index as int, Cell::O, 9);
        }
        if let Some(m) = self.calculate_move() {
            proof {
                lemma_move_choices(after, self.difficulty);
                let j = choose|j: int| 0 <= j < move_choices_spec(after, self.difficulty).len()
                    && move_choices_spec(after, self.difficulty)[j] == m;
                assert(open_squares(after, move_choices_spec(after, self.difficulty)));
                assert(move_choices_spec(after, self.difficulty)[j] < 9);
                lemma_count_update(after, m as int, Cell::X, 9);
                lemma_count_update(after, m as int, Cell::O, 9);
            }
            self.cells[m as usize] = Cell::O;
        }
    }

    /// Clears the board, keeping the level.
    pub fn reset(&mut self)
        ensures
            final(self).difficulty == old(self).difficulty,
            final(self).cells@ == Seq::new(9, |i: int| Cell::Empty),
            turns_alternate(final(self).cells@),
    {
        self.cells = [Cell::Empty; 9];
        assert(self.cells@ =~= Seq::new(9, |i: int| Cell::Empty));
        proof {
            lemma_empty_board_turns();
        }
    }
}

/// How many squares hold `c`.
pub open spec fn marks(cells: Seq<Cell>, c: Cell) -> nat {
    count_of(cells, c, 9)
}

/// The player and the computer take turns: the board holds as many O as X,
/// or one X more once the game is over.
pub open spec fn turns_alternate(cells: Seq<Cell>) -> bool {
    ||| marks(cells, Cell::X) == marks(cells, Cell::O)
    ||| marks(cells, Cell::X) == marks(cells, Cell::O) + 1 && over(cells)
}

proof fn lemma_count_update(cells: Seq<Cell>, i: int, c: Cell, n: nat)
    requires
        0 <= i < cells.len(),
        n <= cells.len(),
    ensures
        count_of(cells.update(i, Cell::X), c, n) + (if i < n && cells[i] == c { 1int } else { 0int })
            == count_of(cells, c, n) + (if i < n && Cell::X == c { 1int } else { 0int }),
        count_of(cells.update(i, Cell::O), c, n) + (if i < n && cells[i] == c { 1int } else { 0int })
            == count_of(cells, c, n) + (if i < n && Cell::O == c { 1int } else { 0int }),
    decreases n,
{
    if n > 0 {
        lemma_count_update(cells, i, c, (n - 1) as nat);
    }
}

/// An empty board has had no turns.
pub proof fn lemma_empty_board_turns()
    ensures
        turns_alternate(Seq::new(9, |i: int| Cell::Empty)),
{
    let e = Seq::new(9, |i: int| Cell::Empty);
    assert(count_of(e, Cell::X, 9) == 0) by {
        reveal_with_fuel(count_of, 10);
    }
    assert(count_of(e, Cell::O, 9) == 0) by {
        reveal_with_fuel(count_of, 10);
    }
}

/// Every square of `s` is on the board and empty.
pub open spec fn open_squares(cells: Seq<Cell>, s: Seq<u8>) -> bool {
    forall|j: int| 0 <= j < s.len() ==> #[trigger] s[j] < 9 && cells[s[j] as int] == Cell::Empty
}

proof fn lemma_empties_of(cells: Seq<Cell>, idx: Seq<u8>)
    ensures
        forall|j: int|
            0 <= j < empties_of(cells, idx).len() ==> #[trigger] idx.contains(empties_of(cells, idx)[j])
                && cells[empties_of(cells, idx)[j] as int] == Cell::Empty,
    decreases idx.len(),
{
    if idx.len() > 0 {
        let prev = idx.drop_last();
        lemma_empties_of(cells, prev);
        let r = empties_of(cells, idx);
        assert forall|j: int| 0 <= j < r.len() implies #[trigger] idx.contains(r[j]) && cells[r[j] as int]
            == Cell::Empty by {
            if j < empties_of(cells, prev).len() {
                assert(prev.contains(r[j]));
                let i = choose|i: int| 0 <= i < prev.len() && prev[i] == r[j];
                assert(idx[i] == r[j]);
            } else {
                assert(idx[idx.len() - 1] == r[j]);
            }
        }
    }
}

proof fn lemma_find_match_on_board(cells: Seq<Cell>, t: Seq<(Seq<u8>, Seq<u8>)>, target: Cell, k: int)
    requires
        table_on_board(t),
        cells.len() == 9,
    ensures
        open_squares(cells, find_match_from(cells, t, target, k)),
    decreases t.len() - k,
{
    if 0 <= k < t.len() {
        if all_hold(cells, t[k].0, target) && empties_of(cells, t[k].1).len() > 0 {
            let r = empties_of(cells, t[k].1);
            lemma_empties_of(cells, t[k].1);
            assert forall|j: int| 0 <= j < r.len() implies #[trigger] r[j] < 9 && cells[r[j] as int]
                == Cell::Empty by {
                assert(t[k].1.contains(r[j]));
                let i = choose|i: int| 0 <= i < t[k].1.len() && t[k].1[i] == r[j];
                assert(t[k].1[i] < 9);
            }
        } else {
            lemma_find_match_on_board(cells, t, target, k + 1);
        }
    }
}

proof fn lemma_empty_squares(cells: Seq<Cell>, n: nat)
    requires
        n <= 9,
    ensures
        forall|j: int|
            0 <= j < empty_squares(cells, n).len() ==> #[trigger] empty_squares(cells, n)[j] < n
                && cells[empty_squares(cells, n)[j] as int] == Cell::Empty,
        (exists|i: int| 0 <= i < n && cells[i] == Cell::Empty) ==> empty_squares(cells, n).len() > 0,
    decreases n,
{
    if n > 0 {
        lemma_empty_squares(cells, (n - 1) as nat);
        if cells[n - 1] != Cell::Empty && exists|i: int| 0 <= i < n && cells[i] == Cell::Empty {
            let i = choose|i: int| 0 <= i < n && cells[i] == Cell::Empty;
            assert(i < n - 1);
        }
    }
}

/// The computer only ever picks empty squares of the board, and while the
/// game is not over it always has one to pick.
pub proof fn lemma_move_choices(cells: Seq<Cell>, difficulty: Difficulty)
    requires
        cells.len() == 9,
    ensures
        open_squares(cells, move_choices_spec(cells, difficulty)),
        !over(cells) ==> move_choices_spec(cells, difficulty).len() > 0,
{
    lemma_empty_squares(cells, 9);
    assert(table_on_board(first_moves_table()));
    assert(table_on_board(checkmates_table()));
    assert(table_on_board(counter_strats_table()));
    lemma_find_match_on_board(cells, first_moves_table(), Cell::X, 0);
    lemma_find_match_on_board(cells, checkmates_table(), Cell::O, 0);
    lemma_find_match_on_board(cells, checkmates_table(), Cell::X, 0);
    lemma_find_match_on_board(cells, counter_strats_table(), Cell::X, 0);
    if !over(cells) {
        assert(!full(cells));
        let i = choose|i: int| !(0 <= i < 9 ==> cells[i] != Cell::Empty);
        assert(0 <= i < 9 && cells[i] == Cell::Empty);
    }
}


/// Whether rule `k` of the table applies: `target` holds all its squares and
/// one of its answer squares is empty.
pub open spec fn rule_applies(cells: Seq<Cell>, t: Seq<(Seq<u8>, Seq<u8>)>, target: Cell, k: int) -> bool {
    0 <= k < t.len() && all_hold(cells, t[k].0, target) && empties_of(cells, t[k].1).len() > 0
}

proof fn lemma_first_rule(cells: Seq<Cell>, t: Seq<(Seq<u8>, Seq<u8>)>, target: Cell, k0: int, k: int)
    requires
        0 <= k0 <= k,
        rule_applies(cells, t, target, k),
    ensures
        exists|f: int|
            k0 <= f <= k && #[trigger] rule_applies(cells, t, target, f) && (forall|g: int|
                k0 <= g < f ==> !#[trigger] rule_applies(cells, t, target, g)) && find_match_from(
                cells,
                t,
                target,
                k0,
            ) == empties_of(cells, t[f].1),
    decreases k - k0,
{
    if rule_applies(cells, t, target, k0) {
        assert(forall|g: int| k0 <= g < k0 ==> !#[trigger] rule_applies(cells, t, target, g));
    } else {
        lemma_first_rule(cells, t, target, k0 + 1, k);
        let f = choose|f: int|
            k0 + 1 <= f <= k && #[trigger] rule_applies(cells, t, target, f) && (forall|g: int|
                k0 + 1 <= g < f ==> !#[trigger] rule_applies(cells, t, target, g)) && find_match_from(
                cells,
                t,
                target,
                k0 + 1,
            ) == empties_of(cells, t[f].1);
        assert forall|g: int| k0 <= g < f implies !#[trigger] rule_applies(cells, t, target, g) by {
            if g > k0 {
                assert(k0 + 1 <= g < f);
            }
        }
    }
}

/// Law: at the Good Luck level, when the player has moved more than once
/// (or the computer has moved), the computer can neither win nor has to
/// block, and a rule of the counter-strategy table applies to the player's
/// marks, the computer picks among the empty answer squares of the first
/// such rule, and only empty squares. (For instance, X on two opposite
/// corners with O in the centre gives only side squares.) The Difficult level
/// on the same board picks among every empty square instead.
pub proof fn law_good_luck_counters(cells: Seq<Cell>, k: int)
    requires
        cells.len() == 9,
        !(count_of(cells, Cell::X, 9) == 1 && count_of(cells, Cell::O, 9) == 0),
        find_match_from(cells, checkmates_table(), Cell::O, 0).len() == 0,
        find_match_from(cells, checkmates_table(), Cell::X, 0).len() == 0,
        rule_applies(cells, counter_strats_table(), Cell::X, k),
    ensures
        ({
            let c = move_choices_spec(cells, Difficulty::GoodLuck);
            let t = counter_strats_table();
            &&& exists|f: int|
                #[trigger] rule_applies(cells, t, Cell::X, f) && (forall|g: int|
                    0 <= g < f ==> !#[trigger] rule_applies(cells, t, Cell::X, g)) && c == empties_of(cells, t[f].1)
            &&& c.len() > 0
            &&& forall|j: int| 0 <= j < c.len() ==> #[trigger] c[j] < 9 && cells[c[j] as int] == Cell::Empty
            &&& move_choices_spec(cells, Difficulty::Difficult) == empty_squares(cells, 9)
        }),
{
    let t = counter_strats_table();
    lemma_first_rule(cells, t, Cell::X, 0, k);
    let f = choose|f: int|
        0 <= f <= k && #[trigger] rule_applies(cells, t, Cell::X, f) && (forall|g: int|
            0 <= g < f ==> !#[trigger] rule_applies(cells, t, Cell::X, g)) && find_match_from(cells, t, Cell::X, 0)
            == empties_of(cells, t[f].1);
    assert(table_on_board(t));
    lemma_find_match_on_board(cells, t, Cell::X, 0);
}

} // verus!
