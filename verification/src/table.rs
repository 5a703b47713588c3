use vstd::prelude::*;
use crate::direction::Move;
use crate::small::SmallBoard;

verus! {

/// Number of slots of the table.
pub const TT_SIZE: u64 = 1000000;

/// What the score of an entry says of the true score of its position.
#[derive(Clone, Copy, Debug, PartialEq, Eq, Structural)]
pub enum Flag {
    /// The score is the true score.
    Exact,
    /// The true score is at most the score: the search failed low.
    Alpha,
    /// The true score is at least the score: the search was cut off.
    Beta,
    /// The slot is empty.
    Nothing,
}

/// One entry of the table.
#[derive(Clone, Debug)]
pub struct Data {
    pub score: i32,
    pub best_move: Vec<Move>,
    pub flag: Flag,
    /// The depth of the search that gave the score.
    pub depth: u8,
}

/// A table of search results with a fixed number of slots. A position goes to the slot of
/// its hash, and a new entry takes the place of the old one.
pub struct TranspositionTable {
    table: Vec<Data>,
    used: u64,
}

/// The slot of a hash.
pub open spec fn slot_of(hash: u64) -> int {
    hash as int % TT_SIZE as int
}

/// The number of entries among the first `n` slots.
pub open spec fn occupied(table: Seq<Data>, n: nat) -> nat
    decreases n,
{
    if n == 0 {
        0
    } else {
        occupied(table, (n - 1) as nat) + if table[n - 1].flag == Flag::Nothing {
            0nat
        } else {
            1nat
        }
    }
}

/// The kind of bound that a score is for a search in the window from `alpha` to `beta`.
pub open spec fn bound_of(score: int, alpha: int, beta: int) -> Flag {
    if score <= alpha {
        Flag::Alpha
    } else if score >= beta {
        Flag::Beta
    } else {
        Flag::Exact
    }
}

/// Whether an entry answers a search of `depth` plies in the window from `alpha` to `beta`:
/// it comes from a search at least as deep, and its score is exact, or an upper bound
/// at most `alpha`, or a lower bound at least `beta`.
pub open spec fn answers(entry: Data, depth: u8, alpha: int, beta: int) -> bool {
    &&& entry.depth >= depth
    &&& match entry.flag {
        Flag::Exact => true,
        Flag::Alpha => entry.score <= alpha,
        Flag::Beta => entry.score >= beta,
        Flag::Nothing => false,
    }
}

/// Among `n` slots at most `n` hold an entry.
proof fn lemma_occupied_bound(table: Seq<Data>, n: nat)
    ensures
        occupied(table, n) <= n,
    decreases n,
{
    if n > 0 {
        lemma_occupied_bound(table, (n - 1) as nat);
    }
}

/// Replacing the entry of one slot changes the count by what the old and the new entry
/// count.
proof fn lemma_occupied_update(table: Seq<Data>, i: int, entry: Data, n: nat)
    requires
        0 <= i < table.len(),
        n <= table.len(),
    ensures
        occupied(table.update(i, entry), n) == if i < n {
            occupied(table, n) - (if table[i].flag == Flag::Nothing {
                0int
            } else {
                1int
            }) + (if entry.flag == Flag::Nothing {
                0int
            } else {
                1int
            })
        } else {
            occupied(table, n) as int
        },
    decreases n,
{
    if n > 0 {
        lemma_occupied_update(table, i, entry, (n - 1) as nat);
    }
}

impl Data {
    /// An empty entry.
    pub fn new() -> (d: Data)
        ensures
            d.score == 0,
            d.best_move@ == Seq::<Move>::empty(),
            d.flag == Flag::Nothing,
            d.depth == 0,
    {
        Data { score: 0, best_move: Vec::new(), flag: Flag::Nothing, depth: 0 }
    }
}

impl Default for Data {
    fn default() -> (d: Data)
        ensures
            d.score == 0,
            d.best_move@ == Seq::<Move>::empty(),
            d.flag == Flag::Nothing,
            d.depth == 0,
    {
        Data::new()
    }
}

/// The kind of bound that `score` is for a search in the window from `alpha` to `beta`.
pub fn bound_kind(score: i32, alpha: i32, beta: i32) -> (flag: Flag)
    ensures
        flag == bound_of(score as int, alpha as int, beta as int),
{
    if score <= alpha {
        Flag::Alpha
    } else if score >= beta {
        Flag::Beta
    } else {
        Flag::Exact
    }
}

impl TranspositionTable {
    /// The table has all its slots, and counts its entries.
    pub closed spec fn wf(&self) -> bool {
        self.table.len() == TT_SIZE && self.used == occupied(self.table@, TT_SIZE as nat)
    }

    /// The entry in slot `i`.
    pub closed spec fn entry(&self, i: int) -> Data {
        self.table[i]
    }

    /// The number of entries.
    pub closed spec fn count(&self) -> nat {
        self.used as nat
    }

    /// An empty table.
    pub fn new() -> (t: TranspositionTable)
        ensures
            t.wf(),
            t.count() == 0,
            forall|i: int| 0 <= i < TT_SIZE ==> (#[trigger] t.entry(i)).flag == Flag::Nothing,
    {
        let mut table: Vec<Data> = Vec::new();
        let mut i: u64 = 0;
        while i < TT_SIZE
            invariant
                i <= TT_SIZE,
                table.len() == i,
                occupied(table@, i as nat) == 0,
                forall|k: int| 0 <= k < i ==> (#[trigger] table[k]).flag == Flag::Nothing,
            decreases TT_SIZE - i,
        {
            let ghost before = table@;
            table.push(Data::new());
            proof {
                lemma_occupied_same(before, table@, i as nat);
            }
            i += 1;
        }
        TranspositionTable { table, used: 0 }
    }

    /// The number of entries in the table.
    pub fn used(&self) -> (n: u64)
        ensures
            n == self.count(),
    {
        self.used
    }

    /// The entry in the slot of the board's hash.
    pub fn get(&self, index: &SmallBoard) -> (d: &Data)
        requires
            self.wf(),
        ensures
            *d == self.entry(slot_of(index.zobrist)),
    {
        &self.table[(index.zobrist % TT_SIZE) as usize]
    }

    /// Looks a position up: the stored score, if the entry in the slot of `hash` answers
    /// a search of `depth` plies in the window from `alpha` to `beta`.
    pub fn probe(&self, hash: u64, depth: u8, alpha: i32, beta: i32) -> (r: Option<i32>)
        requires
            self.wf(),
        ensures
            r == if answers(self.entry(slot_of(hash)), depth, alpha as int, beta as int) {
                Some(self.entry(slot_of(hash)).score)
            } else {
                None
            },
    {
        let entry = &self.table[(hash % TT_SIZE) as usize];
        if entry.depth < depth {
            return None;
        }
        match entry.flag {
            Flag::Exact => Some(entry.score),
            Flag::Alpha => if entry.score <= alpha {
                Some(entry.score)
            } else {
                None
            },
            Flag::Beta => if entry.score >= beta {
                Some(entry.score)
            } else {
                None
            },
            Flag::Nothing => None,
        }
    }

    /// Puts an entry into the slot of `hash`, in place of what was there.
    pub fn store(&mut self, hash: u64, entry: Data)
        requires
            old(self).wf(),
        ensures
            final(self).wf(),
            final(self).entry(slot_of(hash)) == entry,
            forall|i: int|
                0 <= i < TT_SIZE && i != slot_of(hash) ==> #[trigger] final(self).entry(i) == old(
                    self,
                ).entry(i),
            final(self).count() == old(self).count() - (if old(self).entry(slot_of(hash)).flag
                == Flag::Nothing {
                0int
            } else {
                1int
            }) + (if entry.flag == Flag::Nothing {
                0int
            } else {
                1int
            }),
    {
        let slot = (hash % TT_SIZE) as usize;
        let was_empty = self.table[slot].flag == Flag::Nothing;
        let is_empty = entry.flag == Flag::Nothing;
        proof {
            lemma_occupied_update(self.table@, slot as int, entry, TT_SIZE as nat);
            lemma_occupied_bound(self.table@.update(slot as int, entry), TT_SIZE as nat);
        }
        self.table[slot] = entry;
        if was_empty && !is_empty {
            self.used = self.used + 1;
        } else if !was_empty && is_empty {
            self.used = self.used - 1;
        }
    }
}

/// Tables that agree on the first `n` slots count the same entries among them.
proof fn lemma_occupied_same(a: Seq<Data>, b: Seq<Data>, n: nat)
    requires
        n <= a.len(),
        n <= b.len(),
        forall|k: int| 0 <= k < n ==> a[k] == b[k],
    ensures
        occupied(a, n) == occupied(b, n),
    decreases n,
{
    if n > 0 {
        lemma_occupied_same(a, b, (n - 1) as nat);
    }
}

} // verus!
