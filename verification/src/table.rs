//! The insertion executor's model: positional statement parameters and an
//! idempotent table.
//!
//! The stored table keys rows by `(symbol, barsize, contract, timestamp)`
//! and ignores a duplicate key instead of erring, so that reprocessing the
//! same file can never duplicate rows. [`BarTable`] is the verified model of
//! that behaviour, and [`lemma_insert_idempotent`] states the idempotence
//! law itself.
use vstd::prelude::*;

use crate::row::{Bar, BarView};
use crate::text::eq_str;

verus! {

impl DeepView for Bar {
    type V = BarView;

    open spec fn deep_view(&self) -> BarView {
        self.view()
    }
}

/// The primary key of a bar: symbol, barsize, contract and timestamp.
pub open spec fn bar_key(b: BarView) -> (Seq<char>, Seq<char>, Option<Seq<char>>, Seq<char>) {
    (b.symbol, b.barsize, b.contract, b.timestamp)
}

/// Whether some row of `rows` has key `k`.
pub open spec fn has_key(
    rows: Seq<BarView>,
    k: (Seq<char>, Seq<char>, Option<Seq<char>>, Seq<char>),
) -> bool {
    exists|i: int| 0 <= i < rows.len() && bar_key(rows[i]) == k
}

/// How many rows of `rows` have key `k`.
pub open spec fn key_count(
    rows: Seq<BarView>,
    k: (Seq<char>, Seq<char>, Option<Seq<char>>, Seq<char>),
) -> nat
    decreases rows.len(),
{
    if rows.len() == 0 {
        0
    } else {
        key_count(rows.drop_last(), k) + if bar_key(rows.last()) == k {
            1nat
        } else {
            0nat
        }
    }
}

/// No two rows share a key.
pub open spec fn unique_keys(rows: Seq<BarView>) -> bool {
    forall|i: int, j: int|
        0 <= i < j < rows.len() ==> bar_key(rows[i]) != bar_key(rows[j])
}

/// What an idempotent insert does to a table: nothing when the key is
/// already present, otherwise it appends the row.
pub open spec fn table_insert(rows: Seq<BarView>, b: BarView) -> Seq<BarView> {
    if has_key(rows, bar_key(b)) {
        rows
    } else {
        rows.push(b)
    }
}

/// In a table with unique keys, a key is held by exactly one row when it is
/// present at all.
proof fn lemma_key_count_unique(
    rows: Seq<BarView>,
    k: (Seq<char>, Seq<char>, Option<Seq<char>>, Seq<char>),
)
    requires
        unique_keys(rows),
    ensures
        key_count(rows, k) == if has_key(rows, k) {
            1nat
        } else {
            0nat
        },
    decreases rows.len(),
{
    if rows.len() > 0 {
        let front = rows.drop_last();
        assert(unique_keys(front)) by {
            assert(forall|i: int, j: int|
                0 <= i < j < front.len() ==> bar_key(front[i]) != bar_key(front[j])) by {
                assert(forall|i: int| 0 <= i < front.len() ==> front[i] == rows[i]);
            }
        }
        lemma_key_count_unique(front, k);
        if bar_key(rows.last()) == k {
            assert(has_key(rows, k));
            assert(!has_key(front, k)) by {
                if has_key(front, k) {
                    let i = choose|i: int| 0 <= i < front.len() && bar_key(front[i]) == k;
                    assert(bar_key(rows[i]) == bar_key(rows[rows.len() - 1]));
                    assert(false);
                }
            }
        } else {
            if has_key(rows, k) {
                let i = choose|i: int| 0 <= i < rows.len() && bar_key(rows[i]) == k;
                assert(i < rows.len() - 1);
                assert(front[i] == rows[i]);
                assert(has_key(front, k));
            }
            if has_key(front, k) {
                let i = choose|i: int| 0 <= i < front.len() && bar_key(front[i]) == k;
                assert(bar_key(rows[i]) == k);
                assert(has_key(rows, k));
            }
        }
    }
}

/// Inserting the same bar twice is the same as inserting it once, and
/// afterwards the table holds exactly one row with that bar's key: the
/// second insertion is a no-op, not an error.
pub proof fn lemma_insert_idempotent(rows: Seq<BarView>, b: BarView)
    requires
        unique_keys(rows),
    ensures
        table_insert(table_insert(rows, b), b) == table_insert(rows, b),
        key_count(table_insert(rows, b), bar_key(b)) == 1,
        unique_keys(table_insert(rows, b)),
{
    let k = bar_key(b);
    if has_key(rows, k) {
        lemma_key_count_unique(rows, k);
    } else {
        let r1 = rows.push(b);
        assert(bar_key(r1[rows.len() as int]) == k);
        assert(has_key(r1, k));
        assert(unique_keys(r1)) by {
            assert(forall|i: int, j: int|
                0 <= i < j < r1.len() ==> bar_key(r1[i]) != bar_key(r1[j])) by {
                assert(forall|i: int| 0 <= i < rows.len() ==> r1[i] == rows[i]);
                assert(forall|i: int| 0 <= i < rows.len() ==> bar_key(r1[i]) != k);
            }
        }
        lemma_key_count_unique(r1, k);
    }
}

/// Inserting each of `bars` in order, every one idempotently.
pub open spec fn table_insert_all(rows: Seq<BarView>, bars: Seq<BarView>) -> Seq<BarView>
    decreases bars.len(),
{
    if bars.len() == 0 {
        rows
    } else {
        table_insert_all(table_insert(rows, bars[0]), bars.drop_first())
    }
}

/// Folding one more bar at the end is one more insert.
pub proof fn lemma_insert_all_snoc(rows: Seq<BarView>, bars: Seq<BarView>, b: BarView)
    ensures
        table_insert_all(rows, bars.push(b)) == table_insert(table_insert_all(rows, bars), b),
    decreases bars.len(),
{
    reveal_with_fuel(table_insert_all, 3);
    if bars.len() == 0 {
        assert(bars.push(b).drop_first() =~= Seq::<BarView>::empty());
        assert(bars.push(b)[0] == b);
        assert(table_insert_all(rows, bars.push(b)) == table_insert_all(
            table_insert(rows, b),
            bars.push(b).drop_first(),
        ));
    } else {
        assert(bars.push(b).drop_first() =~= bars.drop_first().push(b));
        assert(bars.push(b)[0] == bars[0]);
        lemma_insert_all_snoc(table_insert(rows, bars[0]), bars.drop_first(), b);
    }
}

/// Which way an insert went: a fresh row, or a silent no-op on a duplicate
/// key.
#[derive(Clone, Copy, Debug, PartialEq, Eq, Structural)]
pub enum InsertOutcome {
    /// The row was new and was appended.
    Inserted,
    /// A row with the same key was already present; nothing changed.
    Conflict,
}

/// The verified model of the stored table: rows keyed by `(symbol, barsize,
/// contract, timestamp)`, duplicates ignored on insert.
pub struct BarTable {
    /// The stored rows, in insertion order.
    pub rows: Vec<Bar>,
}

impl View for BarTable {
    type V = Seq<BarView>;

    open spec fn view(&self) -> Seq<BarView> {
        self.rows.deep_view()
    }
}

/// Whether two bars agree on all four key fields.
fn same_key(a: &Bar, b: &Bar) -> (r: bool)
    ensures
        r == (bar_key(a@) == bar_key(b@)),
{
    let symbol_eq = eq_str(a.symbol.as_str(), b.symbol.as_str());
    let barsize_eq = eq_str(a.barsize.as_str(), b.barsize.as_str());
    let timestamp_eq = eq_str(a.timestamp.as_str(), b.timestamp.as_str());
    let contract_eq = match (&a.contract, &b.contract) {
        (Some(x), Some(y)) => eq_str(x.as_str(), y.as_str()),
        (None, None) => true,
        _ => false,
    };
    symbol_eq && barsize_eq && timestamp_eq && contract_eq
}

impl BarTable {
    /// A table with unique keys.
    pub open spec fn wf(self) -> bool {
        unique_keys(self@)
    }

    /// The empty table.
    pub fn new() -> (r: BarTable)
        ensures
            r.wf(),
            r@ == Seq::<BarView>::empty(),
    {
        let r = BarTable { rows: Vec::new() };
        proof {
            assert(r@ =~= Seq::<BarView>::empty());
        }
        r
    }

    /// How many rows the table holds.
    pub fn len(&self) -> (r: usize)
        ensures
            r == self@.len(),
    {
        self.rows.len()
    }

    /// Idempotent insert: append the bar unless a row with its key is
    /// already present; a duplicate key is a silent no-op, never an error.
    pub fn insert(&mut self, bar: Bar) -> (r: InsertOutcome)
        requires
            old(self).wf(),
        ensures
            final(self).wf(),
            final(self)@ == table_insert(old(self)@, bar@),
            r is Conflict <==> has_key(old(self)@, bar_key(bar@)),
    {
        let n = self.rows.len();
        proof {
            assert(self@.len() == self.rows@.len());
        }
        let mut i: usize = 0;
        while i < n
            invariant
                0 <= i <= n,
                n == self.rows@.len(),
                self@.len() == self.rows@.len(),
                self == old(self),
                unique_keys(self@),
                forall|j: int| 0 <= j < i ==> bar_key(self@[j]) != bar_key(bar@),
            decreases n - i,
        {
            proof {
                assert(self@[i as int] == self.rows@[i as int]@);
            }
            if same_key(&self.rows[i], &bar) {
                proof {
                    assert(has_key(self@, bar_key(bar@)));
                }
                return InsertOutcome::Conflict;
            }
            i = i + 1;
        }
        proof {
            assert(!has_key(self@, bar_key(bar@))) by {
                if has_key(self@, bar_key(bar@)) {
                    let j = choose|j: int|
                        0 <= j < self@.len() && bar_key(self@[j]) == bar_key(bar@);
                    assert(bar_key(self@[j]) != bar_key(bar@));
                }
            }
        }
        let ghost pre = self@;
        self.rows.push(bar);
        proof {
            assert(self@ =~~= pre.push(bar@));
            assert(forall|j: int| 0 <= j < pre.len() ==> self@[j] == pre[j]);
            assert(unique_keys(self@)) by {
                assert(forall|j: int| 0 <= j < pre.len() ==> bar_key(self@[j]) != bar_key(
                    bar@,
                ));
            }
        }
        InsertOutcome::Inserted
    }
}

/// The nine statement parameters a bar binds, in positional order: the
/// timestamp, the symbol root, the contract date (the empty string stands
/// for no contract), the five value texts, and the barsize label.
pub open spec fn params_of(b: BarView) -> Seq<Seq<char>> {
    seq![
        b.timestamp,
        b.symbol,
        match b.contract {
            Some(c) => c,
            None => Seq::empty(),
        },
        b.open_text,
        b.high_text,
        b.low_text,
        b.close_text,
        b.volume_text,
        b.barsize,
    ]
}

/// Bind a bar's fields to the positional parameters of its statement.
pub fn bind_params(bar: &Bar) -> (r: Vec<String>)
    ensures
        r.deep_view() == params_of(bar@),
{
    let contract_text = match &bar.contract {
        Some(c) => c.clone(),
        None => String::new(),
    };
    let r = vec![
        bar.timestamp.clone(),
        bar.symbol.clone(),
        contract_text,
        bar.open_text.clone(),
        bar.high_text.clone(),
        bar.low_text.clone(),
        bar.close_text.clone(),
        bar.volume_text.clone(),
        bar.barsize.clone(),
    ];
    proof {
        assert(r.deep_view() =~~= params_of(bar@));
    }
    r
}

} // verus!
