//! The worker's per-file pipeline and the run bookkeeping.
//!
//! A worker takes one candidate file at a time: it parses the filename,
//! decomposes the symbol, reads the CSV records, transforms every row, and
//! hands the resulting bars to the insertion layer. A filename that does not
//! follow the pattern is a skip; a record missing a required column abandons
//! the rest of its file; neither ever stops the run.
use vstd::prelude::*;

use crate::filename::{filename_accepted, parse_filename, segments_of};
use crate::row::{bar_of, first_missing, transform_row, Bar, BarView, MissingColumn, Timeframe};
use crate::symbol::{
    completed_year, contract_date_str, decompose_symbol, format_contract_date, futures_form,
    max_year_digits, month_char, month_number_of, root_part, trailing_digits, year_digits,
};
use crate::table::{table_insert_all, BarTable};
use crate::text::{dec_value, eq_str, lower_char_spec};

verus! {

/// Why a file was passed over without reading any of its rows.
#[derive(Clone, Copy, Debug, PartialEq, Eq, Structural)]
pub enum SkipReason {
    /// The filename does not split into the six expected segments with a
    /// `csv` extension.
    BadPattern,
    /// The symbol's year digits are too long to read as a machine integer.
    YearOutOfRange,
    /// The timeframe segment is neither `day` nor `minute`.
    BadTimeframe,
    /// The CSV header could not be read.
    BadHeader,
}

/// Everything the filename alone determines about a file's ingestion.
#[derive(Debug)]
pub struct FileIngest {
    /// The symbol root rows are stored under.
    pub symbol_root: String,
    /// The contract date text, absent for non-futures symbols.
    pub contract_date: Option<String>,
    /// The file's bar granularity.
    pub timeframe: Timeframe,
}

/// The timeframe a label names, if any.
pub open spec fn timeframe_of(label: Seq<char>) -> Option<Timeframe> {
    if label == "day"@ {
        Some(Timeframe::Day)
    } else if label == "minute"@ {
        Some(Timeframe::Minute)
    } else {
        None
    }
}

/// What classification decides for a filename: either the skip reason, or
/// the symbol root, the contract date text and the timeframe.
pub open spec fn classify_spec(name: Seq<char>) -> Result<
    (Seq<char>, Option<Seq<char>>, Timeframe),
    SkipReason,
> {
    if !filename_accepted(name) {
        Err(SkipReason::BadPattern)
    } else {
        let sym = segments_of(name)[0];
        if futures_form(sym) && trailing_digits(sym) > max_year_digits() {
            Err(SkipReason::YearOutOfRange)
        } else {
            match timeframe_of(segments_of(name)[4]) {
                None => Err(SkipReason::BadTimeframe),
                Some(tf) => {
                    if futures_form(sym) {
                        Ok(
                            (
                                root_part(sym),
                                Some(
                                    contract_date_str(
                                        month_number_of(lower_char_spec(month_char(sym))) as nat,
                                        completed_year(dec_value(year_digits(sym))),
                                    ),
                                ),
                                tf,
                            ),
                        )
                    } else {
                        Ok((sym, None, tf))
                    }
                },
            }
        }
    }
}

/// Classify a file by its name alone: reject it with a skip reason, or
/// settle its symbol root, contract date and timeframe. No row of a rejected
/// file is ever read.
pub fn classify_file(name: &str) -> (r: Result<FileIngest, SkipReason>)
    ensures
        match r {
            Ok(ing) => (classify_spec(name@) matches Ok(t) && ing.symbol_root@ == t.0
                && ing.contract_date.deep_view() == t.1 && ing.timeframe == t.2),
            Err(e) => classify_spec(name@) == Err::<
                (Seq<char>, Option<Seq<char>>, Timeframe),
                SkipReason,
            >(e),
        },
{
    let md = match parse_filename(name) {
        Some(md) => md,
        None => {
            return Err(SkipReason::BadPattern);
        },
    };
    proof {
        assert(md.symbol@ == segments_of(name@)[0]);
        assert(md.timeframe@ == segments_of(name@)[4]);
    }
    let dec = match decompose_symbol(md.symbol.as_str()) {
        Ok(d) => d,
        Err(_) => {
            return Err(SkipReason::YearOutOfRange);
        },
    };
    let tf = if eq_str(md.timeframe.as_str(), "day") {
        Timeframe::Day
    } else if eq_str(md.timeframe.as_str(), "minute") {
        Timeframe::Minute
    } else {
        return Err(SkipReason::BadTimeframe);
    };
    let contract_date = match &dec.contract {
        Some(ci) => Some(format_contract_date(ci)),
        None => None,
    };
    Ok(FileIngest { symbol_root: dec.root, contract_date, timeframe: tf })
}

/// What the CSV reader makes of a byte stream: the header record, the data
/// records it could read in order, and whether a malformed record cut the
/// stream short; nothing at all when the header itself is unreadable.
pub uninterp spec fn csv_table_of(data: Seq<u8>) -> Option<
    (Seq<Seq<char>>, Seq<Seq<Seq<char>>>, bool),
>;

/// Relies on csv::Reader (`headers` and `records` over a byte slice):
/// header-driven parsing of comma-separated text, whose result depends on
/// the bytes alone.
#[verifier::external_body]
fn read_csv(data: &[u8]) -> (r: Option<(Vec<String>, Vec<Vec<String>>, bool)>)
    ensures
        match r {
            Some(t) => csv_table_of(data@) == Some((t.0.deep_view(), t.1.deep_view(), t.2)),
            None => csv_table_of(data@) is None,
        },
{
    let mut rdr = csv::ReaderBuilder::new().from_reader(data);
    let headers: Vec<String> = match rdr.headers() {
        Ok(h) => h.iter().map(|f| f.to_string()).collect(),
        Err(_) => return None,
    };
    let (mut rows, mut truncated) = (Vec::new(), false);
    for rec in rdr.records() {
        match rec {
            Ok(sr) => rows.push(sr.iter().map(|f| f.to_string()).collect()),
            Err(_) => { truncated = true; break; },
        }
    }
    Some((headers, rows, truncated))
}

/// How many leading records carry every column their timeframe requires.
pub open spec fn good_prefix(tf: Timeframe, h: Seq<Seq<char>>, rows: Seq<Seq<Seq<char>>>) -> int
    decreases rows.len(),
{
    if rows.len() == 0 {
        0
    } else if first_missing(tf, h, rows[0]) is Some {
        0
    } else {
        1 + good_prefix(tf, h, rows.drop_first())
    }
}

proof fn lemma_good_prefix_bounds(tf: Timeframe, h: Seq<Seq<char>>, rows: Seq<Seq<Seq<char>>>)
    ensures
        0 <= good_prefix(tf, h, rows) <= rows.len(),
    decreases rows.len(),
{
    if rows.len() > 0 && first_missing(tf, h, rows[0]) is None {
        lemma_good_prefix_bounds(tf, h, rows.drop_first());
    }
}

proof fn lemma_good_prefix_at(tf: Timeframe, h: Seq<Seq<char>>, rows: Seq<Seq<Seq<char>>>, i: int)
    requires
        0 <= i <= rows.len(),
        forall|k: int| 0 <= k < i ==> first_missing(tf, h, rows[k]) is None,
        i < rows.len() ==> first_missing(tf, h, rows[i]) is Some,
    ensures
        good_prefix(tf, h, rows) == i,
    decreases i,
{
    if i == 0 {
    } else {
        let rest = rows.drop_first();
        assert(forall|k: int| 0 <= k < i - 1 ==> rest[k] == rows[k + 1]);
        assert(i - 1 < rest.len() ==> rest[i - 1] == rows[i]);
        lemma_good_prefix_at(tf, h, rest, i - 1);
    }
}

/// The transformed rows of one file, and whether its tail was abandoned.
pub struct RowPlan {
    /// One bar per complete leading record, in file order.
    pub bars: Vec<Bar>,
    /// The first missing required column, when one cut the file short.
    pub abandon: Option<MissingColumn>,
}

/// Transform a file's records in order, stopping at the first record that
/// misses a required column: the bars before it stand, the rest of the file
/// is abandoned.
pub fn plan_rows(ing: &FileIngest, headers: &Vec<String>, rows: &Vec<Vec<String>>) -> (r: RowPlan)
    ensures
        ({
            let h = headers.deep_view();
            let rs = rows.deep_view();
            let g = good_prefix(ing.timeframe, h, rs);
            &&& r.bars.deep_view().len() == g
            &&& forall|k: int|
                0 <= k < g ==> r.bars.deep_view()[k] == bar_of(
                    ing.timeframe,
                    ing.symbol_root@,
                    ing.contract_date.deep_view(),
                    h,
                    rs[k],
                )
            &&& (g < rs.len() ==> (r.abandon matches Some(mc) && Some(mc.column@)
                == first_missing(ing.timeframe, h, rs[g])))
            &&& (g == rs.len() ==> r.abandon is None)
        }),
{
    let ghost h = headers.deep_view();
    let ghost rs = rows.deep_view();
    let mut bars: Vec<Bar> = Vec::new();
    let mut i: usize = 0;
    let n = rows.len();
    proof {
        assert(rs.len() == rows@.len());
    }
    while i < n
        invariant
            0 <= i <= n,
            n == rows@.len(),
            h == headers.deep_view(),
            rs == rows.deep_view(),
            rs.len() == rows@.len(),
            forall|k: int| 0 <= k < i ==> first_missing(ing.timeframe, h, rs[k]) is None,
            bars.deep_view().len() == i,
            forall|k: int|
                0 <= k < i ==> bars.deep_view()[k] == bar_of(
                    ing.timeframe,
                    ing.symbol_root@,
                    ing.contract_date.deep_view(),
                    h,
                    rs[k],
                ),
        decreases n - i,
    {
        proof {
            assert(rs[i as int] == rows@[i as int].deep_view());
        }
        let ghost bars_pre = bars.deep_view();
        match transform_row(ing.timeframe, &ing.symbol_root, &ing.contract_date, headers, &rows[i])
        {
            Ok(b) => {
                bars.push(b);
                proof {
                    assert(bars.deep_view() =~~= bars_pre.push(b@));
                }
            },
            Err(mc) => {
                proof {
                    lemma_good_prefix_at(ing.timeframe, h, rs, i as int);
                }
                return RowPlan { bars, abandon: Some(mc) };
            },
        }
        i = i + 1;
    }
    proof {
        lemma_good_prefix_at(ing.timeframe, h, rs, n as int);
    }
    RowPlan { bars, abandon: None }
}

/// Why the tail of a file was dropped.
#[derive(Clone, Debug)]
pub enum AbandonReason {
    /// A record missed this required column.
    MissingColumn(MissingColumn),
    /// A malformed record stopped the CSV reader.
    TruncatedFile,
}

/// Everything the worker decides for one candidate file.
#[derive(Debug)]
pub enum FilePlan {
    /// The file is passed over entirely; no row of it was read.
    Skip(SkipReason),
    /// The file's leading records transform to these bars, to be inserted
    /// in order; `abandon` tells whether the tail of the file was dropped.
    Ingest {
        /// The bars to insert, in file order.
        bars: Vec<Bar>,
        /// Why the rest of the file was dropped, if it was.
        abandon: Option<AbandonReason>,
    },
}

/// Plan one candidate file from its name and its bytes: every decision of
/// the worker between receiving a work item and executing the inserts.
pub fn plan_file(name: &str, data: &[u8]) -> (r: FilePlan)
    ensures
        (classify_spec(name@) matches Err(e) ==> r == FilePlan::Skip(e)),
        (classify_spec(name@) is Ok && csv_table_of(data@) is None ==> r == FilePlan::Skip(
            SkipReason::BadHeader,
        )),
        (classify_spec(name@) matches Ok(t) ==> (csv_table_of(data@) matches Some(tab) ==> (
        r matches FilePlan::Ingest { bars, abandon } && ({
            let g = good_prefix(t.2, tab.0, tab.1);
            &&& bars.deep_view().len() == g
            &&& forall|k: int|
                0 <= k < g ==> bars.deep_view()[k] == bar_of(t.2, t.0, t.1, tab.0, tab.1[k])
            &&& (g < tab.1.len() ==> (abandon matches Some(a) && (a matches
            AbandonReason::MissingColumn(mc) && Some(mc.column@) == first_missing(
                t.2,
                tab.0,
                tab.1[g],
            ))))
            &&& (g == tab.1.len() && tab.2 ==> (abandon matches Some(a)
                && a is TruncatedFile))
            &&& (g == tab.1.len() && !tab.2 ==> abandon is None)
        })))),
        plan_outcome(r) == file_outcome_spec(name@, data@),
{
    let ing = match classify_file(name) {
        Ok(ing) => ing,
        Err(e) => {
            return FilePlan::Skip(e);
        },
    };
    let (headers, rows, truncated) = match read_csv(data) {
        Some(t) => t,
        None => {
            return FilePlan::Skip(SkipReason::BadHeader);
        },
    };
    let plan = plan_rows(&ing, &headers, &rows);
    let abandon = match plan.abandon {
        Some(mc) => Some(AbandonReason::MissingColumn(mc)),
        None => if truncated {
            Some(AbandonReason::TruncatedFile)
        } else {
            None
        },
    };
    let r = FilePlan::Ingest { bars: plan.bars, abandon };
    proof {
        match classify_spec(name@) {
            Ok(t) => {
                match csv_table_of(data@) {
                    Some(tab) => {
                        let g = good_prefix(t.2, tab.0, tab.1);
                        assert(tab.0 == headers.deep_view());
                        assert(tab.1 == rows.deep_view());
                        assert(tab.2 == truncated);
                        assert(t.2 == ing.timeframe);
                        lemma_good_prefix_bounds(t.2, tab.0, tab.1);
                        assert(plan_outcome(r) == file_outcome_spec(name@, data@));
                    },
                    None => {
                        assert(false);
                    },
                }
            },
            Err(_) => {
                assert(false);
            },
        }
    }
    r
}

/// What became of one work item, in the run's accounting.
#[derive(Clone, Copy, Debug, PartialEq, Eq, Structural)]
pub enum FileOutcome {
    /// The file was passed over without reading its rows.
    Skipped,
    /// Some tail of the file was dropped.
    Abandoned,
    /// Every record of the file became a bar.
    Processed,
}

/// The outcome a plan amounts to.
pub open spec fn plan_outcome(p: FilePlan) -> FileOutcome {
    match p {
        FilePlan::Skip(_) => FileOutcome::Skipped,
        FilePlan::Ingest { bars: _, abandon } => if abandon is Some {
            FileOutcome::Abandoned
        } else {
            FileOutcome::Processed
        },
    }
}

/// Read a plan's outcome off.
pub fn outcome_of(p: &FilePlan) -> (r: FileOutcome)
    ensures
        r == plan_outcome(*p),
{
    match p {
        FilePlan::Skip(_) => FileOutcome::Skipped,
        FilePlan::Ingest { bars: _, abandon } => match abandon {
            Some(_) => FileOutcome::Abandoned,
            None => FileOutcome::Processed,
        },
    }
}

/// The outcome a file's name and bytes determine: a skip decided by the
/// name or the header, an abandonment decided by the records, or full
/// processing.
pub open spec fn file_outcome_spec(name: Seq<char>, data: Seq<u8>) -> FileOutcome {
    match classify_spec(name) {
        Err(_) => FileOutcome::Skipped,
        Ok(t) => match csv_table_of(data) {
            None => FileOutcome::Skipped,
            Some(tab) => if good_prefix(t.2, tab.0, tab.1) < tab.1.len() || tab.2 {
                FileOutcome::Abandoned
            } else {
                FileOutcome::Processed
            },
        },
    }
}

/// How many entries of `ocs` equal `oc`.
pub open spec fn count_of(ocs: Seq<FileOutcome>, oc: FileOutcome) -> nat
    decreases ocs.len(),
{
    if ocs.len() == 0 {
        0
    } else {
        count_of(ocs.drop_last(), oc) + if ocs.last() == oc {
            1nat
        } else {
            0nat
        }
    }
}

proof fn lemma_count_le(ocs: Seq<FileOutcome>, oc: FileOutcome)
    ensures
        count_of(ocs, oc) <= ocs.len(),
    decreases ocs.len(),
{
    if ocs.len() > 0 {
        lemma_count_le(ocs.drop_last(), oc);
    }
}

/// Every work item meets exactly one fate: over any run history, the
/// skipped, abandoned and processed counts add up to the number of items.
pub proof fn lemma_outcomes_partition(ocs: Seq<FileOutcome>)
    ensures
        count_of(ocs, FileOutcome::Skipped) + count_of(ocs, FileOutcome::Abandoned) + count_of(
            ocs,
            FileOutcome::Processed,
        ) == ocs.len(),
    decreases ocs.len(),
{
    if ocs.len() > 0 {
        lemma_outcomes_partition(ocs.drop_last());
    }
}

/// Per-worker counters of what happened to the files it consumed.
#[derive(Clone, Copy, Debug, PartialEq, Eq, Structural)]
pub struct RunTally {
    /// Files passed over.
    pub skipped: usize,
    /// Files whose tail was dropped.
    pub abandoned: usize,
    /// Files fully processed.
    pub processed: usize,
}

/// The two states of a worker: consuming work items, or done forever.
#[derive(Clone, Copy, Debug, PartialEq, Eq, Structural)]
pub enum WorkerState {
    /// The worker is consuming work items.
    Running,
    /// The channel reported end of stream; the worker is finished and will
    /// accept no further items.
    Drained,
}

/// One worker's bookkeeping: its state and its tally, tied by a ghost
/// history of the outcomes it recorded.
pub struct Worker {
    /// Whether the worker still consumes items.
    pub state: WorkerState,
    /// The counters over all recorded outcomes.
    pub tally: RunTally,
    /// The outcomes recorded so far, in order.
    pub history: Ghost<Seq<FileOutcome>>,
}

impl Worker {
    /// The tally counts exactly the recorded history.
    pub open spec fn wf(self) -> bool {
        &&& self.tally.skipped == count_of(self.history@, FileOutcome::Skipped)
        &&& self.tally.abandoned == count_of(self.history@, FileOutcome::Abandoned)
        &&& self.tally.processed == count_of(self.history@, FileOutcome::Processed)
    }

    /// A fresh worker: running, with nothing recorded.
    pub fn new() -> (r: Worker)
        ensures
            r.wf(),
            r.state is Running,
            r.history@ == Seq::<FileOutcome>::empty(),
    {
        Worker {
            state: WorkerState::Running,
            tally: RunTally { skipped: 0, abandoned: 0, processed: 0 },
            history: Ghost(Seq::empty()),
        }
    }

    /// Record the outcome of one consumed work item.
    pub fn record(&mut self, oc: FileOutcome)
        requires
            old(self).wf(),
            old(self).state is Running,
            old(self).history@.len() < usize::MAX,
        ensures
            final(self).wf(),
            final(self).state is Running,
            final(self).history@ == old(self).history@.push(oc),
    {
        proof {
            lemma_count_le(self.history@, FileOutcome::Skipped);
            lemma_count_le(self.history@, FileOutcome::Abandoned);
            lemma_count_le(self.history@, FileOutcome::Processed);
            assert(self.history@.push(oc).drop_last() =~= self.history@);
        }
        match oc {
            FileOutcome::Skipped => {
                self.tally.skipped = self.tally.skipped + 1;
            },
            FileOutcome::Abandoned => {
                self.tally.abandoned = self.tally.abandoned + 1;
            },
            FileOutcome::Processed => {
                self.tally.processed = self.tally.processed + 1;
            },
        }
        proof {
            self.history@ = self.history@.push(oc);
        }
    }

    /// Take the channel's end-of-stream signal: the worker drains, exactly
    /// once, and its tally is final.
    pub fn close(&mut self)
        requires
            old(self).state is Running,
        ensures
            final(self).state is Drained,
            final(self).tally == old(self).tally,
            final(self).history@ == old(self).history@,
            old(self).wf() ==> final(self).wf(),
    {
        self.state = WorkerState::Drained;
    }
}

/// The outcome of every file of a run, in order.
pub open spec fn outcomes_of(files: Seq<(String, Vec<u8>)>) -> Seq<FileOutcome> {
    Seq::new(files.len(), |i: int| file_outcome_spec(files[i].0@, files[i].1@))
}

/// The bars one file contributes to the table, in file order: nothing for a
/// skipped file, one bar per complete leading record otherwise.
pub open spec fn planned_bars(name: Seq<char>, data: Seq<u8>) -> Seq<BarView> {
    match classify_spec(name) {
        Err(_) => Seq::empty(),
        Ok(t) => match csv_table_of(data) {
            None => Seq::empty(),
            Some(tab) => Seq::new(
                good_prefix(t.2, tab.0, tab.1) as nat,
                |k: int| bar_of(t.2, t.0, t.1, tab.0, tab.1[k]),
            ),
        },
    }
}

/// A file whose name does not follow the pattern is rejected outright and
/// contributes no row to the table, whatever its bytes hold.
pub proof fn lemma_rejected_name_reads_nothing(name: Seq<char>, data: Seq<u8>)
    requires
        !filename_accepted(name),
    ensures
        classify_spec(name) == Err::<(Seq<char>, Option<Seq<char>>, Timeframe), SkipReason>(
            SkipReason::BadPattern,
        ),
        planned_bars(name, data) == Seq::<BarView>::empty(),
{
}

/// The table after ingesting the first `n` files of a run, each file's bars
/// inserted in order.
pub open spec fn run_table(
    rows: Seq<BarView>,
    files: Seq<(String, Vec<u8>)>,
    n: int,
) -> Seq<BarView>
    decreases n,
{
    if n <= 0 {
        rows
    } else {
        table_insert_all(
            run_table(rows, files, n - 1),
            planned_bars(files[n - 1].0@, files[n - 1].1@),
        )
    }
}

/// The sequential model of a whole run: consume every file exactly once,
/// insert its bars in order, and account for it in the tally. The counters
/// partition the files: skipped plus abandoned plus processed equals the
/// number of files handed in.
pub fn run_model(files: &Vec<(String, Vec<u8>)>, table: &mut BarTable) -> (t: RunTally)
    requires
        old(table).wf(),
    ensures
        final(table).wf(),
        final(table)@ == run_table(old(table)@, files@, files@.len() as int),
        t.skipped == count_of(outcomes_of(files@), FileOutcome::Skipped),
        t.abandoned == count_of(outcomes_of(files@), FileOutcome::Abandoned),
        t.processed == count_of(outcomes_of(files@), FileOutcome::Processed),
        t.skipped + t.abandoned + t.processed == files@.len(),
{
    let mut w = Worker::new();
    let n = files.len();
    proof {
        assert(outcomes_of(files@).take(0) =~= Seq::<FileOutcome>::empty());
    }
    let mut idx: usize = 0;
    while idx < n
        invariant
            0 <= idx <= n,
            n == files@.len(),
            old(table).wf(),
            table.wf(),
            table@ == run_table(old(table)@, files@, idx as int),
            w.wf(),
            w.state is Running,
            w.history@ == outcomes_of(files@).take(idx as int),
        decreases n - idx,
    {
        let pair = &files[idx];
        let plan = plan_file(pair.0.as_str(), pair.1.as_slice());
        let oc = outcome_of(&plan);
        let ghost planned = planned_bars(pair.0@, pair.1@);
        let ghost start = table@;
        proof {
            assert(oc == file_outcome_spec(pair.0@, pair.1@));
            assert(outcomes_of(files@).take(idx + 1 as int) =~= outcomes_of(files@).take(
                idx as int,
            ).push(oc));
        }
        w.record(oc);
        match plan {
            FilePlan::Skip(_) => {
                proof {
                    assert(planned =~= Seq::<BarView>::empty());
                }
            },
            FilePlan::Ingest { mut bars, abandon: _ } => {
                proof {
                    assert(bars.deep_view() =~= planned);
                    assert(planned.take(0) =~= Seq::<BarView>::empty());
                }
                let ghost total = planned.len();
                let ghost mut done: int = 0;
                while bars.len() > 0
                    invariant
                        table.wf(),
                        total == planned.len(),
                        0 <= done,
                        done + bars@.len() == total,
                        bars.deep_view() =~= planned.skip(done),
                        table@ == table_insert_all(start, planned.take(done)),
                    decreases bars.len(),
                {
                    let ghost bars_pre = bars.deep_view();
                    let ghost bars_vec_pre = bars@;
                    let b = bars.remove(0);
                    proof {
                        assert(bars@ =~= bars_vec_pre.drop_first());
                        assert(bars_pre.len() == bars_vec_pre.len());
                        assert(done < total);
                        assert forall|i: int| 0 <= i < bars.deep_view().len() implies
                            bars.deep_view()[i] == planned[done + 1 + i] by {
                            assert(bars.deep_view()[i] == bars@[i]@);
                            assert(bars@[i] == bars_vec_pre[i + 1]);
                            assert(bars_pre[i + 1] == bars_vec_pre[i + 1]@);
                            assert(bars_pre[i + 1] == planned.skip(done)[i + 1]);
                            assert(planned.skip(done)[i + 1] == planned[done + 1 + i]);
                        }
                        assert(bars.deep_view() =~~= planned.skip(done + 1 as int));
                        assert(b == bars_vec_pre[0]);
                        assert(bars_pre[0] == bars_vec_pre[0]@);
                        assert(bars_pre[0] == planned.skip(done)[0]);
                        assert(b@ == planned[done]);
                        assert(planned.take(done + 1 as int) =~= planned.take(done).push(
                            b@,
                        ));
                        crate::table::lemma_insert_all_snoc(
                            start,
                            planned.take(done),
                            b@,
                        );
                    }
                    table.insert(b);
                    proof {
                        done = done + 1;
                    }
                }
                proof {
                    assert(planned.take(total as int) =~= planned);
                }
            },
        }
        proof {
            assert(table@ == run_table(old(table)@, files@, idx + 1 as int));
        }
        idx = idx + 1;
    }
    w.close();
    proof {
        assert(outcomes_of(files@).take(n as int) =~= outcomes_of(files@));
        lemma_outcomes_partition(outcomes_of(files@));
    }
    w.tally
}

} // verus!
