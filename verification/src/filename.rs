//! The filename parser and the directory scanner's candidate filter.
//!
//! A data file is named `symbol-datasource-exchange-market-timeframe-field.csv`,
//! case-insensitively. The parser folds the name to lower case, demands the
//! `csv` extension and exactly six `-`-separated segments, and hands the
//! segments back positionally; anything else is a rejection, never an error.
use vstd::prelude::*;

use crate::text::{
    chars_of, count_occ, is_split, lemma_split_of_is, lower_chars, lower_spec, split_of, split_on,
    string_of,
};

verus! {

/// The lower-cased extension a candidate file must end in, dot included.
pub open spec fn csv_suffix() -> Seq<char> {
    seq!['.', 'c', 's', 'v']
}

/// The suffix of `l` after its last `sep`; the whole of `l` when `sep` does
/// not occur.
pub open spec fn after_last(l: Seq<char>, sep: char) -> Seq<char>
    decreases l.len(),
{
    if l.len() == 0 {
        l
    } else if l.last() == sep {
        Seq::empty()
    } else {
        after_last(l.drop_last(), sep).push(l.last())
    }
}

/// The scanner's filter: a directory is always traversed; a file is a
/// candidate when its lower-cased name has an extension — a dot must occur —
/// and the part after the last dot is `csv`.
pub fn csv_filter(file_name: &str, is_folder: bool) -> (r: bool)
    ensures
        r == (is_folder || (lower_spec(file_name@).contains('.') && after_last(
            lower_spec(file_name@),
            '.',
        ) == seq!['c', 's', 'v'])),
{
    if is_folder {
        return true;
    }
    let chars = chars_of(file_name);
    let low = lower_chars(&chars);
    let n = low.len();
    proof {
        assert(low@.take(n as int) =~= low@);
        assert(after_last(low@, '.') + low@.skip(n as int) =~= after_last(low@, '.'));
    }
    // Find the character position just after the last dot.
    let mut j: usize = n;
    while j > 0 && low[j - 1] != '.'
        invariant
            0 <= j <= n,
            n == low@.len(),
            low@ == lower_spec(file_name@),
            forall|k: int| j <= k < n ==> low@[k] != '.',
            after_last(low@, '.') == after_last(low@.take(j as int), '.') + low@.skip(j as int),
        decreases j,
    {
        proof {
            assert(low@.take(j as int).drop_last() =~= low@.take(j - 1 as int));
            assert(low@.take(j as int).last() == low@[j - 1]);
            assert(after_last(low@.take(j - 1 as int), '.').push(low@[j - 1]) + low@.skip(j as int)
                =~= after_last(low@.take(j - 1 as int), '.') + low@.skip(j - 1 as int));
        }
        j = j - 1;
    }
    proof {
        if j == 0 {
            assert(low@.take(0) =~= Seq::<char>::empty());
            assert(after_last(low@.take(0), '.') + low@.skip(0) =~= low@.skip(0));
            assert(low@.skip(0) =~= low@);
        } else {
            assert(low@.take(j as int).last() == low@[j - 1]);
            assert(after_last(low@.take(j as int), '.') =~= Seq::<char>::empty());
            assert(Seq::<char>::empty() + low@.skip(j as int) =~= low@.skip(j as int));
        }
        assert(after_last(low@, '.') == low@.skip(j as int));
    }
    // Without a dot there is no extension, so the file is no candidate.
    if j == 0 {
        proof {
            assert(!low@.contains('.')) by {
                if low@.contains('.') {
                    let k = choose|k: int| 0 <= k < low@.len() && low@[k] == '.';
                    assert(low@[k] != '.');
                }
            }
        }
        return false;
    }
    proof {
        assert(low@[j - 1] == '.');
        assert(low@.contains('.'));
    }
    // The suffix low[j..] is the extension.
    if n - j != 3 {
        proof {
            assert(after_last(low@, '.').len() == n - j);
        }
        return false;
    }
    let r = low[j] == 'c' && low[j + 1] == 's' && low[j + 2] == 'v';
    proof {
        if r {
            assert(low@.skip(j as int) =~= seq!['c', 's', 'v']);
        } else {
            assert(low@.skip(j as int) != seq!['c', 's', 'v']) by {
                if low@.skip(j as int) == seq!['c', 's', 'v'] {
                    assert(low@.skip(j as int)[0] == 'c');
                    assert(low@.skip(j as int)[1] == 's');
                    assert(low@.skip(j as int)[2] == 'v');
                }
            }
        }
    }
    r
}

/// The six positional fields a data filename carries.
pub struct FileMetadata {
    /// First segment: the (possibly futures) symbol.
    pub symbol: String,
    /// Second segment: the data source.
    pub datasource: String,
    /// Third segment: the exchange.
    pub exchange: String,
    /// Fourth segment: the market type.
    pub market: String,
    /// Fifth segment: the timeframe label.
    pub timeframe: String,
    /// Sixth segment: the recorded field.
    pub field: String,
}

impl FileMetadata {
    /// The six segments in filename order.
    pub open spec fn segments(self) -> Seq<Seq<char>> {
        seq![
            self.symbol@,
            self.datasource@,
            self.exchange@,
            self.market@,
            self.timeframe@,
            self.field@,
        ]
    }
}

/// The lower-cased name with the final `.csv` removed.
pub open spec fn stem_of(l: Seq<char>) -> Seq<char> {
    l.take(l.len() - 4)
}

/// Whether a filename is accepted: lower-cased it ends in `.csv`, and the
/// stem splits on `-` into exactly six segments (five separators).
pub open spec fn filename_accepted(name: Seq<char>) -> bool {
    let l = lower_spec(name);
    &&& l.len() >= 4
    &&& l.skip(l.len() - 4) == csv_suffix()
    &&& count_occ(stem_of(l), '-') == 5
}

/// The six segments of an accepted filename's stem.
pub open spec fn segments_of(name: Seq<char>) -> Seq<Seq<char>> {
    split_of(stem_of(lower_spec(name)), '-')
}

/// Parse a filename into its six metadata segments.
///
/// `None` is a skip, not an error: the name does not follow the expected
/// pattern and the file is to be passed over with a log line.
pub fn parse_filename(name: &str) -> (r: Option<FileMetadata>)
    ensures
        r is Some <==> filename_accepted(name@),
        r matches Some(md) ==> is_split(stem_of(lower_spec(name@)), '-', md.segments())
            && md.segments() == split_of(stem_of(lower_spec(name@)), '-'),
{
    let chars = chars_of(name);
    let low = lower_chars(&chars);
    let n = low.len();
    if n < 4 {
        return None;
    }
    let ext_ok = low[n - 4] == '.' && low[n - 3] == 'c' && low[n - 2] == 's' && low[n - 1] == 'v';
    proof {
        if ext_ok {
            assert(low@.skip(n - 4 as int) =~= csv_suffix());
        } else {
            assert(low@.skip(n - 4 as int) != csv_suffix()) by {
                if low@.skip(n - 4 as int) == csv_suffix() {
                    assert(low@.skip(n - 4 as int)[0] == '.');
                    assert(low@.skip(n - 4 as int)[1] == 'c');
                    assert(low@.skip(n - 4 as int)[2] == 's');
                    assert(low@.skip(n - 4 as int)[3] == 'v');
                }
            }
        }
    }
    if !ext_ok {
        return None;
    }
    let mut stem: Vec<char> = Vec::new();
    let mut i: usize = 0;
    while i < n - 4
        invariant
            0 <= i <= n - 4,
            n == low@.len(),
            stem@ == low@.subrange(0, i as int),
        decreases n - 4 - i,
    {
        stem.push(low[i]);
        i = i + 1;
        proof {
            assert(stem@ =~= low@.subrange(0, i as int));
        }
    }
    proof {
        assert(stem@ =~= stem_of(low@));
    }
    let segs = split_on(&stem, '-');
    proof {
        assert(segs.deep_view().len() == segs@.len());
    }
    if segs.len() != 6 {
        return None;
    }
    let md = FileMetadata {
        symbol: string_of(&segs[0]),
        datasource: string_of(&segs[1]),
        exchange: string_of(&segs[2]),
        market: string_of(&segs[3]),
        timeframe: string_of(&segs[4]),
        field: string_of(&segs[5]),
    };
    proof {
        assert(md.segments() =~~= segs.deep_view());
        lemma_split_of_is(stem_of(lower_spec(name@)), '-', md.segments());
    }
    Some(md)
}

} // verus!
