//! Futures-symbol decomposition: recognising the `root + month letter +
//! year digits` shape, the CME month-letter table, the pivot-40 year
//! completion rule, and contract-date formatting.
use vstd::prelude::*;
use vstd::string::StrSliceExecFns;
use vstd::string::StringExecFns;

use crate::text::{
    chars_of, dec_str, dec_value, is_digit, is_digit_at, lemma_dec_value_bound, lower_char,
    lower_char_spec, parse_digits, pow10, push_dec, string_of,
};

verus! {

/// The CME month-code table on lower-case letters; `0` stands for a
/// character that is no month code.
pub open spec fn month_number_of(c: char) -> int {
    if c == 'f' {
        1
    } else if c == 'g' {
        2
    } else if c == 'h' {
        3
    } else if c == 'j' {
        4
    } else if c == 'k' {
        5
    } else if c == 'm' {
        6
    } else if c == 'n' {
        7
    } else if c == 'q' {
        8
    } else if c == 'u' {
        9
    } else if c == 'v' {
        10
    } else if c == 'x' {
        11
    } else if c == 'z' {
        12
    } else {
        0
    }
}

/// Map a lower-case CME month-code letter (as a one-character string) to its
/// month number. Any other input is an explicit error, so that a drift
/// between the symbol pattern and this table cannot pass silently.
pub fn cme_month_letter_to_number(letter: &str) -> (r: Result<usize, String>)
    ensures
        letter@.len() == 1 && month_number_of(letter@[0]) != 0 ==> (r matches Ok(n) && n
            == month_number_of(letter@[0])),
        !(letter@.len() == 1 && month_number_of(letter@[0]) != 0) ==> (r matches Err(m) && m@
            == "Invalid contract month: '"@ + letter@ + "'"@),
{
    if letter.unicode_len() == 1 {
        let c = letter.get_char(0);
        let n: usize = if c == 'f' {
            1
        } else if c == 'g' {
            2
        } else if c == 'h' {
            3
        } else if c == 'j' {
            4
        } else if c == 'k' {
            5
        } else if c == 'm' {
            6
        } else if c == 'n' {
            7
        } else if c == 'q' {
            8
        } else if c == 'u' {
            9
        } else if c == 'v' {
            10
        } else if c == 'x' {
            11
        } else if c == 'z' {
            12
        } else {
            0
        };
        if n != 0 {
            return Ok(n);
        }
    }
    let msg = String::from_str("Invalid contract month: '").concat(letter).concat("'");
    Err(msg)
}

/// The pivot-40 completion rule for short contract years: years of forty and
/// above belong to the twentieth century, years below forty to the
/// twenty-first.
pub fn complete_short_year(year: &usize) -> (r: usize)
    requires
        *year + 2000 <= usize::MAX,
    ensures
        r == completed_year(*year as nat),
{
    if *year >= 40 {
        *year + 1900
    } else {
        *year + 2000
    }
}

/// The pivot-40 completion rule, as a function on numbers.
pub open spec fn completed_year(y: nat) -> nat {
    if y >= 40 {
        y + 1900
    } else {
        y + 2000
    }
}

/// A letter, of either case.
pub open spec fn is_letter(c: char) -> bool {
    ('a' <= c && c <= 'z') || ('A' <= c && c <= 'Z')
}

/// A well-formed symbol root: one optional leading `@`, then letters, with
/// at least one letter. `@` anywhere else disqualifies the root.
pub open spec fn root_form(root: Seq<char>) -> bool {
    &&& root.len() >= 1
    &&& (root[0] == '@' || is_letter(root[0]))
    &&& (root[0] == '@' ==> root.len() >= 2)
    &&& forall|i: int| 1 <= i < root.len() ==> is_letter(root[i])
}

/// Length of the run of digit characters at the end of `s`.
pub open spec fn trailing_digits(s: Seq<char>) -> nat
    decreases s.len(),
{
    if s.len() == 0 || !is_digit(s.last()) {
        0
    } else {
        1 + trailing_digits(s.drop_last())
    }
}

/// Whether `s` has the futures-symbol shape: a well-formed root (one
/// optional leading `@`, then letters), one month-code letter (either
/// case), then one or more year digits.
pub open spec fn futures_form(s: Seq<char>) -> bool {
    let d = trailing_digits(s);
    &&& d >= 1
    &&& s.len() >= d + 2
    &&& month_number_of(lower_char_spec(s[s.len() - d - 1])) != 0
    &&& root_form(s.take(s.len() - d - 1))
}

/// The root part of a symbol in futures form.
pub open spec fn root_part(s: Seq<char>) -> Seq<char> {
    s.take(s.len() - trailing_digits(s) - 1)
}

/// The month-code letter of a symbol in futures form.
pub open spec fn month_char(s: Seq<char>) -> char {
    s[s.len() - trailing_digits(s) - 1]
}

/// The year digits of a symbol in futures form.
pub open spec fn year_digits(s: Seq<char>) -> Seq<char> {
    s.skip(s.len() - trailing_digits(s))
}

/// The contract a futures symbol names: a delivery month and a completed
/// four-digit year.
#[derive(Clone, Copy, Debug, PartialEq, Eq, Structural)]
pub struct ContractInfo {
    /// Month number, `1` to `12`.
    pub month: usize,
    /// Year after pivot-40 completion.
    pub year: usize,
}

/// A decomposed symbol: the root that names the series, and the contract if
/// the symbol had the futures shape.
#[derive(Clone, Debug)]
pub struct Decomposition {
    /// The symbol root; the whole symbol when it is not a futures symbol.
    pub root: String,
    /// The contract, absent for a non-futures symbol.
    pub contract: Option<ContractInfo>,
}

/// Rejection of a symbol whose year digits cannot be read on this machine.
#[derive(Clone, Copy, Debug, PartialEq, Eq, Structural)]
pub enum SymbolError {
    /// The year run is too long to read as a machine integer.
    YearOutOfRange,
}

/// How many year digits the decomposer accepts.
pub open spec fn max_year_digits() -> nat {
    9
}

/// Decompose a symbol into root, contract month and contract year.
///
/// A symbol without the futures shape is passed through whole: the root is
/// the original symbol and no contract is produced. Both the root letters and
/// the month letter are recognised in either case.
pub fn decompose_symbol(symbol: &str) -> (r: Result<Decomposition, SymbolError>)
    ensures
        !futures_form(symbol@) ==> (r matches Ok(d) && d.root@ == symbol@ && d.contract is None),
        futures_form(symbol@) && trailing_digits(symbol@) <= max_year_digits() ==> (r matches Ok(
            d,
        ) && d.root@ == root_part(symbol@) && (d.contract matches Some(ci) && ci.month
            == month_number_of(lower_char_spec(month_char(symbol@))) && ci.year == completed_year(
            dec_value(year_digits(symbol@)),
        ))),
        futures_form(symbol@) && trailing_digits(symbol@) > max_year_digits() ==> (r matches Err(
            e,
        ) && e is YearOutOfRange),
{
    let v = chars_of(symbol);
    let n = v.len();
    proof {
        assert(v@.take(n as int) =~= v@);
    }
    // Find the run of digits at the end.
    let mut j: usize = n;
    while j > 0 && is_digit_at(&v, j - 1)
        invariant
            0 <= j <= n,
            n == v@.len(),
            v@ == symbol@,
            forall|k: int| j <= k < n ==> is_digit(v@[k]),
            trailing_digits(v@) == trailing_digits(v@.take(j as int)) + (n - j),
        decreases j,
    {
        proof {
            assert(v@.take(j as int).drop_last() =~= v@.take(j - 1 as int));
            assert(v@.take(j as int).last() == v@[j - 1]);
        }
        j = j - 1;
    }
    proof {
        if j == 0 {
            assert(v@.take(0) =~= Seq::<char>::empty());
            assert(trailing_digits(v@.take(0)) == 0);
        } else {
            assert(v@.take(j as int).last() == v@[j - 1]);
            assert(!is_digit(v@[j - 1]));
            assert(trailing_digits(v@.take(j as int)) == 0);
        }
        assert(trailing_digits(v@) == n - j);
    }
    let d = n - j;
    if d < 1 || j < 2 {
        proof {
            assert(!futures_form(symbol@));
        }
        return Ok(Decomposition { root: string_of(&v), contract: None });
    }
    let m = lower_char(v[j - 1]);
    let month: usize = if m == 'f' {
        1
    } else if m == 'g' {
        2
    } else if m == 'h' {
        3
    } else if m == 'j' {
        4
    } else if m == 'k' {
        5
    } else if m == 'm' {
        6
    } else if m == 'n' {
        7
    } else if m == 'q' {
        8
    } else if m == 'u' {
        9
    } else if m == 'v' {
        10
    } else if m == 'x' {
        11
    } else if m == 'z' {
        12
    } else {
        0
    };
    proof {
        assert(month == month_number_of(lower_char_spec(month_char(symbol@))));
    }
    if month == 0 {
        proof {
            assert(!futures_form(symbol@));
        }
        return Ok(Decomposition { root: string_of(&v), contract: None });
    }
    let c0 = v[0];
    let first_ok = c0 == '@' || ('a' <= c0 && c0 <= 'z') || ('A' <= c0 && c0 <= 'Z');
    let mut letters_ok = true;
    let mut i: usize = 1;
    while i < j - 1
        invariant
            1 <= i <= j - 1 < n,
            n == v@.len(),
            v@ == symbol@,
            letters_ok == forall|k: int| 1 <= k < i ==> is_letter(v@[k]),
        decreases j - 1 - i,
    {
        let c = v[i];
        if !(('a' <= c && c <= 'z') || ('A' <= c && c <= 'Z')) {
            proof {
                assert(!is_letter(v@[i as int]));
            }
            letters_ok = false;
        }
        i = i + 1;
    }
    let root_ok = first_ok && letters_ok && (c0 != '@' || j >= 3);
    proof {
        let root = symbol@.take(j - 1 as int);
        assert(root.len() == j - 1);
        assert(forall|k: int| 0 <= k < j - 1 ==> root[k] == v@[k]);
        assert(root_ok == root_form(root));
    }
    if !root_ok {
        proof {
            assert(!futures_form(symbol@));
        }
        return Ok(Decomposition { root: string_of(&v), contract: None });
    }
    proof {
        assert(futures_form(symbol@));
    }
    if d > 9 {
        return Err(SymbolError::YearOutOfRange);
    }
    let raw_year = parse_digits(&v, j, n);
    proof {
        assert(v@.subrange(j as int, n as int) =~= year_digits(symbol@));
        lemma_dec_value_bound(year_digits(symbol@));
        reveal_with_fuel(pow10, 10);
        assert(raw_year < 1000000000);
        assert(usize::MAX >= u32::MAX);
    }
    let year = complete_short_year(&raw_year);
    let mut root_chars: Vec<char> = Vec::new();
    let mut i: usize = 0;
    while i < j - 1
        invariant
            0 <= i <= j - 1 < n,
            n == v@.len(),
            v@ == symbol@,
            root_chars@ == v@.subrange(0, i as int),
        decreases j - 1 - i,
    {
        root_chars.push(v[i]);
        i = i + 1;
        proof {
            assert(root_chars@ =~= v@.subrange(0, i as int));
        }
    }
    proof {
        assert(root_chars@ =~= root_part(symbol@));
    }
    let root = string_of(&root_chars);
    Ok(Decomposition { root, contract: Some(ContractInfo { month, year }) })
}

/// The text of a contract date: the year, a two-digit month, and day one.
pub open spec fn contract_date_str(month: nat, year: nat) -> Seq<char> {
    dec_str(year) + seq!['-'] + (if month < 10 {
        seq!['0']
    } else {
        Seq::<char>::empty()
    }) + dec_str(month) + seq!['-', '0', '1']
}

/// Format a contract as the first day of its month: `YYYY-MM-01`.
pub fn format_contract_date(ci: &ContractInfo) -> (r: String)
    ensures
        r@ == contract_date_str(ci.month as nat, ci.year as nat),
{
    let mut out: Vec<char> = Vec::new();
    push_dec(ci.year, &mut out);
    out.push('-');
    if ci.month < 10 {
        out.push('0');
    }
    push_dec(ci.month, &mut out);
    out.push('-');
    out.push('0');
    out.push('1');
    proof {
        assert(out@ =~= contract_date_str(ci.month as nat, ci.year as nat));
    }
    string_of(&out)
}

} // verus!
